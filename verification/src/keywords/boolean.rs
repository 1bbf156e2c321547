//! The schema `false`, which nothing satisfies.
use vstd::prelude::*;
use crate::error::{ErrorView, KindView, ValidationError, ValidationErrorKind, error_views, lemma_error_views_push};
use crate::json::{Json, Value};
use crate::paths::{Location, RefTracker, Seg, capture_evaluation_path, captured, tracker_view};

verus! {

/// The one error of a keyword at `schema_path` on `instance`.
pub open spec fn keyword_error(
    kind: KindView,
    schema_path: Seq<Seg>,
    tracker: Option<(Seq<Seg>, Seq<Seg>)>,
    instance: Json,
    path: Seq<Seg>,
) -> ErrorView {
    ErrorView {
        kind,
        instance,
        instance_path: path,
        schema_path,
        evaluation_path: captured(tracker, schema_path),
    }
}

/// A list that holds one error of the given kind.
pub fn single_error(
    kind: ValidationErrorKind,
    schema_path: &Location,
    tracker: Option<&RefTracker>,
    instance: &Value,
    location: &Location,
) -> (r: Vec<ValidationError>)
    ensures
        error_views(r@) == seq![
            keyword_error(kind@, schema_path@, tracker_view(tracker), instance@, location@),
        ],
{
    let error = ValidationError::new(
        kind,
        schema_path.clone(),
        capture_evaluation_path(tracker, schema_path),
        location.clone(),
        instance,
    );
    let mut errors: Vec<ValidationError> = Vec::new();
    proof {
        lemma_error_views_push(errors@, error);
    }
    errors.push(error);
    proof {
        assert(error_views(errors@) =~= seq![error@]);
    }
    errors
}

/// The validator of the schema `false`.
#[derive(Debug)]
pub struct FalseValidator {
    pub location: Location,
}

impl FalseValidator {
    /// The error of the schema `false`: it comes for every instance.
    pub open spec fn errors(
        &self,
        instance: Json,
        path: Seq<Seg>,
        tracker: Option<(Seq<Seg>, Seq<Seg>)>,
    ) -> Seq<ErrorView> {
        seq![keyword_error(KindView::FalseSchema, self.location@, tracker, instance, path)]
    }

    pub fn iter_errors(
        &self,
        instance: &Value,
        location: &Location,
        tracker: Option<&RefTracker>,
    ) -> (r: Vec<ValidationError>)
        ensures
            error_views(r@) == self.errors(instance@, location@, tracker_view(tracker)),
    {
        single_error(ValidationErrorKind::FalseSchema, &self.location, tracker, instance, location)
    }
}

} // verus!
