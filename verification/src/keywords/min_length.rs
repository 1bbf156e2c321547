//! The `minLength` keyword: how many characters a string must have.
use vstd::prelude::*;
use crate::error::{ErrorView, KindView, ValidationError, ValidationErrorKind, error_views};
use crate::json::{Json, Value};
use crate::keywords::boolean::{keyword_error, single_error};
use crate::paths::{Location, RefTracker, Seg, tracker_view};

verus! {

/// A string must have at least `limit` characters.
#[derive(Debug)]
pub struct MinLengthValidator {
    pub limit: u64,
    pub location: Location,
}

impl MinLengthValidator {
    /// A string passes with at least `limit` characters; any other value
    /// passes.
    pub open spec fn valid(&self, instance: Json) -> bool {
        instance is String ==> instance->String_0.len() >= self.limit
    }

    pub open spec fn errors(
        &self,
        instance: Json,
        path: Seq<Seg>,
        tracker: Option<(Seq<Seg>, Seq<Seg>)>,
    ) -> Seq<ErrorView> {
        if self.valid(instance) {
            Seq::empty()
        } else {
            seq![
                keyword_error(
                    KindView::MinLength { limit: self.limit as nat },
                    self.location@,
                    tracker,
                    instance,
                    path,
                ),
            ]
        }
    }

    pub fn is_valid(&self, instance: &Value) -> (r: bool)
        ensures
            r == self.valid(instance@),
    {
        if let Value::String(text) = instance {
            let length = text.as_str().unicode_len();
            length as u64 >= self.limit
        } else {
            true
        }
    }

    pub fn iter_errors(
        &self,
        instance: &Value,
        location: &Location,
        tracker: Option<&RefTracker>,
    ) -> (r: Vec<ValidationError>)
        ensures
            error_views(r@) == self.errors(instance@, location@, tracker_view(tracker)),
    {
        if self.is_valid(instance) {
            return Vec::new();
        }
        single_error(
            ValidationErrorKind::MinLength { limit: self.limit },
            &self.location,
            tracker,
            instance,
            location,
        )
    }
}

} // verus!
