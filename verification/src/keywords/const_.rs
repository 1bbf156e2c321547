//! The `const` keyword: the one value that is admitted.
use vstd::prelude::*;
use crate::equality::{json_equal, values_equal};
use crate::error::{ErrorView, KindView, ValidationError, ValidationErrorKind, error_views};
use crate::json::{Json, Value};
use crate::keywords::boolean::{keyword_error, single_error};
use crate::paths::{Location, RefTracker, Seg, tracker_view};

verus! {

/// A value must equal the given one.
#[derive(Debug)]
pub struct ConstValidator {
    pub value: Value,
    pub location: Location,
}

impl ConstValidator {
    pub open spec fn valid(&self, instance: Json) -> bool {
        json_equal(instance, self.value@)
    }

    pub open spec fn errors(
        &self,
        instance: Json,
        path: Seq<Seg>,
        tracker: Option<(Seq<Seg>, Seq<Seg>)>,
    ) -> Seq<ErrorView> {
        if self.valid(instance) {
            Seq::empty()
        } else {
            seq![
                keyword_error(
                    KindView::Constant { expected_value: self.value@ },
                    self.location@,
                    tracker,
                    instance,
                    path,
                ),
            ]
        }
    }

    pub fn is_valid(&self, instance: &Value) -> (r: bool)
        ensures
            r == self.valid(instance@),
    {
        values_equal(instance, &self.value)
    }

    pub fn iter_errors(
        &self,
        instance: &Value,
        location: &Location,
        tracker: Option<&RefTracker>,
    ) -> (r: Vec<ValidationError>)
        ensures
            error_views(r@) == self.errors(instance@, location@, tracker_view(tracker)),
    {
        if self.is_valid(instance) {
            return Vec::new();
        }
        single_error(
            ValidationErrorKind::Constant { expected_value: self.value.clone() },
            &self.location,
            tracker,
            instance,
            location,
        )
    }
}

} // verus!
