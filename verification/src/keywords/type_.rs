//! The `type` keyword: the primitive types that a value may have.
use vstd::prelude::*;
use crate::error::{
    ErrorView, KindView, TypeKind, TypeKindView, ValidationError, ValidationErrorKind, error_views,
};
use crate::json::{Json, Value};
use crate::keywords::boolean::{keyword_error, single_error};
use crate::paths::{Location, RefTracker, Seg, tracker_view};
use crate::types::JsonType;

verus! {

/// Whether the value is of one of the types.
pub open spec fn admits_any(types: Seq<JsonType>, strict: bool, instance: Json) -> bool {
    exists|i: int| 0 <= i < types.len() && (#[trigger] types[i]).admits(strict, instance)
}

/// What the error names as the types asked for: the one type, or the list.
pub open spec fn asked(types: Seq<JsonType>) -> TypeKindView {
    if types.len() == 1 {
        TypeKindView::Single(types[0])
    } else {
        TypeKindView::Multiple(types)
    }
}

/// A value must be of one of the listed types.
#[derive(Debug)]
pub struct TypeValidator {
    pub types: Vec<JsonType>,
    /// Whether `integer` is read as the oldest draft reads it.
    pub strict: bool,
    pub location: Location,
}

impl TypeValidator {
    pub open spec fn valid(&self, instance: Json) -> bool {
        admits_any(self.types@, self.strict, instance)
    }

    /// One error, which names the types asked for, where the value is of none
    /// of them.
    pub open spec fn errors(
        &self,
        instance: Json,
        path: Seq<Seg>,
        tracker: Option<(Seq<Seg>, Seq<Seg>)>,
    ) -> Seq<ErrorView> {
        if self.valid(instance) {
            Seq::empty()
        } else {
            seq![
                keyword_error(
                    KindView::Type { kind: asked(self.types@) },
                    self.location@,
                    tracker,
                    instance,
                    path,
                ),
            ]
        }
    }

    pub fn is_valid(&self, instance: &Value) -> (r: bool)
        ensures
            r == self.valid(instance@),
    {
        let mut i: usize = 0;
        while i < self.types.len()
            invariant
                i <= self.types.len(),
                forall|j: int| 0 <= j < i ==> !(#[trigger] self.types@[j]).admits(self.strict, instance@),
            decreases self.types.len() - i,
        {
            if self.types[i].is_type_of(self.strict, instance) {
                return true;
            }
            i += 1;
        }
        false
    }

    pub fn iter_errors(
        &self,
        instance: &Value,
        location: &Location,
        tracker: Option<&RefTracker>,
    ) -> (r: Vec<ValidationError>)
        ensures
            error_views(r@) == self.errors(instance@, location@, tracker_view(tracker)),
    {
        if self.is_valid(instance) {
            return Vec::new();
        }
        let kind = if self.types.len() == 1 {
            TypeKind::Single(self.types[0])
        } else {
            TypeKind::Multiple(self.types.clone())
        };
        single_error(ValidationErrorKind::Type { kind }, &self.location, tracker, instance, location)
    }
}

} // verus!
