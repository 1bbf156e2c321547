//! The `uniqueItems` keyword: no item of an array may occur twice.
use vstd::prelude::*;
use crate::equality::{json_equal, values_equal};
use crate::error::{ErrorView, KindView, ValidationError, ValidationErrorKind, error_views};
use crate::json::{Json, Value, lemma_views, views};
use crate::keywords::boolean::{keyword_error, single_error};
use crate::paths::{Location, RefTracker, Seg, tracker_view};

verus! {

/// Whether no two of the first `n` items are the same value.
pub open spec fn distinct_items(items: Seq<Json>, n: int) -> bool {
    forall|i: int, j: int|
        0 <= i < j < n && j < items.len() ==> !json_equal(#[trigger] items[i], #[trigger] items[j])
}

/// No item of an array may be the same value as another.
#[derive(Debug)]
pub struct UniqueItemsValidator {
    pub location: Location,
}

impl UniqueItemsValidator {
    /// An array passes where no two of its items are the same value; any
    /// other value passes.
    pub open spec fn valid(&self, instance: Json) -> bool {
        instance is Array ==> distinct_items(instance->Array_0, instance->Array_0.len() as int)
    }

    pub open spec fn errors(
        &self,
        instance: Json,
        path: Seq<Seg>,
        tracker: Option<(Seq<Seg>, Seq<Seg>)>,
    ) -> Seq<ErrorView> {
        if self.valid(instance) {
            Seq::empty()
        } else {
            seq![keyword_error(KindView::UniqueItems, self.location@, tracker, instance, path)]
        }
    }

    pub fn is_valid(&self, instance: &Value) -> (r: bool)
        ensures
            r == self.valid(instance@),
    {
        if let Value::Array(items) = instance {
            proof {
                lemma_views(items@);
            }
            let ghost all = views(items@);
            let mut j: usize = 0;
            while j < items.len()
                invariant
                    j <= items.len(),
                    all == views(items@),
                    all.len() == items@.len(),
                    forall|k: int| 0 <= k < items@.len() ==> (#[trigger] all[k]) == items@[k]@,
                    distinct_items(all, j as int),
                    instance@ == Json::Array(all),
                decreases items.len() - j,
            {
                let mut i: usize = 0;
                while i < j
                    invariant
                        i <= j,
                        j < items.len(),
                        all == views(items@),
                        all.len() == items@.len(),
                        forall|k: int| 0 <= k < items@.len() ==> (#[trigger] all[k]) == items@[k]@,
                        forall|k: int| 0 <= k < i ==> !json_equal(#[trigger] all[k], all[j as int]),
                        instance@ == Json::Array(all),
                    decreases j - i,
                {
                    if values_equal(&items[i], &items[j]) {
                        proof {
                            assert(json_equal(all[i as int], all[j as int]));
                        }
                        return false;
                    }
                    i += 1;
                }
                j += 1;
            }
            true
        } else {
            true
        }
    }

    pub fn iter_errors(
        &self,
        instance: &Value,
        location: &Location,
        tracker: Option<&RefTracker>,
    ) -> (r: Vec<ValidationError>)
        ensures
            error_views(r@) == self.errors(instance@, location@, tracker_view(tracker)),
    {
        if self.is_valid(instance) {
            return Vec::new();
        }
        single_error(ValidationErrorKind::UniqueItems, &self.location, tracker, instance, location)
    }
}

} // verus!
