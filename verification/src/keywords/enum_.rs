//! The `enum` keyword: the values that are admitted.
use vstd::prelude::*;
use crate::collections::{NameSet, names_contains, names_held, names_insert, names_new};
use crate::equality::{json_equal, values_equal};
use crate::error::{ErrorView, KindView, ValidationError, ValidationErrorKind, error_views};
use crate::json::{Json, Value, lemma_views, views};
use crate::keywords::boolean::{keyword_error, single_error};
use crate::paths::{Location, RefTracker, Seg, tracker_view};

verus! {

/// From how many values on the strings among them are kept in a hashed
/// set.
pub const ENUM_THRESHOLD: usize = 40;

/// Whether the value is one of the listed values.
pub open spec fn listed(options: Seq<Json>, instance: Json) -> bool {
    exists|i: int| 0 <= i < options.len() && json_equal(instance, #[trigger] options[i])
}

/// Whether the string is one of the first `n` listed values.
pub open spec fn string_among(options: Seq<Json>, n: int, s: Seq<char>) -> bool {
    exists|i: int| 0 <= i < n && i < options.len() && #[trigger] options[i] == Json::String(s)
}

/// A value must be one of the listed values. A long list keeps the strings
/// among them in a hashed set as well, by which a string is looked up.
#[derive(Debug)]
pub struct EnumValidator {
    /// The list, as the schema has it.
    pub options: Value,
    /// The strings of a long list.
    pub strings: Option<NameSet>,
    pub location: Location,
}

impl EnumValidator {
    /// The listed values.
    pub open spec fn listing(&self) -> Seq<Json> {
        self.options@->Array_0
    }

    /// The list is an array, and the set, where there is one, holds the
    /// strings of the list and nothing else.
    pub open spec fn wf(&self) -> bool {
        &&& self.options@ is Array
        &&& self.strings matches Some(set) ==> forall|s: Seq<char>|
            names_held(set).contains(s) <==> string_among(
                self.listing(),
                self.listing().len() as int,
                s,
            )
    }

    pub open spec fn valid(&self, instance: Json) -> bool {
        listed(self.listing(), instance)
    }

    pub open spec fn errors(
        &self,
        instance: Json,
        path: Seq<Seg>,
        tracker: Option<(Seq<Seg>, Seq<Seg>)>,
    ) -> Seq<ErrorView> {
        if self.valid(instance) {
            Seq::empty()
        } else {
            seq![
                keyword_error(
                    KindView::Enum { options: self.options@ },
                    self.location@,
                    tracker,
                    instance,
                    path,
                ),
            ]
        }
    }

    /// Whether one of the values of the list, looked at one after the
    /// other, is the instance.
    fn is_listed(&self, instance: &Value) -> (r: bool)
        requires
            self.options@ is Array,
        ensures
            r == self.valid(instance@),
    {
        match &self.options {
            Value::Array(items) => {
                proof {
                    lemma_views(items@);
                }
                let mut i: usize = 0;
                while i < items.len()
                    invariant
                        i <= items.len(),
                        self.listing() == views(items@),
                        views(items@).len() == items@.len(),
                        forall|j: int|
                            0 <= j < items@.len() ==> (#[trigger] views(items@)[j]) == items@[j]@,
                        forall|j: int|
                            0 <= j < i ==> !json_equal(instance@, #[trigger] self.listing()[j]),
                    decreases items.len() - i,
                {
                    if values_equal(instance, &items[i]) {
                        proof {
                            assert(json_equal(instance@, self.listing()[i as int]));
                        }
                        return true;
                    }
                    i += 1;
                }
                false
            },
            _ => false,
        }
    }

    /// Whether the instance is one of the listed values. With a long list a
    /// string is looked up in the set; any other value is compared with the
    /// values of the list one after the other.
    pub fn is_valid(&self, instance: &Value) -> (r: bool)
        requires
            self.wf(),
        ensures
            r == self.valid(instance@),
    {
        if let Some(set) = &self.strings {
            if let Value::String(text) = instance {
                let found = names_contains(set, text.as_str());
                proof {
                    let options = self.listing();
                    if found {
                        let i = choose|i: int|
                            0 <= i < options.len() && #[trigger] options[i] == Json::String(text@);
                        assert(json_equal(instance@, options[i]));
                    } else {
                        assert forall|i: int| 0 <= i < options.len() implies !json_equal(
                            instance@,
                            #[trigger] options[i],
                        ) by {
                            if json_equal(instance@, options[i]) {
                                assert(options[i] == Json::String(text@));
                                assert(string_among(options, options.len() as int, text@));
                            }
                        }
                    }
                }
                return found;
            }
        }
        self.is_listed(instance)
    }

    pub fn iter_errors(
        &self,
        instance: &Value,
        location: &Location,
        tracker: Option<&RefTracker>,
    ) -> (r: Vec<ValidationError>)
        requires
            self.wf(),
        ensures
            error_views(r@) == self.errors(instance@, location@, tracker_view(tracker)),
    {
        if self.is_valid(instance) {
            return Vec::new();
        }
        single_error(
            ValidationErrorKind::Enum { options: self.options.clone() },
            &self.location,
            tracker,
            instance,
            location,
        )
    }

    /// The validator of a list of values: with the strings in a set where
    /// the list has `ENUM_THRESHOLD` values or more.
    pub fn new(items: &Vec<Value>, options: Value, location: Location) -> (r: EnumValidator)
        requires
            options@ == Json::Array(views(items@)),
        ensures
            r.wf(),
            r.options@ == options@,
            r.location@ == location@,
            r.strings is Some <==> items@.len() >= ENUM_THRESHOLD,
    {
        proof {
            lemma_views(items@);
        }
        if items.len() < ENUM_THRESHOLD {
            return EnumValidator { options, strings: None, location };
        }
        let ghost all = views(items@);
        let mut set = names_new();
        let mut i: usize = 0;
        while i < items.len()
            invariant
                i <= items.len(),
                all == views(items@),
                all.len() == items@.len(),
                forall|j: int| 0 <= j < items@.len() ==> (#[trigger] all[j]) == items@[j]@,
                forall|s: Seq<char>| names_held(set).contains(s) <==> string_among(all, i as int, s),
            decreases items.len() - i,
        {
            let ghost before = names_held(set);
            if let Value::String(text) = &items[i] {
                names_insert(&mut set, text.clone());
                proof {
                    assert forall|s: Seq<char>| names_held(set).contains(s) <==> string_among(
                        all,
                        i + 1,
                        s,
                    ) by {
                        if string_among(all, i + 1, s) {
                            let k = choose|k: int|
                                0 <= k < i + 1 && k < all.len() && #[trigger] all[k] == Json::String(s);
                            if k < i {
                                assert(string_among(all, i as int, s));
                            }
                        }
                        if before.contains(s) {
                            let k = choose|k: int|
                                0 <= k < i && k < all.len() && #[trigger] all[k] == Json::String(s);
                            assert(all[k] == Json::String(s));
                        }
                        if s == text@ {
                            assert(all[i as int] == Json::String(s));
                        }
                    }
                }
            } else {
                proof {
                    assert forall|s: Seq<char>| names_held(set).contains(s) <==> string_among(
                        all,
                        i + 1,
                        s,
                    ) by {
                        if string_among(all, i + 1, s) {
                            let k = choose|k: int|
                                0 <= k < i + 1 && k < all.len() && #[trigger] all[k] == Json::String(s);
                            if k < i {
                                assert(string_among(all, i as int, s));
                            }
                        }
                        if before.contains(s) {
                            let k = choose|k: int|
                                0 <= k < i && k < all.len() && #[trigger] all[k] == Json::String(s);
                            assert(all[k] == Json::String(s));
                        }
                    }
                }
            }
            i += 1;
        }
        EnumValidator { options, strings: Some(set), location }
    }
}

} // verus!
