//! The keywords that bound a count: `maxLength`, `minItems`, `maxItems`,
//! `minProperties` and `maxProperties`.
use vstd::prelude::*;
use crate::error::{ErrorView, KindView, ValidationError, ValidationErrorKind, error_views};
use crate::json::{Json, Value};
use crate::keywords::boolean::{keyword_error, single_error};
use crate::paths::{Location, RefTracker, Seg, tracker_view};

verus! {

/// What is counted, and in which direction the count is bounded.
#[derive(Debug, Clone, Copy, PartialEq, Eq, Structural)]
pub enum Limit {
    MaxLength,
    MinItems,
    MaxItems,
    MinProperties,
    MaxProperties,
}

impl Limit {
    /// The name of the keyword.
    pub open spec fn name(self) -> Seq<char> {
        match self {
            Limit::MaxLength => "maxLength"@,
            Limit::MinItems => "minItems"@,
            Limit::MaxItems => "maxItems"@,
            Limit::MinProperties => "minProperties"@,
            Limit::MaxProperties => "maxProperties"@,
        }
    }

    pub fn as_str(self) -> (r: &'static str)
        ensures
            r@ == self.name(),
    {
        match self {
            Limit::MaxLength => "maxLength",
            Limit::MinItems => "minItems",
            Limit::MaxItems => "maxItems",
            Limit::MinProperties => "minProperties",
            Limit::MaxProperties => "maxProperties",
        }
    }

    /// What the keyword counts of a value: the characters of a string, the
    /// items of an array or the members of an object. Of a value of another
    /// type it counts nothing, and asks nothing.
    pub open spec fn count(self, instance: Json) -> Option<nat> {
        match (self, instance) {
            (Limit::MaxLength, Json::String(text)) => Some(text.len()),
            (Limit::MinItems, Json::Array(items)) => Some(items.len()),
            (Limit::MaxItems, Json::Array(items)) => Some(items.len()),
            (Limit::MinProperties, Json::Object(members)) => Some(members.len()),
            (Limit::MaxProperties, Json::Object(members)) => Some(members.len()),
            _ => None,
        }
    }

    /// Whether the count keeps the limit: at least the limit for a lower
    /// bound, at most the limit for an upper bound.
    pub open spec fn keeps(self, count: nat, limit: nat) -> bool {
        match self {
            Limit::MinItems | Limit::MinProperties => count >= limit,
            _ => count <= limit,
        }
    }

    /// The kind of the error of a count that does not keep the limit.
    pub open spec fn kind(self, limit: nat) -> KindView {
        match self {
            Limit::MaxLength => KindView::MaxLength { limit },
            Limit::MinItems => KindView::MinItems { limit },
            Limit::MaxItems => KindView::MaxItems { limit },
            Limit::MinProperties => KindView::MinProperties { limit },
            Limit::MaxProperties => KindView::MaxProperties { limit },
        }
    }
}

/// A count of the value must keep a limit.
#[derive(Debug)]
pub struct LimitValidator {
    pub rule: Limit,
    pub limit: u64,
    pub location: Location,
}

impl LimitValidator {
    /// A value passes where the keyword counts nothing of it, or the count
    /// keeps the limit.
    pub open spec fn valid(&self, instance: Json) -> bool {
        self.rule.count(instance) matches Some(count) ==> self.rule.keeps(count, self.limit as nat)
    }

    pub open spec fn errors(
        &self,
        instance: Json,
        path: Seq<Seg>,
        tracker: Option<(Seq<Seg>, Seq<Seg>)>,
    ) -> Seq<ErrorView> {
        if self.valid(instance) {
            Seq::empty()
        } else {
            seq![
                keyword_error(
                    self.rule.kind(self.limit as nat),
                    self.location@,
                    tracker,
                    instance,
                    path,
                ),
            ]
        }
    }

    pub fn is_valid(&self, instance: &Value) -> (r: bool)
        ensures
            r == self.valid(instance@),
    {
        match (self.rule, instance) {
            (Limit::MaxLength, Value::String(text)) => {
                let length = text.as_str().unicode_len();
                length as u64 <= self.limit
            },
            (Limit::MinItems, Value::Array(items)) => {
                proof {
                    crate::json::lemma_views(items@);
                }
                items.len() as u64 >= self.limit
            },
            (Limit::MaxItems, Value::Array(items)) => {
                proof {
                    crate::json::lemma_views(items@);
                }
                items.len() as u64 <= self.limit
            },
            (Limit::MinProperties, Value::Object(map)) => map.len() as u64 >= self.limit,
            (Limit::MaxProperties, Value::Object(map)) => map.len() as u64 <= self.limit,
            _ => true,
        }
    }

    pub fn iter_errors(
        &self,
        instance: &Value,
        location: &Location,
        tracker: Option<&RefTracker>,
    ) -> (r: Vec<ValidationError>)
        ensures
            error_views(r@) == self.errors(instance@, location@, tracker_view(tracker)),
    {
        if self.is_valid(instance) {
            return Vec::new();
        }
        let kind = match self.rule {
            Limit::MaxLength => ValidationErrorKind::MaxLength { limit: self.limit },
            Limit::MinItems => ValidationErrorKind::MinItems { limit: self.limit },
            Limit::MaxItems => ValidationErrorKind::MaxItems { limit: self.limit },
            Limit::MinProperties => ValidationErrorKind::MinProperties { limit: self.limit },
            Limit::MaxProperties => ValidationErrorKind::MaxProperties { limit: self.limit },
        };
        single_error(kind, &self.location, tracker, instance, location)
    }
}

} // verus!
