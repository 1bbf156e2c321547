//! When two JSON values count as the same value.
use vstd::prelude::*;
use crate::json::{Json, Num, Number, Value, lemma_member_views, lemma_views, obj_get, views};
use crate::text::str_eq;

verus! {

/// Whether two numbers are the same. Integers are compared by value; a number
/// written with a fraction or an exponent equals only one of the same text.
pub open spec fn num_equal(a: Num, b: Num) -> bool {
    match (a, b) {
        (Num::PosInt(x), Num::PosInt(y)) => x == y,
        (Num::NegInt(x), Num::NegInt(y)) => x == y,
        (Num::PosInt(x), Num::NegInt(y)) => x as int == y as int,
        (Num::NegInt(x), Num::PosInt(y)) => x as int == y as int,
        (Num::Float { text: s, .. }, Num::Float { text: t, .. }) => s == t,
        _ => false,
    }
}

/// Whether the member has a counterpart in `others`: a member of the same
/// name with an equal value.
pub open spec fn member_matched(member: (Seq<char>, Json), others: Seq<(Seq<char>, Json)>) -> bool
    decreases member, 0nat,
{
    match obj_get(others, member.0) {
        Some(other) => json_equal(member.1, other),
        None => false,
    }
}

/// Whether two values are the same JSON value. Arrays are equal item by
/// item; objects are equal when they have as many members and each member of
/// the first has a counterpart in the second, in whatever order.
pub open spec fn json_equal(a: Json, b: Json) -> bool
    decreases a, 1nat,
{
    match (a, b) {
        (Json::Null, Json::Null) => true,
        (Json::Bool(x), Json::Bool(y)) => x == y,
        (Json::Number(x), Json::Number(y)) => num_equal(x, y),
        (Json::String(x), Json::String(y)) => x == y,
        (Json::Array(x), Json::Array(y)) => x.len() == y.len() && forall|i: int|
            0 <= i < x.len() ==> json_equal(#[trigger] x[i], y[i]),
        (Json::Object(x), Json::Object(y)) => x.len() == y.len() && forall|i: int|
            0 <= i < x.len() ==> member_matched(#[trigger] x[i], y),
        _ => false,
    }
}

/// Whether two numbers are the same.
pub fn numbers_equal(a: &Number, b: &Number) -> (r: bool)
    ensures
        r == num_equal(a@, b@),
{
    match (a, b) {
        (Number::PosInt(x), Number::PosInt(y)) => *x == *y,
        (Number::NegInt(x), Number::NegInt(y)) => *x == *y,
        (Number::PosInt(x), Number::NegInt(y)) => *y >= 0 && *x == *y as u64,
        (Number::NegInt(x), Number::PosInt(y)) => *x >= 0 && *x as u64 == *y,
        (Number::Float(x), Number::Float(y)) => str_eq(x.text.as_str(), y.text.as_str()),
        _ => false,
    }
}

/// Whether two values are the same JSON value.
pub fn values_equal(a: &Value, b: &Value) -> (r: bool)
    ensures
        r == json_equal(a@, b@),
    decreases a,
{
    match (a, b) {
        (Value::Null, Value::Null) => true,
        (Value::Bool(x), Value::Bool(y)) => *x == *y,
        (Value::Number(x), Value::Number(y)) => numbers_equal(x, y),
        (Value::String(x), Value::String(y)) => str_eq(x.as_str(), y.as_str()),
        (Value::Array(x), Value::Array(y)) => {
            proof {
                lemma_views(x@);
                lemma_views(y@);
            }
            if x.len() != y.len() {
                return false;
            }
            let mut i: usize = 0;
            while i < x.len()
                invariant
                    i <= x.len(),
                    x.len() == y.len(),
                    a is Array && a->Array_0 == *x,
                    a@ == Json::Array(views(x@)),
                    b@ == Json::Array(views(y@)),
                    views(x@).len() == x@.len(),
                    views(y@).len() == y@.len(),
                    forall|j: int| 0 <= j < x@.len() ==> (#[trigger] views(x@)[j]) == x@[j]@,
                    forall|j: int| 0 <= j < y@.len() ==> (#[trigger] views(y@)[j]) == y@[j]@,
                    forall|j: int| 0 <= j < i ==> json_equal(#[trigger] views(x@)[j], views(y@)[j]),
                decreases x.len() - i,
            {
                if !values_equal(&x[i], &y[i]) {
                    proof {
                        assert(!json_equal(views(x@)[i as int], views(y@)[i as int]));
                    }
                    return false;
                }
                i += 1;
            }
            true
        },
        (Value::Object(x), Value::Object(y)) => {
            proof {
                lemma_member_views(x.entries@);
            }
            if x.len() != y.len() {
                return false;
            }
            let mut i: usize = 0;
            while i < x.entries.len()
                invariant
                    i <= x.entries.len(),
                    x@.len() == y@.len(),
                    a is Object && a->Object_0 == *x,
                    a@ == Json::Object(x@),
                    b@ == Json::Object(y@),
                    x@.len() == x.entries@.len(),
                    forall|j: int|
                        0 <= j < x.entries@.len() ==> (#[trigger] x@[j]) == (
                            x.entries@[j].0@,
                            x.entries@[j].1@,
                        ),
                    forall|j: int| 0 <= j < i ==> member_matched(#[trigger] x@[j], y@),
                decreases x.entries.len() - i,
            {
                let matched = match y.get(x.entries[i].0.as_str()) {
                    Some(other) => values_equal(&x.entries[i].1, other),
                    None => false,
                };
                if !matched {
                    proof {
                        assert(!member_matched(x@[i as int], y@));
                    }
                    return false;
                }
                i += 1;
            }
            true
        },
        _ => false,
    }
}

} // verus!
