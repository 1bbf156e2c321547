//! The in-memory JSON value and its mathematical model.
use vstd::prelude::*;
use crate::text::str_eq;

verus! {

/// The model of a JSON number: what the validator reads of it.
pub enum Num {
    /// A non-negative integer.
    PosInt(u64),
    /// A negative integer.
    NegInt(i64),
    /// A number written with a fraction or an exponent.
    Float { text: Seq<char>, integral: bool },
}

/// The model of a JSON value. Objects keep their members in insertion order.
pub enum Json {
    Null,
    Bool(bool),
    Number(Num),
    String(Seq<char>),
    Array(Seq<Json>),
    Object(Seq<(Seq<char>, Json)>),
}

/// A number that is not held as an integer: its rendering, and whether its
/// fractional part is zero.
#[derive(Debug)]
pub struct Decimal {
    pub text: String,
    pub integral: bool,
}

/// A JSON number.
#[derive(Debug)]
pub enum Number {
    PosInt(u64),
    NegInt(i64),
    Float(Decimal),
}

/// A JSON value.
#[derive(Debug)]
pub enum Value {
    Null,
    Bool(bool),
    Number(Number),
    String(String),
    Array(Vec<Value>),
    Object(ObjectMap),
}

/// The members of a JSON object, in insertion order.
#[derive(Debug)]
pub struct ObjectMap {
    pub entries: Vec<(String, Value)>,
}

impl View for Number {
    type V = Num;

    open spec fn view(&self) -> Num {
        match self {
            Number::PosInt(n) => Num::PosInt(*n),
            Number::NegInt(n) => Num::NegInt(*n),
            Number::Float(d) => Num::Float { text: d.text@, integral: d.integral },
        }
    }
}

impl View for Value {
    type V = Json;

    open spec fn view(&self) -> Json
        decreases self,
    {
        match self {
            Value::Null => Json::Null,
            Value::Bool(b) => Json::Bool(*b),
            Value::Number(n) => Json::Number(n@),
            Value::String(s) => Json::String(s@),
            Value::Array(items) => Json::Array(views(items@)),
            Value::Object(map) => Json::Object(member_views(map.entries@)),
        }
    }
}

impl View for ObjectMap {
    type V = Seq<(Seq<char>, Json)>;

    open spec fn view(&self) -> Seq<(Seq<char>, Json)> {
        member_views(self.entries@)
    }
}

/// The views of a sequence of values.
pub open spec fn views(items: Seq<Value>) -> Seq<Json>
    decreases items,
{
    if items.len() == 0 {
        Seq::empty()
    } else {
        views(items.drop_last()).push(items.last().view())
    }
}

/// The views of a sequence of object members.
pub open spec fn member_views(entries: Seq<(String, Value)>) -> Seq<(Seq<char>, Json)>
    decreases entries,
{
    if entries.len() == 0 {
        Seq::empty()
    } else {
        member_views(entries.drop_last()).push((entries.last().0@, entries.last().1.view()))
    }
}

/// `views` keeps the length and maps item by item.
pub proof fn lemma_views(items: Seq<Value>)
    ensures
        views(items).len() == items.len(),
        forall|i: int| 0 <= i < items.len() ==> (#[trigger] views(items)[i]) == items[i]@,
    decreases items.len(),
{
    if items.len() > 0 {
        lemma_views(items.drop_last());
        assert(views(items) == views(items.drop_last()).push(items.last()@));
    }
}

/// `member_views` keeps the length and maps member by member.
pub proof fn lemma_member_views(entries: Seq<(String, Value)>)
    ensures
        member_views(entries).len() == entries.len(),
        forall|i: int|
            0 <= i < entries.len() ==> (#[trigger] member_views(entries)[i]) == (
                entries[i].0@,
                entries[i].1@,
            ),
    decreases entries.len(),
{
    if entries.len() > 0 {
        lemma_member_views(entries.drop_last());
        assert(member_views(entries) == member_views(entries.drop_last()).push(
            (entries.last().0@, entries.last().1@),
        ));
    }
}

/// The value stored under the first member named `key`, if there is one.
pub open spec fn obj_get(entries: Seq<(Seq<char>, Json)>, key: Seq<char>) -> Option<Json>
    decreases entries.len(),
{
    if entries.len() == 0 {
        None
    } else if entries[0].0 == key {
        Some(entries[0].1)
    } else {
        obj_get(entries.drop_first(), key)
    }
}

/// Whether some member is named `key`.
pub open spec fn obj_has(entries: Seq<(Seq<char>, Json)>, key: Seq<char>) -> bool {
    obj_get(entries, key) is Some
}

/// No two members of the object share a name.
pub open spec fn distinct_keys(entries: Seq<(Seq<char>, Json)>) -> bool {
    forall|i: int, j: int|
        0 <= i < j < entries.len() ==> (#[trigger] entries[i]).0 != (#[trigger] entries[j]).0
}

/// A well-formed JSON value: everywhere in it, the members of an object have
/// distinct names.
pub open spec fn json_wf(v: Json) -> bool
    decreases v,
{
    match v {
        Json::Array(items) => forall|i: int| 0 <= i < items.len() ==> json_wf(#[trigger] items[i]),
        Json::Object(entries) => distinct_keys(entries) && forall|i: int|
            0 <= i < entries.len() ==> json_wf((#[trigger] entries[i]).1),
        _ => true,
    }
}

/// `obj_has` says that some member carries the name.
pub proof fn lemma_obj_has(entries: Seq<(Seq<char>, Json)>, key: Seq<char>)
    ensures
        obj_has(entries, key) <==> exists|i: int| 0 <= i < entries.len() && (#[trigger] entries[i]).0 == key,
    decreases entries.len(),
{
    if entries.len() == 0 {
    } else if entries[0].0 == key {
    } else {
        let rest = entries.drop_first();
        lemma_obj_has(rest, key);
        if obj_has(rest, key) {
            let i = choose|i: int| 0 <= i < rest.len() && (#[trigger] rest[i]).0 == key;
            assert(entries[i + 1] == rest[i]);
        }
        if exists|i: int| 0 <= i < entries.len() && (#[trigger] entries[i]).0 == key {
            let i = choose|i: int| 0 <= i < entries.len() && (#[trigger] entries[i]).0 == key;
            assert(rest[i - 1] == entries[i]);
        }
    }
}

/// With distinct names, the member at index `i` is the one `obj_get` finds
/// for its name.
pub proof fn lemma_obj_get_at(entries: Seq<(Seq<char>, Json)>, i: int)
    requires
        distinct_keys(entries),
        0 <= i < entries.len(),
    ensures
        obj_get(entries, entries[i].0) == Some(entries[i].1),
    decreases entries.len(),
{
    if i == 0 {
    } else {
        let rest = entries.drop_first();
        assert(entries[0].0 != entries[i].0);
        assert forall|a: int, b: int| 0 <= a < b < rest.len() implies (#[trigger] rest[a]).0 != (
        #[trigger] rest[b]).0 by {
            assert(rest[a] == entries[a + 1]);
            assert(rest[b] == entries[b + 1]);
        }
        assert(rest[i - 1] == entries[i]);
        lemma_obj_get_at(rest, i - 1);
    }
}

/// What `obj_get` finds is the value of some member with that name.
pub proof fn lemma_obj_get_member(entries: Seq<(Seq<char>, Json)>, key: Seq<char>)
    requires
        obj_get(entries, key) is Some,
    ensures
        exists|i: int|
            0 <= i < entries.len() && (#[trigger] entries[i]).0 == key && entries[i].1 == obj_get(
                entries,
                key,
            )->0,
    decreases entries.len(),
{
    if entries[0].0 == key {
        assert(entries[0].0 == key && entries[0].1 == obj_get(entries, key)->0);
    } else {
        let rest = entries.drop_first();
        lemma_obj_get_member(rest, key);
        let i = choose|i: int|
            0 <= i < rest.len() && (#[trigger] rest[i]).0 == key && rest[i].1 == obj_get(rest, key)->0;
        assert(entries[i + 1] == rest[i]);
    }
}

impl Clone for Decimal {
    fn clone(&self) -> (r: Self)
        ensures
            r.text@ == self.text@,
            r.integral == self.integral,
    {
        Decimal { text: self.text.clone(), integral: self.integral }
    }
}

impl Clone for Number {
    fn clone(&self) -> (r: Self)
        ensures
            r@ == self@,
    {
        match self {
            Number::PosInt(n) => Number::PosInt(*n),
            Number::NegInt(n) => Number::NegInt(*n),
            Number::Float(d) => Number::Float(d.clone()),
        }
    }
}

impl Number {
    /// Whether the number counts as an integer: one held as an integer, or a
    /// decimal whose fractional part is zero.
    pub open spec fn integer(n: Num) -> bool {
        match n {
            Num::PosInt(_) => true,
            Num::NegInt(_) => true,
            Num::Float { integral, .. } => integral,
        }
    }

    /// Whether the number was written as an integer. The oldest draft counts
    /// only these as integers.
    pub open spec fn plain_integer(n: Num) -> bool {
        !(n is Float)
    }

    pub fn is_integer(&self) -> (r: bool)
        ensures
            r == Self::integer(self@),
    {
        match self {
            Number::PosInt(_) => true,
            Number::NegInt(_) => true,
            Number::Float(d) => d.integral,
        }
    }

    pub fn is_plain_integer(&self) -> (r: bool)
        ensures
            r == Self::plain_integer(self@),
    {
        match self {
            Number::Float(_) => false,
            _ => true,
        }
    }
}

impl Clone for Value {
    fn clone(&self) -> (r: Self)
        ensures
            r@ == self@,
    {
        self.duplicate()
    }
}

impl Value {
    /// A deep copy of the value.
    pub fn duplicate(&self) -> (r: Value)
        ensures
            r@ == self@,
        decreases self,
    {
        match self {
            Value::Null => Value::Null,
            Value::Bool(b) => Value::Bool(*b),
            Value::Number(n) => Value::Number(n.clone()),
            Value::String(s) => Value::String(s.clone()),
            Value::Array(items) => {
                let mut out: Vec<Value> = Vec::new();
                let mut i: usize = 0;
                while i < items.len()
                    invariant
                        i <= items.len(),
                        self is Array && self->Array_0 == *items,
                        out@.len() == i,
                        forall|j: int| 0 <= j < i ==> (#[trigger] out@[j])@ == items@[j]@,
                    decreases items.len() - i,
                {
                    out.push(items[i].duplicate());
                    i += 1;
                }
                proof {
                    lemma_views(out@);
                    lemma_views(items@);
                    assert(views(out@) =~= views(items@));
                }
                Value::Array(out)
            },
            Value::Object(map) => {
                let mut out: Vec<(String, Value)> = Vec::new();
                let mut i: usize = 0;
                while i < map.entries.len()
                    invariant
                        i <= map.entries.len(),
                        self is Object && self->Object_0 == *map,
                        out@.len() == i,
                        forall|j: int|
                            0 <= j < i ==> (#[trigger] out@[j]).0@ == map.entries@[j].0@ && out@[j].1@
                                == map.entries@[j].1@,
                    decreases map.entries.len() - i,
                {
                    out.push((map.entries[i].0.clone(), map.entries[i].1.duplicate()));
                    i += 1;
                }
                proof {
                    lemma_member_views(out@);
                    lemma_member_views(map.entries@);
                    assert(member_views(out@) =~= member_views(map.entries@));
                }
                Value::Object(ObjectMap { entries: out })
            },
        }
    }
}

impl Value {
    pub fn is_null(&self) -> (r: bool)
        ensures
            r == (self@ is Null),
    {
        matches!(self, Value::Null)
    }

    pub fn is_boolean(&self) -> (r: bool)
        ensures
            r == (self@ is Bool),
    {
        matches!(self, Value::Bool(_))
    }

    pub fn is_number(&self) -> (r: bool)
        ensures
            r == (self@ is Number),
    {
        matches!(self, Value::Number(_))
    }

    pub fn is_string(&self) -> (r: bool)
        ensures
            r == (self@ is String),
    {
        matches!(self, Value::String(_))
    }

    pub fn is_array(&self) -> (r: bool)
        ensures
            r == (self@ is Array),
    {
        matches!(self, Value::Array(_))
    }

    pub fn is_object(&self) -> (r: bool)
        ensures
            r == (self@ is Object),
    {
        matches!(self, Value::Object(_))
    }

    /// The members, if the value is an object.
    pub fn as_object(&self) -> (r: Option<&ObjectMap>)
        ensures
            r is Some <==> self@ is Object,
            r is Some ==> r->0@ == self@->Object_0 && *self == Value::Object(*r->0),
    {
        match self {
            Value::Object(map) => Some(map),
            _ => None,
        }
    }

    /// The items, if the value is an array.
    pub fn as_array(&self) -> (r: Option<&Vec<Value>>)
        ensures
            r is Some <==> self@ is Array,
            r is Some ==> views(r->0@) == self@->Array_0 && *self == Value::Array(*r->0),
    {
        match self {
            Value::Array(items) => Some(items),
            _ => None,
        }
    }

    /// The text, if the value is a string.
    pub fn as_str(&self) -> (r: Option<&str>)
        ensures
            r is Some <==> self@ is String,
            r is Some ==> r->0@ == self@->String_0,
    {
        match self {
            Value::String(s) => Some(s.as_str()),
            _ => None,
        }
    }

    /// The truth value, if the value is a boolean.
    pub fn as_bool(&self) -> (r: Option<bool>)
        ensures
            r is Some <==> self@ is Bool,
            r is Some ==> r->0 == self@->Bool_0,
    {
        match self {
            Value::Bool(b) => Some(*b),
            _ => None,
        }
    }
}

impl ObjectMap {
    /// An object without members.
    pub fn new() -> (r: ObjectMap)
        ensures
            r@.len() == 0,
    {
        ObjectMap { entries: Vec::new() }
    }

    pub fn len(&self) -> (r: usize)
        ensures
            r == self@.len(),
    {
        proof {
            lemma_member_views(self.entries@);
        }
        self.entries.len()
    }

    pub fn is_empty(&self) -> (r: bool)
        ensures
            r == (self@.len() == 0),
    {
        proof {
            lemma_member_views(self.entries@);
        }
        self.entries.len() == 0
    }

    /// The name of the member at `index`.
    pub fn key_at(&self, index: usize) -> (r: &String)
        requires
            index < self@.len(),
        ensures
            r@ == self@[index as int].0,
    {
        proof {
            lemma_member_views(self.entries@);
        }
        &self.entries[index].0
    }

    /// The value of the member at `index`.
    pub fn value_at(&self, index: usize) -> (r: &Value)
        requires
            index < self@.len(),
        ensures
            r@ == self@[index as int].1,
    {
        proof {
            lemma_member_views(self.entries@);
        }
        &self.entries[index].1
    }

    /// The index of the first member named `key`.
    pub fn position(&self, key: &str) -> (r: Option<usize>)
        ensures
            r is Some <==> obj_has(self@, key@),
            r is Some ==> r->0 < self@.len() && self@[r->0 as int].0 == key@ && obj_get(self@, key@)
                == Some(self@[r->0 as int].1),
            r is Some ==> forall|j: int| 0 <= j < r->0 ==> (#[trigger] self@[j]).0 != key@,
    {
        let n = self.len();
        let mut i: usize = 0;
        proof {
            assert(self@.skip(0) =~= self@);
        }
        while i < n
            invariant
                i <= n,
                n == self@.len(),
                obj_get(self@, key@) == obj_get(self@.skip(i as int), key@),
                forall|j: int| 0 <= j < i ==> (#[trigger] self@[j]).0 != key@,
            decreases n - i,
        {
            proof {
                assert(self@.skip(i as int)[0] == self@[i as int]);
                assert(self@.skip(i as int).drop_first() =~= self@.skip(i as int + 1));
            }
            if str_eq(self.key_at(i).as_str(), key) {
                return Some(i);
            }
            i += 1;
        }
        None
    }

    /// The value stored under `key`.
    pub fn get(&self, key: &str) -> (r: Option<&Value>)
        ensures
            r is Some <==> obj_has(self@, key@),
            r is Some ==> obj_get(self@, key@) == Some(r->0@),
    {
        match self.position(key) {
            Some(i) => Some(self.value_at(i)),
            None => None,
        }
    }

    pub fn contains_key(&self, key: &str) -> (r: bool)
        ensures
            r == obj_has(self@, key@),
    {
        self.position(key).is_some()
    }

    /// Stores `value` under `key`: in place of the first member of that name,
    /// or else as the last member.
    pub fn insert(&mut self, key: String, value: Value)
        ensures
            final(self)@ == stored(old(self)@, key@, value@),
            obj_has(old(self)@, key@) ==> final(self)@.len() == old(self)@.len(),
            !obj_has(old(self)@, key@) ==> final(self)@ == old(self)@.push((key@, value@)),
            obj_get(final(self)@, key@) == Some(value@),
            distinct_keys(old(self)@) ==> distinct_keys(final(self)@),
            forall|other: Seq<char>|
                other != key@ ==> obj_get(final(self)@, other) == obj_get(old(self)@, other),
    {
        let ghost before = self@;
        let ghost k = key@;
        let ghost v = value@;
        proof {
            lemma_member_views(self.entries@);
        }
        match self.position(key.as_str()) {
            Some(i) => {
                self.entries.push((key, value));
                let _ = self.entries.swap_remove(i);
                proof {
                    lemma_member_views(self.entries@);
                    let after = self@;
                    assert(after =~= before.update(i as int, (k, v)));
                    lemma_first_named(before, k, i as int);
                    lemma_update_member(before, i as int, v);
                    assert forall|a: int, b: int| 0 <= a < b < after.len() && distinct_keys(
                        before,
                    ) implies (#[trigger] after[a]).0 != (#[trigger] after[b]).0 by {
                        assert(after[a].0 == before[a].0);
                        assert(after[b].0 == before[b].0);
                    }
                }
            },
            None => {
                self.entries.push((key, value));
                proof {
                    lemma_member_views(self.entries@);
                    let after = self@;
                    assert(after =~= before.push((k, v)));
                    lemma_push_member(before, k, v);
                    assert forall|a: int, b: int| 0 <= a < b < after.len() && distinct_keys(
                        before,
                    ) implies (#[trigger] after[a]).0 != (#[trigger] after[b]).0 by {
                        if b == before.len() {
                            lemma_obj_has(before, k);
                            assert(before[a] == after[a]);
                        } else {
                            assert(before[a] == after[a]);
                            assert(before[b] == after[b]);
                        }
                    }
                }
            },
        }
    }
}

/// The position of the first member named `key`, or the number of members
/// where none has that name.
pub open spec fn first_named(entries: Seq<(Seq<char>, Json)>, key: Seq<char>) -> int
    decreases entries.len(),
{
    if entries.len() == 0 || entries[0].0 == key {
        0
    } else {
        1 + first_named(entries.drop_first(), key)
    }
}

/// The members after `value` is stored under `key`: in place of the first
/// member of that name, or else as the last member.
pub open spec fn stored(entries: Seq<(Seq<char>, Json)>, key: Seq<char>, value: Json) -> Seq<
    (Seq<char>, Json),
> {
    if obj_has(entries, key) {
        entries.update(first_named(entries, key), (key, value))
    } else {
        entries.push((key, value))
    }
}

/// A member before which no member has its name is the first of that name.
pub proof fn lemma_first_named(entries: Seq<(Seq<char>, Json)>, key: Seq<char>, i: int)
    requires
        0 <= i < entries.len(),
        entries[i].0 == key,
        forall|j: int| 0 <= j < i ==> (#[trigger] entries[j]).0 != key,
    ensures
        first_named(entries, key) == i,
    decreases i,
{
    if i > 0 {
        assert(entries[0].0 != key);
        let rest = entries.drop_first();
        assert(rest[i - 1] == entries[i]);
        assert forall|j: int| 0 <= j < i - 1 implies (#[trigger] rest[j]).0 != key by {
            assert(rest[j] == entries[j + 1]);
        }
        lemma_first_named(rest, key, i - 1);
    }
}

/// Replacing the value of the first member of a name changes the lookup by
/// that name to the new value and no lookup by another name.
pub proof fn lemma_update_member(entries: Seq<(Seq<char>, Json)>, i: int, v: Json)
    requires
        0 <= i < entries.len(),
        forall|j: int| 0 <= j < i ==> (#[trigger] entries[j]).0 != entries[i].0,
    ensures
        obj_get(entries.update(i, (entries[i].0, v)), entries[i].0) == Some(v),
        forall|other: Seq<char>|
            other != entries[i].0 ==> obj_get(entries.update(i, (entries[i].0, v)), other)
                == obj_get(entries, other),
    decreases entries.len(),
{
    let key = entries[i].0;
    let after = entries.update(i, (key, v));
    assert forall|other: Seq<char>| other != key implies obj_get(after, other) == obj_get(
        entries,
        other,
    ) by {
        lemma_update_other(entries, i, v, other);
    }
    lemma_update_hit(entries, i, v);
}

proof fn lemma_update_other(entries: Seq<(Seq<char>, Json)>, i: int, v: Json, other: Seq<char>)
    requires
        0 <= i < entries.len(),
        other != entries[i].0,
    ensures
        obj_get(entries.update(i, (entries[i].0, v)), other) == obj_get(entries, other),
    decreases entries.len(),
{
    let after = entries.update(i, (entries[i].0, v));
    if i == 0 {
        assert(after.drop_first() =~= entries.drop_first());
    } else {
        let rest = entries.drop_first();
        assert(rest[i - 1] == entries[i]);
        lemma_update_other(rest, i - 1, v, other);
        assert(after.drop_first() =~= rest.update(i - 1, (entries[i].0, v)));
        assert(after[0] == entries[0]);
    }
}

proof fn lemma_update_hit(entries: Seq<(Seq<char>, Json)>, i: int, v: Json)
    requires
        0 <= i < entries.len(),
        forall|j: int| 0 <= j < i ==> (#[trigger] entries[j]).0 != entries[i].0,
    ensures
        obj_get(entries.update(i, (entries[i].0, v)), entries[i].0) == Some(v),
    decreases entries.len(),
{
    let key = entries[i].0;
    let after = entries.update(i, (key, v));
    if i == 0 {
    } else {
        let rest = entries.drop_first();
        assert(entries[0].0 != key);
        assert(rest[i - 1] == entries[i]);
        assert forall|j: int| 0 <= j < i - 1 implies (#[trigger] rest[j]).0 != rest[i - 1].0 by {
            assert(rest[j] == entries[j + 1]);
        }
        lemma_update_hit(rest, i - 1, v);
        assert(after.drop_first() =~= rest.update(i - 1, (key, v)));
        assert(after[0] == entries[0]);
    }
}

/// Appending a member under a name that was absent makes that name found, and
/// changes no lookup by another name.
pub proof fn lemma_push_member(entries: Seq<(Seq<char>, Json)>, key: Seq<char>, v: Json)
    ensures
        !obj_has(entries, key) ==> obj_get(entries.push((key, v)), key) == Some(v),
        forall|other: Seq<char>|
            other != key ==> obj_get(entries.push((key, v)), other) == obj_get(entries, other),
    decreases entries.len(),
{
    let after = entries.push((key, v));
    assert forall|other: Seq<char>| other != key implies obj_get(after, other) == obj_get(
        entries,
        other,
    ) by {
        lemma_push_other(entries, key, v, other);
    }
    if entries.len() == 0 {
        assert(after.drop_first() =~= entries);
    } else {
        let rest = entries.drop_first();
        lemma_push_member(rest, key, v);
        assert(after.drop_first() =~= rest.push((key, v)));
        assert(after[0] == entries[0]);
    }
}

proof fn lemma_push_other(entries: Seq<(Seq<char>, Json)>, key: Seq<char>, v: Json, other: Seq<char>)
    requires
        other != key,
    ensures
        obj_get(entries.push((key, v)), other) == obj_get(entries, other),
    decreases entries.len(),
{
    let after = entries.push((key, v));
    if entries.len() == 0 {
        assert(after.drop_first() =~= entries);
    } else {
        let rest = entries.drop_first();
        lemma_push_other(rest, key, v, other);
        assert(after.drop_first() =~= rest.push((key, v)));
        assert(after[0] == entries[0]);
    }
}

} // verus!
