//! The hashed collections that the validators keep, and what is relied on of
//! them.
use vstd::prelude::*;
use ahash::{AHashMap, AHashSet};

verus! {

#[verifier::external_type_specification]
#[verifier::external_body]
#[verifier::reject_recursive_types(K)]
#[verifier::reject_recursive_types(V)]
#[verifier::reject_recursive_types(S)]
pub struct ExAHashMap<K, V, S>(AHashMap<K, V, S>);

#[verifier::external_type_specification]
#[verifier::external_body]
#[verifier::reject_recursive_types(T)]
#[verifier::reject_recursive_types(S)]
pub struct ExAHashSet<T, S>(AHashSet<T, S>);

#[verifier::external_type_specification]
#[verifier::external_body]
pub struct ExRandomState(ahash::RandomState);

/// A map from names to positions.
pub type NameIndex = AHashMap<String, usize>;

/// A set of names.
pub type NameSet = AHashSet<String>;

/// What a map from names to positions holds.
pub uninterp spec fn index_contents(map: NameIndex) -> Map<Seq<char>, usize>;

/// What a set of names holds.
pub uninterp spec fn names_held(set: NameSet) -> Set<Seq<char>>;

/// The map that holds nothing.
pub open spec fn no_positions() -> Map<Seq<char>, usize> {
    Map::empty()
}

/// The set that holds nothing.
pub open spec fn no_names() -> Set<Seq<char>> {
    Set::empty()
}

/// `AHashMap::with_capacity`: a map that holds nothing.
#[verifier::external_body]
pub(crate) fn index_with_capacity(capacity: usize) -> (r: NameIndex)
    ensures
        index_contents(r) == no_positions(),
{
    AHashMap::with_capacity(capacity)
}

/// `insert` of the map: afterwards the name leads to the position, and every
/// other name to what it led to before.
#[verifier::external_body]
pub(crate) fn index_insert(map: &mut NameIndex, name: String, position: usize)
    ensures
        index_contents(*final(map)) == index_contents(*old(map)).insert(name@, position),
{
    map.insert(name, position);
}

/// `get` of the map: the position that the name leads to, if it leads to one.
#[verifier::external_body]
pub(crate) fn index_get(map: &NameIndex, name: &str) -> (r: Option<usize>)
    ensures
        r == if index_contents(*map).contains_key(name@) {
            Some(index_contents(*map)[name@])
        } else {
            None
        },
{
    map.get(name).copied()
}

/// `AHashSet::new`: a set that holds nothing.
#[verifier::external_body]
pub(crate) fn names_new() -> (r: NameSet)
    ensures
        names_held(r) == no_names(),
{
    AHashSet::new()
}

/// `insert` of the set: afterwards the set holds the name besides what it
/// held before.
#[verifier::external_body]
pub(crate) fn names_insert(set: &mut NameSet, name: String)
    ensures
        names_held(*final(set)) == names_held(*old(set)).insert(name@),
{
    set.insert(name);
}

/// `contains` of the set: whether the set holds the name.
#[verifier::external_body]
pub(crate) fn names_contains(set: &NameSet, name: &str) -> (r: bool)
    ensures
        r == names_held(*set).contains(name@),
{
    set.contains(name)
}

} // verus!
