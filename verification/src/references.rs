//! Which places of the document a compiled schema refers to.
use vstd::prelude::*;
use crate::keywords::unevaluated_properties::{ConditionalFilter, PropertiesFilter};
use crate::node::{KeywordValidator, SchemaNode};
use crate::paths::{Location, Seg};
use crate::pattern::Pattern;
use crate::shape::location_view;

verus! {

/// The places that the locations of a list stand for.
pub open spec fn spots(refs: Seq<Location>) -> Set<Seq<Seg>> {
    Set::new(|t: Seq<Seg>| exists|i: int| 0 <= i < refs.len() && (#[trigger] refs[i])@ == t)
}

/// A list with one more location stands for one more place.
pub proof fn lemma_spots_push(refs: Seq<Location>, location: Location)
    ensures
        spots(refs.push(location)) == spots(refs).insert(location@),
{
    let longer = refs.push(location);
    assert forall|t: Seq<Seg>| spots(longer).contains(t) <==> spots(refs).insert(location@).contains(
        t,
    ) by {
        if spots(longer).contains(t) {
            let i = choose|i: int| 0 <= i < longer.len() && (#[trigger] longer[i])@ == t;
            if i < refs.len() {
                assert(refs[i]@ == t);
            }
        }
        if spots(refs).contains(t) {
            let i = choose|i: int| 0 <= i < refs.len() && (#[trigger] refs[i])@ == t;
            assert(longer[i]@ == t);
        }
        if t == location@ {
            assert(longer[refs.len() as int]@ == t);
        }
    }
    assert(spots(longer) =~= spots(refs).insert(location@));
}

/// Whether some schema of the list refers to the place.
pub open spec fn nodes_refer(nodes: Seq<SchemaNode>, t: Seq<Seg>) -> bool
    decreases nodes, 0nat,
{
    exists|i: int| 0 <= i < nodes.len() && node_refers(#[trigger] &nodes[i], t)
}

/// Whether the schema of some member refers to the place.
pub open spec fn properties_refer(properties: Seq<(String, SchemaNode)>, t: Seq<Seg>) -> bool
    decreases properties, 0nat,
{
    exists|i: int| 0 <= i < properties.len() && node_refers(&(#[trigger] properties[i]).1, t)
}

/// Whether the schema under some pattern refers to the place.
pub open spec fn patterns_refer(patterns: Seq<(Pattern, SchemaNode)>, t: Seq<Seg>) -> bool
    decreases patterns, 0nat,
{
    exists|i: int| 0 <= i < patterns.len() && node_refers(&(#[trigger] patterns[i]).1, t)
}

/// Whether some branch, or its filter, refers to the place.
pub open spec fn branches_refer(branches: Seq<(SchemaNode, PropertiesFilter)>, t: Seq<Seg>) -> bool
    decreases branches, 0nat,
{
    exists|i: int|
        0 <= i < branches.len() && (node_refers(&(#[trigger] branches[i]).0, t) || filter_refers(
            &branches[i].1,
            t,
        ))
}

/// Whether the filter of some dependent schema refers to the place.
pub open spec fn dependent_refer(dependent: Seq<(String, PropertiesFilter)>, t: Seq<Seg>) -> bool
    decreases dependent, 0nat,
{
    exists|i: int| 0 <= i < dependent.len() && filter_refers(&(#[trigger] dependent[i]).1, t)
}

/// Whether the filter refers to the place: one of its references leads
/// there, or a schema or a filter that it holds refers to it.
pub open spec fn filter_refers(f: &PropertiesFilter, t: Seq<Seg>) -> bool
    decreases f, 1nat,
{
    ||| location_view(f.ref_) == Some(t)
    ||| location_view(f.second_ref) == Some(t)
    ||| f.unevaluated matches Some(node) && node_refers(&node, t)
    ||| f.additional matches Some(node) && node_refers(&node, t)
    ||| properties_refer(f.properties@, t)
    ||| dependent_refer(f.dependent@, t)
    ||| patterns_refer(f.pattern_properties@, t)
    ||| f.conditional matches Some(c) && {
        ||| node_refers(&c.condition, t)
        ||| filter_refers(&c.if_, t)
        ||| c.then_ matches Some(then_) && filter_refers(&then_, t)
        ||| c.else_ matches Some(else_) && filter_refers(&else_, t)
    }
    ||| f.all_of matches Some(c) && branches_refer(c.subschemas@, t)
    ||| f.any_of matches Some(c) && branches_refer(c.subschemas@, t)
    ||| f.one_of matches Some(c) && branches_refer(c.subschemas@, t)
}

/// Whether the validator refers to the place: it is a reference that leads
/// there, or a schema that it holds refers to it.
pub open spec fn kw_refers(kw: &KeywordValidator, t: Seq<Seg>) -> bool
    decreases kw, 0nat,
{
    match kw {
        KeywordValidator::Ref(v) => v.target@ == t,
        KeywordValidator::ItemsArray(v) => nodes_refer(v.items@, t),
        KeywordValidator::ItemsObject(v) => node_refers(&v.node, t),
        KeywordValidator::Not(v) => node_refers(&v.node, t),
        KeywordValidator::PropertyNames(v) => node_refers(&v.node, t),
        KeywordValidator::Contains(v) => node_refers(&v.node, t),
        KeywordValidator::DependentSchemas(v) => properties_refer(v.schemas@, t),
        KeywordValidator::If(v) => {
            ||| node_refers(&v.condition, t)
            ||| v.then_ matches Some(node) && node_refers(&node, t)
            ||| v.else_ matches Some(node) && node_refers(&node, t)
        },
        KeywordValidator::ItemsObjectSkipPrefix(v) => node_refers(&v.node, t),
        KeywordValidator::PrefixItems(v) => nodes_refer(v.schemas@, t),
        KeywordValidator::SmallProperties(v) => properties_refer(v.properties@, t),
        KeywordValidator::BigProperties(v) => properties_refer(v.properties@, t),
        KeywordValidator::SmallPropertiesWithRequired2(v) => properties_refer(v.properties@, t),
        KeywordValidator::AdditionalProperties(v) => properties_refer(v.properties@, t) || (
        v.additional matches Some(node) && node_refers(&node, t)),
        KeywordValidator::UnevaluatedProperties(v) => filter_refers(&v.filter, t),
        KeywordValidator::AllOf(v) => nodes_refer(v.schemas@, t),
        KeywordValidator::AnyOf(v) => nodes_refer(v.schemas@, t),
        KeywordValidator::OneOf(v) => nodes_refer(v.schemas@, t),
        _ => false,
    }
}

/// Whether the schema refers to the place: one of its validators does.
pub open spec fn node_refers(node: &SchemaNode, t: Seq<Seg>) -> bool
    decreases node, 1nat,
{
    exists|i: int| 0 <= i < node.validators@.len() && kw_refers(#[trigger] &node.validators@[i], t)
}

/// Whether the list holds every place that the validator refers to.
pub open spec fn kw_held(kw: &KeywordValidator, refs: Seq<Location>) -> bool {
    forall|t: Seq<Seg>| #[trigger] kw_refers(kw, t) ==> spots(refs).contains(t)
}

/// Whether the list holds every place that the schema refers to.
pub open spec fn node_held(node: &SchemaNode, refs: Seq<Location>) -> bool {
    forall|t: Seq<Seg>| #[trigger] node_refers(node, t) ==> spots(refs).contains(t)
}

/// Whether the list holds every place that a schema of `nodes` refers to.
pub open spec fn nodes_held(nodes: Seq<SchemaNode>, refs: Seq<Location>) -> bool {
    forall|t: Seq<Seg>| #[trigger] nodes_refer(nodes, t) ==> spots(refs).contains(t)
}

/// Whether the list holds every place that the schema of a member refers
/// to.
pub open spec fn properties_held(properties: Seq<(String, SchemaNode)>, refs: Seq<Location>) -> bool {
    forall|t: Seq<Seg>| #[trigger] properties_refer(properties, t) ==> spots(refs).contains(t)
}

/// Whether the list holds every place that the filter refers to.
pub open spec fn filter_held(f: &PropertiesFilter, refs: Seq<Location>) -> bool {
    forall|t: Seq<Seg>| #[trigger] filter_refers(f, t) ==> spots(refs).contains(t)
}

/// Whether the list holds every place that a branch or its filter refers
/// to.
pub open spec fn branches_held(
    branches: Seq<(SchemaNode, PropertiesFilter)>,
    refs: Seq<Location>,
) -> bool {
    forall|t: Seq<Seg>| #[trigger] branches_refer(branches, t) ==> spots(refs).contains(t)
}

/// Whether the list holds every place that the filter of a dependent
/// schema refers to.
pub open spec fn dependent_held(dependent: Seq<(String, PropertiesFilter)>, refs: Seq<Location>) -> bool {
    forall|t: Seq<Seg>| #[trigger] dependent_refer(dependent, t) ==> spots(refs).contains(t)
}

/// Whether the list holds every place that the schema under a pattern
/// refers to.
pub open spec fn patterns_held(patterns: Seq<(Pattern, SchemaNode)>, refs: Seq<Location>) -> bool {
    forall|t: Seq<Seg>| #[trigger] patterns_refer(patterns, t) ==> spots(refs).contains(t)
}

/// Whether the list holds every place that the condition and the filters
/// beside it refer to.
pub open spec fn conditional_held(c: &ConditionalFilter, refs: Seq<Location>) -> bool {
    &&& node_held(&c.condition, refs)
    &&& filter_held(&c.if_, refs)
    &&& c.then_ matches Some(then_) ==> filter_held(&then_, refs)
    &&& c.else_ matches Some(else_) ==> filter_held(&else_, refs)
}

/// A list that holds what each schema refers to holds what the schemas
/// together refer to.
pub proof fn lemma_nodes_held(nodes: Seq<SchemaNode>, refs: Seq<Location>)
    requires
        forall|j: int| 0 <= j < nodes.len() ==> node_held(#[trigger] &nodes[j], refs),
    ensures
        nodes_held(nodes, refs),
{
    assert forall|t: Seq<Seg>| #[trigger] nodes_refer(nodes, t) implies spots(refs).contains(t) by {
        let i = choose|i: int| 0 <= i < nodes.len() && node_refers(#[trigger] &nodes[i], t);
        assert(node_held(&nodes[i], refs));
    }
}

/// A list that holds what the schema of each member refers to holds what
/// they together refer to.
pub proof fn lemma_properties_held(properties: Seq<(String, SchemaNode)>, refs: Seq<Location>)
    requires
        forall|j: int| 0 <= j < properties.len() ==> node_held(&(#[trigger] properties[j]).1, refs),
    ensures
        properties_held(properties, refs),
{
    assert forall|t: Seq<Seg>| #[trigger] properties_refer(properties, t) implies spots(
        refs,
    ).contains(t) by {
        let i = choose|i: int|
            0 <= i < properties.len() && node_refers(&(#[trigger] properties[i]).1, t);
        assert(node_held(&properties[i].1, refs));
    }
}

/// A list that holds what the schema under each pattern refers to holds
/// what they together refer to.
pub proof fn lemma_patterns_held(patterns: Seq<(Pattern, SchemaNode)>, refs: Seq<Location>)
    requires
        forall|j: int| 0 <= j < patterns.len() ==> node_held(&(#[trigger] patterns[j]).1, refs),
    ensures
        patterns_held(patterns, refs),
{
    assert forall|t: Seq<Seg>| #[trigger] patterns_refer(patterns, t) implies spots(refs).contains(
        t,
    ) by {
        let i = choose|i: int| 0 <= i < patterns.len() && node_refers(&(#[trigger] patterns[i]).1, t);
        assert(node_held(&patterns[i].1, refs));
    }
}

/// A list that holds what each filter refers to holds what the filters
/// together refer to.
pub proof fn lemma_dependent_held(dependent: Seq<(String, PropertiesFilter)>, refs: Seq<Location>)
    requires
        forall|j: int| 0 <= j < dependent.len() ==> filter_held(&(#[trigger] dependent[j]).1, refs),
    ensures
        dependent_held(dependent, refs),
{
    assert forall|t: Seq<Seg>| #[trigger] dependent_refer(dependent, t) implies spots(refs).contains(
        t,
    ) by {
        let i = choose|i: int|
            0 <= i < dependent.len() && filter_refers(&(#[trigger] dependent[i]).1, t);
        assert(filter_held(&dependent[i].1, refs));
    }
}

/// A list that holds what each branch and its filter refer to holds what
/// the branches together refer to.
pub proof fn lemma_branches_held(branches: Seq<(SchemaNode, PropertiesFilter)>, refs: Seq<Location>)
    requires
        forall|j: int|
            0 <= j < branches.len() ==> node_held(&(#[trigger] branches[j]).0, refs) && filter_held(
                &branches[j].1,
                refs,
            ),
    ensures
        branches_held(branches, refs),
{
    assert forall|t: Seq<Seg>| #[trigger] branches_refer(branches, t) implies spots(refs).contains(
        t,
    ) by {
        let i = choose|i: int|
            0 <= i < branches.len() && (node_refers(&(#[trigger] branches[i]).0, t) || filter_refers(
                &branches[i].1,
                t,
            ));
        assert(node_held(&branches[i].0, refs));
        assert(filter_held(&branches[i].1, refs));
    }
}

/// A list that holds what each validator refers to holds what the schema
/// refers to.
pub proof fn lemma_node_held(node: &SchemaNode, refs: Seq<Location>)
    requires
        forall|j: int|
            0 <= j < node.validators@.len() ==> kw_held(#[trigger] &node.validators@[j], refs),
    ensures
        node_held(node, refs),
{
    assert forall|t: Seq<Seg>| #[trigger] node_refers(node, t) implies spots(refs).contains(t) by {
        let i = choose|i: int|
            0 <= i < node.validators@.len() && kw_refers(#[trigger] &node.validators@[i], t);
        assert(kw_held(&node.validators@[i], refs));
    }
}

/// A validator made of a list of schemas refers to what they refer to.
pub proof fn lemma_held_by_nodes(kw: &KeywordValidator, nodes: Seq<SchemaNode>, refs: Seq<Location>)
    requires
        nodes_held(nodes, refs),
        match kw {
            KeywordValidator::ItemsArray(v) => v.items@ == nodes,
            KeywordValidator::PrefixItems(v) => v.schemas@ == nodes,
            KeywordValidator::AllOf(v) => v.schemas@ == nodes,
            KeywordValidator::AnyOf(v) => v.schemas@ == nodes,
            KeywordValidator::OneOf(v) => v.schemas@ == nodes,
            _ => false,
        },
    ensures
        kw_held(kw, refs),
{
    assert forall|t: Seq<Seg>| #[trigger] kw_refers(kw, t) implies spots(refs).contains(t) by {
        assert(nodes_refer(nodes, t));
    }
}

/// A validator made of one schema refers to what it refers to.
pub proof fn lemma_held_by_node(kw: &KeywordValidator, node: &SchemaNode, refs: Seq<Location>)
    requires
        node_held(node, refs),
        match kw {
            KeywordValidator::ItemsObject(v) => v.node == *node,
            KeywordValidator::Not(v) => v.node == *node,
            KeywordValidator::PropertyNames(v) => v.node == *node,
            KeywordValidator::Contains(v) => v.node == *node,
            KeywordValidator::ItemsObjectSkipPrefix(v) => v.node == *node,
            _ => false,
        },
    ensures
        kw_held(kw, refs),
{
    assert forall|t: Seq<Seg>| #[trigger] kw_refers(kw, t) implies spots(refs).contains(t) by {
        assert(node_refers(node, t));
    }
}

/// A validator made of the schemas of members refers to what they refer
/// to.
pub proof fn lemma_held_by_properties(
    kw: &KeywordValidator,
    properties: Seq<(String, SchemaNode)>,
    refs: Seq<Location>,
)
    requires
        properties_held(properties, refs),
        match kw {
            KeywordValidator::SmallProperties(v) => v.properties@ == properties,
            KeywordValidator::DependentSchemas(v) => v.schemas@ == properties,
            KeywordValidator::BigProperties(v) => v.properties@ == properties,
            KeywordValidator::SmallPropertiesWithRequired2(v) => v.properties@ == properties,
            _ => false,
        },
    ensures
        kw_held(kw, refs),
{
    assert forall|t: Seq<Seg>| #[trigger] kw_refers(kw, t) implies spots(refs).contains(t) by {
        assert(properties_refer(properties, t));
    }
}

/// A validator made of a filter refers to what the filter refers to.
pub proof fn lemma_held_by_filter(kw: &KeywordValidator, refs: Seq<Location>)
    requires
        kw matches KeywordValidator::UnevaluatedProperties(v) && filter_held(&v.filter, refs),
    ensures
        kw_held(kw, refs),
{
    assert forall|t: Seq<Seg>| #[trigger] kw_refers(kw, t) implies spots(refs).contains(t) by {
        assert(filter_refers(&kw->UnevaluatedProperties_0.filter, t));
    }
}

/// Whether the later list holds every place that the earlier one holds.
pub open spec fn kept(earlier: Seq<Location>, later: Seq<Location>) -> bool {
    spots(earlier).subset_of(spots(later))
}

} // verus!
