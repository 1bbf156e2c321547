//! Two structured results of one schema on one instance show the same.
use vstd::prelude::*;
use crate::collections::index_contents;
use crate::evaluation::{
    ErrorDescription, EvaluationNode, applied, entry_of, errors_members, flat, flats, own_members,
    told, unit_of, units,
};
use crate::json::{Json, obj_has};
use crate::node::{KeywordValidator, Registry, SchemaNode};
use crate::outcome::{
    all_below, child_of, each_below, found_below, found_names, kw_below, matched_names, named_below,
    node_result, note_view, positional_below,
};
use crate::paths::Seg;

verus! {

/// Descriptions that say the same show the same members.
pub proof fn lemma_errors_members(a: Seq<ErrorDescription>, b: Seq<ErrorDescription>)
    requires
        told(a) == told(b),
    ensures
        errors_members(a) == errors_members(b),
    decreases a.len(),
{
    assert(told(a).len() == a.len());
    assert(told(b).len() == b.len());
    if a.len() > 0 {
        assert(told(a.drop_last()) =~= told(a).drop_last());
        assert(told(b.drop_last()) =~= told(b).drop_last());
        lemma_errors_members(a.drop_last(), b.drop_last());
        assert(told(a).last() == told(b).last());
        assert(told(a)[a.len() - 1] == (a.last().keyword@, a.last().message@));
        assert(told(b)[b.len() - 1] == (b.last().keyword@, b.last().message@));
    }
}

/// Whether two results say the same of themselves: the verdict, the three
/// places, the notes and the errors.
pub open spec fn alike(a: &EvaluationNode, b: &EvaluationNode) -> bool {
    &&& a.valid == b.valid
    &&& a.evaluation_path@ == b.evaluation_path@
    &&& a.schema_location@ == b.schema_location@
    &&& a.instance_location@ == b.instance_location@
    &&& note_view(a.annotations) == note_view(b.annotations)
    &&& note_view(a.dropped_annotations) == note_view(b.dropped_annotations)
    &&& told(a.errors@) == told(b.errors@)
    &&& a.children@.len() == b.children@.len()
}

/// Results that say the same of themselves show the same members, and show
/// in a list or not alike.
pub proof fn lemma_alike(a: &EvaluationNode, b: &EvaluationNode)
    requires
        alike(a, b),
    ensures
        own_members(a) == own_members(b),
        entry_of(a) == entry_of(b),
        applied(a) == applied(b),
{
    lemma_errors_members(a.errors@, b.errors@);
    assert(told(a.errors@).len() == a.errors@.len());
    assert(told(b.errors@).len() == b.errors@.len());
}

/// Lists of results that show the same one by one show the same together.
pub proof fn lemma_pointwise(a: Seq<EvaluationNode>, b: Seq<EvaluationNode>)
    requires
        a.len() == b.len(),
        forall|j: int|
            0 <= j < a.len() ==> unit_of(#[trigger] &a[j]) == unit_of(&b[j]) && flat(&a[j]) == flat(
                &b[j],
            ),
    ensures
        units(a) == units(b),
        flats(a) == flats(b),
    decreases a.len(),
{
    if a.len() > 0 {
        let x = a.drop_last();
        let y = b.drop_last();
        assert forall|j: int| 0 <= j < x.len() implies unit_of(#[trigger] &x[j]) == unit_of(&y[j])
            && flat(&x[j]) == flat(&y[j]) by {
            assert(x[j] == a[j]);
            assert(y[j] == b[j]);
        }
        lemma_pointwise(x, y);
        assert(unit_of(&a[a.len() - 1]) == unit_of(&b[a.len() - 1]));
    }
}

/// Each place among the matched names belongs to a schema whose member the
/// object has.
pub proof fn lemma_matched_place(
    properties: Seq<(String, SchemaNode)>,
    members: Seq<(Seq<char>, Json)>,
    n: nat,
    k: int,
)
    requires
        n <= properties.len(),
        0 <= k < matched_names(properties, members, n).len(),
    ensures
        exists|j: int|
            0 <= j < n && obj_has(members, (#[trigger] properties[j]).0@) && matched_names(
                properties,
                members,
                j as nat,
            ).len() == k,
    decreases n,
{
    if n > 0 {
        let before = matched_names(properties, members, (n - 1) as nat);
        if k < before.len() {
            lemma_matched_place(properties, members, (n - 1) as nat, k);
        } else {
            assert(obj_has(members, properties[n - 1].0@));
            assert(before.len() == k);
        }
    }
}

/// Each place among the found names belongs to a member whose name the
/// index holds.
pub proof fn lemma_found_place(
    index: Map<Seq<char>, usize>,
    members: Seq<(Seq<char>, Json)>,
    n: nat,
    k: int,
)
    requires
        n <= members.len(),
        0 <= k < found_names(index, members, n).len(),
    ensures
        exists|i: int|
            0 <= i < n && index.contains_key((#[trigger] members[i]).0) && found_names(
                index,
                members,
                i as nat,
            ).len() == k,
    decreases n,
{
    if n > 0 {
        let before = found_names(index, members, (n - 1) as nat);
        if k < before.len() {
            lemma_found_place(index, members, (n - 1) as nat, k);
        } else {
            assert(index.contains_key(members[n - 1].0));
            assert(before.len() == k);
        }
    }
}

/// Two lists that are both the results below one keyword on one instance
/// show the same, one by one.
pub proof fn lemma_same_below(
    reg: &Registry,
    kw: &KeywordValidator,
    instance: Json,
    location: Seq<Seg>,
    tracker: Option<(Seq<Seg>, Seq<Seg>)>,
    depth: nat,
    a: Seq<EvaluationNode>,
    b: Seq<EvaluationNode>,
)
    requires
        kw_below(reg, kw, instance, location, tracker, depth, a),
        kw_below(reg, kw, instance, location, tracker, depth, b),
    ensures
        a.len() == b.len(),
        forall|j: int|
            0 <= j < a.len() ==> unit_of(#[trigger] &a[j]) == unit_of(&b[j]) && flat(&a[j]) == flat(
                &b[j],
            ),
    decreases a, 1nat,
{
    match (kw, instance) {
        (KeywordValidator::AllOf(v), _) => {
            lemma_same_all(reg, v.schemas@, instance, location, tracker, depth, a, b);
        },
        (KeywordValidator::AnyOf(v), _) => {
            lemma_same_all(reg, v.schemas@, instance, location, tracker, depth, a, b);
        },
        (KeywordValidator::OneOf(v), _) => {
            lemma_same_all(reg, v.schemas@, instance, location, tracker, depth, a, b);
        },
        (KeywordValidator::Ref(v), _) => {
            if depth > 0 && reg.has(v.target@) {
                lemma_same_node(
                    reg,
                    &reg.targets@[reg.position(v.target@)].node,
                    instance,
                    location,
                    Some((v.target@, crate::paths::captured(tracker, v.location@))),
                    (depth - 1) as nat,
                    &a[0],
                    &b[0],
                );
            }
        },
        (KeywordValidator::ItemsArray(v), Json::Array(items)) => {
            lemma_same_positional(reg, v.items@, items, location, tracker, depth, a, b);
        },
        (KeywordValidator::PrefixItems(v), Json::Array(items)) => {
            if items.len() > 0 {
                lemma_same_positional(reg, v.schemas@, items, location, tracker, depth, a, b);
            }
        },
        (KeywordValidator::ItemsObject(v), Json::Array(items)) => {
            lemma_same_each(reg, &v.node, 0, items, location, tracker, depth, a, b);
        },
        (KeywordValidator::ItemsObjectSkipPrefix(v), Json::Array(items)) => {
            lemma_same_each(
                reg,
                &v.node,
                v.skip_prefix as nat,
                items,
                location,
                tracker,
                depth,
                a,
                b,
            );
        },
        (KeywordValidator::SmallProperties(v), Json::Object(members)) => {
            lemma_same_named(reg, v.properties@, members, location, tracker, depth, a, b);
        },
        (KeywordValidator::SmallPropertiesWithRequired2(v), Json::Object(members)) => {
            if obj_has(members, v.first@) && obj_has(members, v.second@) {
                lemma_same_named(reg, v.properties@, members, location, tracker, depth, a, b);
            }
        },
        (KeywordValidator::BigProperties(v), Json::Object(members)) => {
            lemma_same_found(
                reg,
                index_contents(v.names),
                v.properties@,
                members,
                location,
                tracker,
                depth,
                a,
                b,
            );
        },
        _ => {},
    }
}

/// Two lists that are both the results of the schemas on the instance show
/// the same, one by one.
pub proof fn lemma_same_all(
    reg: &Registry,
    nodes: Seq<SchemaNode>,
    instance: Json,
    location: Seq<Seg>,
    tracker: Option<(Seq<Seg>, Seq<Seg>)>,
    depth: nat,
    a: Seq<EvaluationNode>,
    b: Seq<EvaluationNode>,
)
    requires
        all_below(reg, nodes, instance, location, tracker, depth, a),
        all_below(reg, nodes, instance, location, tracker, depth, b),
    ensures
        a.len() == b.len(),
        forall|j: int|
            0 <= j < a.len() ==> unit_of(#[trigger] &a[j]) == unit_of(&b[j]) && flat(&a[j]) == flat(
                &b[j],
            ),
    decreases a, 0nat,
{
    assert forall|j: int| 0 <= j < a.len() implies unit_of(#[trigger] &a[j]) == unit_of(&b[j])
        && flat(&a[j]) == flat(&b[j]) by {
        lemma_same_node(reg, &nodes[j], instance, location, tracker, depth, &a[j], &b[j]);
    }
}

/// Two lists that are both the results of the schemas on the items at
/// their positions show the same, one by one.
pub proof fn lemma_same_positional(
    reg: &Registry,
    nodes: Seq<SchemaNode>,
    items: Seq<Json>,
    location: Seq<Seg>,
    tracker: Option<(Seq<Seg>, Seq<Seg>)>,
    depth: nat,
    a: Seq<EvaluationNode>,
    b: Seq<EvaluationNode>,
)
    requires
        positional_below(reg, nodes, items, location, tracker, depth, a),
        positional_below(reg, nodes, items, location, tracker, depth, b),
    ensures
        a.len() == b.len(),
        forall|j: int|
            0 <= j < a.len() ==> unit_of(#[trigger] &a[j]) == unit_of(&b[j]) && flat(&a[j]) == flat(
                &b[j],
            ),
    decreases a, 0nat,
{
    assert forall|j: int| 0 <= j < a.len() implies unit_of(#[trigger] &a[j]) == unit_of(&b[j])
        && flat(&a[j]) == flat(&b[j]) by {
        lemma_same_node(
            reg,
            &nodes[j],
            items[j],
            location.push(Seg::Index(j as nat)),
            tracker,
            depth,
            &a[j],
            &b[j],
        );
    }
}

/// Two lists that are both the results of the schema on each item show the
/// same, one by one.
pub proof fn lemma_same_each(
    reg: &Registry,
    node: &SchemaNode,
    skip: nat,
    items: Seq<Json>,
    location: Seq<Seg>,
    tracker: Option<(Seq<Seg>, Seq<Seg>)>,
    depth: nat,
    a: Seq<EvaluationNode>,
    b: Seq<EvaluationNode>,
)
    requires
        each_below(reg, node, skip, items, location, tracker, depth, a),
        each_below(reg, node, skip, items, location, tracker, depth, b),
    ensures
        a.len() == b.len(),
        forall|j: int|
            0 <= j < a.len() ==> unit_of(#[trigger] &a[j]) == unit_of(&b[j]) && flat(&a[j]) == flat(
                &b[j],
            ),
    decreases a, 0nat,
{
    assert forall|j: int| 0 <= j < a.len() implies unit_of(#[trigger] &a[j]) == unit_of(&b[j])
        && flat(&a[j]) == flat(&b[j]) by {
        lemma_same_node(
            reg,
            node,
            items[j + skip],
            location.push(Seg::Index((j + skip) as nat)),
            tracker,
            depth,
            &a[j],
            &b[j],
        );
    }
}

/// Two lists that are both the results of the schemas on the members that
/// they name show the same, one by one.
pub proof fn lemma_same_named(
    reg: &Registry,
    properties: Seq<(String, SchemaNode)>,
    members: Seq<(Seq<char>, Json)>,
    location: Seq<Seg>,
    tracker: Option<(Seq<Seg>, Seq<Seg>)>,
    depth: nat,
    a: Seq<EvaluationNode>,
    b: Seq<EvaluationNode>,
)
    requires
        named_below(reg, properties, members, location, tracker, depth, a),
        named_below(reg, properties, members, location, tracker, depth, b),
    ensures
        a.len() == b.len(),
        forall|j: int|
            0 <= j < a.len() ==> unit_of(#[trigger] &a[j]) == unit_of(&b[j]) && flat(&a[j]) == flat(
                &b[j],
            ),
    decreases a, 0nat,
{
    assert forall|k: int| 0 <= k < a.len() implies unit_of(#[trigger] &a[k]) == unit_of(&b[k])
        && flat(&a[k]) == flat(&b[k]) by {
        lemma_matched_place(properties, members, properties.len(), k);
        let j = choose|j: int|
            0 <= j < properties.len() && obj_has(members, (#[trigger] properties[j]).0@)
                && matched_names(properties, members, j as nat).len() == k;
        lemma_same_node(
            reg,
            &properties[j].1,
            crate::json::obj_get(members, properties[j].0@)->0,
            location.push(Seg::Property(properties[j].0@)),
            tracker,
            depth,
            &a[k],
            &b[k],
        );
    }
}

/// Two lists that are both the results of the schemas on the members whose
/// names the index holds show the same, one by one.
pub proof fn lemma_same_found(
    reg: &Registry,
    index: Map<Seq<char>, usize>,
    properties: Seq<(String, SchemaNode)>,
    members: Seq<(Seq<char>, Json)>,
    location: Seq<Seg>,
    tracker: Option<(Seq<Seg>, Seq<Seg>)>,
    depth: nat,
    a: Seq<EvaluationNode>,
    b: Seq<EvaluationNode>,
)
    requires
        found_below(reg, index, properties, members, location, tracker, depth, a),
        found_below(reg, index, properties, members, location, tracker, depth, b),
    ensures
        a.len() == b.len(),
        forall|j: int|
            0 <= j < a.len() ==> unit_of(#[trigger] &a[j]) == unit_of(&b[j]) && flat(&a[j]) == flat(
                &b[j],
            ),
    decreases a, 0nat,
{
    assert forall|k: int| 0 <= k < a.len() implies unit_of(#[trigger] &a[k]) == unit_of(&b[k])
        && flat(&a[k]) == flat(&b[k]) by {
        lemma_found_place(index, members, members.len(), k);
        let i = choose|i: int|
            0 <= i < members.len() && index.contains_key((#[trigger] members[i]).0) && found_names(
                index,
                members,
                i as nat,
            ).len() == k;
        lemma_same_node(
            reg,
            &properties[index[members[i].0] as int].1,
            members[i].1,
            location.push(Seg::Property(members[i].0)),
            tracker,
            depth,
            &a[k],
            &b[k],
        );
    }
}

/// Two results that are both the result of one keyword on one instance
/// show the same tree and the same entries.
pub proof fn lemma_same_child(
    reg: &Registry,
    kw: &KeywordValidator,
    base: Seq<Seg>,
    instance: Json,
    location: Seq<Seg>,
    tracker: Option<(Seq<Seg>, Seq<Seg>)>,
    depth: nat,
    a: &EvaluationNode,
    b: &EvaluationNode,
)
    requires
        child_of(reg, kw, base, instance, location, tracker, depth, a),
        child_of(reg, kw, base, instance, location, tracker, depth, b),
    ensures
        unit_of(a) == unit_of(b),
        flat(a) == flat(b),
    decreases a, 2nat,
{
    lemma_same_below(reg, kw, instance, location, tracker, depth, a.children@, b.children@);
    lemma_pointwise(a.children@, b.children@);
    lemma_alike(a, b);
}

/// Two results that are both the result of one schema on one instance show
/// the same tree and the same entries.
pub proof fn lemma_same_node(
    reg: &Registry,
    node: &SchemaNode,
    instance: Json,
    location: Seq<Seg>,
    tracker: Option<(Seq<Seg>, Seq<Seg>)>,
    depth: nat,
    a: &EvaluationNode,
    b: &EvaluationNode,
)
    requires
        node_result(reg, node, instance, location, tracker, depth, a),
        node_result(reg, node, instance, location, tracker, depth, b),
    ensures
        unit_of(a) == unit_of(b),
        flat(a) == flat(b),
    decreases a, 3nat,
{
    assert forall|j: int| 0 <= j < a.children@.len() implies unit_of(#[trigger] &a.children@[j])
        == unit_of(&b.children@[j]) && flat(&a.children@[j]) == flat(&b.children@[j]) by {
        lemma_same_child(
            reg,
            &node.validators@[j],
            node.location@,
            instance,
            location,
            tracker,
            depth,
            &a.children@[j],
            &b.children@[j],
        );
    }
    lemma_pointwise(a.children@, b.children@);
    assert(told(a.errors@) =~= told(b.errors@));
    lemma_alike(a, b);
}

} // verus!
