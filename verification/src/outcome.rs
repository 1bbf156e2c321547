//! What the structured result of a schema on an instance holds.
use vstd::prelude::*;
use crate::collections::index_contents;
use crate::evaluation::{EvaluationNode, EvaluationResult, described, told};
use crate::json::{Json, Value, obj_get, obj_has};
use crate::keywords::items::paired;
use crate::node::{KeywordValidator, Registry, SchemaNode, kw_errors, kw_valid, node_valid};
use crate::paths::{Seg, captured};
use crate::render::json_text;
use crate::text::decimal;
use crate::types::JsonType;

verus! {

/// The model of a note, where there is one.
pub open spec fn note_view(note: Option<Value>) -> Option<Json> {
    match note {
        Some(value) => Some(value@),
        None => None,
    }
}

/// The description of an item that is not of the type that `items` asks
/// for.
pub open spec fn item_fault(ty: JsonType, item: Json, index: nat) -> (Seq<char>, Seq<char>) {
    (
        "type"@,
        json_text(item) + " at index "@ + decimal(index) + " is not of type \""@ + ty.name()
            + "\""@,
    )
}

/// The descriptions of those of the first `n` items that are not of the
/// type, in the order of the items.
pub open spec fn item_faults(ty: JsonType, strict: bool, items: Seq<Json>, n: nat) -> Seq<
    (Seq<char>, Seq<char>),
>
    decreases n,
{
    if n == 0 || n > items.len() {
        Seq::empty()
    } else {
        item_faults(ty, strict, items, (n - 1) as nat) + if ty.admits(strict, items[n - 1]) {
            Seq::empty()
        } else {
            seq![item_fault(ty, items[n - 1], (n - 1) as nat)]
        }
    }
}

/// The names of those of the first `n` schemas whose member the object
/// has, in the order of the schemas.
pub open spec fn matched_names(
    properties: Seq<(String, SchemaNode)>,
    members: Seq<(Seq<char>, Json)>,
    n: nat,
) -> Seq<Seq<char>>
    decreases n,
{
    if n == 0 || n > properties.len() {
        Seq::empty()
    } else {
        matched_names(properties, members, (n - 1) as nat) + if obj_has(
            members,
            properties[n - 1].0@,
        ) {
            seq![properties[n - 1].0@]
        } else {
            Seq::empty()
        }
    }
}

/// The names of those of the first `n` members of the object that the
/// index holds, in the order of the members.
pub open spec fn found_names(
    index: Map<Seq<char>, usize>,
    members: Seq<(Seq<char>, Json)>,
    n: nat,
) -> Seq<Seq<char>>
    decreases n,
{
    if n == 0 || n > members.len() {
        Seq::empty()
    } else {
        found_names(index, members, (n - 1) as nat) + if index.contains_key(members[n - 1].0) {
            seq![members[n - 1].0]
        } else {
            Seq::empty()
        }
    }
}

/// The names as an array of strings.
pub open spec fn names_json(names: Seq<Seq<char>>) -> Json {
    Json::Array(Seq::new(names.len(), |i: int| Json::String(names[i])))
}

/// What `prefixItems` notes of an array, of whose items the first `paired`
/// have a schema: `true` where every item has one, and else the position of
/// the last item that has one.
pub open spec fn prefix_note(paired: nat, items: nat) -> Json {
    if paired == items {
        Json::Bool(true)
    } else if paired > 0 {
        Json::Number(crate::json::Num::PosInt((paired - 1) as u64))
    } else {
        Json::Number(crate::json::Num::PosInt(0))
    }
}

/// The type that a validator of the items' type asks for, and whether it
/// reads integers strictly.
pub open spec fn asked_type(kw: &KeywordValidator) -> Option<(JsonType, bool)> {
    match kw {
        KeywordValidator::ItemsNumberType(_) => Some((JsonType::Number, false)),
        KeywordValidator::ItemsStringType(_) => Some((JsonType::String, false)),
        KeywordValidator::ItemsIntegerType(_) => Some((JsonType::Integer, false)),
        KeywordValidator::ItemsIntegerTypeDraft4(_) => Some((JsonType::Integer, true)),
        KeywordValidator::ItemsBooleanType(_) => Some((JsonType::Boolean, false)),
        _ => None,
    }
}

/// What the keyword notes of the instance:
/// - `items`, of an array, whether it was applied to any item;
/// - `prefixItems`, of an array that is not empty, how far it reached;
/// - `properties`, of an object, the names of the members that it
///   assessed;
/// - any other keyword, nothing.
pub open spec fn kw_note(kw: &KeywordValidator, instance: Json) -> Option<Json> {
    match kw {
        KeywordValidator::ItemsNumberType(_)
        | KeywordValidator::ItemsStringType(_)
        | KeywordValidator::ItemsIntegerType(_)
        | KeywordValidator::ItemsIntegerTypeDraft4(_)
        | KeywordValidator::ItemsBooleanType(_)
        | KeywordValidator::ItemsObject(_) => match instance {
            Json::Array(items) => Some(Json::Bool(items.len() > 0)),
            _ => None,
        },
        KeywordValidator::ItemsObjectSkipPrefix(v) => match instance {
            Json::Array(items) => Some(Json::Bool(items.len() > v.skip_prefix)),
            _ => None,
        },
        KeywordValidator::PrefixItems(v) => match instance {
            Json::Array(items) => if items.len() > 0 {
                Some(prefix_note(paired(v.schemas@.len(), items.len()), items.len()))
            } else {
                None
            },
            _ => None,
        },
        KeywordValidator::SmallProperties(v) => match instance {
            Json::Object(members) => Some(
                names_json(matched_names(v.properties@, members, v.properties@.len())),
            ),
            _ => None,
        },
        KeywordValidator::SmallPropertiesWithRequired2(v) => match instance {
            Json::Object(members) => if obj_has(members, v.first@) && obj_has(members, v.second@) {
                Some(names_json(matched_names(v.properties@, members, v.properties@.len())))
            } else {
                None
            },
            _ => None,
        },
        KeywordValidator::BigProperties(v) => match instance {
            Json::Object(members) => Some(
                names_json(found_names(index_contents(v.names), members, members.len())),
            ),
            _ => None,
        },
        _ => None,
    }
}

/// The errors that the result of the keyword holds, in words:
/// - of a keyword that has errors of its own, the descriptions of its
///   errors;
/// - of a reference that cannot be followed, the description of that
///   error;
/// - of a check of the type of each item, one description for each item
///   that is not of the type;
/// - of any other keyword, none: its errors stand in the results below it.
pub open spec fn kw_told(
    reg: &Registry,
    kw: &KeywordValidator,
    instance: Json,
    location: Seq<Seg>,
    tracker: Option<(Seq<Seg>, Seq<Seg>)>,
    depth: nat,
) -> Seq<(Seq<char>, Seq<char>)> {
    if kw.speaks() || (kw matches KeywordValidator::Ref(v) && !(depth > 0 && reg.has(v.target@))) {
        described(kw_errors(reg, kw, instance, location, tracker, depth))
    } else {
        match (asked_type(kw), instance) {
            (Some((ty, strict)), Json::Array(items)) => item_faults(ty, strict, items, items.len()),
            _ => Seq::empty(),
        }
    }
}

/// Whether `children` are the results of the schemas of `nodes` on the
/// items at the same positions, as far as there are both.
pub open spec fn positional_below(
    reg: &Registry,
    nodes: Seq<SchemaNode>,
    items: Seq<Json>,
    location: Seq<Seg>,
    tracker: Option<(Seq<Seg>, Seq<Seg>)>,
    depth: nat,
    children: Seq<EvaluationNode>,
) -> bool
    decreases children, 0nat,
{
    &&& children.len() == paired(nodes.len(), items.len())
    &&& forall|j: int|
        0 <= j < children.len() ==> node_result(
            reg,
            &nodes[j],
            items[j],
            location.push(Seg::Index(j as nat)),
            tracker,
            depth,
            #[trigger] &children[j],
        )
}

/// Whether `children` are the results of the schema on each item from
/// position `skip` on.
pub open spec fn each_below(
    reg: &Registry,
    node: &SchemaNode,
    skip: nat,
    items: Seq<Json>,
    location: Seq<Seg>,
    tracker: Option<(Seq<Seg>, Seq<Seg>)>,
    depth: nat,
    children: Seq<EvaluationNode>,
) -> bool
    decreases children, 0nat,
{
    &&& children.len() == if skip <= items.len() {
        items.len() - skip
    } else {
        0
    }
    &&& forall|j: int|
        0 <= j < children.len() ==> node_result(
            reg,
            node,
            items[j + skip],
            location.push(Seg::Index((j + skip) as nat)),
            tracker,
            depth,
            #[trigger] &children[j],
        )
}

/// Whether `children` are the results of the schemas on the members that
/// they name, for each schema whose member the object has, in the order of
/// the schemas.
pub open spec fn named_below(
    reg: &Registry,
    properties: Seq<(String, SchemaNode)>,
    members: Seq<(Seq<char>, Json)>,
    location: Seq<Seg>,
    tracker: Option<(Seq<Seg>, Seq<Seg>)>,
    depth: nat,
    children: Seq<EvaluationNode>,
) -> bool
    decreases children, 0nat,
{
    &&& children.len() == matched_names(properties, members, properties.len()).len()
    &&& forall|j: int|
        0 <= j < properties.len() && obj_has(members, (#[trigger] properties[j]).0@) ==> {
            let k = matched_names(properties, members, j as nat).len() as int;
            k < children.len() && node_result(
                reg,
                &properties[j].1,
                obj_get(members, properties[j].0@)->0,
                location.push(Seg::Property(properties[j].0@)),
                tracker,
                depth,
                &children[k],
            )
        }
}

/// Whether `children` are the results of the schemas on the members whose
/// names the index holds, in the order of the members.
pub open spec fn found_below(
    reg: &Registry,
    index: Map<Seq<char>, usize>,
    properties: Seq<(String, SchemaNode)>,
    members: Seq<(Seq<char>, Json)>,
    location: Seq<Seg>,
    tracker: Option<(Seq<Seg>, Seq<Seg>)>,
    depth: nat,
    children: Seq<EvaluationNode>,
) -> bool
    decreases children, 0nat,
{
    &&& children.len() == found_names(index, members, members.len()).len()
    &&& forall|i: int|
        0 <= i < members.len() && index.contains_key((#[trigger] members[i]).0) ==> {
            let k = found_names(index, members, i as nat).len() as int;
            k < children.len() && index[members[i].0] < properties.len() && node_result(
                reg,
                &properties[index[members[i].0] as int].1,
                members[i].1,
                location.push(Seg::Property(members[i].0)),
                tracker,
                depth,
                &children[k],
            )
        }
}

/// Whether `children` are the results of each of the schemas on the
/// instance itself, in the order of the schemas.
pub open spec fn all_below(
    reg: &Registry,
    nodes: Seq<SchemaNode>,
    instance: Json,
    location: Seq<Seg>,
    tracker: Option<(Seq<Seg>, Seq<Seg>)>,
    depth: nat,
    children: Seq<EvaluationNode>,
) -> bool
    decreases children, 0nat,
{
    &&& children.len() == nodes.len()
    &&& forall|j: int|
        0 <= j < children.len() ==> node_result(
            reg,
            &nodes[j],
            instance,
            location,
            tracker,
            depth,
            #[trigger] &children[j],
        )
}

/// Whether `children` are the results that stand below the result of the
/// keyword:
/// - `allOf`, `anyOf` and `oneOf`: those of each branch, whether it holds
///   or not;
/// - a reference that is followed: that of the schema it leads to;
/// - `items` with a list of schemas, and `prefixItems`: those of the
///   schemas on the items at their positions;
/// - `items` with one schema: those of the schema on each item that it
///   assesses;
/// - `properties`: those of the schemas on the members that they name;
/// - any other keyword: none.
pub open spec fn kw_below(
    reg: &Registry,
    kw: &KeywordValidator,
    instance: Json,
    location: Seq<Seg>,
    tracker: Option<(Seq<Seg>, Seq<Seg>)>,
    depth: nat,
    children: Seq<EvaluationNode>,
) -> bool
    decreases children, 1nat,
{
    match (kw, instance) {
        (KeywordValidator::AllOf(v), _) => all_below(
            reg,
            v.schemas@,
            instance,
            location,
            tracker,
            depth,
            children,
        ),
        (KeywordValidator::AnyOf(v), _) => all_below(
            reg,
            v.schemas@,
            instance,
            location,
            tracker,
            depth,
            children,
        ),
        (KeywordValidator::OneOf(v), _) => all_below(
            reg,
            v.schemas@,
            instance,
            location,
            tracker,
            depth,
            children,
        ),
        (KeywordValidator::Ref(v), _) => if depth > 0 && reg.has(v.target@) {
            children.len() == 1 && node_result(
                reg,
                &reg.targets@[reg.position(v.target@)].node,
                instance,
                location,
                Some((v.target@, captured(tracker, v.location@))),
                (depth - 1) as nat,
                &children[0],
            )
        } else {
            children.len() == 0
        },
        (KeywordValidator::ItemsArray(v), Json::Array(items)) => positional_below(
            reg,
            v.items@,
            items,
            location,
            tracker,
            depth,
            children,
        ),
        (KeywordValidator::PrefixItems(v), Json::Array(items)) => if items.len() > 0 {
            positional_below(reg, v.schemas@, items, location, tracker, depth, children)
        } else {
            children.len() == 0
        },
        (KeywordValidator::ItemsObject(v), Json::Array(items)) => each_below(
            reg,
            &v.node,
            0,
            items,
            location,
            tracker,
            depth,
            children,
        ),
        (KeywordValidator::ItemsObjectSkipPrefix(v), Json::Array(items)) => each_below(
            reg,
            &v.node,
            v.skip_prefix as nat,
            items,
            location,
            tracker,
            depth,
            children,
        ),
        (KeywordValidator::SmallProperties(v), Json::Object(members)) => named_below(
            reg,
            v.properties@,
            members,
            location,
            tracker,
            depth,
            children,
        ),
        (KeywordValidator::SmallPropertiesWithRequired2(v), Json::Object(members)) => if obj_has(
            members,
            v.first@,
        ) && obj_has(members, v.second@) {
            named_below(reg, v.properties@, members, location, tracker, depth, children)
        } else {
            children.len() == 0
        },
        (KeywordValidator::BigProperties(v), Json::Object(members)) => found_below(
            reg,
            index_contents(v.names),
            v.properties@,
            members,
            location,
            tracker,
            depth,
            children,
        ),
        _ => children.len() == 0,
    }
}

/// Whether `r` is what the keyword gives for the instance, which lies at
/// `location`: whether the instance satisfies the keyword, what the
/// keyword notes of it, its errors in words, and the results below it.
pub open spec fn kw_outcome(
    reg: &Registry,
    kw: &KeywordValidator,
    instance: Json,
    location: Seq<Seg>,
    tracker: Option<(Seq<Seg>, Seq<Seg>)>,
    depth: nat,
    r: &EvaluationResult,
) -> bool {
    &&& r.valid == kw_valid(reg, kw, instance, depth)
    &&& note_view(r.annotations) == kw_note(kw, instance)
    &&& told(r.errors@) == kw_told(reg, kw, instance, location, tracker, depth)
    &&& kw_below(reg, kw, instance, location, tracker, depth, r.children@)
}

/// Whether `child` is the result of the keyword of a schema that lies at
/// `base`: it lies where the keyword lies and speaks of the value at
/// `location`; it holds what the keyword gives for the instance, the note
/// as a note where the keyword holds and as a dropped note where it does
/// not.
pub open spec fn child_of(
    reg: &Registry,
    kw: &KeywordValidator,
    base: Seq<Seg>,
    instance: Json,
    location: Seq<Seg>,
    tracker: Option<(Seq<Seg>, Seq<Seg>)>,
    depth: nat,
    child: &EvaluationNode,
) -> bool
    decreases child, 2nat,
{
    &&& child.valid == kw_valid(reg, kw, instance, depth)
    &&& child.schema_location@ == kw.place(base)
    &&& child.instance_location@ == location
    &&& child.evaluation_path@ == captured(tracker, kw.place(base))
    &&& note_view(child.annotations) == if child.valid {
        kw_note(kw, instance)
    } else {
        None
    }
    &&& note_view(child.dropped_annotations) == if child.valid {
        None
    } else {
        kw_note(kw, instance)
    }
    &&& told(child.errors@) == kw_told(reg, kw, instance, location, tracker, depth)
    &&& kw_below(reg, kw, instance, location, tracker, depth, child.children@)
}

/// Whether `r` is the result of the schema on `instance`, which lies at
/// `location`: it holds where the instance satisfies the schema, lies
/// where the schema lies, notes nothing and has no error of its own, and
/// below it stand the results of the keywords of the schema, in their
/// order.
pub open spec fn node_result(
    reg: &Registry,
    node: &SchemaNode,
    instance: Json,
    location: Seq<Seg>,
    tracker: Option<(Seq<Seg>, Seq<Seg>)>,
    depth: nat,
    r: &EvaluationNode,
) -> bool
    decreases r, 3nat,
{
    &&& r.valid == node_valid(reg, node, instance, depth)
    &&& r.schema_location@ == node.location@
    &&& r.instance_location@ == location
    &&& r.evaluation_path@ == captured(tracker, node.location@)
    &&& r.annotations is None
    &&& r.dropped_annotations is None
    &&& r.errors@.len() == 0
    &&& r.children@.len() == node.validators@.len()
    &&& forall|j: int|
        0 <= j < r.children@.len() ==> child_of(
            reg,
            &node.validators@[j],
            node.location@,
            instance,
            location,
            tracker,
            depth,
            #[trigger] &r.children@[j],
        )
}

} // verus!
