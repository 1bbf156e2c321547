//! What compiling gives for a schema: which validators, in which form, with
//! which parts.
use vstd::prelude::*;
use crate::collections::index_contents;
use crate::compiler::{ContextView, Keyword, KEYWORD_COUNT, fused_required, keyword_order, resolve};
use crate::json::{Json, obj_get, obj_has};
use crate::keywords::items::{items_form, items_type_location};
use crate::keywords::properties::{HASHMAP_THRESHOLD, required_pair, taken_over, takes_required};
use crate::keywords::required::{required_form, required_location, required_names, required_outcome};
use crate::keywords::unevaluated_properties::{CombinatorFilter, ConditionalFilter, PropertiesFilter};
use crate::node::{KeywordValidator, SchemaNode, node_wf};
use crate::paths::{Location, Seg};
use crate::pattern::Pattern;
use crate::types::{Draft, JsonType};

verus! {

/// The types that the value of a `type` keyword lists: the one that it
/// names, or those that its items name.
pub open spec fn type_list(value: Json) -> Seq<JsonType> {
    match value {
        Json::String(name) => seq![JsonType::named(name)->0],
        Json::Array(items) => Seq::new(
            items.len(),
            |i: int| JsonType::named(items[i]->String_0)->0,
        ),
        _ => Seq::empty(),
    }
}

/// Whether the keyword gives a validator of its own in the schema `parent`,
/// which has the keyword and compiles.
pub open spec fn gives(ctx: ContextView, parent: Seq<(Seq<char>, Json)>, keyword: Keyword) -> bool {
    let value = obj_get(parent, keyword.name())->0;
    match keyword {
        Keyword::Required => !fused_required(parent) && !takes_required(parent),
        Keyword::Properties => !taken_over(parent),
        Keyword::AdditionalProperties => value != Json::Bool(true),
        Keyword::Items => value is Array || value is Object || value == Json::Bool(false),
        Keyword::Ref => !(value is String && (resolve(ctx.document, value->String_0) matches Some(
            (target, _),
        ) && target == ctx.location)),
        Keyword::UnevaluatedProperties => value != Json::Bool(true),
        Keyword::UniqueItems => value != Json::Bool(false),
        _ => true,
    }
}

/// Whether the keyword at `position` of the order gives a validator in the
/// schema `parent`: the draft knows it, the schema has it, and the keyword
/// gives a validator of its own.
pub open spec fn yields(ctx: ContextView, parent: Seq<(Seq<char>, Json)>, position: nat) -> bool {
    let keyword = keyword_order(position);
    keyword.known_to(ctx.draft) && obj_has(parent, keyword.name()) && gives(ctx, parent, keyword)
}

/// Whether compiling the schema that lies at `ctx` meets no reference that
/// leads to another schema: the schema is `true` or `false`, or an object
/// of whose keywords only those give a validator that ask something of the
/// instance by themselves. A reference to the schema in which it stands
/// gives no validator.
pub open spec fn still(ctx: ContextView, schema: Json) -> bool {
    match schema {
        Json::Bool(_) => true,
        Json::Object(parent) => if ctx.draft.ref_hides_siblings() && obj_has(parent, "$ref"@) {
            !gives(ctx, parent, Keyword::Ref)
        } else {
            forall|position: nat|
                position < KEYWORD_COUNT && #[trigger] yields(ctx, parent, position)
                    ==> keyword_order(position).leaf()
        },
        _ => true,
    }
}

/// How many validators the first `n` keywords of the order give.
pub open spec fn produced(ctx: ContextView, parent: Seq<(Seq<char>, Json)>, n: nat) -> nat
    decreases n,
{
    if n == 0 {
        0
    } else {
        produced(ctx, parent, (n - 1) as nat) + if yields(ctx, parent, (n - 1) as nat) {
            1nat
        } else {
            0nat
        }
    }
}

/// Whether `nodes` holds, for each schema of the list in its order, the
/// compiled schema.
pub open spec fn nodes_compiled(ctx: ContextView, items: Seq<Json>, nodes: Seq<SchemaNode>) -> bool
    decreases nodes, 0nat,
{
    &&& nodes.len() == items.len()
    &&& forall|i: int|
        0 <= i < nodes.len() ==> compiled(ctx.at_index(i as nat), items[i], #[trigger] &nodes[i])
}

/// Whether `properties` holds, for each member of the object in its order,
/// its name and its compiled schema.
pub open spec fn members_compiled(
    ctx: ContextView,
    map: Seq<(Seq<char>, Json)>,
    properties: Seq<(String, SchemaNode)>,
) -> bool
    decreases properties, 0nat,
{
    &&& properties.len() == map.len()
    &&& forall|i: int|
        0 <= i < properties.len() ==> (#[trigger] properties[i]).0@ == map[i].0 && compiled(
            ctx.at(map[i].0),
            map[i].1,
            &properties[i].1,
        )
}

/// Whether `properties` holds the compiled schemas of the `properties`
/// keyword of the schema `parent`, where that keyword is an object, and
/// nothing where it is not.
pub open spec fn properties_under(
    ctx: ContextView,
    parent: Seq<(Seq<char>, Json)>,
    properties: Seq<(String, SchemaNode)>,
) -> bool
    decreases properties, 1nat,
{
    match obj_get(parent, "properties"@) {
        Some(Json::Object(map)) => members_compiled(ctx.at("properties"@), map, properties),
        _ => properties.len() == 0,
    }
}

/// Whether `node` is the compiled schema under the keyword, where the
/// schema `parent` has the keyword, and `None` where it has not.
pub open spec fn node_under(
    ctx: ContextView,
    parent: Seq<(Seq<char>, Json)>,
    keyword: Seq<char>,
    node: Option<SchemaNode>,
) -> bool
    decreases node, 0nat,
{
    match obj_get(parent, keyword) {
        Some(value) => node matches Some(n) && compiled(ctx.at(keyword), value, &n),
        None => node is None,
    }
}

/// Whether the validator is what the keyword of the schema `parent` is
/// compiled to.
pub open spec fn keyword_compiled(
    ctx: ContextView,
    parent: Seq<(Seq<char>, Json)>,
    keyword: Keyword,
    validator: &KeywordValidator,
) -> bool
    decreases validator, 2nat,
{
    let value = obj_get(parent, keyword.name())->0;
    let here = ctx.location.push(Seg::Property(keyword.name()));
    match keyword {
        Keyword::Type => validator matches KeywordValidator::Type(v) && v.types@ == type_list(value)
            && v.strict == ctx.draft.strict_integers() && v.location@ == here,
        Keyword::Const => validator matches KeywordValidator::Const(v) && v.value@ == value
            && v.location@ == here,
        Keyword::Enum => value is Array && (validator matches KeywordValidator::Enum(v) && v.options@
            == value && v.location@ == here && (v.strings is Some <==> value->Array_0.len()
            >= crate::keywords::enum_::ENUM_THRESHOLD)),
        Keyword::MaxLength => validator matches KeywordValidator::Limit(v) && v.rule
            == crate::keywords::limits::Limit::MaxLength && value == Json::Number(
            crate::json::Num::PosInt(v.limit),
        ) && v.location@ == here,
        Keyword::MinItems => validator matches KeywordValidator::Limit(v) && v.rule
            == crate::keywords::limits::Limit::MinItems && value == Json::Number(
            crate::json::Num::PosInt(v.limit),
        ) && v.location@ == here,
        Keyword::MaxItems => validator matches KeywordValidator::Limit(v) && v.rule
            == crate::keywords::limits::Limit::MaxItems && value == Json::Number(
            crate::json::Num::PosInt(v.limit),
        ) && v.location@ == here,
        Keyword::MinProperties => validator matches KeywordValidator::Limit(v) && v.rule
            == crate::keywords::limits::Limit::MinProperties && value == Json::Number(
            crate::json::Num::PosInt(v.limit),
        ) && v.location@ == here,
        Keyword::MaxProperties => validator matches KeywordValidator::Limit(v) && v.rule
            == crate::keywords::limits::Limit::MaxProperties && value == Json::Number(
            crate::json::Num::PosInt(v.limit),
        ) && v.location@ == here,
        Keyword::MinLength => validator matches KeywordValidator::MinLength(v) && value
            == Json::Number(crate::json::Num::PosInt(v.limit)) && v.location@ == here,
        Keyword::Required => required_outcome(value, here) matches Ok(names) && required_names(
            *validator,
        ) == names && required_location(*validator) == here && required_form(
            *validator,
            names.len(),
        ),
        Keyword::Properties => value is Object && (if value->Object_0.len() >= HASHMAP_THRESHOLD {
            &&& validator matches KeywordValidator::BigProperties(v)
            &&& members_compiled(ctx.at("properties"@), value->Object_0, v.properties@)
            &&& forall|name: Seq<char>| #[trigger]
                index_contents(v.names).contains_key(name) <==> obj_has(value->Object_0, name)
            &&& forall|name: Seq<char>| #[trigger]
                index_contents(v.names).contains_key(name) ==> value->Object_0[index_contents(
                    v.names,
                )[name] as int].0 == name
        } else if required_pair(parent) is Some {
            &&& validator matches KeywordValidator::SmallPropertiesWithRequired2(v)
            &&& members_compiled(ctx.at("properties"@), value->Object_0, v.properties@)
            &&& required_pair(parent) == Some((v.first@, v.second@))
            &&& v.required_location@ == ctx.location.push(Seg::Property("required"@))
        } else {
            validator matches KeywordValidator::SmallProperties(v) && members_compiled(
                ctx.at("properties"@),
                value->Object_0,
                v.properties@,
            )
        }),
        Keyword::AdditionalProperties => {
            &&& validator matches KeywordValidator::AdditionalProperties(v)
            &&& v.location@ == here
            &&& v.required_location@ == ctx.location.push(Seg::Property("required"@))
            &&& properties_under(ctx, parent, v.properties@)
            &&& match value {
                Json::Bool(false) => v.additional is None,
                _ => v.additional matches Some(node) && compiled(
                    ctx.at("additionalProperties"@),
                    value,
                    &node,
                ),
            }
            &&& if fused_required(parent) {
                v.required matches Some(name) && obj_get(parent, "required"@)->0->Array_0[0]
                    == Json::String(name@)
            } else {
                v.required is None
            }
        },
        Keyword::Items => {
            &&& items_form(ctx.draft, parent, value, *validator)
            &&& items_type_location(*validator) matches Some(location) ==> location == here.push(
                Seg::Property("type"@),
            )
            &&& validator matches KeywordValidator::ItemsArray(v) ==> nodes_compiled(
                ctx.at("items"@),
                value->Array_0,
                v.items@,
            )
            &&& validator matches KeywordValidator::ItemsObject(v) ==> compiled(
                ctx.at("items"@),
                value,
                &v.node,
            )
            &&& validator matches KeywordValidator::ItemsObjectSkipPrefix(v) ==> compiled(
                ctx.at("items"@),
                value,
                &v.node,
            )
        },
        Keyword::PrefixItems => value is Array && (validator matches KeywordValidator::PrefixItems(v)
            && nodes_compiled(ctx.at("prefixItems"@), value->Array_0, v.schemas@)),
        Keyword::AllOf => value is Array && (validator matches KeywordValidator::AllOf(v)
            && nodes_compiled(ctx.at("allOf"@), value->Array_0, v.schemas@)),
        Keyword::AnyOf => value is Array && (validator matches KeywordValidator::AnyOf(v)
            && nodes_compiled(ctx.at("anyOf"@), value->Array_0, v.schemas@) && v.location@ == here),
        Keyword::OneOf => value is Array && (validator matches KeywordValidator::OneOf(v)
            && nodes_compiled(ctx.at("oneOf"@), value->Array_0, v.schemas@) && v.location@ == here),
        Keyword::If => {
            &&& validator matches KeywordValidator::If(v)
            &&& compiled(ctx.at("if"@), value, &v.condition)
            &&& node_under(ctx, parent, "then"@, v.then_)
            &&& node_under(ctx, parent, "else"@, v.else_)
        },
        Keyword::DependentSchemas => value is Object && (
        validator matches KeywordValidator::DependentSchemas(v) && members_compiled(
            ctx.at("dependentSchemas"@),
            value->Object_0,
            v.schemas@,
        )),
        Keyword::UniqueItems => validator matches KeywordValidator::UniqueItems(v) && value
            == Json::Bool(true) && v.location@ == here,
        Keyword::Contains => {
            &&& validator matches KeywordValidator::Contains(v)
            &&& compiled(ctx.at("contains"@), value, &v.node)
            &&& v.min == crate::keywords::contains::bound_under(ctx.draft, parent, "minContains"@)
            &&& v.max == crate::keywords::contains::bound_under(ctx.draft, parent, "maxContains"@)
            &&& v.location@ == here
            &&& v.min_location@ == ctx.location.push(Seg::Property("minContains"@))
            &&& v.max_location@ == ctx.location.push(Seg::Property("maxContains"@))
        },
        Keyword::PropertyNames => validator matches KeywordValidator::PropertyNames(v) && compiled(
            ctx.at("propertyNames"@),
            value,
            &v.node,
        ) && v.location@ == here,
        Keyword::DependentRequired => value is Object && (
        validator matches KeywordValidator::DependentRequired(v)
            && crate::keywords::dependent_required::rules_compiled(
            value->Object_0,
            here,
            v.rules@,
        )),
        Keyword::Not => validator matches KeywordValidator::Not(v) && compiled(
            ctx.at("not"@),
            value,
            &v.node,
        ) && v.schema@ == value && v.location@ == here,
        Keyword::Ref => {
            &&& validator matches KeywordValidator::Ref(v)
            &&& value is String
            &&& resolve(ctx.document, value->String_0) matches Some((target, _)) && v.target@
                == target
            &&& v.location@ == here
        },
        Keyword::UnevaluatedProperties => validator matches KeywordValidator::UnevaluatedProperties(
            v,
        ) && v.location@ == here && filter_compiled(ctx, parent, &v.filter),
    }
}

/// Whether `node` is what the schema that lies at `ctx` is compiled to:
/// - `true`: a node without validators;
/// - `false`: a node with the one validator that nothing satisfies;
/// - an object: a node with the validators of its keywords, in the order of
///   the keywords; in the drafts in which a `$ref` hides the keywords beside
///   it, a schema with a `$ref` has the validator of that reference alone.
pub open spec fn compiled(ctx: ContextView, schema: Json, node: &SchemaNode) -> bool
    decreases node, 3nat,
{
    &&& node_wf(node)
    &&& node.location@ == ctx.location
    &&& match schema {
        Json::Bool(true) => node.validators@.len() == 0,
        Json::Bool(false) => node.validators@.len() == 1 && (
        node.validators@[0] matches KeywordValidator::FalseSchema(v) && v.location@ == ctx.location),
        Json::Object(parent) => if ctx.draft.ref_hides_siblings() && obj_has(parent, "$ref"@) {
            if gives(ctx, parent, Keyword::Ref) {
                node.validators@.len() == 1 && keyword_compiled(
                    ctx,
                    parent,
                    Keyword::Ref,
                    &node.validators@[0],
                )
            } else {
                node.validators@.len() == 0
            }
        } else {
            &&& node.validators@.len() == produced(ctx, parent, KEYWORD_COUNT as nat)
            &&& forall|position: nat|
                position < KEYWORD_COUNT && #[trigger] yields(ctx, parent, position) ==> produced(
                    ctx,
                    parent,
                    position,
                ) < node.validators@.len() && keyword_compiled(
                    ctx,
                    parent,
                    keyword_order(position),
                    &node.validators@[produced(ctx, parent, position) as int],
                )
        },
        _ => false,
    }
}

/// The model of an optional location.
pub open spec fn location_view(location: Option<Location>) -> Option<Seq<Seg>> {
    match location {
        Some(l) => Some(l@),
        None => None,
    }
}

/// Where the reference under a keyword of the schema `parent` leads, where
/// the schema has a string there and an object lies at its target.
pub open spec fn target_under(
    ctx: ContextView,
    parent: Seq<(Seq<char>, Json)>,
    keyword: Seq<char>,
) -> Option<Seq<Seg>> {
    match obj_get(parent, keyword) {
        Some(Json::String(reference)) => match resolve(ctx.document, reference) {
            Some((target, Json::Object(_))) => Some(target),
            _ => None,
        },
        _ => None,
    }
}

/// The keyword of the second reference that a filter follows, as the draft
/// has it.
pub open spec fn second_reference(draft: Draft) -> Seq<char> {
    if draft == Draft::Draft201909 {
        "$recursiveRef"@
    } else {
        "$dynamicRef"@
    }
}

/// How many of the first `n` values are objects.
pub open spec fn objects_among(values: Seq<Json>, n: nat) -> nat
    decreases n,
{
    if n == 0 || n > values.len() {
        0
    } else {
        objects_among(values, (n - 1) as nat) + if values[n - 1] is Object {
            1nat
        } else {
            0nat
        }
    }
}

/// The values of the members of an object, in their order.
pub open spec fn member_values(map: Seq<(Seq<char>, Json)>) -> Seq<Json> {
    Seq::new(map.len(), |i: int| map[i].1)
}

/// Whether `branches` holds, for each schema of the list that is an object
/// and in the order of the list, the compiled schema and its filter.
pub open spec fn branches_compiled(
    ctx: ContextView,
    items: Seq<Json>,
    branches: Seq<(SchemaNode, PropertiesFilter)>,
) -> bool
    decreases branches, 0nat,
{
    &&& branches.len() == objects_among(items, items.len())
    &&& forall|i: int|
        0 <= i < items.len() && (#[trigger] items[i]) is Object ==> objects_among(items, i as nat)
            < branches.len() && compiled(
            ctx.at_index(i as nat),
            items[i],
            &branches[objects_among(items, i as nat) as int].0,
        ) && filter_compiled(
            ctx.at_index(i as nat),
            items[i]->Object_0,
            &branches[objects_among(items, i as nat) as int].1,
        )
}

/// Whether `combinator` holds the branches under the keyword, where the
/// schema `parent` has a list there, and is `None` where it has not.
pub open spec fn branches_under(
    ctx: ContextView,
    parent: Seq<(Seq<char>, Json)>,
    keyword: Seq<char>,
    combinator: Option<CombinatorFilter>,
) -> bool
    decreases combinator, 0nat,
{
    match obj_get(parent, keyword) {
        Some(Json::Array(items)) => combinator matches Some(c) && branches_compiled(
            ctx.at(keyword),
            items,
            c.subschemas@,
        ),
        _ => combinator is None,
    }
}

/// Whether `filter` is the filter of the schema under the keyword, where the
/// schema `parent` has an object there, and `None` where it has not.
pub open spec fn filter_under(
    ctx: ContextView,
    parent: Seq<(Seq<char>, Json)>,
    keyword: Seq<char>,
    filter: Option<PropertiesFilter>,
) -> bool
    decreases filter, 0nat,
{
    match obj_get(parent, keyword) {
        Some(Json::Object(sub)) => filter matches Some(f) && filter_compiled(ctx.at(keyword), sub, &f),
        _ => filter is None,
    }
}

/// Whether `dependent` holds, for each member of `dependentSchemas` that is
/// an object and in the order of the members, its name and its filter.
pub open spec fn dependent_compiled(
    ctx: ContextView,
    map: Seq<(Seq<char>, Json)>,
    dependent: Seq<(String, PropertiesFilter)>,
) -> bool
    decreases dependent, 0nat,
{
    let values = member_values(map);
    &&& dependent.len() == objects_among(values, values.len())
    &&& forall|i: int|
        0 <= i < map.len() && (#[trigger] map[i]).1 is Object ==> objects_among(values, i as nat)
            < dependent.len() && dependent[objects_among(values, i as nat) as int].0@ == map[i].0
            && filter_compiled(
            ctx.at(map[i].0),
            map[i].1->Object_0,
            &dependent[objects_among(values, i as nat) as int].1,
        )
}

/// Whether `patterns` holds, for each member of `patternProperties` in its
/// order, the compiled pattern of its name and its compiled schema.
pub open spec fn patterns_compiled(
    ctx: ContextView,
    map: Seq<(Seq<char>, Json)>,
    patterns: Seq<(Pattern, SchemaNode)>,
) -> bool
    decreases patterns, 0nat,
{
    &&& patterns.len() == map.len()
    &&& forall|i: int|
        0 <= i < patterns.len() ==> (#[trigger] patterns[i]).0.source() == map[i].0 && compiled(
            ctx.at(map[i].0),
            map[i].1,
            &patterns[i].1,
        )
}

/// Whether `conditional` is what `if`, `then` and `else` of the schema
/// `parent` are compiled to: `None` unless `if` is an object.
pub open spec fn conditional_compiled(
    ctx: ContextView,
    parent: Seq<(Seq<char>, Json)>,
    conditional: Option<Box<ConditionalFilter>>,
) -> bool
    decreases conditional, 1nat,
{
    match obj_get(parent, "if"@) {
        Some(Json::Object(if_parent)) => {
            &&& conditional matches Some(c)
            &&& compiled(ctx.at("if"@), Json::Object(if_parent), &c.condition)
            &&& filter_compiled(ctx.at("if"@), if_parent, &c.if_)
            &&& filter_under(ctx, parent, "then"@, c.then_)
            &&& filter_under(ctx, parent, "else"@, c.else_)
        },
        _ => conditional is None,
    }
}

/// Whether `filter` is the filter of the schema `parent`, which lies at
/// `ctx`: each of its parts is what the keyword of that part is compiled to.
pub open spec fn filter_compiled(
    ctx: ContextView,
    parent: Seq<(Seq<char>, Json)>,
    filter: &PropertiesFilter,
) -> bool
    decreases filter, 2nat,
{
    &&& location_view(filter.ref_) == target_under(ctx, parent, "$ref"@)
    &&& location_view(filter.second_ref) == target_under(ctx, parent, second_reference(ctx.draft))
    &&& conditional_compiled(ctx, parent, filter.conditional)
    &&& properties_under(ctx, parent, filter.properties@)
    &&& match obj_get(parent, "dependentSchemas"@) {
        Some(Json::Object(map)) => dependent_compiled(
            ctx.at("dependentSchemas"@),
            map,
            filter.dependent@,
        ),
        _ => filter.dependent@.len() == 0,
    }
    &&& node_under(ctx, parent, "additionalProperties"@, filter.additional)
    &&& match obj_get(parent, "patternProperties"@) {
        Some(Json::Object(map)) => patterns_compiled(
            ctx.at("patternProperties"@),
            map,
            filter.pattern_properties@,
        ),
        _ => filter.pattern_properties@.len() == 0,
    }
    &&& node_under(ctx, parent, "unevaluatedProperties"@, filter.unevaluated)
    &&& branches_under(ctx, parent, "allOf"@, filter.all_of)
    &&& branches_under(ctx, parent, "anyOf"@, filter.any_of)
    &&& branches_under(ctx, parent, "oneOf"@, filter.one_of)
}

} // verus!
