//! Which schemas the compiler accepts.
use vstd::prelude::*;
use crate::compiler::{
    ContextView, Keyword, KEYWORD_COUNT, fused_required, json_size, keyword_order,
    lemma_found_smaller, lemma_item_smaller, lemma_member_smaller, resolve,
};
use crate::json::{Json, obj_get, obj_has};
use crate::keywords::items::{prefix_of, simple_type};
use crate::keywords::properties::{taken_over, takes_required};
use crate::keywords::required::required_outcome;
use crate::paths::Seg;
use crate::pattern::regex_compiles;
use crate::shape::second_reference;
use crate::types::{Draft, JsonType};

verus! {

/// Whether the value of a `type` keyword is the name of a type, or a list of
/// such names that is not empty.
pub open spec fn type_accepted(value: Json) -> bool {
    match value {
        Json::String(name) => JsonType::named(name) is Some,
        Json::Array(items) => items.len() > 0 && forall|i: int|
            0 <= i < items.len() ==> (#[trigger] items[i]) is String && JsonType::named(
                items[i]->String_0,
            ) is Some,
        _ => false,
    }
}

/// Whether the reference under the keyword leads somewhere in the document,
/// where the schema `parent` has a string there.
pub open spec fn reference_accepted(
    ctx: ContextView,
    parent: Seq<(Seq<char>, Json)>,
    keyword: Seq<char>,
) -> bool {
    obj_get(parent, keyword) matches Some(Json::String(reference)) ==> resolve(
        ctx.document,
        reference,
    ) is Some
}

/// Whether an `items` schema is checked as a type of its items alone: it is
/// `{"type": T}` with `T` one of `number`, `string`, `integer` and
/// `boolean`, and no `prefixItems` list stands beside it.
pub open spec fn checked_by_type(parent: Seq<(Seq<char>, Json)>, value: Json) -> bool {
    &&& prefix_of(parent) is None
    &&& simple_type(value) == Some("number"@) || simple_type(value) == Some("string"@)
        || simple_type(value) == Some("integer"@) || simple_type(value) == Some("boolean"@)
}

/// Whether nothing in the value refers to another schema: no object in it
/// has a member named `$ref`, `$recursiveRef` or `$dynamicRef`.
pub open spec fn reference_free(v: Json) -> bool
    decreases v,
{
    match v {
        Json::Array(items) => forall|i: int|
            0 <= i < items.len() ==> reference_free(#[trigger] items[i]),
        Json::Object(entries) => {
            &&& !obj_has(entries, "$ref"@)
            &&& !obj_has(entries, "$recursiveRef"@)
            &&& !obj_has(entries, "$dynamicRef"@)
            &&& forall|i: int| 0 <= i < entries.len() ==> reference_free((#[trigger] entries[i]).1)
        },
        _ => true,
    }
}

/// What is found under a name in an object without references has none.
pub proof fn lemma_found_reference_free(entries: Seq<(Seq<char>, Json)>, name: Seq<char>)
    requires
        reference_free(Json::Object(entries)),
        obj_get(entries, name) is Some,
    ensures
        reference_free(obj_get(entries, name)->0),
{
    crate::json::lemma_obj_get_member(entries, name);
    let i = choose|i: int|
        0 <= i < entries.len() && (#[trigger] entries[i]).0 == name && entries[i].1 == obj_get(
            entries,
            name,
        )->0;
    assert(reference_free(entries[i].1));
}

/// In an object without references, what is found under any name has none.
pub proof fn lemma_members_reference_free(entries: Seq<(Seq<char>, Json)>)
    ensures
        reference_free(Json::Object(entries)) ==> forall|name: Seq<char>| #[trigger]
            obj_get(entries, name) is Some ==> reference_free(obj_get(entries, name)->0),
{
    if reference_free(Json::Object(entries)) {
        assert forall|name: Seq<char>| #[trigger] obj_get(entries, name) is Some implies reference_free(
            obj_get(entries, name)->0,
        ) by {
            lemma_found_reference_free(entries, name);
        }
    }
}

/// Whether each schema of the list, at its position under `ctx`, is
/// accepted.
pub open spec fn all_accepted(ctx: ContextView, items: Seq<Json>) -> bool
    decreases json_size(Json::Array(items)), 0nat,
    via all_accepted_ends
{
    forall|i: int| 0 <= i < items.len() ==> accepted(ctx.at_index(i as nat), #[trigger] items[i])
}

#[via_fn]
proof fn all_accepted_ends(ctx: ContextView, items: Seq<Json>) {
    assert forall|i: int| 0 <= i < items.len() implies json_size(#[trigger] items[i]) < json_size(
        Json::Array(items),
    ) by {
        lemma_item_smaller(items, i);
    }
}

/// Whether the schema of each member, at its name under `ctx`, is accepted.
pub open spec fn members_accepted(ctx: ContextView, map: Seq<(Seq<char>, Json)>) -> bool
    decreases json_size(Json::Object(map)), 0nat,
    via members_accepted_ends
{
    forall|i: int| 0 <= i < map.len() ==> accepted(ctx.at((#[trigger] map[i]).0), map[i].1)
}

#[via_fn]
proof fn members_accepted_ends(ctx: ContextView, map: Seq<(Seq<char>, Json)>) {
    assert forall|i: int| 0 <= i < map.len() implies json_size((#[trigger] map[i]).1) < json_size(
        Json::Object(map),
    ) by {
        lemma_member_smaller(map, i);
    }
}

/// Whether each schema of the list that is an object is accepted, and its
/// filter too.
pub open spec fn branches_accepted(ctx: ContextView, items: Seq<Json>) -> bool
    decreases json_size(Json::Array(items)), 0nat,
    via branches_accepted_ends
{
    forall|i: int|
        0 <= i < items.len() && (#[trigger] items[i]) is Object ==> accepted(
            ctx.at_index(i as nat),
            items[i],
        ) && filter_accepted(ctx.at_index(i as nat), items[i]->Object_0)
}

#[via_fn]
proof fn branches_accepted_ends(ctx: ContextView, items: Seq<Json>) {
    assert forall|i: int| 0 <= i < items.len() implies json_size(#[trigger] items[i]) < json_size(
        Json::Array(items),
    ) by {
        lemma_item_smaller(items, i);
    }
}

/// Whether the filter of each member of `dependentSchemas` that is an
/// object is accepted.
pub open spec fn dependent_accepted(ctx: ContextView, map: Seq<(Seq<char>, Json)>) -> bool
    decreases json_size(Json::Object(map)), 0nat,
    via dependent_accepted_ends
{
    forall|i: int|
        0 <= i < map.len() && (#[trigger] map[i]).1 is Object ==> filter_accepted(
            ctx.at(map[i].0),
            map[i].1->Object_0,
        )
}

#[via_fn]
proof fn dependent_accepted_ends(ctx: ContextView, map: Seq<(Seq<char>, Json)>) {
    assert forall|i: int| 0 <= i < map.len() implies json_size((#[trigger] map[i]).1) < json_size(
        Json::Object(map),
    ) by {
        lemma_member_smaller(map, i);
    }
}

/// Whether each member of `patternProperties` is accepted: the engine
/// compiles its name as a pattern, and its schema is accepted.
pub open spec fn patterns_accepted(ctx: ContextView, map: Seq<(Seq<char>, Json)>) -> bool
    decreases json_size(Json::Object(map)), 0nat,
    via patterns_accepted_ends
{
    forall|i: int|
        0 <= i < map.len() ==> regex_compiles((#[trigger] map[i]).0) && accepted(
            ctx.at(map[i].0),
            map[i].1,
        )
}

#[via_fn]
proof fn patterns_accepted_ends(ctx: ContextView, map: Seq<(Seq<char>, Json)>) {
    assert forall|i: int| 0 <= i < map.len() implies json_size((#[trigger] map[i]).1) < json_size(
        Json::Object(map),
    ) by {
        lemma_member_smaller(map, i);
    }
}

/// Whether the filter of the schema `parent`, which lies at `ctx`, can be
/// built: each reference leads somewhere, each pattern compiles, and each
/// schema that the filter holds is accepted.
pub open spec fn filter_accepted(ctx: ContextView, parent: Seq<(Seq<char>, Json)>) -> bool
    decreases json_size(Json::Object(parent)), 0nat,
    via filter_accepted_ends
{
    &&& reference_accepted(ctx, parent, "$ref"@)
    &&& reference_accepted(ctx, parent, second_reference(ctx.draft))
    &&& obj_get(parent, "if"@) matches Some(Json::Object(condition)) ==> {
        &&& accepted(ctx.at("if"@), Json::Object(condition))
        &&& filter_accepted(ctx.at("if"@), condition)
        &&& obj_get(parent, "then"@) matches Some(Json::Object(sub)) ==> filter_accepted(
            ctx.at("then"@),
            sub,
        )
        &&& obj_get(parent, "else"@) matches Some(Json::Object(sub)) ==> filter_accepted(
            ctx.at("else"@),
            sub,
        )
    }
    &&& obj_get(parent, "properties"@) matches Some(Json::Object(map)) ==> members_accepted(
        ctx.at("properties"@),
        map,
    )
    &&& obj_get(parent, "dependentSchemas"@) matches Some(Json::Object(map)) ==> dependent_accepted(
        ctx.at("dependentSchemas"@),
        map,
    )
    &&& obj_get(parent, "additionalProperties"@) matches Some(value) ==> accepted(
        ctx.at("additionalProperties"@),
        value,
    )
    &&& obj_get(parent, "patternProperties"@) matches Some(Json::Object(map)) ==> patterns_accepted(
        ctx.at("patternProperties"@),
        map,
    )
    &&& obj_get(parent, "unevaluatedProperties"@) matches Some(value) ==> accepted(
        ctx.at("unevaluatedProperties"@),
        value,
    )
    &&& obj_get(parent, "allOf"@) matches Some(Json::Array(items)) ==> branches_accepted(
        ctx.at("allOf"@),
        items,
    )
    &&& obj_get(parent, "anyOf"@) matches Some(Json::Array(items)) ==> branches_accepted(
        ctx.at("anyOf"@),
        items,
    )
    &&& obj_get(parent, "oneOf"@) matches Some(Json::Array(items)) ==> branches_accepted(
        ctx.at("oneOf"@),
        items,
    )
}

/// What is found under a name is smaller than the object, for each name.
pub proof fn lemma_each_found_smaller(parent: Seq<(Seq<char>, Json)>)
    ensures
        forall|name: Seq<char>| #[trigger]
            obj_get(parent, name) is Some ==> json_size(obj_get(parent, name)->0) < json_size(
                Json::Object(parent),
            ),
{
    assert forall|name: Seq<char>| #[trigger] obj_get(parent, name) is Some implies json_size(
        obj_get(parent, name)->0,
    ) < json_size(Json::Object(parent)) by {
        lemma_found_smaller(parent, name);
    }
}

#[via_fn]
proof fn filter_accepted_ends(ctx: ContextView, parent: Seq<(Seq<char>, Json)>) {
    lemma_each_found_smaller(parent);
}

/// Whether the keyword of the schema `parent`, which has it, is accepted:
/// its value has the form that the keyword asks for, and the schemas in it
/// are accepted.
pub open spec fn keyword_accepted(
    ctx: ContextView,
    parent: Seq<(Seq<char>, Json)>,
    keyword: Keyword,
) -> bool
    decreases json_size(Json::Object(parent)), 1nat,
    via keyword_accepted_ends
{
    let value = obj_get(parent, keyword.name())->0;
    let here = ctx.location.push(Seg::Property(keyword.name()));
    obj_has(parent, keyword.name()) ==> match keyword {
        Keyword::Type => type_accepted(value),
        Keyword::Const => true,
        Keyword::Enum => value is Array,
        Keyword::MinLength => value is Number && value->Number_0 is PosInt,
        Keyword::MaxLength => value is Number && value->Number_0 is PosInt,
        Keyword::MinItems => value is Number && value->Number_0 is PosInt,
        Keyword::MaxItems => value is Number && value->Number_0 is PosInt,
        Keyword::MinProperties => value is Number && value->Number_0 is PosInt,
        Keyword::MaxProperties => value is Number && value->Number_0 is PosInt,
        Keyword::Required => fused_required(parent) || takes_required(parent) || required_outcome(
            value,
            here,
        ) is Ok,
        Keyword::Properties => taken_over(parent) || (value is Object && members_accepted(
            ctx.at("properties"@),
            value->Object_0,
        )),
        Keyword::AdditionalProperties => value == Json::Bool(true) || {
            &&& value == Json::Bool(false) || (value is Object && accepted(
                ctx.at("additionalProperties"@),
                value,
            ))
            &&& match obj_get(parent, "properties"@) {
                Some(Json::Object(map)) => members_accepted(ctx.at("properties"@), map),
                Some(_) => false,
                None => true,
            }
            &&& fused_required(parent) ==> obj_get(parent, "required"@)->0->Array_0[0] is String
        },
        Keyword::Items => match value {
            Json::Array(items) => all_accepted(ctx.at("items"@), items),
            Json::Object(_) | Json::Bool(false) => checked_by_type(parent, value) || accepted(
                ctx.at("items"@),
                value,
            ),
            _ => true,
        },
        Keyword::PrefixItems => value is Array && all_accepted(
            ctx.at("prefixItems"@),
            value->Array_0,
        ),
        Keyword::AllOf => value is Array && all_accepted(ctx.at("allOf"@), value->Array_0),
        Keyword::AnyOf => value is Array && all_accepted(ctx.at("anyOf"@), value->Array_0),
        Keyword::OneOf => value is Array && all_accepted(ctx.at("oneOf"@), value->Array_0),
        Keyword::Not => accepted(ctx.at("not"@), value),
        Keyword::DependentRequired => value is Object
            && crate::keywords::dependent_required::rules_accepted(value->Object_0, here),
        Keyword::PropertyNames => accepted(ctx.at("propertyNames"@), value),
        Keyword::Contains => {
            &&& accepted(ctx.at("contains"@), value)
            &&& crate::keywords::contains::bound_accepted(ctx.draft, parent, "minContains"@)
            &&& crate::keywords::contains::bound_accepted(ctx.draft, parent, "maxContains"@)
        },
        Keyword::UniqueItems => value is Bool,
        Keyword::DependentSchemas => value is Object && members_accepted(
            ctx.at("dependentSchemas"@),
            value->Object_0,
        ),
        Keyword::If => {
            &&& accepted(ctx.at("if"@), value)
            &&& obj_get(parent, "then"@) matches Some(then_) ==> accepted(ctx.at("then"@), then_)
            &&& obj_get(parent, "else"@) matches Some(else_) ==> accepted(ctx.at("else"@), else_)
        },
        Keyword::Ref => value is String && resolve(ctx.document, value->String_0) is Some,
        Keyword::UnevaluatedProperties => value == Json::Bool(true) || filter_accepted(ctx, parent),
    }
}

#[via_fn]
proof fn keyword_accepted_ends(ctx: ContextView, parent: Seq<(Seq<char>, Json)>, keyword: Keyword) {
    lemma_each_found_smaller(parent);
    crate::json::lemma_obj_has(parent, keyword.name());
}

/// How many keywords the library knows of and does not enforce.
pub const UNENFORCED_COUNT: usize = 13;

/// The keywords that ask something of an instance which the library does
/// not enforce. A schema that has one of them is refused, so that no
/// instance is admitted which the keyword would not admit.
pub open spec fn unenforced(position: nat) -> Seq<char> {
    if position == 0 {
        "pattern"@
    } else if position == 1 {
        "minimum"@
    } else if position == 2 {
        "maximum"@
    } else if position == 3 {
        "exclusiveMinimum"@
    } else if position == 4 {
        "exclusiveMaximum"@
    } else if position == 5 {
        "multipleOf"@
    } else if position == 6 {
        "patternProperties"@
    } else if position == 7 {
        "format"@
    } else if position == 8 {
        "dependencies"@
    } else if position == 9 {
        "additionalItems"@
    } else if position == 10 {
        "unevaluatedItems"@
    } else if position == 11 {
        "$recursiveRef"@
    } else {
        "$dynamicRef"@
    }
}

/// Whether the draft knows the keyword at the position of that list, and
/// asks something of an instance by it. A keyword that the draft does not
/// know is passed over; so is `format` in the drafts in which it only
/// notes something of a string.
pub open spec fn unenforced_known(position: nat, draft: Draft) -> bool {
    if position <= 6 {
        true
    } else if position <= 8 {
        draft == Draft::Draft4 || draft == Draft::Draft6 || draft == Draft::Draft7
    } else if position == 9 {
        draft != Draft::Draft202012
    } else if position == 10 {
        draft == Draft::Draft201909 || draft == Draft::Draft202012
    } else if position == 11 {
        draft == Draft::Draft201909
    } else {
        draft == Draft::Draft202012
    }
}

/// The position, from `from` on, of the first keyword of that list that the
/// draft knows and the schema `parent` has; the length of the list where
/// there is none.
pub open spec fn first_unenforced(draft: Draft, parent: Seq<(Seq<char>, Json)>, from: nat) -> nat
    decreases UNENFORCED_COUNT - from,
{
    if from >= UNENFORCED_COUNT {
        UNENFORCED_COUNT as nat
    } else if unenforced_known(from, draft) && obj_has(parent, unenforced(from)) {
        from
    } else {
        first_unenforced(draft, parent, from + 1)
    }
}

/// Whether the keyword at `position` of the order stands in the schema
/// `parent` and the draft knows it.
pub open spec fn present(ctx: ContextView, parent: Seq<(Seq<char>, Json)>, position: nat) -> bool {
    keyword_order(position).known_to(ctx.draft) && obj_has(parent, keyword_order(position).name())
}

/// Whether the schema that lies at `ctx` is accepted, which is to say that
/// it compiles:
/// - `true` and `false` are;
/// - an object is where it has no keyword that the library does not
///   enforce, and each of its keywords that the draft knows is accepted; in
///   the drafts in which a `$ref` hides the keywords beside it, an object
///   with a `$ref` is where that reference is;
/// - nothing else is.
pub open spec fn accepted(ctx: ContextView, schema: Json) -> bool
    decreases json_size(schema), 2nat,
{
    match schema {
        Json::Bool(_) => true,
        Json::Object(parent) => if ctx.draft.ref_hides_siblings() && obj_has(parent, "$ref"@) {
            keyword_accepted(ctx, parent, Keyword::Ref)
        } else {
            &&& first_unenforced(ctx.draft, parent, 0) >= UNENFORCED_COUNT
            &&& forall|position: nat|
                position < KEYWORD_COUNT && #[trigger] present(ctx, parent, position)
                    ==> keyword_accepted(ctx, parent, keyword_order(position))
        },
        _ => false,
    }
}

} // verus!
