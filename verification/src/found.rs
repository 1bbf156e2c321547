//! Which places the references of a schema lead to, in the order in which
//! compiling the schema meets them.
use vstd::prelude::*;
use crate::compiler::{
    ContextView, Keyword, KEYWORD_COUNT, json_size, keyword_order, lemma_item_smaller,
    lemma_member_smaller, resolve,
};
use crate::json::{Json, obj_get, obj_has};
use crate::keywords::properties::taken_over;
use crate::paths::{Location, Seg};
use crate::rules::{checked_by_type, lemma_each_found_smaller, present};
use crate::shape::second_reference;

verus! {

/// The places that the locations of a list stand for, in their order.
pub open spec fn places(refs: Seq<Location>) -> Seq<Seq<Seg>> {
    Seq::new(refs.len(), |i: int| refs[i]@)
}

/// The place that a `$ref` with this value leads to, unless it leads
/// nowhere or to the schema in which it stands.
pub open spec fn ref_found(ctx: ContextView, value: Json) -> Seq<Seq<Seg>> {
    match value {
        Json::String(reference) => match resolve(ctx.document, reference) {
            Some((target, _)) => if target == ctx.location {
                Seq::empty()
            } else {
                seq![target]
            },
            None => Seq::empty(),
        },
        _ => Seq::empty(),
    }
}

/// The place that the reference under the keyword leads to, where an
/// object lies there.
pub open spec fn target_found(
    ctx: ContextView,
    parent: Seq<(Seq<char>, Json)>,
    keyword: Seq<char>,
) -> Seq<Seq<Seg>> {
    match obj_get(parent, keyword) {
        Some(Json::String(reference)) => match resolve(ctx.document, reference) {
            Some((target, Json::Object(_))) => seq![target],
            _ => Seq::empty(),
        },
        _ => Seq::empty(),
    }
}

/// What the first `n` schemas of a list find.
pub open spec fn all_found(ctx: ContextView, items: Seq<Json>, n: nat) -> Seq<Seq<Seg>>
    decreases json_size(Json::Array(items)), n,
    via all_found_ends
{
    if n == 0 || n > items.len() {
        Seq::empty()
    } else {
        all_found(ctx, items, (n - 1) as nat) + found(ctx.at_index((n - 1) as nat), items[n - 1])
    }
}

#[via_fn]
proof fn all_found_ends(ctx: ContextView, items: Seq<Json>, n: nat) {
    if !(n == 0 || n > items.len()) {
        lemma_item_smaller(items, n - 1);
    }
}

/// What the schemas of the first `n` members find.
pub open spec fn members_found(ctx: ContextView, map: Seq<(Seq<char>, Json)>, n: nat) -> Seq<
    Seq<Seg>,
>
    decreases json_size(Json::Object(map)), n,
    via members_found_ends
{
    if n == 0 || n > map.len() {
        Seq::empty()
    } else {
        members_found(ctx, map, (n - 1) as nat) + found(ctx.at(map[n - 1].0), map[n - 1].1)
    }
}

#[via_fn]
proof fn members_found_ends(ctx: ContextView, map: Seq<(Seq<char>, Json)>, n: nat) {
    if !(n == 0 || n > map.len()) {
        lemma_member_smaller(map, n - 1);
    }
}

/// What the first `n` branches find: each that is an object, its schema
/// and then its filter.
pub open spec fn branches_found(ctx: ContextView, items: Seq<Json>, n: nat) -> Seq<Seq<Seg>>
    decreases json_size(Json::Array(items)), n,
    via branches_found_ends
{
    if n == 0 || n > items.len() {
        Seq::empty()
    } else {
        branches_found(ctx, items, (n - 1) as nat) + if items[n - 1] is Object {
            found(ctx.at_index((n - 1) as nat), items[n - 1]) + filter_found(
                ctx.at_index((n - 1) as nat),
                items[n - 1]->Object_0,
            )
        } else {
            Seq::empty()
        }
    }
}

#[via_fn]
proof fn branches_found_ends(ctx: ContextView, items: Seq<Json>, n: nat) {
    if !(n == 0 || n > items.len()) {
        lemma_item_smaller(items, n - 1);
    }
}

/// What the filters of the first `n` members of `dependentSchemas` find.
pub open spec fn dependent_found(ctx: ContextView, map: Seq<(Seq<char>, Json)>, n: nat) -> Seq<
    Seq<Seg>,
>
    decreases json_size(Json::Object(map)), n,
    via dependent_found_ends
{
    if n == 0 || n > map.len() {
        Seq::empty()
    } else {
        dependent_found(ctx, map, (n - 1) as nat) + if map[n - 1].1 is Object {
            filter_found(ctx.at(map[n - 1].0), map[n - 1].1->Object_0)
        } else {
            Seq::empty()
        }
    }
}

#[via_fn]
proof fn dependent_found_ends(ctx: ContextView, map: Seq<(Seq<char>, Json)>, n: nat) {
    if !(n == 0 || n > map.len()) {
        lemma_member_smaller(map, n - 1);
    }
}

/// What the schema under the keyword finds, where the schema `parent` has
/// the keyword.
pub open spec fn node_found(
    ctx: ContextView,
    parent: Seq<(Seq<char>, Json)>,
    keyword: Seq<char>,
) -> Seq<Seq<Seg>>
    decreases json_size(Json::Object(parent)), 1nat,
    via node_found_ends
{
    match obj_get(parent, keyword) {
        Some(value) => found(ctx.at(keyword), value),
        None => Seq::empty(),
    }
}

#[via_fn]
proof fn node_found_ends(ctx: ContextView, parent: Seq<(Seq<char>, Json)>, keyword: Seq<char>) {
    lemma_each_found_smaller(parent);
}

/// What the filter of the schema under the keyword finds, where the schema
/// `parent` has an object there.
pub open spec fn sub_filter_found(
    ctx: ContextView,
    parent: Seq<(Seq<char>, Json)>,
    keyword: Seq<char>,
) -> Seq<Seq<Seg>>
    decreases json_size(Json::Object(parent)), 1nat,
    via sub_filter_found_ends
{
    match obj_get(parent, keyword) {
        Some(Json::Object(sub)) => filter_found(ctx.at(keyword), sub),
        _ => Seq::empty(),
    }
}

#[via_fn]
proof fn sub_filter_found_ends(ctx: ContextView, parent: Seq<(Seq<char>, Json)>, keyword: Seq<char>) {
    lemma_each_found_smaller(parent);
}

/// What the branches under the keyword find, where the schema `parent` has
/// a list there.
pub open spec fn sub_branches_found(
    ctx: ContextView,
    parent: Seq<(Seq<char>, Json)>,
    keyword: Seq<char>,
) -> Seq<Seq<Seg>>
    decreases json_size(Json::Object(parent)), 1nat,
    via sub_branches_found_ends
{
    match obj_get(parent, keyword) {
        Some(Json::Array(items)) => branches_found(ctx.at(keyword), items, items.len()),
        _ => Seq::empty(),
    }
}

#[via_fn]
proof fn sub_branches_found_ends(
    ctx: ContextView,
    parent: Seq<(Seq<char>, Json)>,
    keyword: Seq<char>,
) {
    lemma_each_found_smaller(parent);
}

/// What the schemas of the members under the keyword find, where the
/// schema `parent` has an object there.
pub open spec fn sub_members_found(
    ctx: ContextView,
    parent: Seq<(Seq<char>, Json)>,
    keyword: Seq<char>,
) -> Seq<Seq<Seg>>
    decreases json_size(Json::Object(parent)), 1nat,
    via sub_members_found_ends
{
    match obj_get(parent, keyword) {
        Some(Json::Object(map)) => members_found(ctx.at(keyword), map, map.len()),
        _ => Seq::empty(),
    }
}

#[via_fn]
proof fn sub_members_found_ends(
    ctx: ContextView,
    parent: Seq<(Seq<char>, Json)>,
    keyword: Seq<char>,
) {
    lemma_each_found_smaller(parent);
}

/// What the filters of `dependentSchemas` find, where the schema `parent`
/// has an object there.
pub open spec fn sub_dependent_found(ctx: ContextView, parent: Seq<(Seq<char>, Json)>) -> Seq<
    Seq<Seg>,
>
    decreases json_size(Json::Object(parent)), 1nat,
    via sub_dependent_found_ends
{
    match obj_get(parent, "dependentSchemas"@) {
        Some(Json::Object(map)) => dependent_found(ctx.at("dependentSchemas"@), map, map.len()),
        _ => Seq::empty(),
    }
}

#[via_fn]
proof fn sub_dependent_found_ends(ctx: ContextView, parent: Seq<(Seq<char>, Json)>) {
    lemma_each_found_smaller(parent);
}

/// What `if`, `then` and `else` find in a filter: where `if` is an object,
/// the filter of `then`, the filter of `else`, the schema of `if` and the
/// filter of `if`.
pub open spec fn conditional_found(ctx: ContextView, parent: Seq<(Seq<char>, Json)>) -> Seq<
    Seq<Seg>,
>
    decreases json_size(Json::Object(parent)), 2nat,
    via conditional_found_ends
{
    match obj_get(parent, "if"@) {
        Some(Json::Object(condition)) => sub_filter_found(ctx, parent, "then"@) + sub_filter_found(
            ctx,
            parent,
            "else"@,
        ) + found(ctx.at("if"@), Json::Object(condition)) + filter_found(ctx.at("if"@), condition),
        _ => Seq::empty(),
    }
}

#[via_fn]
proof fn conditional_found_ends(ctx: ContextView, parent: Seq<(Seq<char>, Json)>) {
    lemma_each_found_smaller(parent);
}

/// What the filter of the schema `parent` finds: what its parts find, in
/// the order in which they are built.
pub open spec fn filter_found(ctx: ContextView, parent: Seq<(Seq<char>, Json)>) -> Seq<Seq<Seg>>
    decreases json_size(Json::Object(parent)), 3nat,
{
    target_found(ctx, parent, "$ref"@) + target_found(ctx, parent, second_reference(ctx.draft))
        + conditional_found(ctx, parent) + sub_members_found(ctx, parent, "properties"@)
        + sub_dependent_found(ctx, parent) + node_found(ctx, parent, "additionalProperties"@)
        + sub_members_found(ctx, parent, "patternProperties"@) + node_found(
        ctx,
        parent,
        "unevaluatedProperties"@,
    ) + sub_branches_found(ctx, parent, "allOf"@) + sub_branches_found(ctx, parent, "anyOf"@)
        + sub_branches_found(ctx, parent, "oneOf"@)
}

/// Eleven lists, each added behind what was met before, are met one
/// after the other.
pub proof fn lemma_met_in_turn(
    m0: Seq<Seq<Seg>>,
    m1: Seq<Seq<Seg>>,
    m2: Seq<Seq<Seg>>,
    m3: Seq<Seq<Seg>>,
    m4: Seq<Seq<Seg>>,
    m5: Seq<Seq<Seg>>,
    m6: Seq<Seq<Seg>>,
    m7: Seq<Seq<Seg>>,
    m8: Seq<Seq<Seg>>,
    m9: Seq<Seq<Seg>>,
    m10: Seq<Seq<Seg>>,
    m11: Seq<Seq<Seg>>,
    p1: Seq<Seq<Seg>>,
    p2: Seq<Seq<Seg>>,
    p3: Seq<Seq<Seg>>,
    p4: Seq<Seq<Seg>>,
    p5: Seq<Seq<Seg>>,
    p6: Seq<Seq<Seg>>,
    p7: Seq<Seq<Seg>>,
    p8: Seq<Seq<Seg>>,
    p9: Seq<Seq<Seg>>,
    p10: Seq<Seq<Seg>>,
    p11: Seq<Seq<Seg>>,
)
    requires
        m1 == m0 + p1,
        m2 == m1 + p2,
        m3 == m2 + p3,
        m4 == m3 + p4,
        m5 == m4 + p5,
        m6 == m5 + p6,
        m7 == m6 + p7,
        m8 == m7 + p8,
        m9 == m8 + p9,
        m10 == m9 + p10,
        m11 == m10 + p11,
    ensures
        m11 == m0 + (p1 + p2 + p3 + p4 + p5 + p6 + p7 + p8 + p9 + p10 + p11),
{
    assert(m2 =~= m0 + (p1 + p2));
    assert(m3 =~= m0 + (p1 + p2 + p3));
    assert(m4 =~= m0 + (p1 + p2 + p3 + p4));
    assert(m5 =~= m0 + (p1 + p2 + p3 + p4 + p5));
    assert(m6 =~= m0 + (p1 + p2 + p3 + p4 + p5 + p6));
    assert(m7 =~= m0 + (p1 + p2 + p3 + p4 + p5 + p6 + p7));
    assert(m8 =~= m0 + (p1 + p2 + p3 + p4 + p5 + p6 + p7 + p8));
    assert(m9 =~= m0 + (p1 + p2 + p3 + p4 + p5 + p6 + p7 + p8 + p9));
    assert(m10 =~= m0 + (p1 + p2 + p3 + p4 + p5 + p6 + p7 + p8 + p9 + p10));
    assert(m11 =~= m0 + (p1 + p2 + p3 + p4 + p5 + p6 + p7 + p8 + p9 + p10 + p11));
}

/// What is met while the parts of a filter are built one after the other
/// is what the filter finds.
pub proof fn lemma_filter_found(
    ctx: ContextView,
    parent: Seq<(Seq<char>, Json)>,
    m0: Seq<Seq<Seg>>,
    m1: Seq<Seq<Seg>>,
    m2: Seq<Seq<Seg>>,
    m3: Seq<Seq<Seg>>,
    m4: Seq<Seq<Seg>>,
    m5: Seq<Seq<Seg>>,
    m6: Seq<Seq<Seg>>,
    m7: Seq<Seq<Seg>>,
    m8: Seq<Seq<Seg>>,
    m9: Seq<Seq<Seg>>,
    m10: Seq<Seq<Seg>>,
    m11: Seq<Seq<Seg>>,
)
    requires
        m1 == m0 + target_found(ctx, parent, "$ref"@),
        m2 == m1 + target_found(ctx, parent, second_reference(ctx.draft)),
        m3 == m2 + conditional_found(ctx, parent),
        m4 == m3 + sub_members_found(ctx, parent, "properties"@),
        m5 == m4 + sub_dependent_found(ctx, parent),
        m6 == m5 + node_found(ctx, parent, "additionalProperties"@),
        m7 == m6 + sub_members_found(ctx, parent, "patternProperties"@),
        m8 == m7 + node_found(ctx, parent, "unevaluatedProperties"@),
        m9 == m8 + sub_branches_found(ctx, parent, "allOf"@),
        m10 == m9 + sub_branches_found(ctx, parent, "anyOf"@),
        m11 == m10 + sub_branches_found(ctx, parent, "oneOf"@),
    ensures
        m11 == m0 + filter_found(ctx, parent),
{
    lemma_met_in_turn(
        m0,
        m1,
        m2,
        m3,
        m4,
        m5,
        m6,
        m7,
        m8,
        m9,
        m10,
        m11,
        target_found(ctx, parent, "$ref"@),
        target_found(ctx, parent, second_reference(ctx.draft)),
        conditional_found(ctx, parent),
        sub_members_found(ctx, parent, "properties"@),
        sub_dependent_found(ctx, parent),
        node_found(ctx, parent, "additionalProperties"@),
        sub_members_found(ctx, parent, "patternProperties"@),
        node_found(ctx, parent, "unevaluatedProperties"@),
        sub_branches_found(ctx, parent, "allOf"@),
        sub_branches_found(ctx, parent, "anyOf"@),
        sub_branches_found(ctx, parent, "oneOf"@),
    );
}

/// What a list of schemas under a keyword finds.
pub open spec fn list_found(ctx: ContextView, keyword: Seq<char>, value: Json) -> Seq<Seq<Seg>> {
    match value {
        Json::Array(items) => all_found(ctx.at(keyword), items, items.len()),
        _ => Seq::empty(),
    }
}

/// What the keyword of the schema `parent` finds.
pub open spec fn keyword_found(
    ctx: ContextView,
    parent: Seq<(Seq<char>, Json)>,
    keyword: Keyword,
) -> Seq<Seq<Seg>>
    decreases json_size(Json::Object(parent)), 4nat,
    via keyword_found_ends
{
    let value = obj_get(parent, keyword.name())->0;
    if !obj_has(parent, keyword.name()) {
        Seq::empty()
    } else {
        match keyword {
            Keyword::Properties => if taken_over(parent) {
                Seq::empty()
            } else {
                sub_members_found(ctx, parent, "properties"@)
            },
            Keyword::AdditionalProperties => if value == Json::Bool(true) {
                Seq::empty()
            } else {
                (if value is Object {
                    found(ctx.at("additionalProperties"@), value)
                } else {
                    Seq::empty()
                }) + sub_members_found(ctx, parent, "properties"@)
            },
            Keyword::Items => match value {
                Json::Array(items) => all_found(ctx.at("items"@), items, items.len()),
                Json::Object(_) | Json::Bool(false) => if checked_by_type(parent, value) {
                    Seq::empty()
                } else {
                    found(ctx.at("items"@), value)
                },
                _ => Seq::empty(),
            },
            Keyword::PrefixItems => match value {
                Json::Array(items) => all_found(ctx.at("prefixItems"@), items, items.len()),
                _ => Seq::empty(),
            },
            Keyword::AllOf => match value {
                Json::Array(items) => all_found(ctx.at("allOf"@), items, items.len()),
                _ => Seq::empty(),
            },
            Keyword::AnyOf => match value {
                Json::Array(items) => all_found(ctx.at("anyOf"@), items, items.len()),
                _ => Seq::empty(),
            },
            Keyword::OneOf => match value {
                Json::Array(items) => all_found(ctx.at("oneOf"@), items, items.len()),
                _ => Seq::empty(),
            },
            Keyword::Not => found(ctx.at("not"@), value),
            Keyword::PropertyNames => found(ctx.at("propertyNames"@), value),
            Keyword::Contains => found(ctx.at("contains"@), value),
            Keyword::DependentSchemas => match value {
                Json::Object(map) => members_found(ctx.at("dependentSchemas"@), map, map.len()),
                _ => Seq::empty(),
            },
            Keyword::If => found(ctx.at("if"@), value) + node_found(ctx, parent, "then"@) + node_found(
                ctx,
                parent,
                "else"@,
            ),
            Keyword::Ref => ref_found(ctx, value),
            Keyword::UnevaluatedProperties => if value == Json::Bool(true) {
                Seq::empty()
            } else {
                filter_found(ctx, parent)
            },
            _ => Seq::empty(),
        }
    }
}

#[via_fn]
proof fn keyword_found_ends(ctx: ContextView, parent: Seq<(Seq<char>, Json)>, keyword: Keyword) {
    lemma_each_found_smaller(parent);
    crate::json::lemma_obj_has(parent, keyword.name());
}

/// What the first `n` keywords of the order find in the schema `parent`.
pub open spec fn keywords_found(ctx: ContextView, parent: Seq<(Seq<char>, Json)>, n: nat) -> Seq<
    Seq<Seg>,
>
    decreases json_size(Json::Object(parent)), n + 5,
{
    if n == 0 || n > KEYWORD_COUNT {
        Seq::empty()
    } else {
        keywords_found(ctx, parent, (n - 1) as nat) + if present(ctx, parent, (n - 1) as nat) {
            keyword_found(ctx, parent, keyword_order((n - 1) as nat))
        } else {
            Seq::empty()
        }
    }
}

/// The places that the references of the schema at `ctx` lead to, in the
/// order in which compiling the schema meets them: those of a `$ref`, and
/// those of the filter of `unevaluatedProperties`. A place is found as
/// often as a reference leads to it.
pub open spec fn found(ctx: ContextView, schema: Json) -> Seq<Seq<Seg>>
    decreases json_size(schema), KEYWORD_COUNT + 6,
{
    match schema {
        Json::Object(parent) => if ctx.draft.ref_hides_siblings() && obj_has(parent, "$ref"@) {
            keyword_found(ctx, parent, Keyword::Ref)
        } else {
            keywords_found(ctx, parent, KEYWORD_COUNT as nat)
        },
        _ => Seq::empty(),
    }
}

} // verus!
