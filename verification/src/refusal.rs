//! Why a schema is refused: the error of the first rule that it breaks, as
//! the compiler meets the rules.
use vstd::prelude::*;
use crate::compiler::{
    ContextView, Keyword, KEYWORD_COUNT, dangling, fused_required, json_size, keyword_order,
    lemma_item_smaller, lemma_member_smaller, resolve,
};
use crate::error::{ErrorView, KindView, TypeKindView, ValidationError};
use crate::json::{Json, obj_get, obj_has};
use crate::keywords::properties::{taken_over, takes_required};
use crate::keywords::required::{required_outcome, wrong_type};
use crate::node::CompilationResult;
use crate::paths::Seg;
use crate::pattern::regex_compiles;
use crate::rules::{
    UNENFORCED_COUNT, accepted, checked_by_type, filter_accepted, first_unenforced,
    keyword_accepted, lemma_each_found_smaller, present, unenforced,
};
use crate::shape::second_reference;
use crate::types::JsonType;

verus! {

/// The error of a result, if it is one.
pub open spec fn fault<T>(r: Result<T, ValidationError>) -> Option<ErrorView> {
    match r {
        Ok(_) => None,
        Err(e) => Some(e@),
    }
}

/// The error of what compiling a keyword gave, if it is one.
pub open spec fn keyword_fault(r: Option<CompilationResult>) -> Option<ErrorView> {
    match r {
        Some(Err(e)) => Some(e@),
        _ => None,
    }
}

/// The first of two errors that is there.
pub open spec fn first_of(a: Option<ErrorView>, b: Option<ErrorView>) -> Option<ErrorView> {
    if a is Some {
        a
    } else {
        b
    }
}

/// The error of a schema in which `found`, at `location`, breaks a rule of
/// the given kind.
pub open spec fn schema_fault(kind: KindView, location: Seq<Seg>, found: Json) -> ErrorView {
    ErrorView {
        kind,
        instance: found,
        instance_path: Seq::empty(),
        schema_path: location,
        evaluation_path: location,
    }
}

/// The error of a value that stands for a schema and is neither `true` or
/// `false` nor an object.
pub open spec fn not_a_schema(location: Seq<Seg>, found: Json) -> ErrorView {
    schema_fault(
        KindView::Type { kind: TypeKindView::Multiple(seq![JsonType::Boolean, JsonType::Object]) },
        location,
        found,
    )
}

/// The seven names that `type` may give, as a value.
pub open spec fn known_types() -> Json {
    Json::Array(
        seq![
            Json::String("array"@),
            Json::String("boolean"@),
            Json::String("integer"@),
            Json::String("null"@),
            Json::String("number"@),
            Json::String("object"@),
            Json::String("string"@),
        ],
    )
}

/// Whether the value names a type.
pub open spec fn names_type(value: Json) -> bool {
    value matches Json::String(name) && JsonType::named(name) is Some
}

/// The position of the first item, from `from` on, that names no type; the
/// number of the items where each does.
pub open spec fn first_unknown(items: Seq<Json>, from: nat) -> nat
    decreases items.len() - from,
{
    if from >= items.len() {
        items.len()
    } else if !names_type(items[from as int]) {
        from
    } else {
        first_unknown(items, from + 1)
    }
}

/// The error of one value that should name a type and does not.
pub open spec fn unknown_type(location: Seq<Seg>, value: Json) -> ErrorView {
    if value is String {
        schema_fault(KindView::Enum { options: known_types() }, location, value)
    } else {
        wrong_type(location, value, JsonType::String)
    }
}

/// The error of a `type` keyword, at `location`, whose value is not the
/// name of a type or a list of such names that is not empty.
pub open spec fn type_refusal(location: Seq<Seg>, value: Json) -> Option<ErrorView> {
    match value {
        Json::String(_) => if names_type(value) {
            None
        } else {
            Some(unknown_type(location, value))
        },
        Json::Array(items) => if items.len() == 0 {
            Some(schema_fault(KindView::MinItems { limit: 1 }, location, value))
        } else if first_unknown(items, 0) < items.len() {
            Some(unknown_type(location, items[first_unknown(items, 0) as int]))
        } else {
            None
        },
        _ => Some(
            schema_fault(
                KindView::Type {
                    kind: TypeKindView::Multiple(seq![JsonType::String, JsonType::Array]),
                },
                location,
                value,
            ),
        ),
    }
}

/// The error of a reference under the keyword that leads nowhere in the
/// document, where the schema `parent` has a string there.
pub open spec fn reference_refusal(
    ctx: ContextView,
    parent: Seq<(Seq<char>, Json)>,
    keyword: Seq<char>,
) -> Option<ErrorView> {
    match obj_get(parent, keyword) {
        Some(Json::String(reference)) => if resolve(ctx.document, reference) is None {
            Some(dangling(ctx.location, reference))
        } else {
            None
        },
        _ => None,
    }
}

/// The position of the first schema of the list, from `from` on, that is
/// not accepted; the number of the schemas where each is.
pub open spec fn first_refused(ctx: ContextView, items: Seq<Json>, from: nat) -> nat
    decreases items.len() - from,
{
    if from >= items.len() {
        items.len()
    } else if !accepted(ctx.at_index(from), items[from as int]) {
        from
    } else {
        first_refused(ctx, items, from + 1)
    }
}

/// The error of a list of schemas: that of the first that is not accepted.
pub open spec fn all_refusal(ctx: ContextView, items: Seq<Json>) -> Option<ErrorView>
    decreases json_size(Json::Array(items)), 0nat,
    via all_refusal_ends
{
    let i = first_refused(ctx, items, 0);
    if i < items.len() {
        refusal(ctx.at_index(i), items[i as int])
    } else {
        None
    }
}

#[via_fn]
proof fn all_refusal_ends(ctx: ContextView, items: Seq<Json>) {
    let i = first_refused(ctx, items, 0);
    if i < items.len() {
        lemma_item_smaller(items, i as int);
    }
}

/// The position of the first member, from `from` on, whose schema is not
/// accepted; the number of the members where each is.
pub open spec fn first_refused_member(
    ctx: ContextView,
    map: Seq<(Seq<char>, Json)>,
    from: nat,
) -> nat
    decreases map.len() - from,
{
    if from >= map.len() {
        map.len()
    } else if !accepted(ctx.at(map[from as int].0), map[from as int].1) {
        from
    } else {
        first_refused_member(ctx, map, from + 1)
    }
}

/// The error of the schemas of the members of an object: that of the first
/// that is not accepted.
pub open spec fn members_refusal(ctx: ContextView, map: Seq<(Seq<char>, Json)>) -> Option<ErrorView>
    decreases json_size(Json::Object(map)), 0nat,
    via members_refusal_ends
{
    let i = first_refused_member(ctx, map, 0);
    if i < map.len() {
        refusal(ctx.at(map[i as int].0), map[i as int].1)
    } else {
        None
    }
}

#[via_fn]
proof fn members_refusal_ends(ctx: ContextView, map: Seq<(Seq<char>, Json)>) {
    let i = first_refused_member(ctx, map, 0);
    if i < map.len() {
        lemma_member_smaller(map, i as int);
    }
}

/// Whether a branch is accepted: it is no object, or it is accepted and
/// its filter too.
pub open spec fn branch_accepted(ctx: ContextView, item: Json) -> bool {
    item is Object ==> accepted(ctx, item) && filter_accepted(ctx, item->Object_0)
}

/// The position of the first branch, from `from` on, that is not accepted;
/// the number of the branches where each is.
pub open spec fn first_refused_branch(ctx: ContextView, items: Seq<Json>, from: nat) -> nat
    decreases items.len() - from,
{
    if from >= items.len() {
        items.len()
    } else if !branch_accepted(ctx.at_index(from), items[from as int]) {
        from
    } else {
        first_refused_branch(ctx, items, from + 1)
    }
}

/// The error of a list of branches: that of the first that is not
/// accepted, which is the error of its schema or else of its filter.
pub open spec fn branches_refusal(ctx: ContextView, items: Seq<Json>) -> Option<ErrorView>
    decreases json_size(Json::Array(items)), 0nat,
    via branches_refusal_ends
{
    let i = first_refused_branch(ctx, items, 0);
    if i < items.len() && items[i as int] is Object {
        first_of(
            refusal(ctx.at_index(i), items[i as int]),
            filter_refusal(ctx.at_index(i), items[i as int]->Object_0),
        )
    } else {
        None
    }
}

#[via_fn]
proof fn branches_refusal_ends(ctx: ContextView, items: Seq<Json>) {
    let i = first_refused_branch(ctx, items, 0);
    if i < items.len() {
        lemma_item_smaller(items, i as int);
    }
}

/// Whether the filter of a member of `dependentSchemas` is accepted, where
/// the member is an object.
pub open spec fn dependent_member_accepted(ctx: ContextView, member: (Seq<char>, Json)) -> bool {
    member.1 is Object ==> filter_accepted(ctx.at(member.0), member.1->Object_0)
}

/// The position of the first member of `dependentSchemas`, from `from` on,
/// whose filter is not accepted; the number of the members where each is.
pub open spec fn first_refused_dependent(
    ctx: ContextView,
    map: Seq<(Seq<char>, Json)>,
    from: nat,
) -> nat
    decreases map.len() - from,
{
    if from >= map.len() {
        map.len()
    } else if !dependent_member_accepted(ctx, map[from as int]) {
        from
    } else {
        first_refused_dependent(ctx, map, from + 1)
    }
}

/// The error of the filters of `dependentSchemas`: that of the first that
/// is not accepted.
pub open spec fn dependent_refusal(ctx: ContextView, map: Seq<(Seq<char>, Json)>) -> Option<
    ErrorView,
>
    decreases json_size(Json::Object(map)), 0nat,
    via dependent_refusal_ends
{
    let i = first_refused_dependent(ctx, map, 0);
    if i < map.len() && map[i as int].1 is Object {
        filter_refusal(ctx.at(map[i as int].0), map[i as int].1->Object_0)
    } else {
        None
    }
}

#[via_fn]
proof fn dependent_refusal_ends(ctx: ContextView, map: Seq<(Seq<char>, Json)>) {
    let i = first_refused_dependent(ctx, map, 0);
    if i < map.len() {
        lemma_member_smaller(map, i as int);
    }
}

/// Whether a member of `patternProperties` is accepted: its name compiles
/// as a pattern, and its schema is accepted.
pub open spec fn pattern_member_accepted(ctx: ContextView, member: (Seq<char>, Json)) -> bool {
    regex_compiles(member.0) && accepted(ctx.at(member.0), member.1)
}

/// The position of the first member of `patternProperties`, from `from`
/// on, that is not accepted; the number of the members where each is.
pub open spec fn first_refused_pattern(
    ctx: ContextView,
    map: Seq<(Seq<char>, Json)>,
    from: nat,
) -> nat
    decreases map.len() - from,
{
    if from >= map.len() {
        map.len()
    } else if !pattern_member_accepted(ctx, map[from as int]) {
        from
    } else {
        first_refused_pattern(ctx, map, from + 1)
    }
}

/// The error of a name that does not compile as a pattern, in a schema
/// that lies at `location`; it shows the schema under that name.
pub open spec fn bad_pattern(location: Seq<Seg>, found: Json) -> ErrorView {
    schema_fault(KindView::Format { format: "regex"@ }, location, found)
}

/// The error of the members of `patternProperties`, which stand in the
/// schema at `location`: that of the first member whose name does not
/// compile as a pattern or whose schema is not accepted.
pub open spec fn patterns_refusal(
    location: Seq<Seg>,
    ctx: ContextView,
    map: Seq<(Seq<char>, Json)>,
) -> Option<ErrorView>
    decreases json_size(Json::Object(map)), 0nat,
    via patterns_refusal_ends
{
    let i = first_refused_pattern(ctx, map, 0);
    if i < map.len() {
        if !regex_compiles(map[i as int].0) {
            Some(bad_pattern(location, map[i as int].1))
        } else {
            refusal(ctx.at(map[i as int].0), map[i as int].1)
        }
    } else {
        None
    }
}

#[via_fn]
proof fn patterns_refusal_ends(location: Seq<Seg>, ctx: ContextView, map: Seq<(Seq<char>, Json)>) {
    let i = first_refused_pattern(ctx, map, 0);
    if i < map.len() {
        lemma_member_smaller(map, i as int);
    }
}

/// The error of the schema under the keyword, where the schema `parent`
/// has the keyword.
pub open spec fn node_refusal(
    ctx: ContextView,
    parent: Seq<(Seq<char>, Json)>,
    keyword: Seq<char>,
) -> Option<ErrorView>
    decreases json_size(Json::Object(parent)), 0nat,
    via node_refusal_ends
{
    match obj_get(parent, keyword) {
        Some(value) => refusal(ctx.at(keyword), value),
        None => None,
    }
}

#[via_fn]
proof fn node_refusal_ends(ctx: ContextView, parent: Seq<(Seq<char>, Json)>, keyword: Seq<char>) {
    lemma_each_found_smaller(parent);
}

/// The error of the filter of the schema under the keyword, where the
/// schema `parent` has an object there.
pub open spec fn sub_filter_refusal(
    ctx: ContextView,
    parent: Seq<(Seq<char>, Json)>,
    keyword: Seq<char>,
) -> Option<ErrorView>
    decreases json_size(Json::Object(parent)), 0nat,
    via sub_filter_refusal_ends
{
    match obj_get(parent, keyword) {
        Some(Json::Object(sub)) => filter_refusal(ctx.at(keyword), sub),
        _ => None,
    }
}

#[via_fn]
proof fn sub_filter_refusal_ends(
    ctx: ContextView,
    parent: Seq<(Seq<char>, Json)>,
    keyword: Seq<char>,
) {
    lemma_each_found_smaller(parent);
}

/// The error of the branches under the keyword, where the schema `parent`
/// has a list there.
pub open spec fn sub_branches_refusal(
    ctx: ContextView,
    parent: Seq<(Seq<char>, Json)>,
    keyword: Seq<char>,
) -> Option<ErrorView>
    decreases json_size(Json::Object(parent)), 0nat,
    via sub_branches_refusal_ends
{
    match obj_get(parent, keyword) {
        Some(Json::Array(items)) => branches_refusal(ctx.at(keyword), items),
        _ => None,
    }
}

#[via_fn]
proof fn sub_branches_refusal_ends(
    ctx: ContextView,
    parent: Seq<(Seq<char>, Json)>,
    keyword: Seq<char>,
) {
    lemma_each_found_smaller(parent);
}

/// The error of `if`, `then` and `else` in a filter: where `if` is an
/// object, the first error of the filter of `then`, of the filter of
/// `else`, of the schema of `if`, and of the filter of `if`.
pub open spec fn conditional_refusal(ctx: ContextView, parent: Seq<(Seq<char>, Json)>) -> Option<
    ErrorView,
>
    decreases json_size(Json::Object(parent)), 1nat,
    via conditional_refusal_ends
{
    match obj_get(parent, "if"@) {
        Some(Json::Object(condition)) => first_of(
            sub_filter_refusal(ctx, parent, "then"@),
            first_of(
                sub_filter_refusal(ctx, parent, "else"@),
                first_of(
                    refusal(ctx.at("if"@), Json::Object(condition)),
                    filter_refusal(ctx.at("if"@), condition),
                ),
            ),
        ),
        _ => None,
    }
}

#[via_fn]
proof fn conditional_refusal_ends(ctx: ContextView, parent: Seq<(Seq<char>, Json)>) {
    lemma_each_found_smaller(parent);
}

/// The error of the schemas under `properties` in a filter or beside
/// `additionalProperties`, where the schema `parent` has an object there.
pub open spec fn properties_refusal(ctx: ContextView, parent: Seq<(Seq<char>, Json)>) -> Option<
    ErrorView,
>
    decreases json_size(Json::Object(parent)), 0nat,
    via properties_refusal_ends
{
    match obj_get(parent, "properties"@) {
        Some(Json::Object(map)) => members_refusal(ctx.at("properties"@), map),
        _ => None,
    }
}

#[via_fn]
proof fn properties_refusal_ends(ctx: ContextView, parent: Seq<(Seq<char>, Json)>) {
    lemma_each_found_smaller(parent);
}

/// The error of the filters of `dependentSchemas`, where the schema
/// `parent` has an object there.
pub open spec fn dependent_under(ctx: ContextView, parent: Seq<(Seq<char>, Json)>) -> Option<
    ErrorView,
>
    decreases json_size(Json::Object(parent)), 1nat,
    via dependent_under_ends
{
    match obj_get(parent, "dependentSchemas"@) {
        Some(Json::Object(map)) => dependent_refusal(ctx.at("dependentSchemas"@), map),
        _ => None,
    }
}

#[via_fn]
proof fn dependent_under_ends(ctx: ContextView, parent: Seq<(Seq<char>, Json)>) {
    lemma_each_found_smaller(parent);
}

/// The error of the members of `patternProperties`, where the schema
/// `parent` has an object there.
pub open spec fn patterns_under(ctx: ContextView, parent: Seq<(Seq<char>, Json)>) -> Option<
    ErrorView,
>
    decreases json_size(Json::Object(parent)), 1nat,
    via patterns_under_ends
{
    match obj_get(parent, "patternProperties"@) {
        Some(Json::Object(map)) => patterns_refusal(
            ctx.location,
            ctx.at("patternProperties"@),
            map,
        ),
        _ => None,
    }
}

#[via_fn]
proof fn patterns_under_ends(ctx: ContextView, parent: Seq<(Seq<char>, Json)>) {
    lemma_each_found_smaller(parent);
}

/// The error of the filter of the schema `parent`, which lies at `ctx`:
/// the first error of its parts, in the order in which they are built: the
/// two references, the condition, `properties`, `dependentSchemas`,
/// `additionalProperties`, `patternProperties`, `unevaluatedProperties`,
/// `allOf`, `anyOf` and `oneOf`.
pub open spec fn filter_refusal(ctx: ContextView, parent: Seq<(Seq<char>, Json)>) -> Option<
    ErrorView,
>
    decreases json_size(Json::Object(parent)), 2nat,
    via filter_refusal_ends
{
    first_of(
        reference_refusal(ctx, parent, "$ref"@),
        first_of(
            reference_refusal(ctx, parent, second_reference(ctx.draft)),
            first_of(
                conditional_refusal(ctx, parent),
                first_of(
                    properties_refusal(ctx, parent),
                    first_of(
                        dependent_under(ctx, parent),
                        first_of(
                            node_refusal(ctx, parent, "additionalProperties"@),
                            first_of(
                                patterns_under(ctx, parent),
                                first_of(
                                    node_refusal(ctx, parent, "unevaluatedProperties"@),
                                    first_of(
                                        sub_branches_refusal(ctx, parent, "allOf"@),
                                        first_of(
                                            sub_branches_refusal(ctx, parent, "anyOf"@),
                                            sub_branches_refusal(ctx, parent, "oneOf"@),
                                        ),
                                    ),
                                ),
                            ),
                        ),
                    ),
                ),
            ),
        ),
    )
}

#[via_fn]
proof fn filter_refusal_ends(ctx: ContextView, parent: Seq<(Seq<char>, Json)>) {
    lemma_each_found_smaller(parent);
}

/// The error of what stands under a keyword beside `contains` and cannot
/// be read as a bound.
pub open spec fn bound_refusal(
    ctx: ContextView,
    parent: Seq<(Seq<char>, Json)>,
    keyword: Seq<char>,
) -> Option<ErrorView> {
    if crate::keywords::contains::bound_accepted(ctx.draft, parent, keyword) {
        None
    } else {
        Some(
            wrong_type(
                ctx.location.push(Seg::Property(keyword)),
                obj_get(parent, keyword)->0,
                JsonType::Integer,
            ),
        )
    }
}

/// The error of a list of schemas under a keyword: that the value is no
/// list, or the error of the first schema that is not accepted.
pub open spec fn list_refusal(ctx: ContextView, keyword: Seq<char>, value: Json) -> Option<
    ErrorView,
>
    decreases json_size(value), 1nat,
{
    match value {
        Json::Array(items) => all_refusal(ctx.at(keyword), items),
        _ => Some(wrong_type(ctx.at(keyword).location, value, JsonType::Array)),
    }
}

/// The error of the keyword of the schema `parent`, which has it: the
/// first rule of the keyword that its value breaks.
pub open spec fn keyword_refusal(
    ctx: ContextView,
    parent: Seq<(Seq<char>, Json)>,
    keyword: Keyword,
) -> Option<ErrorView>
    decreases json_size(Json::Object(parent)), 3nat,
    via keyword_refusal_ends
{
    let value = obj_get(parent, keyword.name())->0;
    let here = ctx.location.push(Seg::Property(keyword.name()));
    if !obj_has(parent, keyword.name()) {
        None
    } else {
        match keyword {
            Keyword::Type => type_refusal(here, value),
            Keyword::Const => None,
            Keyword::Enum => if value is Array {
                None
            } else {
                Some(wrong_type(here, value, JsonType::Array))
            },
            Keyword::MinLength => if value is Number && value->Number_0 is PosInt {
                None
            } else {
                Some(wrong_type(here, value, JsonType::Integer))
            },
            Keyword::MaxLength => if value is Number && value->Number_0 is PosInt {
                None
            } else {
                Some(wrong_type(here, value, JsonType::Integer))
            },
            Keyword::MinItems => if value is Number && value->Number_0 is PosInt {
                None
            } else {
                Some(wrong_type(here, value, JsonType::Integer))
            },
            Keyword::MaxItems => if value is Number && value->Number_0 is PosInt {
                None
            } else {
                Some(wrong_type(here, value, JsonType::Integer))
            },
            Keyword::MinProperties => if value is Number && value->Number_0 is PosInt {
                None
            } else {
                Some(wrong_type(here, value, JsonType::Integer))
            },
            Keyword::MaxProperties => if value is Number && value->Number_0 is PosInt {
                None
            } else {
                Some(wrong_type(here, value, JsonType::Integer))
            },
            Keyword::Required => if fused_required(parent) || takes_required(parent) {
                None
            } else {
                match required_outcome(value, here) {
                    Ok(_) => None,
                    Err(e) => Some(e),
                }
            },
            Keyword::Properties => if taken_over(parent) {
                None
            } else {
                match value {
                    Json::Object(map) => members_refusal(ctx.at("properties"@), map),
                    _ => Some(wrong_type(here, value, JsonType::Object)),
                }
            },
            Keyword::AdditionalProperties => match value {
                Json::Bool(true) => None,
                _ => first_of(
                    match value {
                        Json::Bool(_) => None,
                        Json::Object(_) => refusal(ctx.at("additionalProperties"@), value),
                        _ => Some(not_a_schema(here, value)),
                    },
                    first_of(
                        match obj_get(parent, "properties"@) {
                            Some(Json::Object(map)) => members_refusal(ctx.at("properties"@), map),
                            Some(other) => Some(
                                wrong_type(ctx.at("properties"@).location, other, JsonType::Object),
                            ),
                            None => None,
                        },
                        if fused_required(parent) && !(obj_get(
                            parent,
                            "required"@,
                        )->0->Array_0[0] is String) {
                            Some(
                                wrong_type(
                                    ctx.at("required"@).location,
                                    obj_get(parent, "required"@)->0->Array_0[0],
                                    JsonType::String,
                                ),
                            )
                        } else {
                            None
                        },
                    ),
                ),
            },
            Keyword::Items => match value {
                Json::Array(items) => all_refusal(ctx.at("items"@), items),
                Json::Object(_) | Json::Bool(false) => if checked_by_type(parent, value) {
                    None
                } else {
                    refusal(ctx.at("items"@), value)
                },
                _ => None,
            },
            Keyword::PrefixItems => list_refusal(ctx, "prefixItems"@, value),
            Keyword::AllOf => list_refusal(ctx, "allOf"@, value),
            Keyword::AnyOf => list_refusal(ctx, "anyOf"@, value),
            Keyword::OneOf => list_refusal(ctx, "oneOf"@, value),
            Keyword::Not => refusal(ctx.at("not"@), value),
            Keyword::DependentRequired => crate::keywords::dependent_required::rules_refusal(
                value,
                here,
            ),
            Keyword::PropertyNames => refusal(ctx.at("propertyNames"@), value),
            Keyword::Contains => first_of(
                refusal(ctx.at("contains"@), value),
                first_of(bound_refusal(ctx, parent, "minContains"@), bound_refusal(
                    ctx,
                    parent,
                    "maxContains"@,
                )),
            ),
            Keyword::UniqueItems => if value is Bool {
                None
            } else {
                Some(wrong_type(here, value, JsonType::Boolean))
            },
            Keyword::DependentSchemas => match value {
                Json::Object(map) => members_refusal(ctx.at("dependentSchemas"@), map),
                _ => Some(wrong_type(here, value, JsonType::Object)),
            },
            Keyword::If => first_of(
                refusal(ctx.at("if"@), value),
                first_of(node_refusal(ctx, parent, "then"@), node_refusal(ctx, parent, "else"@)),
            ),
            Keyword::Ref => match value {
                Json::String(reference) => if resolve(ctx.document, reference) is None {
                    Some(dangling(ctx.location, reference))
                } else {
                    None
                },
                _ => Some(wrong_type(here, value, JsonType::String)),
            },
            Keyword::UnevaluatedProperties => if value == Json::Bool(true) {
                None
            } else {
                filter_refusal(ctx, parent)
            },
        }
    }
}

#[via_fn]
proof fn keyword_refusal_ends(ctx: ContextView, parent: Seq<(Seq<char>, Json)>, keyword: Keyword) {
    lemma_each_found_smaller(parent);
    crate::json::lemma_obj_has(parent, keyword.name());
}

/// The position of the first keyword of the order, from `from` on, that
/// stands in the schema `parent` and is not accepted; the number of the
/// keywords where there is none.
pub open spec fn first_broken(ctx: ContextView, parent: Seq<(Seq<char>, Json)>, from: nat) -> nat
    decreases KEYWORD_COUNT - from,
{
    if from >= KEYWORD_COUNT {
        KEYWORD_COUNT as nat
    } else if present(ctx, parent, from) && !keyword_accepted(ctx, parent, keyword_order(from)) {
        from
    } else {
        first_broken(ctx, parent, from + 1)
    }
}

/// The error of a schema that has the keyword at `position` of the list of
/// keywords that the library does not enforce.
pub open spec fn unenforced_fault(
    ctx: ContextView,
    parent: Seq<(Seq<char>, Json)>,
    position: nat,
) -> ErrorView {
    schema_fault(
        KindView::Custom {
            keyword: unenforced(position),
            message: "This keyword is not enforced"@,
        },
        ctx.location.push(Seg::Property(unenforced(position))),
        obj_get(parent, unenforced(position))->0,
    )
}

/// The error of the schema that lies at `ctx`, where it is refused:
/// - of an object with a keyword that the library does not enforce, that
///   it has the first of them;
/// - of any other object, the error of its first keyword, in the order of the
///   keywords, that is not accepted; in the drafts in which a `$ref` hides
///   the keywords beside it, of an object with a `$ref` the error of that
///   reference;
/// - of a value that is neither `true` or `false` nor an object, that it
///   is no schema.
pub open spec fn refusal(ctx: ContextView, schema: Json) -> Option<ErrorView>
    decreases json_size(schema), 4nat,
{
    match schema {
        Json::Bool(_) => None,
        Json::Object(parent) => if ctx.draft.ref_hides_siblings() && obj_has(parent, "$ref"@) {
            keyword_refusal(ctx, parent, Keyword::Ref)
        } else {
            let u = first_unenforced(ctx.draft, parent, 0);
            let p = first_broken(ctx, parent, 0);
            if u < UNENFORCED_COUNT {
                Some(unenforced_fault(ctx, parent, u))
            } else if p < KEYWORD_COUNT {
                keyword_refusal(ctx, parent, keyword_order(p))
            } else {
                None
            }
        },
        _ => Some(not_a_schema(ctx.location, schema)),
    }
}

} // verus!
