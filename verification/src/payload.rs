//! What a kind of error carries, as a JSON object, for callers that take
//! plain data.
use vstd::prelude::*;
use crate::error::{
    ErrorView, KindView, TypeKind, TypeKindView, ValidationError, ValidationErrorKind, branch_views,
    error_views, keyword_of, lemma_error_views, message_text, name_views,
};
use crate::json::{
    Json, Num, Number, ObjectMap, Value, lemma_member_views, lemma_views, member_views, views,
};
use crate::paths::pointer_text;
use crate::render::json_text;

use crate::verbose::text_view;

verus! {

/// An object with one member.
pub open spec fn one(key: Seq<char>, value: Json) -> Json {
    Json::Object(seq![(key, value)])
}

/// An object with two members.
pub open spec fn two(first: Seq<char>, a: Json, second: Seq<char>, b: Json) -> Json {
    Json::Object(seq![(first, a), (second, b)])
}

/// The names as an array of strings.
pub open spec fn names_json(names: Seq<Seq<char>>) -> Json {
    Json::Array(Seq::new(names.len(), |i: int| Json::String(names[i])))
}

/// The types as an array of their names.
pub open spec fn types_json(kind: TypeKindView) -> Json {
    match kind {
        TypeKindView::Single(ty) => Json::Array(seq![Json::String(ty.name())]),
        TypeKindView::Multiple(types) => Json::Array(
            Seq::new(types.len(), |i: int| Json::String(types[i].name())),
        ),
    }
}

/// The message of an error, with the mask in place of the failing value
/// where there is one.
pub open spec fn shown_message(error: ErrorView, mask: Option<Seq<char>>) -> Seq<char> {
    message_text(
        error.kind,
        match mask {
            Some(text) => text,
            None => json_text(error.instance),
        },
    )
}

/// One error of a branch, in short: its message, its three paths as JSON
/// Pointers, and the keyword of its kind.
pub open spec fn brief(error: ErrorView, mask: Option<Seq<char>>) -> Json {
    Json::Object(
        seq![
            ("message"@, Json::String(shown_message(error, mask))),
            ("instance_path"@, Json::String(pointer_text(error.instance_path))),
            ("schema_path"@, Json::String(pointer_text(error.schema_path))),
            ("evaluation_path"@, Json::String(pointer_text(error.evaluation_path))),
            ("kind"@, Json::String(keyword_of(error.kind))),
        ],
    )
}

/// The errors of one branch, each in short.
pub open spec fn branch_json(errors: Seq<ErrorView>, mask: Option<Seq<char>>) -> Json {
    Json::Array(Seq::new(errors.len(), |i: int| brief(errors[i], mask)))
}

/// The errors of the branches, branch by branch.
pub open spec fn context_json(context: Seq<Seq<ErrorView>>, mask: Option<Seq<char>>) -> Json {
    Json::Array(Seq::new(context.len(), |i: int| branch_json(context[i], mask)))
}

/// A limit as a JSON number.
pub open spec fn limit_json(limit: nat) -> Json {
    Json::Number(Num::PosInt(limit as u64))
}

/// What a kind of error carries:
/// - a kind that counts or measures: its `limit`;
/// - a kind about members or items that are not admitted: their names as
///   `unexpected`;
/// - `anyOf` and `oneOf`: the errors of each branch as `context`, and for
///   `oneOf` the `reason`, `notValid` or `multipleValid`;
/// - a kind that compares with a value of the schema: that value;
/// - a kind that names a text of the schema: that text;
/// - `type`: the names of the types asked for;
/// - `contains`, the `false` schema and `uniqueItems`: nothing.
pub open spec fn payload_of(kind: KindView, mask: Option<Seq<char>>) -> Json {
    match kind {
        KindView::AdditionalItems { limit } => one("limit"@, limit_json(limit)),
        KindView::AdditionalProperties { unexpected } => one("unexpected"@, names_json(unexpected)),
        KindView::UnevaluatedItems { unexpected } => one("unexpected"@, names_json(unexpected)),
        KindView::UnevaluatedProperties { unexpected } => one("unexpected"@, names_json(unexpected)),
        KindView::AnyOf { context } => one("context"@, context_json(context, mask)),
        KindView::BacktrackLimitExceeded { error } => one("error"@, Json::String(error)),
        KindView::Constant { expected_value } => one("expected_value"@, expected_value),
        KindView::Contains => Json::Object(Seq::empty()),
        KindView::FalseSchema => Json::Object(Seq::empty()),
        KindView::UniqueItems => Json::Object(Seq::empty()),
        KindView::ContentEncoding { content_encoding } => one(
            "content_encoding"@,
            Json::String(content_encoding),
        ),
        KindView::ContentMediaType { content_media_type } => one(
            "content_media_type"@,
            Json::String(content_media_type),
        ),
        KindView::Custom { message, .. } => one("message"@, Json::String(message)),
        KindView::Enum { options } => one("options"@, options),
        KindView::ExclusiveMaximum { limit } => one("limit"@, limit),
        KindView::ExclusiveMinimum { limit } => one("limit"@, limit),
        KindView::Maximum { limit } => one("limit"@, limit),
        KindView::Minimum { limit } => one("limit"@, limit),
        KindView::Format { format } => one("format"@, Json::String(format)),
        KindView::FromUtf8 { error } => one("error"@, Json::String(error)),
        KindView::MaxContains { limit } => one("limit"@, limit_json(limit)),
        KindView::MaxItems { limit } => one("limit"@, limit_json(limit)),
        KindView::MaxLength { limit } => one("limit"@, limit_json(limit)),
        KindView::MaxProperties { limit } => one("limit"@, limit_json(limit)),
        KindView::MinContains { limit } => one("limit"@, limit_json(limit)),
        KindView::MinItems { limit } => one("limit"@, limit_json(limit)),
        KindView::MinLength { limit } => one("limit"@, limit_json(limit)),
        KindView::MinProperties { limit } => one("limit"@, limit_json(limit)),
        KindView::MultipleOf { multiple_of } => one("multiple_of"@, multiple_of),
        KindView::Not { schema } => one("schema"@, schema),
        KindView::OneOfMultipleValid { context } => two(
            "reason"@,
            Json::String("multipleValid"@),
            "context"@,
            context_json(context, mask),
        ),
        KindView::OneOfNotValid { context } => two(
            "reason"@,
            Json::String("notValid"@),
            "context"@,
            context_json(context, mask),
        ),
        KindView::Pattern { pattern } => one("pattern"@, Json::String(pattern)),
        KindView::PropertyNames { error } => one("error"@, Json::String(shown_message(*error, mask))),
        KindView::Referencing { message } => one("error"@, Json::String(message)),
        KindView::Required { property } => one("property"@, property),
        KindView::Type { kind } => one("types"@, types_json(kind)),
    }
}

/// An object with one member.
pub fn object1(key: &str, value: Value) -> (r: Value)
    ensures
        r@ == one(key@, value@),
{
    let mut entries: Vec<(String, Value)> = Vec::new();
    entries.push((String::from_str(key), value));
    proof {
        lemma_member_views(entries@);
        assert(member_views(entries@) =~= seq![(key@, value@)]);
    }
    Value::Object(ObjectMap { entries })
}

/// An object with two members.
pub fn object2(first: &str, a: Value, second: &str, b: Value) -> (r: Value)
    ensures
        r@ == two(first@, a@, second@, b@),
{
    let mut entries: Vec<(String, Value)> = Vec::new();
    entries.push((String::from_str(first), a));
    entries.push((String::from_str(second), b));
    proof {
        lemma_member_views(entries@);
        assert(member_views(entries@) =~= seq![(first@, a@), (second@, b@)]);
    }
    Value::Object(ObjectMap { entries })
}

/// An object without members.
pub fn object0() -> (r: Value)
    ensures
        r@ == Json::Object(Seq::empty()),
{
    let entries: Vec<(String, Value)> = Vec::new();
    proof {
        lemma_member_views(entries@);
        assert(member_views(entries@) =~= Seq::empty());
    }
    Value::Object(ObjectMap { entries })
}

/// A text as a JSON string.
pub fn text(s: &str) -> (r: Value)
    ensures
        r@ == Json::String(s@),
{
    Value::String(String::from_str(s))
}

/// A limit as a JSON number.
pub fn limit(n: u64) -> (r: Value)
    ensures
        r@ == limit_json(n as nat),
{
    Value::Number(Number::PosInt(n))
}

/// The names as an array of strings.
pub fn strings(names: &Vec<String>) -> (r: Value)
    ensures
        r@ == names_json(name_views(names@)),
{
    let mut items: Vec<Value> = Vec::new();
    let mut i: usize = 0;
    while i < names.len()
        invariant
            i <= names.len(),
            items@.len() == i,
            forall|j: int| 0 <= j < i ==> (#[trigger] items@[j])@ == Json::String(names@[j]@),
        decreases names.len() - i,
    {
        items.push(Value::String(names[i].clone()));
        i += 1;
    }
    proof {
        lemma_views(items@);
        assert(views(items@) =~= Seq::new(
            name_views(names@).len(),
            |i: int| Json::String(name_views(names@)[i]),
        ));
    }
    Value::Array(items)
}

/// The types asked for as an array of their names.
pub fn type_names(kind: &TypeKind) -> (r: Value)
    ensures
        r@ == types_json(kind@),
{
    let mut items: Vec<Value> = Vec::new();
    match kind {
        TypeKind::Single(ty) => {
            items.push(Value::String(String::from_str(ty.as_str())));
            proof {
                lemma_views(items@);
                assert(views(items@) =~= seq![Json::String(ty.name())]);
            }
        },
        TypeKind::Multiple(types) => {
            let mut i: usize = 0;
            while i < types.len()
                invariant
                    i <= types.len(),
                    items@.len() == i,
                    forall|j: int|
                        0 <= j < i ==> (#[trigger] items@[j])@ == Json::String(types@[j].name()),
                decreases types.len() - i,
            {
                items.push(Value::String(String::from_str(types[i].as_str())));
                i += 1;
            }
            proof {
                lemma_views(items@);
                assert(views(items@) =~= Seq::new(
                    types@.len(),
                    |i: int| Json::String(types@[i].name()),
                ));
            }
        },
    }
    Value::Array(items)
}

/// The message of an error, with the mask in place of the failing value
/// where there is one.
pub fn error_message(error: &ValidationError, mask: Option<&str>) -> (r: String)
    ensures
        r@ == shown_message(error@, text_view(mask)),
{
    match mask {
        Some(mask) => error.masked_message(mask),
        None => error.message(),
    }
}

/// One error of a branch, in short.
fn brief_of(error: &ValidationError, mask: Option<&str>) -> (r: Value)
    ensures
        r@ == brief(error@, text_view(mask)),
{
    let mut entries: Vec<(String, Value)> = Vec::new();
    entries.push((String::from_str("message"), Value::String(error_message(error, mask))));
    entries.push((String::from_str("instance_path"), Value::String(error.instance_path.pointer())));
    entries.push((String::from_str("schema_path"), Value::String(error.schema_path.pointer())));
    entries.push(
        (String::from_str("evaluation_path"), Value::String(error.evaluation_path.pointer())),
    );
    entries.push((String::from_str("kind"), Value::String(error.kind.keyword())));
    proof {
        lemma_member_views(entries@);
        assert(member_views(entries@) =~= brief(error@, text_view(mask))->Object_0);
    }
    Value::Object(ObjectMap { entries })
}

/// The errors of one branch, each in short.
fn branch_of(errors: &Vec<ValidationError>, mask: Option<&str>) -> (r: Value)
    ensures
        r@ == branch_json(error_views(errors@), text_view(mask)),
{
    let mut items: Vec<Value> = Vec::new();
    let mut i: usize = 0;
    proof {
        lemma_error_views(errors@);
    }
    while i < errors.len()
        invariant
            i <= errors.len(),
            items@.len() == i,
            forall|j: int| 0 <= j < i ==> (#[trigger] items@[j])@ == brief(errors@[j]@, text_view(mask)),
        decreases errors.len() - i,
    {
        items.push(brief_of(&errors[i], mask));
        i += 1;
    }
    proof {
        lemma_views(items@);
        assert(views(items@) =~= Seq::new(
            error_views(errors@).len(),
            |i: int| brief(error_views(errors@)[i], text_view(mask)),
        ));
    }
    Value::Array(items)
}

/// The views of the branches keep their number and map branch by branch.
proof fn lemma_branch_views(branches: Seq<Vec<ValidationError>>)
    ensures
        branch_views(branches).len() == branches.len(),
        forall|i: int|
            0 <= i < branches.len() ==> (#[trigger] branch_views(branches)[i]) == error_views(
                branches[i]@,
            ),
    decreases branches.len(),
{
    if branches.len() > 0 {
        lemma_branch_views(branches.drop_last());
        assert(branch_views(branches) == branch_views(branches.drop_last()).push(
            error_views(branches.last()@),
        ));
    }
}

/// Convert anyOf/oneOf context into an array of error branch arrays.
pub fn context_value(context: &Vec<Vec<ValidationError>>, mask: Option<&str>) -> (r: Value)
    ensures
        r@ == context_json(branch_views(context@), text_view(mask)),
{
    let mut branches: Vec<Value> = Vec::new();
    let mut i: usize = 0;
    proof {
        lemma_branch_views(context@);
    }
    while i < context.len()
        invariant
            i <= context.len(),
            branches@.len() == i,
            forall|j: int|
                0 <= j < i ==> (#[trigger] branches@[j])@ == branch_json(
                    error_views(context@[j]@),
                    text_view(mask),
                ),
        decreases context.len() - i,
    {
        branches.push(branch_of(&context[i], mask));
        i += 1;
    }
    proof {
        lemma_views(branches@);
        assert(views(branches@) =~= Seq::new(
            branch_views(context@).len(),
            |i: int| branch_json(branch_views(context@)[i], text_view(mask)),
        ));
    }
    Value::Array(branches)
}

/// What a kind of error carries, as a JSON object.
pub fn kind_payload(kind: &ValidationErrorKind, mask: Option<&str>) -> (r: Value)
    ensures
        r@ == payload_of(kind@, text_view(mask)),
{
    match kind {
        ValidationErrorKind::AdditionalItems { limit: n } => object1("limit", limit(*n as u64)),
        ValidationErrorKind::AdditionalProperties { unexpected } => object1(
            "unexpected",
            strings(unexpected),
        ),
        ValidationErrorKind::UnevaluatedItems { unexpected } => object1(
            "unexpected",
            strings(unexpected),
        ),
        ValidationErrorKind::UnevaluatedProperties { unexpected } => object1(
            "unexpected",
            strings(unexpected),
        ),
        ValidationErrorKind::AnyOf { context } => object1("context", context_value(context, mask)),
        ValidationErrorKind::BacktrackLimitExceeded { error } => object1("error", text(error.as_str())),
        ValidationErrorKind::Constant { expected_value } => object1(
            "expected_value",
            expected_value.clone(),
        ),
        ValidationErrorKind::Contains => object0(),
        ValidationErrorKind::FalseSchema => object0(),
        ValidationErrorKind::UniqueItems => object0(),
        ValidationErrorKind::ContentEncoding { content_encoding } => object1(
            "content_encoding",
            text(content_encoding.as_str()),
        ),
        ValidationErrorKind::ContentMediaType { content_media_type } => object1(
            "content_media_type",
            text(content_media_type.as_str()),
        ),
        ValidationErrorKind::Custom { message, .. } => object1("message", text(message.as_str())),
        ValidationErrorKind::Enum { options } => object1("options", options.clone()),
        ValidationErrorKind::ExclusiveMaximum { limit } => object1("limit", limit.clone()),
        ValidationErrorKind::ExclusiveMinimum { limit } => object1("limit", limit.clone()),
        ValidationErrorKind::Maximum { limit } => object1("limit", limit.clone()),
        ValidationErrorKind::Minimum { limit } => object1("limit", limit.clone()),
        ValidationErrorKind::Format { format } => object1("format", text(format.as_str())),
        ValidationErrorKind::FromUtf8 { error } => object1("error", text(error.as_str())),
        ValidationErrorKind::MaxContains { limit: n } => object1("limit", limit(*n)),
        ValidationErrorKind::MaxItems { limit: n } => object1("limit", limit(*n)),
        ValidationErrorKind::MaxLength { limit: n } => object1("limit", limit(*n)),
        ValidationErrorKind::MaxProperties { limit: n } => object1("limit", limit(*n)),
        ValidationErrorKind::MinContains { limit: n } => object1("limit", limit(*n)),
        ValidationErrorKind::MinItems { limit: n } => object1("limit", limit(*n)),
        ValidationErrorKind::MinLength { limit: n } => object1("limit", limit(*n)),
        ValidationErrorKind::MinProperties { limit: n } => object1("limit", limit(*n)),
        ValidationErrorKind::MultipleOf { multiple_of } => object1("multiple_of", multiple_of.clone()),
        ValidationErrorKind::Not { schema } => object1("schema", schema.clone()),
        ValidationErrorKind::OneOfMultipleValid { context } => object2(
            "reason",
            text("multipleValid"),
            "context",
            context_value(context, mask),
        ),
        ValidationErrorKind::OneOfNotValid { context } => object2(
            "reason",
            text("notValid"),
            "context",
            context_value(context, mask),
        ),
        ValidationErrorKind::Pattern { pattern } => object1("pattern", text(pattern.as_str())),
        ValidationErrorKind::PropertyNames { error } => {
            let message = error_message(error, mask);
            object1("error", Value::String(message))
        },
        ValidationErrorKind::Referencing { message } => object1("error", text(message.as_str())),
        ValidationErrorKind::Required { property } => object1("property", property.clone()),
        ValidationErrorKind::Type { kind } => object1("types", type_names(kind)),
    }
}

} // verus!
