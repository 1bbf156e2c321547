//! Validation errors: what failed, where, and on which value.
use vstd::prelude::*;
use crate::json::{Json, Value};
use crate::paths::{Location, Seg};
use crate::render::{json_text, render};
use crate::text::{decimal, push_char, u64_to_string, usize_to_string};
use crate::types::JsonType;

verus! {

/// The types that a `type` keyword asked for.
#[derive(Debug)]
pub enum TypeKind {
    Single(JsonType),
    Multiple(Vec<JsonType>),
}

/// The model of [`TypeKind`].
pub enum TypeKindView {
    Single(JsonType),
    Multiple(Seq<JsonType>),
}

/// The kind of a validation error, with what belongs to the kind.
#[derive(Debug)]
pub enum ValidationErrorKind {
    /// The array has more items than the schema admits.
    AdditionalItems { limit: usize },
    /// The object has members that the schema does not admit.
    AdditionalProperties { unexpected: Vec<String> },
    /// No branch of `anyOf` holds; the errors of each branch.
    AnyOf { context: Vec<Vec<ValidationError>> },
    /// Matching a pattern ran out of its backtracking budget.
    BacktrackLimitExceeded { error: String },
    /// The value is not the one that `const` names.
    Constant { expected_value: Value },
    /// No item of the array satisfies `contains`.
    Contains,
    /// The string is not in the named content encoding.
    ContentEncoding { content_encoding: String },
    /// The string is not of the named media type.
    ContentMediaType { content_media_type: String },
    /// An error of a keyword that the user supplied.
    Custom { keyword: String, message: String },
    /// The value is none of those that `enum` lists.
    Enum { options: Value },
    /// The number is not below the limit.
    ExclusiveMaximum { limit: Value },
    /// The number is not above the limit.
    ExclusiveMinimum { limit: Value },
    /// The schema is `false`.
    FalseSchema,
    /// The string is not in the named format.
    Format { format: String },
    /// Decoded content is not valid UTF-8.
    FromUtf8 { error: String },
    /// More items of the array satisfy `contains` than admitted.
    MaxContains { limit: u64 },
    /// The array is too long.
    MaxItems { limit: u64 },
    /// The string is too long.
    MaxLength { limit: u64 },
    /// The object has too many members.
    MaxProperties { limit: u64 },
    /// The number is above the limit.
    Maximum { limit: Value },
    /// Fewer items of the array satisfy `contains` than asked for.
    MinContains { limit: u64 },
    /// The array is too short.
    MinItems { limit: u64 },
    /// The string is too short.
    MinLength { limit: u64 },
    /// The object has too few members.
    MinProperties { limit: u64 },
    /// The number is below the limit.
    Minimum { limit: Value },
    /// The number is not a multiple of the divisor.
    MultipleOf { multiple_of: Value },
    /// The value satisfies the schema under `not`.
    Not { schema: Value },
    /// More than one branch of `oneOf` holds; the errors of each branch.
    OneOfMultipleValid { context: Vec<Vec<ValidationError>> },
    /// No branch of `oneOf` holds; the errors of each branch.
    OneOfNotValid { context: Vec<Vec<ValidationError>> },
    /// The string does not match the pattern.
    Pattern { pattern: String },
    /// A member's name fails the schema for names.
    PropertyNames { error: Box<ValidationError> },
    /// A reference could not be followed.
    Referencing { message: String },
    /// The object lacks a member that the schema requires.
    Required { property: Value },
    /// The value is of none of the types asked for.
    Type { kind: TypeKind },
    /// Items of the array were assessed by no keyword.
    UnevaluatedItems { unexpected: Vec<String> },
    /// Members of the object were assessed by no keyword.
    UnevaluatedProperties { unexpected: Vec<String> },
    /// Two items of the array are equal.
    UniqueItems,
}

/// The model of [`ValidationErrorKind`].
pub enum KindView {
    AdditionalItems { limit: nat },
    AdditionalProperties { unexpected: Seq<Seq<char>> },
    AnyOf { context: Seq<Seq<ErrorView>> },
    BacktrackLimitExceeded { error: Seq<char> },
    Constant { expected_value: Json },
    Contains,
    ContentEncoding { content_encoding: Seq<char> },
    ContentMediaType { content_media_type: Seq<char> },
    Custom { keyword: Seq<char>, message: Seq<char> },
    Enum { options: Json },
    ExclusiveMaximum { limit: Json },
    ExclusiveMinimum { limit: Json },
    FalseSchema,
    Format { format: Seq<char> },
    FromUtf8 { error: Seq<char> },
    MaxContains { limit: nat },
    MaxItems { limit: nat },
    MaxLength { limit: nat },
    MaxProperties { limit: nat },
    Maximum { limit: Json },
    MinContains { limit: nat },
    MinItems { limit: nat },
    MinLength { limit: nat },
    MinProperties { limit: nat },
    Minimum { limit: Json },
    MultipleOf { multiple_of: Json },
    Not { schema: Json },
    OneOfMultipleValid { context: Seq<Seq<ErrorView>> },
    OneOfNotValid { context: Seq<Seq<ErrorView>> },
    Pattern { pattern: Seq<char> },
    PropertyNames { error: Box<ErrorView> },
    Referencing { message: Seq<char> },
    Required { property: Json },
    Type { kind: TypeKindView },
    UnevaluatedItems { unexpected: Seq<Seq<char>> },
    UnevaluatedProperties { unexpected: Seq<Seq<char>> },
    UniqueItems,
}

/// A failure of one keyword on one value.
#[derive(Debug)]
pub struct ValidationError {
    pub kind: ValidationErrorKind,
    /// The value that failed.
    pub instance: Value,
    /// Where the value lies in the instance document.
    pub instance_path: Location,
    /// Where the keyword lies in the schema document.
    pub schema_path: Location,
    /// The keywords passed on the way to the keyword, references included.
    pub evaluation_path: Location,
}

/// The model of [`ValidationError`].
pub struct ErrorView {
    pub kind: KindView,
    pub instance: Json,
    pub instance_path: Seq<Seg>,
    pub schema_path: Seq<Seg>,
    pub evaluation_path: Seq<Seg>,
}

/// The views of a sequence of strings.
pub open spec fn name_views(names: Seq<String>) -> Seq<Seq<char>> {
    Seq::new(names.len(), |i: int| names[i]@)
}

/// The views of a sequence of errors.
pub open spec fn error_views(errors: Seq<ValidationError>) -> Seq<ErrorView>
    decreases errors,
{
    if errors.len() == 0 {
        Seq::empty()
    } else {
        error_views(errors.drop_last()).push(error_view(errors.last()))
    }
}

/// The views of the error lists of several branches.
pub open spec fn branch_views(branches: Seq<Vec<ValidationError>>) -> Seq<Seq<ErrorView>>
    decreases branches,
{
    if branches.len() == 0 {
        Seq::empty()
    } else {
        branch_views(branches.drop_last()).push(error_views(branches.last()@))
    }
}

impl View for TypeKind {
    type V = TypeKindView;

    open spec fn view(&self) -> TypeKindView {
        match self {
            TypeKind::Single(ty) => TypeKindView::Single(*ty),
            TypeKind::Multiple(types) => TypeKindView::Multiple(types@),
        }
    }
}

impl View for ValidationErrorKind {
    type V = KindView;

    open spec fn view(&self) -> KindView {
        kind_view(*self)
    }
}

impl View for ValidationError {
    type V = ErrorView;

    open spec fn view(&self) -> ErrorView {
        error_view(*self)
    }
}

/// The model of an error.
pub open spec fn error_view(error: ValidationError) -> ErrorView
    decreases error,
{
    ErrorView {
        kind: kind_view(error.kind),
        instance: error.instance@,
        instance_path: error.instance_path@,
        schema_path: error.schema_path@,
        evaluation_path: error.evaluation_path@,
    }
}

/// The model of a kind of error.
pub open spec fn kind_view(kind: ValidationErrorKind) -> KindView
    decreases kind,
{
        match kind {
            ValidationErrorKind::AdditionalItems { limit } => KindView::AdditionalItems {
                limit: limit as nat,
            },
            ValidationErrorKind::AdditionalProperties {
                unexpected,
            } => KindView::AdditionalProperties { unexpected: name_views(unexpected@) },
            ValidationErrorKind::AnyOf { context } => KindView::AnyOf { context: branch_views(context@) },
            ValidationErrorKind::BacktrackLimitExceeded {
                error,
            } => KindView::BacktrackLimitExceeded { error: error@ },
            ValidationErrorKind::Constant { expected_value } => KindView::Constant {
                expected_value: expected_value@,
            },
            ValidationErrorKind::Contains => KindView::Contains,
            ValidationErrorKind::ContentEncoding {
                content_encoding,
            } => KindView::ContentEncoding { content_encoding: content_encoding@ },
            ValidationErrorKind::ContentMediaType {
                content_media_type,
            } => KindView::ContentMediaType { content_media_type: content_media_type@ },
            ValidationErrorKind::Custom { keyword, message } => KindView::Custom {
                keyword: keyword@,
                message: message@,
            },
            ValidationErrorKind::Enum { options } => KindView::Enum { options: options@ },
            ValidationErrorKind::ExclusiveMaximum { limit } => KindView::ExclusiveMaximum {
                limit: limit@,
            },
            ValidationErrorKind::ExclusiveMinimum { limit } => KindView::ExclusiveMinimum {
                limit: limit@,
            },
            ValidationErrorKind::FalseSchema => KindView::FalseSchema,
            ValidationErrorKind::Format { format } => KindView::Format { format: format@ },
            ValidationErrorKind::FromUtf8 { error } => KindView::FromUtf8 { error: error@ },
            ValidationErrorKind::MaxContains { limit } => KindView::MaxContains { limit: limit as nat },
            ValidationErrorKind::MaxItems { limit } => KindView::MaxItems { limit: limit as nat },
            ValidationErrorKind::MaxLength { limit } => KindView::MaxLength { limit: limit as nat },
            ValidationErrorKind::MaxProperties { limit } => KindView::MaxProperties {
                limit: limit as nat,
            },
            ValidationErrorKind::Maximum { limit } => KindView::Maximum { limit: limit@ },
            ValidationErrorKind::MinContains { limit } => KindView::MinContains { limit: limit as nat },
            ValidationErrorKind::MinItems { limit } => KindView::MinItems { limit: limit as nat },
            ValidationErrorKind::MinLength { limit } => KindView::MinLength { limit: limit as nat },
            ValidationErrorKind::MinProperties { limit } => KindView::MinProperties {
                limit: limit as nat,
            },
            ValidationErrorKind::Minimum { limit } => KindView::Minimum { limit: limit@ },
            ValidationErrorKind::MultipleOf { multiple_of } => KindView::MultipleOf {
                multiple_of: multiple_of@,
            },
            ValidationErrorKind::Not { schema } => KindView::Not { schema: schema@ },
            ValidationErrorKind::OneOfMultipleValid { context } => KindView::OneOfMultipleValid {
                context: branch_views(context@),
            },
            ValidationErrorKind::OneOfNotValid { context } => KindView::OneOfNotValid {
                context: branch_views(context@),
            },
            ValidationErrorKind::Pattern { pattern } => KindView::Pattern { pattern: pattern@ },
            ValidationErrorKind::PropertyNames { error } => KindView::PropertyNames {
                error: Box::new(error_view(*error)),
            },
            ValidationErrorKind::Referencing { message } => KindView::Referencing {
                message: message@,
            },
            ValidationErrorKind::Required { property } => KindView::Required { property: property@ },
            ValidationErrorKind::Type { kind } => KindView::Type { kind: kind@ },
            ValidationErrorKind::UnevaluatedItems { unexpected } => KindView::UnevaluatedItems {
                unexpected: name_views(unexpected@),
            },
            ValidationErrorKind::UnevaluatedProperties {
                unexpected,
            } => KindView::UnevaluatedProperties { unexpected: name_views(unexpected@) },
            ValidationErrorKind::UniqueItems => KindView::UniqueItems,
        }
}

/// `error_views` keeps the length and maps error by error.
pub proof fn lemma_error_views(errors: Seq<ValidationError>)
    ensures
        error_views(errors).len() == errors.len(),
        forall|i: int| 0 <= i < errors.len() ==> (#[trigger] error_views(errors)[i]) == errors[i]@,
    decreases errors.len(),
{
    if errors.len() > 0 {
        lemma_error_views(errors.drop_last());
        assert(error_views(errors) == error_views(errors.drop_last()).push(errors.last()@));
    }
}

/// The views of a list with one more error.
pub proof fn lemma_error_views_push(errors: Seq<ValidationError>, error: ValidationError)
    ensures
        error_views(errors.push(error)) == error_views(errors).push(error@),
{
    assert(errors.push(error).drop_last() =~= errors);
}

/// The views of two lists, one after the other.
pub proof fn lemma_error_views_concat(a: Seq<ValidationError>, b: Seq<ValidationError>)
    ensures
        error_views(a + b) == error_views(a) + error_views(b),
{
    lemma_error_views(a);
    lemma_error_views(b);
    lemma_error_views(a + b);
    assert(error_views(a + b) =~= error_views(a) + error_views(b));
}

/// The views of a list of branches with one more branch.
pub proof fn lemma_branch_views_push(branches: Seq<Vec<ValidationError>>, branch: Vec<ValidationError>)
    ensures
        branch_views(branches.push(branch)) == branch_views(branches).push(error_views(branch@)),
{
    assert(branches.push(branch).drop_last() =~= branches);
}

/// The name of the keyword that a kind of error belongs to.
pub open spec fn keyword_of(kind: KindView) -> Seq<char> {
    match kind {
        KindView::AdditionalItems { .. } => "additionalItems"@,
        KindView::AdditionalProperties { .. } => "additionalProperties"@,
        KindView::AnyOf { .. } => "anyOf"@,
        KindView::BacktrackLimitExceeded { .. } => "pattern"@,
        KindView::Constant { .. } => "const"@,
        KindView::Contains => "contains"@,
        KindView::ContentEncoding { .. } => "contentEncoding"@,
        KindView::ContentMediaType { .. } => "contentMediaType"@,
        KindView::Custom { keyword, .. } => keyword,
        KindView::Enum { .. } => "enum"@,
        KindView::ExclusiveMaximum { .. } => "exclusiveMaximum"@,
        KindView::ExclusiveMinimum { .. } => "exclusiveMinimum"@,
        KindView::FalseSchema => "falseSchema"@,
        KindView::Format { .. } => "format"@,
        KindView::FromUtf8 { .. } => "contentEncoding"@,
        KindView::MaxContains { .. } => "maxContains"@,
        KindView::MaxItems { .. } => "maxItems"@,
        KindView::MaxLength { .. } => "maxLength"@,
        KindView::MaxProperties { .. } => "maxProperties"@,
        KindView::Maximum { .. } => "maximum"@,
        KindView::MinContains { .. } => "minContains"@,
        KindView::MinItems { .. } => "minItems"@,
        KindView::MinLength { .. } => "minLength"@,
        KindView::MinProperties { .. } => "minProperties"@,
        KindView::Minimum { .. } => "minimum"@,
        KindView::MultipleOf { .. } => "multipleOf"@,
        KindView::Not { .. } => "not"@,
        KindView::OneOfMultipleValid { .. } => "oneOf"@,
        KindView::OneOfNotValid { .. } => "oneOf"@,
        KindView::Pattern { .. } => "pattern"@,
        KindView::PropertyNames { .. } => "propertyNames"@,
        KindView::Referencing { .. } => "$ref"@,
        KindView::Required { .. } => "required"@,
        KindView::Type { .. } => "type"@,
        KindView::UnevaluatedItems { .. } => "unevaluatedItems"@,
        KindView::UnevaluatedProperties { .. } => "unevaluatedProperties"@,
        KindView::UniqueItems => "uniqueItems"@,
    }
}

/// The names, each between single quotes, with `, ` between neighbours.
pub open spec fn quoted_names(names: Seq<Seq<char>>) -> Seq<char>
    decreases names.len(),
{
    if names.len() == 0 {
        Seq::empty()
    } else if names.len() == 1 {
        seq!['\''] + names.last() + seq!['\'']
    } else {
        quoted_names(names.drop_last()) + ", "@ + seq!['\''] + names.last() + seq!['\'']
    }
}

/// The type names, each between double quotes, with `, ` between neighbours.
pub open spec fn quoted_types(types: Seq<JsonType>) -> Seq<char>
    decreases types.len(),
{
    if types.len() == 0 {
        Seq::empty()
    } else if types.len() == 1 {
        seq!['"'] + types.last().name() + seq!['"']
    } else {
        quoted_types(types.drop_last()) + ", "@ + seq!['"'] + types.last().name() + seq!['"']
    }
}

/// How many of the names there are, as the verb of the message has it.
pub open spec fn were(names: Seq<Seq<char>>) -> Seq<char> {
    if names.len() == 1 {
        " was unexpected)"@
    } else {
        " were unexpected)"@
    }
}

/// The one-line message of an error. `shown` stands where the failing value
/// is named: its JSON text, or the mask that hides it.
pub open spec fn message_text(kind: KindView, shown: Seq<char>) -> Seq<char> {
    match kind {
        KindView::AdditionalItems { limit } => "Additional items are not allowed (at most "@
            + decimal(limit) + " expected)"@,
        KindView::AdditionalProperties {
            unexpected,
        } => "Additional properties are not allowed ("@ + quoted_names(unexpected) + were(unexpected),
        KindView::AnyOf {
            ..
        } => shown + " is not valid under any of the schemas listed in the 'anyOf' keyword"@,
        KindView::BacktrackLimitExceeded { error } => error,
        KindView::Constant { expected_value } => json_text(expected_value) + " was expected"@,
        KindView::Contains => "None of "@ + shown + " are valid under the given schema"@,
        KindView::ContentEncoding { content_encoding } => shown + " is not compliant with \""@
            + content_encoding + "\" content encoding"@,
        KindView::ContentMediaType { content_media_type } => shown + " is not compliant with \""@
            + content_media_type + "\" media type"@,
        KindView::Custom { message, .. } => message,
        KindView::Enum { options } => shown + " is not one of "@ + json_text(options),
        KindView::ExclusiveMaximum { limit } => shown + " is greater than or equal to the maximum of "@
            + json_text(limit),
        KindView::ExclusiveMinimum { limit } => shown + " is less than or equal to the minimum of "@
            + json_text(limit),
        KindView::FalseSchema => "False schema does not allow "@ + shown,
        KindView::Format { format } => shown + " is not a \""@ + format + "\""@,
        KindView::FromUtf8 { error } => error,
        KindView::MaxContains { limit } => shown + " has more than "@ + decimal(limit)
            + " item(s) that match the schema"@,
        KindView::MaxItems { limit } => shown + " has more than "@ + decimal(limit) + " item(s)"@,
        KindView::MaxLength { limit } => shown + " is longer than "@ + decimal(limit)
            + " character(s)"@,
        KindView::MaxProperties { limit } => shown + " has more than "@ + decimal(limit)
            + " propert(y/ies)"@,
        KindView::Maximum { limit } => shown + " is greater than the maximum of "@ + json_text(limit),
        KindView::MinContains { limit } => shown + " has less than "@ + decimal(limit)
            + " item(s) that match the schema"@,
        KindView::MinItems { limit } => shown + " has less than "@ + decimal(limit) + " item(s)"@,
        KindView::MinLength { limit } => shown + " is shorter than "@ + decimal(limit)
            + " character(s)"@,
        KindView::MinProperties { limit } => shown + " has less than "@ + decimal(limit)
            + " propert(y/ies)"@,
        KindView::Minimum { limit } => shown + " is less than the minimum of "@ + json_text(limit),
        KindView::MultipleOf { multiple_of } => shown + " is not a multiple of "@ + json_text(
            multiple_of,
        ),
        KindView::Not { schema } => json_text(schema) + " is not allowed for "@ + shown,
        KindView::OneOfMultipleValid {
            ..
        } => shown + " is valid under more than one of the schemas listed in the 'oneOf' keyword"@,
        KindView::OneOfNotValid {
            ..
        } => shown + " is not valid under any of the schemas listed in the 'oneOf' keyword"@,
        KindView::Pattern { pattern } => shown + " does not match \""@ + pattern + "\""@,
        KindView::PropertyNames { error } => message_text_of(*error, shown),
        KindView::Referencing { message } => message,
        KindView::Required { property } => json_text(property) + " is a required property"@,
        KindView::Type { kind } => match kind {
            TypeKindView::Single(ty) => shown + " is not of type \""@ + ty.name() + "\""@,
            TypeKindView::Multiple(types) => shown + " is not of types "@ + quoted_types(types),
        },
        KindView::UnevaluatedItems {
            unexpected,
        } => "Unevaluated items are not allowed ("@ + quoted_names(unexpected) + were(unexpected),
        KindView::UnevaluatedProperties {
            unexpected,
        } => "Unevaluated properties are not allowed ("@ + quoted_names(unexpected) + were(
            unexpected,
        ),
        KindView::UniqueItems => shown + " has non-unique elements"@,
    }
}

/// The message of an error about a member's name: that name is what failed,
/// whatever mask hides the enclosing value.
pub open spec fn message_text_of(error: ErrorView, shown: Seq<char>) -> Seq<char> {
    shown + " has a property name that is not allowed"@
}

fn render_names(names: &Vec<String>) -> (r: String)
    ensures
        r@ == quoted_names(name_views(names@)),
{
    let mut out = String::new();
    let mut i: usize = 0;
    let ghost all = name_views(names@);
    proof {
        assert(all.take(0) =~= Seq::<Seq<char>>::empty());
    }
    while i < names.len()
        invariant
            i <= names.len(),
            all == name_views(names@),
            out@ == quoted_names(all.take(i as int)),
        decreases names.len() - i,
    {
        let ghost before = out@;
        let ghost next = all.take(i as int + 1);
        proof {
            assert(next.drop_last() =~= all.take(i as int));
            assert(next.last() == names@[i as int]@);
        }
        if i > 0 {
            out.append(", ");
        }
        push_char(&mut out, '\'');
        out.append(names[i].as_str());
        push_char(&mut out, '\'');
        proof {
            if i == 0 {
                assert(before =~= Seq::<char>::empty());
                assert(out@ =~= seq!['\''] + next.last() + seq!['\'']);
            } else {
                assert(out@ =~= before + ", "@ + seq!['\''] + next.last() + seq!['\'']);
            }
        }
        i += 1;
    }
    proof {
        assert(all.take(all.len() as int) =~= all);
    }
    out
}

fn render_types(types: &Vec<JsonType>) -> (r: String)
    ensures
        r@ == quoted_types(types@),
{
    let mut out = String::new();
    let mut i: usize = 0;
    proof {
        assert(types@.take(0) =~= Seq::<JsonType>::empty());
    }
    while i < types.len()
        invariant
            i <= types.len(),
            out@ == quoted_types(types@.take(i as int)),
        decreases types.len() - i,
    {
        let ghost before = out@;
        let ghost next = types@.take(i as int + 1);
        proof {
            assert(next.drop_last() =~= types@.take(i as int));
            assert(next.last() == types@[i as int]);
        }
        if i > 0 {
            out.append(", ");
        }
        push_char(&mut out, '"');
        out.append(types[i].as_str());
        push_char(&mut out, '"');
        proof {
            if i == 0 {
                assert(before =~= Seq::<char>::empty());
                assert(out@ =~= seq!['"'] + next.last().name() + seq!['"']);
            } else {
                assert(out@ =~= before + ", "@ + seq!['"'] + next.last().name() + seq!['"']);
            }
        }
        i += 1;
    }
    proof {
        assert(types@.take(types@.len() as int) =~= types@);
    }
    out
}

fn unexpected_message(head: &str, names: &Vec<String>) -> (r: String)
    ensures
        r@ == head@ + quoted_names(name_views(names@)) + were(name_views(names@)),
{
    let mut out = String::from_str(head);
    let listed = render_names(names);
    out.append(listed.as_str());
    if names.len() == 1 {
        out.append(" was unexpected)");
    } else {
        out.append(" were unexpected)");
    }
    out
}

fn limit_message(shown: &str, middle: &str, limit: u64, tail: &str) -> (r: String)
    ensures
        r@ == shown@ + middle@ + decimal(limit as nat) + tail@,
{
    let mut out = String::from_str(shown);
    out.append(middle);
    let digits = u64_to_string(limit);
    out.append(digits.as_str());
    out.append(tail);
    out
}

fn value_message(shown: &str, middle: &str, value: &Value) -> (r: String)
    ensures
        r@ == shown@ + middle@ + json_text(value@),
{
    let mut out = String::from_str(shown);
    out.append(middle);
    let text = render(value);
    out.append(text.as_str());
    out
}

fn text_message(shown: &str, middle: &str, text: &str, tail: &str) -> (r: String)
    ensures
        r@ == shown@ + middle@ + text@ + tail@,
{
    let mut out = String::from_str(shown);
    out.append(middle);
    out.append(text);
    out.append(tail);
    out
}

fn tail_message(shown: &str, tail: &str) -> (r: String)
    ensures
        r@ == shown@ + tail@,
{
    let mut out = String::from_str(shown);
    out.append(tail);
    out
}

impl ValidationErrorKind {
    /// The name of the keyword that the kind belongs to.
    pub fn keyword(&self) -> (r: String)
        ensures
            r@ == keyword_of(self@),
    {
        match self {
            ValidationErrorKind::AdditionalItems { .. } => String::from_str("additionalItems"),
            ValidationErrorKind::AdditionalProperties { .. } => String::from_str(
                "additionalProperties",
            ),
            ValidationErrorKind::AnyOf { .. } => String::from_str("anyOf"),
            ValidationErrorKind::BacktrackLimitExceeded { .. } => String::from_str("pattern"),
            ValidationErrorKind::Constant { .. } => String::from_str("const"),
            ValidationErrorKind::Contains => String::from_str("contains"),
            ValidationErrorKind::ContentEncoding { .. } => String::from_str("contentEncoding"),
            ValidationErrorKind::ContentMediaType { .. } => String::from_str("contentMediaType"),
            ValidationErrorKind::Custom { keyword, .. } => keyword.clone(),
            ValidationErrorKind::Enum { .. } => String::from_str("enum"),
            ValidationErrorKind::ExclusiveMaximum { .. } => String::from_str("exclusiveMaximum"),
            ValidationErrorKind::ExclusiveMinimum { .. } => String::from_str("exclusiveMinimum"),
            ValidationErrorKind::FalseSchema => String::from_str("falseSchema"),
            ValidationErrorKind::Format { .. } => String::from_str("format"),
            ValidationErrorKind::FromUtf8 { .. } => String::from_str("contentEncoding"),
            ValidationErrorKind::MaxContains { .. } => String::from_str("maxContains"),
            ValidationErrorKind::MaxItems { .. } => String::from_str("maxItems"),
            ValidationErrorKind::MaxLength { .. } => String::from_str("maxLength"),
            ValidationErrorKind::MaxProperties { .. } => String::from_str("maxProperties"),
            ValidationErrorKind::Maximum { .. } => String::from_str("maximum"),
            ValidationErrorKind::MinContains { .. } => String::from_str("minContains"),
            ValidationErrorKind::MinItems { .. } => String::from_str("minItems"),
            ValidationErrorKind::MinLength { .. } => String::from_str("minLength"),
            ValidationErrorKind::MinProperties { .. } => String::from_str("minProperties"),
            ValidationErrorKind::Minimum { .. } => String::from_str("minimum"),
            ValidationErrorKind::MultipleOf { .. } => String::from_str("multipleOf"),
            ValidationErrorKind::Not { .. } => String::from_str("not"),
            ValidationErrorKind::OneOfMultipleValid { .. } => String::from_str("oneOf"),
            ValidationErrorKind::OneOfNotValid { .. } => String::from_str("oneOf"),
            ValidationErrorKind::Pattern { .. } => String::from_str("pattern"),
            ValidationErrorKind::PropertyNames { .. } => String::from_str("propertyNames"),
            ValidationErrorKind::Referencing { .. } => String::from_str("$ref"),
            ValidationErrorKind::Required { .. } => String::from_str("required"),
            ValidationErrorKind::Type { .. } => String::from_str("type"),
            ValidationErrorKind::UnevaluatedItems { .. } => String::from_str("unevaluatedItems"),
            ValidationErrorKind::UnevaluatedProperties { .. } => String::from_str(
                "unevaluatedProperties",
            ),
            ValidationErrorKind::UniqueItems => String::from_str("uniqueItems"),
        }
    }

    /// The one-line message of an error of this kind, with `shown` standing
    /// for the failing value.
    pub fn message(&self, shown: &str) -> (r: String)
        ensures
            r@ == message_text(self@, shown@),
    {
        match self {
            ValidationErrorKind::AdditionalItems { limit } => {
                let mut out = String::from_str("Additional items are not allowed (at most ");
                let digits = usize_to_string(*limit);
                out.append(digits.as_str());
                out.append(" expected)");
                out
            },
            ValidationErrorKind::AdditionalProperties { unexpected } => unexpected_message(
                "Additional properties are not allowed (",
                unexpected,
            ),
            ValidationErrorKind::AnyOf { .. } => tail_message(
                shown,
                " is not valid under any of the schemas listed in the 'anyOf' keyword",
            ),
            ValidationErrorKind::BacktrackLimitExceeded { error } => error.clone(),
            ValidationErrorKind::Constant { expected_value } => {
                let mut out = render(expected_value);
                out.append(" was expected");
                out
            },
            ValidationErrorKind::Contains => {
                let mut out = String::from_str("None of ");
                out.append(shown);
                out.append(" are valid under the given schema");
                out
            },
            ValidationErrorKind::ContentEncoding { content_encoding } => text_message(
                shown,
                " is not compliant with \"",
                content_encoding.as_str(),
                "\" content encoding",
            ),
            ValidationErrorKind::ContentMediaType { content_media_type } => text_message(
                shown,
                " is not compliant with \"",
                content_media_type.as_str(),
                "\" media type",
            ),
            ValidationErrorKind::Custom { message, .. } => message.clone(),
            ValidationErrorKind::Enum { options } => value_message(shown, " is not one of ", options),
            ValidationErrorKind::ExclusiveMaximum { limit } => value_message(
                shown,
                " is greater than or equal to the maximum of ",
                limit,
            ),
            ValidationErrorKind::ExclusiveMinimum { limit } => value_message(
                shown,
                " is less than or equal to the minimum of ",
                limit,
            ),
            ValidationErrorKind::FalseSchema => tail_message("False schema does not allow ", shown),
            ValidationErrorKind::Format { format } => text_message(
                shown,
                " is not a \"",
                format.as_str(),
                "\"",
            ),
            ValidationErrorKind::FromUtf8 { error } => error.clone(),
            ValidationErrorKind::MaxContains { limit } => limit_message(
                shown,
                " has more than ",
                *limit,
                " item(s) that match the schema",
            ),
            ValidationErrorKind::MaxItems { limit } => limit_message(
                shown,
                " has more than ",
                *limit,
                " item(s)",
            ),
            ValidationErrorKind::MaxLength { limit } => limit_message(
                shown,
                " is longer than ",
                *limit,
                " character(s)",
            ),
            ValidationErrorKind::MaxProperties { limit } => limit_message(
                shown,
                " has more than ",
                *limit,
                " propert(y/ies)",
            ),
            ValidationErrorKind::Maximum { limit } => value_message(
                shown,
                " is greater than the maximum of ",
                limit,
            ),
            ValidationErrorKind::MinContains { limit } => limit_message(
                shown,
                " has less than ",
                *limit,
                " item(s) that match the schema",
            ),
            ValidationErrorKind::MinItems { limit } => limit_message(
                shown,
                " has less than ",
                *limit,
                " item(s)",
            ),
            ValidationErrorKind::MinLength { limit } => limit_message(
                shown,
                " is shorter than ",
                *limit,
                " character(s)",
            ),
            ValidationErrorKind::MinProperties { limit } => limit_message(
                shown,
                " has less than ",
                *limit,
                " propert(y/ies)",
            ),
            ValidationErrorKind::Minimum { limit } => value_message(
                shown,
                " is less than the minimum of ",
                limit,
            ),
            ValidationErrorKind::MultipleOf { multiple_of } => value_message(
                shown,
                " is not a multiple of ",
                multiple_of,
            ),
            ValidationErrorKind::Not { schema } => {
                let mut out = render(schema);
                out.append(" is not allowed for ");
                out.append(shown);
                out
            },
            ValidationErrorKind::OneOfMultipleValid { .. } => tail_message(
                shown,
                " is valid under more than one of the schemas listed in the 'oneOf' keyword",
            ),
            ValidationErrorKind::OneOfNotValid { .. } => tail_message(
                shown,
                " is not valid under any of the schemas listed in the 'oneOf' keyword",
            ),
            ValidationErrorKind::Pattern { pattern } => text_message(
                shown,
                " does not match \"",
                pattern.as_str(),
                "\"",
            ),
            ValidationErrorKind::PropertyNames { .. } => tail_message(
                shown,
                " has a property name that is not allowed",
            ),
            ValidationErrorKind::Referencing { message } => message.clone(),
            ValidationErrorKind::Required { property } => {
                let mut out = render(property);
                out.append(" is a required property");
                out
            },
            ValidationErrorKind::Type { kind } => match kind {
                TypeKind::Single(ty) => text_message(shown, " is not of type \"", ty.as_str(), "\""),
                TypeKind::Multiple(types) => {
                    let mut out = String::from_str(shown);
                    out.append(" is not of types ");
                    let listed = render_types(types);
                    out.append(listed.as_str());
                    out
                },
            },
            ValidationErrorKind::UnevaluatedItems { unexpected } => unexpected_message(
                "Unevaluated items are not allowed (",
                unexpected,
            ),
            ValidationErrorKind::UnevaluatedProperties { unexpected } => unexpected_message(
                "Unevaluated properties are not allowed (",
                unexpected,
            ),
            ValidationErrorKind::UniqueItems => tail_message(shown, " has non-unique elements"),
        }
    }
}

impl ValidationError {
    /// An error of the given kind on `instance`.
    pub fn new(
        kind: ValidationErrorKind,
        schema_path: Location,
        evaluation_path: Location,
        instance_path: Location,
        instance: &Value,
    ) -> (r: ValidationError)
        ensures
            r@ == (ErrorView {
                kind: kind@,
                instance: instance@,
                instance_path: instance_path@,
                schema_path: schema_path@,
                evaluation_path: evaluation_path@,
            }),
    {
        ValidationError {
            kind,
            instance: instance.clone(),
            instance_path,
            schema_path,
            evaluation_path,
        }
    }

    /// The object `instance` lacks the member `property`.
    pub fn required(
        schema_path: Location,
        evaluation_path: Location,
        instance_path: Location,
        instance: &Value,
        property: Value,
    ) -> (r: ValidationError)
        ensures
            r@ == (ErrorView {
                kind: KindView::Required { property: property@ },
                instance: instance@,
                instance_path: instance_path@,
                schema_path: schema_path@,
                evaluation_path: evaluation_path@,
            }),
    {
        Self::new(
            ValidationErrorKind::Required { property },
            schema_path,
            evaluation_path,
            instance_path,
            instance,
        )
    }

    /// `instance` is not of the one type asked for.
    pub fn single_type_error(
        schema_path: Location,
        evaluation_path: Location,
        instance_path: Location,
        instance: &Value,
        expected: JsonType,
    ) -> (r: ValidationError)
        ensures
            r@ == (ErrorView {
                kind: KindView::Type { kind: TypeKindView::Single(expected) },
                instance: instance@,
                instance_path: instance_path@,
                schema_path: schema_path@,
                evaluation_path: evaluation_path@,
            }),
    {
        Self::new(
            ValidationErrorKind::Type { kind: TypeKind::Single(expected) },
            schema_path,
            evaluation_path,
            instance_path,
            instance,
        )
    }

    /// `instance` has members that no keyword assessed.
    pub fn unevaluated_properties(
        schema_path: Location,
        evaluation_path: Location,
        instance_path: Location,
        instance: &Value,
        unexpected: Vec<String>,
    ) -> (r: ValidationError)
        ensures
            r@ == (ErrorView {
                kind: KindView::UnevaluatedProperties { unexpected: name_views(unexpected@) },
                instance: instance@,
                instance_path: instance_path@,
                schema_path: schema_path@,
                evaluation_path: evaluation_path@,
            }),
    {
        Self::new(
            ValidationErrorKind::UnevaluatedProperties { unexpected },
            schema_path,
            evaluation_path,
            instance_path,
            instance,
        )
    }

    /// `instance` is not in the named format.
    pub fn format(
        schema_path: Location,
        evaluation_path: Location,
        instance_path: Location,
        instance: &Value,
        format: &str,
    ) -> (r: ValidationError)
        ensures
            r@ == (ErrorView {
                kind: KindView::Format { format: format@ },
                instance: instance@,
                instance_path: instance_path@,
                schema_path: schema_path@,
                evaluation_path: evaluation_path@,
            }),
    {
        Self::new(
            ValidationErrorKind::Format { format: String::from_str(format) },
            schema_path,
            evaluation_path,
            instance_path,
            instance,
        )
    }

    /// The one-line message of the error.
    pub fn message(&self) -> (r: String)
        ensures
            r@ == message_text(self@.kind, json_text(self@.instance)),
    {
        let shown = render(&self.instance);
        self.kind.message(shown.as_str())
    }

    /// The one-line message of the error, with `mask` in place of the failing
    /// value.
    pub fn masked_message(&self, mask: &str) -> (r: String)
        ensures
            r@ == message_text(self@.kind, mask@),
    {
        self.kind.message(mask)
    }
}

} // verus!
