//! The long form of an error message: where in the schema the failure lies,
//! where in the instance, and on which value.
use vstd::prelude::*;
use crate::json::{Json, Value, lemma_views, obj_get};
use crate::paths::{
    Location, digits_value, index_like, is_index_segment, parse_index, pointer_text, pointer_tokens,
    split_pointer, string_views, unescape, unescape_segment,
};
use crate::render::{json_text, render};
use crate::text::{push_char, str_eq};

verus! {

/// Whether the members of the keyword are schemas by name, so that a member
/// named by digits is still a name and no position.
pub open spec fn property_map(keyword: Seq<char>) -> bool {
    keyword == "properties"@ || keyword == "patternProperties"@ || keyword == "dependentSchemas"@
        || keyword == "$defs"@ || keyword == "definitions"@ || keyword == "dependencies"@
}

/// A segment as the message shows it: a position as it is written, a name
/// between double quotes.
pub open spec fn shown_segment(segment: Seq<char>, position: bool) -> Seq<char> {
    if position {
        segment
    } else {
        seq!['"'] + segment + seq!['"']
    }
}

/// Whether the segment at `index` of a schema location is a position: it is
/// written as one, and does not stand below a keyword whose members are
/// schemas by name.
pub open spec fn schema_position(tokens: Seq<Seq<char>>, index: int) -> bool {
    index_like(unescape(tokens[index])) && !(index > 0 && property_map(unescape(tokens[index - 1])))
}

/// The first `n` segments of a schema location, each between square
/// brackets.
pub open spec fn schema_brackets(tokens: Seq<Seq<char>>, n: nat) -> Seq<char>
    decreases n,
{
    if n == 0 || n > tokens.len() {
        Seq::empty()
    } else {
        schema_brackets(tokens, (n - 1) as nat) + seq!['['] + shown_segment(
            unescape(tokens[n - 1]),
            schema_position(tokens, n - 1),
        ) + seq![']']
    }
}

/// What the message says of the schema: the keyword that failed, and the way
/// to it through the schema.
pub open spec fn schema_part(tokens: Seq<Seq<char>>) -> Seq<char> {
    if tokens.len() == 0 {
        " in schema"@
    } else {
        seq![' '] + shown_segment(
            unescape(tokens.last()),
            schema_position(tokens, tokens.len() - 1),
        ) + " in schema"@ + schema_brackets(tokens, (tokens.len() - 1) as nat)
    }
}

/// The value that the first `n` segments of an instance location lead to
/// from the root, as far as the message follows them.
pub open spec fn walked(root: Option<Json>, tokens: Seq<Seq<char>>, n: nat) -> Option<Json>
    decreases n,
{
    if n == 0 || n > tokens.len() {
        root
    } else {
        let current = walked(root, tokens, (n - 1) as nat);
        let segment = unescape(tokens[n - 1]);
        match current {
            Some(Json::Array(values)) => if index_like(segment) && digits_value(segment) < values.len() {
                Some(values[digits_value(segment) as int])
            } else {
                None
            },
            Some(Json::Object(values)) => obj_get(values, segment),
            _ => None,
        }
    }
}

/// Whether the segment at `index` of an instance location is a position: it
/// is written as one, and the value it is applied to is no object.
pub open spec fn instance_position(root: Option<Json>, tokens: Seq<Seq<char>>, index: int) -> bool {
    match walked(root, tokens, index as nat) {
        Some(Json::Object(_)) => false,
        _ => index_like(unescape(tokens[index])),
    }
}

/// The first `n` segments of an instance location, each between square
/// brackets.
pub open spec fn instance_brackets(root: Option<Json>, tokens: Seq<Seq<char>>, n: nat) -> Seq<char>
    decreases n,
{
    if n == 0 || n > tokens.len() {
        Seq::empty()
    } else {
        instance_brackets(root, tokens, (n - 1) as nat) + seq!['['] + shown_segment(
            unescape(tokens[n - 1]),
            instance_position(root, tokens, n - 1),
        ) + seq![']']
    }
}

/// The long form of a message: the message itself; the keyword that failed
/// and the way to it through the schema; the way to the failing value through
/// the instance; and the failing value as JSON text, or the mask in its
/// place.
pub open spec fn verbose_text(
    message: Seq<char>,
    schema_path: Seq<char>,
    instance_path: Seq<char>,
    root: Option<Json>,
    failing: Json,
    mask: Option<Seq<char>>,
) -> Seq<char> {
    message + "\n\nFailed validating"@ + schema_part(pointer_tokens(schema_path)) + "\n\nOn instance"@
        + instance_brackets(
        root,
        pointer_tokens(instance_path),
        pointer_tokens(instance_path).len(),
    ) + ":\n    "@ + match mask {
        Some(text) => text,
        None => json_text(failing),
    }
}

fn is_schema_property_map(segment: &str) -> (r: bool)
    ensures
        r == property_map(segment@),
{
    str_eq(segment, "properties") || str_eq(segment, "patternProperties") || str_eq(
        segment,
        "dependentSchemas",
    ) || str_eq(segment, "$defs") || str_eq(segment, "definitions") || str_eq(segment, "dependencies")
}

fn push_segment(m: &mut String, segment: &str, is_index: bool)
    ensures
        final(m)@ == old(m)@ + shown_segment(segment@, is_index),
{
    let ghost before = m@;
    if is_index {
        m.append(segment);
    } else {
        push_char(m, '"');
        m.append(segment);
        push_char(m, '"');
        proof {
            assert(m@ =~= before + (seq!['"'] + segment@ + seq!['"']));
        }
    }
}

/// The model of an optional value.
pub open spec fn value_view(value: Option<&Value>) -> Option<Json> {
    match value {
        Some(v) => Some(v@),
        None => None,
    }
}

/// The model of an optional text.
pub open spec fn text_view(text: Option<&str>) -> Option<Seq<char>> {
    match text {
        Some(t) => Some(t@),
        None => None,
    }
}

/// Whether the segment at `index` of a schema location is a position.
fn is_schema_position(tokens: &Vec<String>, index: usize) -> (r: bool)
    requires
        index < tokens@.len(),
    ensures
        r == schema_position(string_views(tokens@), index as int),
{
    let segment = unescape_segment(tokens[index].as_str());
    if !is_index_segment(segment.as_str()) {
        return false;
    }
    if index > 0 {
        let previous = unescape_segment(tokens[index - 1].as_str());
        !is_schema_property_map(previous.as_str())
    } else {
        true
    }
}

/// Adds what the message says of the schema.
fn append_schema_part(message: &mut String, schema_tokens: &Vec<String>)
    ensures
        final(message)@ == old(message)@ + schema_part(string_views(schema_tokens@)),
{
    let ghost tokens = string_views(schema_tokens@);
    let ghost base = message@;
    if schema_tokens.len() > 0 {
        let last = schema_tokens.len() - 1;
        let segment = unescape_segment(schema_tokens[last].as_str());
        let is_index = is_schema_position(schema_tokens, last);
        push_char(message, ' ');
        push_segment(message, segment.as_str(), is_index);
        message.append(" in schema");
        let ghost head = message@;
        let mut i: usize = 0;
        proof {
            assert(tokens.last() == schema_tokens@[last as int]@);
            assert(head =~= base + (seq![' '] + shown_segment(
                unescape(tokens.last()),
                schema_position(tokens, tokens.len() - 1),
            ) + " in schema"@));
            assert(head + Seq::<char>::empty() =~= head);
        }
        while i < last
            invariant
                i <= last,
                last == schema_tokens.len() - 1,
                tokens == string_views(schema_tokens@),
                message@ == head + schema_brackets(tokens, i as nat),
            decreases last - i,
        {
            let ghost before = schema_brackets(tokens, i as nat);
            let segment = unescape_segment(schema_tokens[i].as_str());
            let is_index = is_schema_position(schema_tokens, i);
            push_char(message, '[');
            push_segment(message, segment.as_str(), is_index);
            push_char(message, ']');
            proof {
                assert(message@ =~= head + (before + seq!['['] + shown_segment(
                    unescape(tokens[i as int]),
                    schema_position(tokens, i as int),
                ) + seq![']']));
            }
            i += 1;
        }
        proof {
            assert(message@ =~= base + schema_part(tokens));
        }
    } else {
        message.append(" in schema");
    }
}

/// The value that one more segment leads to, as far as the message follows
/// it.
fn walk<'a>(current: Option<&'a Value>, segment: &str, is_index: bool) -> (r: Option<&'a Value>)
    requires
        is_index == match value_view(current) {
            Some(Json::Object(_)) => false,
            _ => index_like(segment@),
        },
    ensures
        value_view(r) == match value_view(current) {
            Some(Json::Array(values)) => if index_like(segment@) && digits_value(segment@)
                < values.len() {
                Some(values[digits_value(segment@) as int])
            } else {
                None
            },
            Some(Json::Object(values)) => obj_get(values, segment@),
            _ => None,
        },
{
    match current {
        Some(Value::Array(values)) => {
            proof {
                lemma_views(values@);
            }
            let count = values.len();
            if is_index {
                match parse_index(segment) {
                    Some(idx) => if idx < count {
                        Some(&values[idx])
                    } else {
                        None
                    },
                    None => None,
                }
            } else {
                None
            }
        },
        Some(Value::Object(values)) => values.get(segment),
        _ => None,
    }
}

/// Adds the way to the failing value through the instance.
fn append_instance_part(message: &mut String, instance_tokens: &Vec<String>, root_instance: Option<&Value>)
    ensures
        final(message)@ == old(message)@ + instance_brackets(
            value_view(root_instance),
            string_views(instance_tokens@),
            instance_tokens@.len() as nat,
        ),
{
    let ghost start = message@;
    let ghost steps = string_views(instance_tokens@);
    let ghost root = value_view(root_instance);
    let mut current: Option<&Value> = root_instance;
    let mut k: usize = 0;
    proof {
        assert(start + Seq::<char>::empty() =~= start);
    }
    while k < instance_tokens.len()
        invariant
            k <= instance_tokens.len(),
            steps == string_views(instance_tokens@),
            root == value_view(root_instance),
            value_view(current) == walked(root, steps, k as nat),
            message@ == start + instance_brackets(root, steps, k as nat),
        decreases instance_tokens.len() - k,
    {
        let ghost before = instance_brackets(root, steps, k as nat);
        let segment = unescape_segment(instance_tokens[k].as_str());
        let is_index = match current {
            Some(Value::Object(_)) => false,
            _ => is_index_segment(segment.as_str()),
        };
        push_char(message, '[');
        push_segment(message, segment.as_str(), is_index);
        push_char(message, ']');
        proof {
            assert(message@ =~= start + (before + seq!['['] + shown_segment(
                unescape(steps[k as int]),
                instance_position(root, steps, k as int),
            ) + seq![']']));
        }
        current = walk(current, segment.as_str(), is_index);
        k += 1;
    }
}

/// Build a verbose error message with schema path, instance path, and instance value.
pub fn build_verbose_message(
    message: String,
    schema_path: &Location,
    instance_path: &Location,
    root_instance: Option<&Value>,
    failing_instance: &Value,
    mask: Option<&str>,
) -> (r: String)
    ensures
        r@ == verbose_text(
            message@,
            pointer_text(schema_path@),
            pointer_text(instance_path@),
            value_view(root_instance),
            failing_instance@,
            text_view(mask),
        ),
{
    let mut message = message;
    let schema_path_str = schema_path.pointer();
    let instance_path_str = instance_path.pointer();

    message.append("\n\nFailed validating");
    let schema_tokens = split_pointer(schema_path_str.as_str());
    append_schema_part(&mut message, &schema_tokens);

    message.append("\n\nOn instance");
    let instance_tokens = split_pointer(instance_path_str.as_str());
    append_instance_part(&mut message, &instance_tokens, root_instance);
    message.append(":\n    ");

    if let Some(mask) = mask {
        message.append(mask);
    } else {
        let text = render(failing_instance);
        message.append(text.as_str());
    }

    message
}

} // verus!
