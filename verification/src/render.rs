//! JSON text of a value, as it is shown in messages.
use vstd::prelude::*;
use crate::json::{Json, Num, Number, Value, views, member_views, lemma_views, lemma_member_views};
use crate::text::{decimal, push_char, u64_to_string};

verus! {

/// The lower-case hexadecimal digit of a number below sixteen.
pub open spec fn hex_lower(d: nat) -> char {
    if d < 10 {
        crate::text::digit_char(d)
    } else if d == 10 {
        'a'
    } else if d == 11 {
        'b'
    } else if d == 12 {
        'c'
    } else if d == 13 {
        'd'
    } else if d == 14 {
        'e'
    } else {
        'f'
    }
}

/// A character as it stands in a JSON string literal: the quote and the
/// backslash behind a backslash; backspace, form feed, line feed, carriage
/// return and tab by their letters; any other control character as `\u00`
/// and its two hexadecimal digits; every other character as it is.
pub open spec fn escaped_char(c: char) -> Seq<char> {
    if c == '"' {
        seq!['\\', '"']
    } else if c == '\\' {
        seq!['\\', '\\']
    } else if c == '\u{8}' {
        seq!['\\', 'b']
    } else if c == '\u{c}' {
        seq!['\\', 'f']
    } else if c == '\n' {
        seq!['\\', 'n']
    } else if c == '\r' {
        seq!['\\', 'r']
    } else if c == '\t' {
        seq!['\\', 't']
    } else if ' ' > c {
        seq!['\\', 'u', '0', '0', hex_lower(c as nat / 16), hex_lower(c as nat % 16)]
    } else {
        seq![c]
    }
}

/// The characters of a text as they stand in a JSON string literal.
pub open spec fn escaped(s: Seq<char>) -> Seq<char>
    decreases s.len(),
{
    if s.len() == 0 {
        Seq::empty()
    } else {
        escaped(s.drop_last()) + escaped_char(s.last())
    }
}

/// The JSON string literal of a text: its characters, escaped, between
/// quotes.
pub open spec fn json_quoted(s: Seq<char>) -> Seq<char> {
    seq!['"'] + escaped(s) + seq!['"']
}

/// `serde_json::to_string` on a string slice: the text as a JSON string
/// literal, which is a quote, each character of the text as the serializer
/// escapes it, and a quote. Serialising a string into memory does not fail.
#[verifier::external_body]
pub(crate) fn quote(s: &str) -> (r: String)
    ensures
        r@ == json_quoted(s@),
{
    serde_json::to_string(s).unwrap_or_default()
}

/// The text of a number.
pub open spec fn number_text(n: Num) -> Seq<char> {
    match n {
        Num::PosInt(v) => decimal(v as nat),
        Num::NegInt(v) => if v < 0 {
            seq!['-'] + decimal((-v) as nat)
        } else {
            decimal(v as nat)
        },
        Num::Float { text, .. } => text,
    }
}

/// The compact JSON text of a value: no white space, members in their order.
pub open spec fn json_text(v: Json) -> Seq<char>
    decreases v,
{
    match v {
        Json::Null => "null"@,
        Json::Bool(b) => if b {
            "true"@
        } else {
            "false"@
        },
        Json::Number(n) => number_text(n),
        Json::String(s) => json_quoted(s),
        Json::Array(items) => seq!['['] + items_text(items) + seq![']'],
        Json::Object(entries) => seq!['{'] + members_text(entries) + seq!['}'],
    }
}

/// The texts of the items, with a comma between neighbours.
pub open spec fn items_text(items: Seq<Json>) -> Seq<char>
    decreases items,
{
    if items.len() == 0 {
        Seq::empty()
    } else if items.len() == 1 {
        json_text(items.last())
    } else {
        items_text(items.drop_last()) + seq![','] + json_text(items.last())
    }
}

/// The texts of the members, each as name, colon and value, with a comma
/// between neighbours.
pub open spec fn members_text(entries: Seq<(Seq<char>, Json)>) -> Seq<char>
    decreases entries,
{
    if entries.len() == 0 {
        Seq::empty()
    } else if entries.len() == 1 {
        json_quoted(entries.last().0) + seq![':'] + json_text(entries.last().1)
    } else {
        members_text(entries.drop_last()) + seq![','] + json_quoted(entries.last().0) + seq![':']
            + json_text(entries.last().1)
    }
}

/// Renders a number.
pub fn render_number(n: &Number) -> (r: String)
    ensures
        r@ == number_text(n@),
{
    match n {
        Number::PosInt(v) => u64_to_string(*v),
        Number::NegInt(v) => {
            if *v < 0 {
                // The magnitude of the smallest value does not fit the signed type.
                let magnitude: u64 = (-(*v + 1)) as u64 + 1;
                let digits = u64_to_string(magnitude);
                let mut out = String::new();
                push_char(&mut out, '-');
                out.append(digits.as_str());
                proof {
                    assert(out@ =~= seq!['-'] + decimal((-*v) as nat));
                }
                out
            } else {
                u64_to_string(*v as u64)
            }
        },
        Number::Float(d) => d.text.clone(),
    }
}

/// Renders a value as compact JSON text.
pub fn render(value: &Value) -> (r: String)
    ensures
        r@ == json_text(value@),
    decreases value,
{
    match value {
        Value::Null => String::from_str("null"),
        Value::Bool(b) => if *b {
            String::from_str("true")
        } else {
            String::from_str("false")
        },
        Value::Number(n) => render_number(n),
        Value::String(s) => quote(s.as_str()),
        Value::Array(items) => {
            let mut out = String::new();
            push_char(&mut out, '[');
            let mut i: usize = 0;
            proof {
                lemma_views(items@);
                assert(views(items@).take(0) =~= Seq::<Json>::empty());
            }
            while i < items.len()
                invariant
                    i <= items.len(),
                    value is Array && value->Array_0 == *items,
                    views(items@).len() == items@.len(),
                    forall|j: int| 0 <= j < items@.len() ==> (#[trigger] views(items@)[j]) == items@[j]@,
                    out@ == seq!['['] + items_text(views(items@).take(i as int)),
                decreases items.len() - i,
            {
                let ghost before = out@;
                let ghost done = views(items@).take(i as int);
                let ghost next = views(items@).take(i as int + 1);
                proof {
                    assert(next.drop_last() =~= done);
                    assert(next.last() == items@[i as int]@);
                }
                if i > 0 {
                    push_char(&mut out, ',');
                }
                let text = render(&items[i]);
                out.append(text.as_str());
                proof {
                    if i == 0 {
                        assert(done =~= Seq::<Json>::empty());
                        assert(out@ =~= seq!['['] + items_text(next));
                    } else {
                        assert(out@ =~= seq!['['] + (items_text(done) + seq![','] + json_text(
                            next.last(),
                        )));
                    }
                }
                i += 1;
            }
            proof {
                assert(views(items@).take(items@.len() as int) =~= views(items@));
            }
            push_char(&mut out, ']');
            proof {
                assert(out@ =~= seq!['['] + items_text(views(items@)) + seq![']']);
            }
            out
        },
        Value::Object(map) => {
            let mut out = String::new();
            push_char(&mut out, '{');
            let mut i: usize = 0;
            let ghost entries = member_views(map.entries@);
            proof {
                lemma_member_views(map.entries@);
                assert(entries.take(0) =~= Seq::<(Seq<char>, Json)>::empty());
            }
            while i < map.entries.len()
                invariant
                    i <= map.entries.len(),
                    value is Object && value->Object_0 == *map,
                    entries == member_views(map.entries@),
                    entries.len() == map.entries@.len(),
                    forall|j: int|
                        0 <= j < map.entries@.len() ==> (#[trigger] entries[j]) == (
                            map.entries@[j].0@,
                            map.entries@[j].1@,
                        ),
                    out@ == seq!['{'] + members_text(entries.take(i as int)),
                decreases map.entries.len() - i,
            {
                let ghost before = out@;
                let ghost done = entries.take(i as int);
                let ghost next = entries.take(i as int + 1);
                proof {
                    assert(next.drop_last() =~= done);
                    assert(next.last() == entries[i as int]);
                }
                if i > 0 {
                    push_char(&mut out, ',');
                }
                let name = quote(map.entries[i].0.as_str());
                out.append(name.as_str());
                push_char(&mut out, ':');
                let text = render(&map.entries[i].1);
                out.append(text.as_str());
                proof {
                    if i == 0 {
                        assert(done =~= Seq::<(Seq<char>, Json)>::empty());
                        assert(out@ =~= seq!['{'] + members_text(next));
                    } else {
                        assert(out@ =~= seq!['{'] + (members_text(done) + seq![','] + json_quoted(
                            next.last().0,
                        ) + seq![':'] + json_text(next.last().1)));
                    }
                }
                i += 1;
            }
            proof {
                assert(entries.take(entries.len() as int) =~= entries);
            }
            push_char(&mut out, '}');
            proof {
                assert(out@ =~= seq!['{'] + members_text(entries) + seq!['}']);
            }
            out
        },
    }
}

} // verus!
