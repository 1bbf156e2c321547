//! File paths as `file://` URIs.
use vstd::prelude::*;
use crate::text::push_char;

verus! {

/// The upper-case hexadecimal digit of a number below sixteen.
pub open spec fn hex_upper(n: int) -> char {
    if n == 0 {
        '0'
    } else if n == 1 {
        '1'
    } else if n == 2 {
        '2'
    } else if n == 3 {
        '3'
    } else if n == 4 {
        '4'
    } else if n == 5 {
        '5'
    } else if n == 6 {
        '6'
    } else if n == 7 {
        '7'
    } else if n == 8 {
        '8'
    } else if n == 9 {
        '9'
    } else if n == 10 {
        'A'
    } else if n == 11 {
        'B'
    } else if n == 12 {
        'C'
    } else if n == 13 {
        'D'
    } else if n == 14 {
        'E'
    } else {
        'F'
    }
}

/// A byte, percent-encoded: `%` and its two hexadecimal digits in upper case.
pub open spec fn percent_text(byte: u8) -> Seq<char> {
    seq!['%', hex_upper(byte as int / 16), hex_upper(byte as int % 16)]
}

/// `percent_encode_byte` of `percent_encoding`: the byte as `%` and two
/// hexadecimal digits in upper case, whatever the byte.
#[verifier::external_body]
pub(crate) fn percent_encode_byte(byte: u8) -> (r: &'static str)
    ensures
        r@ == percent_text(byte),
{
    percent_encoding::percent_encode_byte(byte)
}

/// Whether a byte of a path segment is percent-encoded: every byte that is
/// not ASCII, every control, and the characters that would end or split the
/// segment.
pub open spec fn must_encode(byte: u8) -> bool {
    byte >= 0x80 || byte < 0x20 || byte == 0x7f || byte == 0x20 || byte == 0x22 || byte == 0x3c
        || byte == 0x3e || byte == 0x60 || byte == 0x23 || byte == 0x3f || byte == 0x7b || byte
        == 0x7d || byte == 0x2f || byte == 0x25 || byte == 0x5c
}

/// One byte of a path segment as it stands in the URI.
pub open spec fn encoded_byte(byte: u8) -> Seq<char> {
    if must_encode(byte) {
        percent_text(byte)
    } else {
        seq![byte as char]
    }
}

/// A path segment as it stands in the URI.
pub open spec fn encoded(bytes: Seq<u8>) -> Seq<char>
    decreases bytes.len(),
{
    if bytes.len() == 0 {
        Seq::empty()
    } else {
        encoded(bytes.drop_last()) + encoded_byte(bytes.last())
    }
}

/// The first `n` segments of a path, each after a `/`.
pub open spec fn joined(components: Seq<Vec<u8>>, n: nat) -> Seq<char>
    decreases n,
{
    if n == 0 || n > components.len() {
        Seq::empty()
    } else {
        joined(components, (n - 1) as nat) + seq!['/'] + encoded(components[n - 1]@)
    }
}

/// The `file://` URI of an absolute path, given as the segments that follow
/// its root.
pub open spec fn file_uri(components: Seq<Vec<u8>>) -> Seq<char> {
    "file://"@ + joined(components, components.len())
}

fn should_encode(byte: u8) -> (r: bool)
    ensures
        r == must_encode(byte),
{
    byte >= 0x80 || byte < 0x20 || byte == 0x7f || byte == 0x20 || byte == 0x22 || byte == 0x3c
        || byte == 0x3e || byte == 0x60 || byte == 0x23 || byte == 0x3f || byte == 0x7b || byte
        == 0x7d || byte == 0x2f || byte == 0x25 || byte == 0x5c
}

/// Adds a path segment to a URI.
fn push_encoded(result: &mut String, component: &Vec<u8>)
    ensures
        final(result)@ == old(result)@ + encoded(component@),
{
    let ghost start = result@;
    let mut i: usize = 0;
    proof {
        assert(component@.take(0) =~= Seq::<u8>::empty());
        assert(start + Seq::<char>::empty() =~= start);
    }
    while i < component.len()
        invariant
            i <= component.len(),
            result@ == start + encoded(component@.take(i as int)),
        decreases component.len() - i,
    {
        let byte = component[i];
        let ghost before = encoded(component@.take(i as int));
        proof {
            assert(component@.take(i as int + 1).drop_last() =~= component@.take(i as int));
            assert(component@.take(i as int + 1).last() == byte);
        }
        if should_encode(byte) {
            result.append(percent_encode_byte(byte));
        } else {
            push_char(result, byte as char);
        }
        proof {
            assert(result@ =~= start + (before + encoded_byte(byte)));
        }
        i += 1;
    }
    proof {
        assert(component@.take(component@.len() as int) =~= component@);
    }
}

/// The `file://` URI of an absolute path. `components` holds the bytes of
/// each segment of the path after its root.
pub fn path_to_uri(components: &Vec<Vec<u8>>) -> (r: String)
    ensures
        r@ == file_uri(components@),
{
    let mut result = String::from_str("file://");
    let ghost start = result@;
    let mut i: usize = 0;
    proof {
        assert(start + Seq::<char>::empty() =~= start);
    }
    while i < components.len()
        invariant
            i <= components.len(),
            start == "file://"@,
            result@ == start + joined(components@, i as nat),
        decreases components.len() - i,
    {
        let ghost before = joined(components@, i as nat);
        push_char(&mut result, '/');
        push_encoded(&mut result, &components[i]);
        proof {
            assert(result@ =~= start + (before + seq!['/'] + encoded(components@[i as int]@)));
        }
        i += 1;
    }
    result
}

} // verus!
