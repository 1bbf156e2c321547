//! Reading back the JSON Pointer of a location: the pointer that is written
//! for a path leads, when it is split and followed, along that path.
use vstd::prelude::*;
use crate::compiler::{resolve, resolve_tokens, token_step};
use crate::json::Json;
use crate::paths::{
    Seg, digits_value, escape, index_like, is_digit, json_at, json_child, lemma_unescape_escape,
    pointer_text, pointer_tokens, seg_text, split_tokens,
};
use crate::text::{decimal, digit_char};

verus! {

/// The character of a digit is a digit, and stands for it.
pub proof fn lemma_digit(d: nat)
    requires
        d < 10,
    ensures
        is_digit(digit_char(d)),
        digit_char(d) as nat - '0' as nat == d,
{
}

/// The decimal digits of a number are an index as written, and write that
/// number.
pub proof fn lemma_decimal(n: nat)
    ensures
        index_like(decimal(n)),
        digits_value(decimal(n)) == n,
    decreases n,
{
    let s = decimal(n);
    if n < 10 {
        lemma_digit(n);
        assert(s.drop_last() =~= Seq::<char>::empty());
        assert(digits_value(s) == digits_value(s.drop_last()) * 10 + (s.last() as nat - '0' as nat) as nat);
        assert(digits_value(s.drop_last()) == 0);
    } else {
        lemma_decimal(n / 10);
        lemma_digit(n % 10);
        let shorter = decimal(n / 10);
        assert(s == shorter.push(digit_char(n % 10)));
        assert(s.drop_last() =~= shorter);
        assert(digits_value(s) == digits_value(s.drop_last()) * 10 + (s.last() as nat - '0' as nat) as nat);
        assert forall|i: int| 0 <= i < s.len() implies is_digit(#[trigger] s[i]) by {
            if i < shorter.len() {
                assert(s[i] == shorter[i]);
            }
        }
    }
}

/// An escaped name holds no `/`.
pub proof fn lemma_escape_no_slash(s: Seq<char>)
    ensures
        forall|i: int| 0 <= i < escape(s).len() ==> (#[trigger] escape(s)[i]) != '/',
    decreases s.len(),
{
    if s.len() > 0 {
        lemma_escape_no_slash(s.drop_first());
        let rest = escape(s.drop_first());
        assert forall|i: int| 0 <= i < escape(s).len() implies (#[trigger] escape(s)[i]) != '/' by {
            if s[0] == '~' || s[0] == '/' {
                if i >= 2 {
                    assert(escape(s)[i] == rest[i - 2]);
                }
            } else {
                if i >= 1 {
                    assert(escape(s)[i] == rest[i - 1]);
                }
            }
        }
    }
}

/// The text of a segment holds no `/`.
pub proof fn lemma_segment_no_slash(seg: Seg)
    ensures
        forall|i: int| 0 <= i < seg_text(seg).len() ==> (#[trigger] seg_text(seg)[i]) != '/',
{
    match seg {
        Seg::Property(name) => {
            lemma_escape_no_slash(name);
        },
        Seg::Index(index) => {
            lemma_decimal(index);
        },
    }
}

/// A `/` and a piece without one, written after a text, add that piece to
/// the pieces of the text.
pub proof fn lemma_split_push(text: Seq<char>, piece: Seq<char>)
    requires
        forall|i: int| 0 <= i < piece.len() ==> (#[trigger] piece[i]) != '/',
    ensures
        split_tokens(text + seq!['/'] + piece) == split_tokens(text).push(piece),
    decreases piece.len(),
{
    let whole = text + seq!['/'] + piece;
    if piece.len() == 0 {
        assert(whole.drop_last() =~= text);
        assert(whole.last() == '/');
        assert(piece =~= Seq::<char>::empty());
    } else {
        let shorter = piece.drop_last();
        lemma_split_push(text, shorter);
        assert(whole.drop_last() =~= text + seq!['/'] + shorter);
        assert(whole.last() == piece.last());
        let before = split_tokens(whole.drop_last());
        assert(before == split_tokens(text).push(shorter));
        assert(before.drop_last() =~= split_tokens(text));
        assert(before.last() == shorter);
        assert(shorter.push(piece.last()) =~= piece);
    }
}

/// The texts of the segments of a path, in their order.
pub open spec fn texts(path: Seq<Seg>) -> Seq<Seq<char>> {
    Seq::new(path.len(), |i: int| seg_text(path[i]))
}

/// The pointer of a path splits into the texts of its segments.
pub proof fn lemma_pointer_tokens(path: Seq<Seg>)
    ensures
        split_tokens(pointer_text(path)) == seq![Seq::<char>::empty()] + texts(path),
        pointer_tokens(pointer_text(path)) == texts(path),
        path.len() > 0 ==> pointer_text(path).len() > 0 && pointer_text(path)[0] == '/',
    decreases path.len(),
{
    let first = seq![Seq::<char>::empty()];
    if path.len() == 0 {
        assert(texts(path) =~= Seq::<Seq<char>>::empty());
        assert(first + texts(path) =~= first);
    } else {
        let shorter = path.drop_last();
        lemma_pointer_tokens(shorter);
        lemma_segment_no_slash(path.last());
        lemma_split_push(pointer_text(shorter), seg_text(path.last()));
        assert((first + texts(shorter)).push(seg_text(path.last())) =~= first + texts(path));
        if shorter.len() == 0 {
            assert(pointer_text(shorter) =~= Seq::<char>::empty());
        }
    }
    assert((first + texts(path)).drop_first() =~= texts(path));
}

/// The text of a segment, read at the value that the segment steps from,
/// is that segment again, and leads to the same value.
pub proof fn lemma_step(parent: Json, seg: Seg)
    requires
        json_child(parent, seg) is Some,
    ensures
        token_step(parent, seg_text(seg)) == Some((seg, json_child(parent, seg)->0)),
{
    match seg {
        Seg::Property(name) => {
            lemma_unescape_escape(name);
        },
        Seg::Index(index) => {
            lemma_decimal(index);
        },
    }
}

/// The texts of a path that leads somewhere, followed from the same root,
/// lead along that path to the same value.
pub proof fn lemma_resolve_texts(root: Json, path: Seq<Seg>)
    requires
        json_at(root, path) is Some,
    ensures
        resolve_tokens(root, texts(path)) == Some((path, json_at(root, path)->0)),
    decreases path.len(),
{
    if path.len() > 0 {
        let shorter = path.drop_last();
        lemma_resolve_texts(root, shorter);
        assert(texts(path).drop_last() =~= texts(shorter));
        assert(texts(path).last() == seg_text(path.last()));
        lemma_step(json_at(root, shorter)->0, path.last());
        assert(shorter.push(path.last()) =~= path);
    }
}

/// The reference that is written for a path: `#` and the pointer of the
/// path.
pub open spec fn reference_to(path: Seq<Seg>) -> Seq<char> {
    seq!['#'] + pointer_text(path)
}

/// For every path that leads to a value of a document, the pointer that is
/// written for the path, split and followed from the root of the document,
/// leads along the same path to the same value; and so does the reference
/// that is written for it.
pub proof fn law_pointer_read_back(root: Json, path: Seq<Seg>)
    requires
        json_at(root, path) is Some,
    ensures
        resolve_tokens(root, pointer_tokens(pointer_text(path))) == Some(
            (path, json_at(root, path)->0),
        ),
        resolve(root, reference_to(path)) == Some((path, json_at(root, path)->0)),
{
    lemma_pointer_tokens(path);
    lemma_resolve_texts(root, path);
    let reference = reference_to(path);
    if path.len() == 0 {
        assert(pointer_text(path) =~= Seq::<char>::empty());
        assert(reference.len() == 1);
        assert(texts(path) =~= Seq::<Seq<char>>::empty());
    } else {
        assert(reference[1] == pointer_text(path)[0]);
        assert(reference.skip(1) =~= pointer_text(path));
    }
}

} // verus!
