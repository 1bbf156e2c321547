//! Locations inside a JSON document, and their form as JSON Pointers.
use vstd::prelude::*;
use crate::json::{Json, Value, obj_get, lemma_views};
use crate::text::{decimal, push_char, str_chars, str_eq, usize_to_string};

verus! {

/// The model of one step of a location.
pub enum Seg {
    /// The member of an object, by name.
    Property(Seq<char>),
    /// The item of an array, by position.
    Index(nat),
}

/// One step of a location: a property name or an array index.
#[derive(Debug)]
pub enum LocationSegment {
    Property(String),
    Index(usize),
}

/// A path from the root of a document to one of its values.
#[derive(Debug)]
pub struct Location {
    pub segments: Vec<LocationSegment>,
}

impl View for LocationSegment {
    type V = Seg;

    open spec fn view(&self) -> Seg {
        match self {
            LocationSegment::Property(name) => Seg::Property(name@),
            LocationSegment::Index(index) => Seg::Index(*index as nat),
        }
    }
}

impl View for Location {
    type V = Seq<Seg>;

    open spec fn view(&self) -> Seq<Seg> {
        Seq::new(self.segments@.len(), |i: int| self.segments@[i]@)
    }
}

/// A property name as it stands in a JSON Pointer: `~` becomes `~0` and `/`
/// becomes `~1`.
pub open spec fn escape(s: Seq<char>) -> Seq<char>
    decreases s.len(),
{
    if s.len() == 0 {
        Seq::empty()
    } else if s[0] == '~' {
        seq!['~', '0'] + escape(s.drop_first())
    } else if s[0] == '/' {
        seq!['~', '1'] + escape(s.drop_first())
    } else {
        seq![s[0]] + escape(s.drop_first())
    }
}

/// The reverse of [`escape`]: `~1` becomes `/` and `~0` becomes `~`; any other
/// character stands for itself.
pub open spec fn unescape(s: Seq<char>) -> Seq<char>
    decreases s.len(),
{
    if s.len() == 0 {
        Seq::empty()
    } else if s.len() >= 2 && s[0] == '~' && s[1] == '1' {
        seq!['/'] + unescape(s.skip(2))
    } else if s.len() >= 2 && s[0] == '~' && s[1] == '0' {
        seq!['~'] + unescape(s.skip(2))
    } else {
        seq![s[0]] + unescape(s.drop_first())
    }
}

/// The text of one segment in a JSON Pointer.
pub open spec fn seg_text(seg: Seg) -> Seq<char> {
    match seg {
        Seg::Property(name) => escape(name),
        Seg::Index(index) => decimal(index),
    }
}

/// The JSON Pointer of a location: each segment after a `/`.
pub open spec fn pointer_text(segs: Seq<Seg>) -> Seq<char>
    decreases segs.len(),
{
    if segs.len() == 0 {
        Seq::empty()
    } else {
        pointer_text(segs.drop_last()) + seq!['/'] + seg_text(segs.last())
    }
}

/// The value that one step leads to from `parent`.
pub open spec fn json_child(parent: Json, seg: Seg) -> Option<Json> {
    match (parent, seg) {
        (Json::Object(entries), Seg::Property(name)) => obj_get(entries, name),
        (Json::Array(items), Seg::Index(index)) => if index < items.len() {
            Some(items[index as int])
        } else {
            None
        },
        _ => None,
    }
}

/// The value that `path` leads to from `root`.
pub open spec fn json_at(root: Json, path: Seq<Seg>) -> Option<Json>
    decreases path.len(),
{
    if path.len() == 0 {
        Some(root)
    } else {
        match json_at(root, path.drop_last()) {
            Some(parent) => json_child(parent, path.last()),
            None => None,
        }
    }
}

/// Unescaping undoes escaping.
pub proof fn lemma_unescape_escape(s: Seq<char>)
    ensures
        unescape(escape(s)) == s,
    decreases s.len(),
{
    if s.len() == 0 {
    } else {
        let rest = s.drop_first();
        lemma_unescape_escape(rest);
        let e = escape(s);
        if s[0] == '~' {
            assert(e =~= seq!['~', '0'] + escape(rest));
            assert(e.skip(2) =~= escape(rest));
            assert(unescape(e) =~= seq!['~'] + rest);
        } else if s[0] == '/' {
            assert(e =~= seq!['~', '1'] + escape(rest));
            assert(e.skip(2) =~= escape(rest));
            assert(unescape(e) =~= seq!['/'] + rest);
        } else {
            assert(e =~= seq![s[0]] + escape(rest));
            assert(e.drop_first() =~= escape(rest));
            assert(e[0] == s[0]);
            assert(unescape(e) =~= seq![s[0]] + rest);
        }
        assert(seq![s[0]] + rest =~= s);
    }
}

/// Renders a property name for use in a JSON Pointer.
pub fn escape_segment(s: &str) -> (r: String)
    ensures
        r@ == escape(s@),
{
    let chars = str_chars(s);
    let mut out = String::new();
    let mut i: usize = 0;
    proof {
        assert(chars@.skip(0) =~= chars@);
    }
    while i < chars.len()
        invariant
            i <= chars.len(),
            chars@ == s@,
            escape(s@) == out@ + escape(chars@.skip(i as int)),
        decreases chars.len() - i,
    {
        let c = chars[i];
        let ghost before = out@;
        proof {
            assert(chars@.skip(i as int).drop_first() =~= chars@.skip(i as int + 1));
            assert(chars@.skip(i as int)[0] == c);
        }
        if c == '~' {
            push_char(&mut out, '~');
            push_char(&mut out, '0');
            proof {
                assert(out@ + escape(chars@.skip(i as int + 1)) =~= before + (seq!['~', '0'] + escape(
                    chars@.skip(i as int + 1),
                )));
            }
        } else if c == '/' {
            push_char(&mut out, '~');
            push_char(&mut out, '1');
            proof {
                assert(out@ + escape(chars@.skip(i as int + 1)) =~= before + (seq!['~', '1'] + escape(
                    chars@.skip(i as int + 1),
                )));
            }
        } else {
            push_char(&mut out, c);
            proof {
                assert(out@ + escape(chars@.skip(i as int + 1)) =~= before + (seq![c] + escape(
                    chars@.skip(i as int + 1),
                )));
            }
        }
        i += 1;
    }
    proof {
        assert(out@ + Seq::<char>::empty() =~= out@);
    }
    out
}

/// Reads a segment of a JSON Pointer back into the name it stands for.
pub fn unescape_segment(s: &str) -> (r: String)
    ensures
        r@ == unescape(s@),
{
    let chars = str_chars(s);
    let mut out = String::new();
    let mut i: usize = 0;
    proof {
        assert(chars@.skip(0) =~= chars@);
    }
    while i < chars.len()
        invariant
            i <= chars.len(),
            chars@ == s@,
            unescape(s@) == out@ + unescape(chars@.skip(i as int)),
        decreases chars.len() - i,
    {
        let c = chars[i];
        let ghost before = out@;
        let ghost rest = chars@.skip(i as int);
        proof {
            assert(rest[0] == c);
            assert(rest.len() == chars.len() - i);
        }
        if c == '~' && i + 1 < chars.len() && (chars[i + 1] == '1' || chars[i + 1] == '0') {
            let d = chars[i + 1];
            proof {
                assert(rest[1] == d);
                assert(rest.skip(2) =~= chars@.skip(i as int + 2));
            }
            if d == '1' {
                push_char(&mut out, '/');
                proof {
                    assert(out@ + unescape(chars@.skip(i as int + 2)) =~= before + (seq!['/']
                        + unescape(rest.skip(2))));
                }
            } else {
                push_char(&mut out, '~');
                proof {
                    assert(out@ + unescape(chars@.skip(i as int + 2)) =~= before + (seq!['~']
                        + unescape(rest.skip(2))));
                }
            }
            i += 2;
        } else {
            proof {
                assert(rest.drop_first() =~= chars@.skip(i as int + 1));
                if rest.len() >= 2 {
                    assert(rest[1] == chars@[i as int + 1]);
                }
            }
            push_char(&mut out, c);
            proof {
                assert(out@ + unescape(chars@.skip(i as int + 1)) =~= before + (seq![c] + unescape(
                    rest.drop_first(),
                )));
            }
            i += 1;
        }
    }
    proof {
        assert(out@ + Seq::<char>::empty() =~= out@);
    }
    out
}

impl Clone for LocationSegment {
    fn clone(&self) -> (r: Self)
        ensures
            r@ == self@,
    {
        match self {
            LocationSegment::Property(name) => LocationSegment::Property(name.clone()),
            LocationSegment::Index(index) => LocationSegment::Index(*index),
        }
    }
}

impl LocationSegment {
    /// Whether two segments are the same step.
    pub fn same(&self, other: &LocationSegment) -> (r: bool)
        ensures
            r == (self@ == other@),
    {
        match (self, other) {
            (LocationSegment::Property(a), LocationSegment::Property(b)) => str_eq(
                a.as_str(),
                b.as_str(),
            ),
            (LocationSegment::Index(a), LocationSegment::Index(b)) => *a == *b,
            _ => false,
        }
    }
}

impl Clone for Location {
    fn clone(&self) -> (r: Self)
        ensures
            r@ == self@,
    {
        let mut segments: Vec<LocationSegment> = Vec::new();
        let mut i: usize = 0;
        while i < self.segments.len()
            invariant
                i <= self.segments.len(),
                segments@.len() == i,
                forall|j: int| 0 <= j < i ==> (#[trigger] segments@[j])@ == self.segments@[j]@,
            decreases self.segments.len() - i,
        {
            segments.push(self.segments[i].clone());
            i += 1;
        }
        let r = Location { segments };
        proof {
            assert(r@ =~= self@);
        }
        r
    }
}

impl Location {
    /// The location of the document's root.
    pub fn new() -> (r: Location)
        ensures
            r@ == Seq::<Seg>::empty(),
    {
        let r = Location { segments: Vec::new() };
        proof {
            assert(r@ =~= Seq::<Seg>::empty());
        }
        r
    }

    pub fn len(&self) -> (r: usize)
        ensures
            r == self@.len(),
    {
        self.segments.len()
    }

    /// The segment at `index`.
    pub fn segment(&self, index: usize) -> (r: &LocationSegment)
        requires
            index < self@.len(),
        ensures
            r@ == self@[index as int],
    {
        &self.segments[index]
    }

    /// This location, one step further.
    pub fn push(&self, segment: LocationSegment) -> (r: Location)
        ensures
            r@ == self@.push(segment@),
    {
        let mut next = self.clone();
        let ghost before = next@;
        next.segments.push(segment);
        proof {
            assert(next@ =~= before.push(segment@));
        }
        next
    }

    /// This location, one property further.
    pub fn join(&self, name: &str) -> (r: Location)
        ensures
            r@ == self@.push(Seg::Property(name@)),
    {
        self.push(LocationSegment::Property(String::from_str(name)))
    }

    /// This location, one array index further.
    pub fn join_index(&self, index: usize) -> (r: Location)
        ensures
            r@ == self@.push(Seg::Index(index as nat)),
    {
        self.push(LocationSegment::Index(index))
    }

    /// The location as a JSON Pointer.
    pub fn pointer(&self) -> (r: String)
        ensures
            r@ == pointer_text(self@),
    {
        let mut out = String::new();
        let mut i: usize = 0;
        proof {
            assert(self@.take(0) =~= Seq::<Seg>::empty());
        }
        while i < self.segments.len()
            invariant
                i <= self.segments.len(),
                out@ == pointer_text(self@.take(i as int)),
            decreases self.segments.len() - i,
        {
            let ghost before = out@;
            proof {
                assert(self@.take(i as int + 1).drop_last() =~= self@.take(i as int));
                assert(self@.take(i as int + 1).last() == self@[i as int]);
            }
            push_char(&mut out, '/');
            match &self.segments[i] {
                LocationSegment::Property(name) => {
                    let text = escape_segment(name.as_str());
                    out.append(text.as_str());
                },
                LocationSegment::Index(index) => {
                    let text = usize_to_string(*index);
                    out.append(text.as_str());
                },
            }
            proof {
                assert(out@ =~= before + seq!['/'] + seg_text(self@[i as int]));
            }
            i += 1;
        }
        proof {
            assert(self@.take(self@.len() as int) =~= self@);
        }
        out
    }

    /// Whether `self` starts with every segment of `base`.
    pub fn starts_with(&self, base: &Location) -> (r: bool)
        ensures
            r == base@.is_prefix_of(self@),
    {
        if base.segments.len() > self.segments.len() {
            return false;
        }
        let mut i: usize = 0;
        while i < base.segments.len()
            invariant
                i <= base.segments.len(),
                base.segments.len() <= self.segments.len(),
                forall|j: int| 0 <= j < i ==> base@[j] == self@[j],
            decreases base.segments.len() - i,
        {
            if !base.segments[i].same(&self.segments[i]) {
                proof {
                    assert(base@[i as int] != self@[i as int]);
                    assert(base@ != self@.subrange(0, base@.len() as int)) by {
                        if base@ == self@.subrange(0, base@.len() as int) {
                            assert(self@.subrange(0, base@.len() as int)[i as int] == self@[i as int]);
                        }
                    }
                }
                return false;
            }
            i += 1;
        }
        proof {
            assert(base@ =~= self@.subrange(0, base@.len() as int));
        }
        true
    }
}

/// What the evaluation path of a keyword is, given the reference that was
/// followed last: where the keyword lies under the referenced schema, the
/// path by which that schema was reached, then the rest of the keyword's own
/// location; else the keyword's location itself.
pub open spec fn captured(tracker: Option<(Seq<Seg>, Seq<Seg>)>, location: Seq<Seg>) -> Seq<Seg> {
    match tracker {
        None => location,
        Some((base, path)) => if base.is_prefix_of(location) {
            path + location.skip(base.len() as int)
        } else {
            location
        },
    }
}

/// The reference that was followed last on the way to the schema being
/// applied: the location of the referenced schema, and the evaluation path by
/// which it was reached.
#[derive(Debug)]
pub struct RefTracker {
    pub schema_location: Location,
    pub evaluation_path: Location,
}

impl View for RefTracker {
    type V = (Seq<Seg>, Seq<Seg>);

    open spec fn view(&self) -> (Seq<Seg>, Seq<Seg>) {
        (self.schema_location@, self.evaluation_path@)
    }
}

/// The model of an optional tracker.
pub open spec fn tracker_view(tracker: Option<&RefTracker>) -> Option<(Seq<Seg>, Seq<Seg>)> {
    match tracker {
        Some(t) => Some(t@),
        None => None,
    }
}

/// The evaluation path of the keyword at `location`.
pub fn capture_evaluation_path(tracker: Option<&RefTracker>, location: &Location) -> (r: Location)
    ensures
        r@ == captured(tracker_view(tracker), location@),
{
    match tracker {
        None => location.clone(),
        Some(t) => {
            if location.starts_with(&t.schema_location) {
                let mut out = t.evaluation_path.clone();
                let mut i: usize = t.schema_location.len();
                let ghost base = t.schema_location@.len() as int;
                proof {
                    assert(location@.subrange(base, base) =~= Seq::<Seg>::empty());
                    assert(out@ + Seq::<Seg>::empty() =~= out@);
                }
                while i < location.len()
                    invariant
                        0 <= base <= i <= location@.len(),
                        out@ == t.evaluation_path@ + location@.subrange(base, i as int),
                    decreases location@.len() - i,
                {
                    let ghost before = out@;
                    out = out.push(location.segment(i).clone());
                    proof {
                        assert(location@.subrange(base, i as int + 1) =~= location@.subrange(
                            base,
                            i as int,
                        ).push(location@[i as int]));
                        assert(out@ =~= t.evaluation_path@ + location@.subrange(base, i as int + 1));
                    }
                    i += 1;
                }
                proof {
                    assert(location@.subrange(base, location@.len() as int) =~= location@.skip(base));
                }
                out
            } else {
                location.clone()
            }
        },
    }
}

/// The value that one step leads to from `parent`.
pub fn child<'a>(parent: &'a Value, segment: &LocationSegment) -> (r: Option<&'a Value>)
    ensures
        r is Some <==> json_child(parent@, segment@) is Some,
        r is Some ==> json_child(parent@, segment@) == Some(r->0@),
{
    match (parent, segment) {
        (Value::Object(map), LocationSegment::Property(name)) => map.get(name.as_str()),
        (Value::Array(items), LocationSegment::Index(index)) => {
            proof {
                lemma_views(items@);
            }
            if *index < items.len() {
                Some(&items[*index])
            } else {
                None
            }
        },
        _ => None,
    }
}

/// The value that `path` leads to from `root`.
pub fn lookup<'a>(root: &'a Value, path: &Location) -> (r: Option<&'a Value>)
    ensures
        r is Some <==> json_at(root@, path@) is Some,
        r is Some ==> json_at(root@, path@) == Some(r->0@),
{
    let mut current: &Value = root;
    let mut i: usize = 0;
    proof {
        assert(path@.take(0) =~= Seq::<Seg>::empty());
    }
    while i < path.len()
        invariant
            i <= path@.len(),
            json_at(root@, path@.take(i as int)) == Some(current@),
        decreases path@.len() - i,
    {
        proof {
            assert(path@.take(i as int + 1).drop_last() =~= path@.take(i as int));
            assert(path@.take(i as int + 1).last() == path@[i as int]);
        }
        match child(current, path.segment(i)) {
            Some(next) => {
                current = next;
            },
            None => {
                proof {
                    lemma_json_at_prefix_none(root@, path@, i as int + 1);
                }
                return None;
            },
        }
        i += 1;
    }
    proof {
        assert(path@.take(path@.len() as int) =~= path@);
    }
    Some(current)
}

/// Where a prefix of a path leads nowhere, the path leads nowhere.
pub proof fn lemma_json_at_prefix_none(root: Json, path: Seq<Seg>, n: int)
    requires
        0 <= n <= path.len(),
        json_at(root, path.take(n)) is None,
    ensures
        json_at(root, path) is None,
    decreases path.len() - n,
{
    if n == path.len() {
        assert(path.take(n) =~= path);
    } else {
        assert(path.take(n + 1).drop_last() =~= path.take(n));
        lemma_json_at_prefix_none(root, path, n + 1);
    }
}

/// The segments of a JSON Pointer, as written: the pieces between the `/`
/// characters, leaving out what stands before the first one.
pub open spec fn pointer_tokens(text: Seq<char>) -> Seq<Seq<char>> {
    split_tokens(text).drop_first()
}

/// The pieces of `text` between its `/` characters. There is always at least
/// one piece.
pub open spec fn split_tokens(text: Seq<char>) -> Seq<Seq<char>>
    decreases text.len(),
{
    if text.len() == 0 {
        seq![Seq::<char>::empty()]
    } else {
        let before = split_tokens(text.drop_last());
        if text.last() == '/' {
            before.push(Seq::<char>::empty())
        } else {
            before.drop_last().push(before.last().push(text.last()))
        }
    }
}

/// `split_tokens` gives at least one piece.
pub proof fn lemma_split_nonempty(text: Seq<char>)
    ensures
        split_tokens(text).len() >= 1,
    decreases text.len(),
{
    if text.len() > 0 {
        lemma_split_nonempty(text.drop_last());
    }
}

/// The views of a vector of strings.
pub open spec fn string_views(items: Seq<String>) -> Seq<Seq<char>> {
    Seq::new(items.len(), |i: int| items[i]@)
}

/// Splits a JSON Pointer into its segments, as written.
pub fn split_pointer(text: &str) -> (r: Vec<String>)
    ensures
        string_views(r@) == pointer_tokens(text@),
{
    let chars = str_chars(text);
    let mut done: Vec<String> = Vec::new();
    let mut current = String::new();
    // Whether a `/` has been seen: what stands before the first one is left out.
    let mut started = false;
    let mut i: usize = 0;
    proof {
        assert(chars@.take(0) =~= Seq::<char>::empty());
        assert(split_tokens(Seq::<char>::empty()).drop_first() =~= string_views(done@));
    }
    while i < chars.len()
        invariant
            i <= chars.len(),
            chars@ == text@,
            started ==> string_views(done@).push(current@) == split_tokens(
                chars@.take(i as int),
            ).drop_first(),
            !started ==> done@.len() == 0 && split_tokens(chars@.take(i as int)).len() == 1,
        decreases chars.len() - i,
    {
        let c = chars[i];
        let ghost prefix = chars@.take(i as int);
        let ghost next = chars@.take(i as int + 1);
        let ghost old_done = string_views(done@);
        let ghost old_current = current@;
        proof {
            assert(next.drop_last() =~= prefix);
            assert(next.last() == c);
            lemma_split_nonempty(prefix);
        }
        if c == '/' {
            if started {
                done.push(current);
                proof {
                    assert(string_views(done@) =~= old_done.push(old_current));
                }
            }
            current = String::new();
            started = true;
            proof {
                let before = split_tokens(prefix);
                assert(split_tokens(next) == before.push(Seq::<char>::empty()));
                assert(before.push(Seq::<char>::empty()).drop_first() =~= before.drop_first().push(
                    Seq::<char>::empty(),
                ));
                assert(string_views(done@).push(current@) =~= split_tokens(next).drop_first());
            }
        } else {
            if started {
                push_char(&mut current, c);
                proof {
                    let before = split_tokens(prefix);
                    assert(split_tokens(next) == before.drop_last().push(before.last().push(c)));
                    assert(before.drop_first() == old_done.push(old_current));
                    assert(before.drop_first().len() == old_done.len() + 1);
                    assert(before.last() == old_current) by {
                        assert(before.drop_first().last() == before.last());
                    }
                    assert(before.drop_first().drop_last() =~= old_done);
                    assert(split_tokens(next).drop_first() =~= before.drop_first().drop_last().push(
                        before.last().push(c),
                    ));
                    assert(string_views(done@).push(current@) =~= split_tokens(next).drop_first());
                }
            } else {
                proof {
                    let before = split_tokens(prefix);
                    assert(split_tokens(next) == before.drop_last().push(before.last().push(c)));
                }
            }
        }
        i += 1;
    }
    proof {
        assert(chars@.take(chars@.len() as int) =~= chars@);
    }
    if started {
        done.push(current);
        proof {
            assert(string_views(done@) =~= pointer_tokens(text@));
        }
    } else {
        proof {
            assert(string_views(done@) =~= pointer_tokens(text@));
        }
    }
    done
}

/// Whether the text is a decimal digit.
pub open spec fn is_digit(c: char) -> bool {
    '0' <= c <= '9'
}

/// Whether the segment is written as an array index: one or more decimal
/// digits and nothing else.
pub open spec fn index_like(s: Seq<char>) -> bool {
    s.len() > 0 && forall|i: int| 0 <= i < s.len() ==> is_digit(#[trigger] s[i])
}

/// Whether the segment is written as an array index.
pub fn is_index_segment(s: &str) -> (r: bool)
    ensures
        r == index_like(s@),
{
    let chars = str_chars(s);
    if chars.len() == 0 {
        return false;
    }
    let mut i: usize = 0;
    while i < chars.len()
        invariant
            i <= chars.len(),
            chars@ == s@,
            forall|j: int| 0 <= j < i ==> is_digit(#[trigger] s@[j]),
        decreases chars.len() - i,
    {
        let c = chars[i];
        if !('0' <= c && c <= '9') {
            proof {
                assert(!is_digit(s@[i as int]));
            }
            return false;
        }
        i += 1;
    }
    true
}

/// The number that a run of decimal digits writes.
pub open spec fn digits_value(s: Seq<char>) -> nat
    decreases s.len(),
{
    if s.len() == 0 {
        0
    } else {
        digits_value(s.drop_last()) * 10 + (s.last() as nat - '0' as nat) as nat
    }
}

/// The number of a prefix never exceeds the number of the whole run.
proof fn lemma_digits_monotone(s: Seq<char>, n: int)
    requires
        0 <= n <= s.len(),
    ensures
        digits_value(s.take(n)) <= digits_value(s),
    decreases s.len() - n,
{
    if n == s.len() {
        assert(s.take(n) =~= s);
    } else {
        lemma_digits_monotone(s, n + 1);
        assert(s.take(n + 1).drop_last() =~= s.take(n));
    }
}

/// Reads a segment as an array index: `None` where it is not written as one,
/// or where the number does not fit.
pub fn parse_index(s: &str) -> (r: Option<usize>)
    ensures
        r is Some <==> index_like(s@) && digits_value(s@) <= usize::MAX,
        r is Some ==> r->0 == digits_value(s@),
{
    if !is_index_segment(s) {
        return None;
    }
    let chars = str_chars(s);
    let mut value: usize = 0;
    let mut i: usize = 0;
    proof {
        assert(chars@.take(0) =~= Seq::<char>::empty());
    }
    while i < chars.len()
        invariant
            i <= chars.len(),
            chars@ == s@,
            index_like(s@),
            value == digits_value(chars@.take(i as int)),
        decreases chars.len() - i,
    {
        let c = chars[i];
        proof {
            assert(chars@.take(i as int + 1).drop_last() =~= chars@.take(i as int));
            assert(chars@.take(i as int + 1).last() == c);
            assert(is_digit(s@[i as int]));
        }
        let digit: usize = (c as u32 - '0' as u32) as usize;
        if value > (usize::MAX - digit) / 10 {
            proof {
                lemma_digits_monotone(chars@, i as int + 1);
            }
            return None;
        }
        value = value * 10 + digit;
        i += 1;
    }
    proof {
        assert(chars@.take(chars@.len() as int) =~= chars@);
    }
    Some(value)
}

} // verus!
