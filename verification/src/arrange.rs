//! The order in which a list output shows its entries.
use vstd::prelude::*;
use crate::json::{Json, Value};

verus! {

/// How one text stands to another.
#[derive(Debug, Clone, Copy, PartialEq, Eq)]
pub enum Rank {
    Before,
    Same,
    After,
}

/// Whether `a` stands before `b`: texts are ordered character by character,
/// and a text stands before each longer text that begins with it.
pub open spec fn before(a: Seq<char>, b: Seq<char>) -> bool
    decreases a.len(),
{
    b.len() > 0 && (a.len() == 0 || a[0] < b[0] || (a[0] == b[0] && before(
        a.drop_first(),
        b.drop_first(),
    )))
}

/// Texts that begin alike are ordered as what follows the common beginning.
pub proof fn lemma_before_skip(a: Seq<char>, b: Seq<char>, n: int)
    requires
        0 <= n <= a.len(),
        n <= b.len(),
        forall|j: int| 0 <= j < n ==> a[j] == b[j],
    ensures
        before(a, b) == before(a.skip(n), b.skip(n)),
        before(b, a) == before(b.skip(n), a.skip(n)),
    decreases n,
{
    if n == 0 {
        assert(a.skip(0) =~= a);
        assert(b.skip(0) =~= b);
    } else {
        let x = a.drop_first();
        let y = b.drop_first();
        assert(a[0] == b[0]);
        assert forall|j: int| 0 <= j < n - 1 implies x[j] == y[j] by {
            assert(x[j] == a[j + 1]);
            assert(y[j] == b[j + 1]);
        }
        lemma_before_skip(x, y, n - 1);
        assert(x.skip(n - 1) =~= a.skip(n));
        assert(y.skip(n - 1) =~= b.skip(n));
    }
}

/// Of two texts, one stands before the other or they are the same, and
/// never two of these at once.
pub proof fn lemma_one_of_three(a: Seq<char>, b: Seq<char>)
    ensures
        before(a, b) || a == b || before(b, a),
        !(before(a, b) && before(b, a)),
        !(before(a, b) && a == b),
    decreases a.len(),
{
    if a.len() == 0 {
        if b.len() == 0 {
            assert(a =~= b);
        }
    } else if b.len() > 0 {
        lemma_one_of_three(a.drop_first(), b.drop_first());
        if a[0] == b[0] && a.drop_first() == b.drop_first() {
            assert(a.len() == b.len()) by {
                assert(a.drop_first().len() == b.drop_first().len());
            }
            assert forall|i: int| 0 <= i < a.len() implies a[i] == b[i] by {
                if i > 0 {
                    assert(a[i] == a.drop_first()[i - 1]);
                    assert(b[i] == b.drop_first()[i - 1]);
                }
            }
            assert(a =~= b);
        }
    }
}

/// What stands before a text stands before everything that the text stands
/// before.
pub proof fn lemma_before_chain(a: Seq<char>, b: Seq<char>, c: Seq<char>)
    requires
        before(a, b),
        before(b, c),
    ensures
        before(a, c),
    decreases a.len(),
{
    if a.len() > 0 {
        if a[0] == b[0] && b[0] == c[0] {
            lemma_before_chain(a.drop_first(), b.drop_first(), c.drop_first());
        }
    }
}

/// How the text `a` stands to the text `b`.
pub fn rank(a: &Vec<char>, b: &Vec<char>) -> (r: Rank)
    ensures
        match r {
            Rank::Before => before(a@, b@),
            Rank::Same => a@ == b@,
            Rank::After => before(b@, a@),
        },
{
    let mut i: usize = 0;
    while i < a.len() && i < b.len()
        invariant
            i <= a.len(),
            i <= b.len(),
            forall|j: int| 0 <= j < i ==> a@[j] == b@[j],
        decreases a.len() - i,
    {
        if a[i] < b[i] {
            proof {
                lemma_before_skip(a@, b@, i as int);
            }
            return Rank::Before;
        }
        if b[i] < a[i] {
            proof {
                lemma_before_skip(a@, b@, i as int);
            }
            return Rank::After;
        }
        i += 1;
    }
    proof {
        lemma_before_skip(a@, b@, i as int);
    }
    if a.len() < b.len() {
        Rank::Before
    } else if b.len() < a.len() {
        Rank::After
    } else {
        proof {
            assert(a@ =~= b@);
        }
        Rank::Same
    }
}

/// One entry of a list output, with the three texts by which the entries
/// are ordered.
#[derive(Debug)]
pub struct Entry {
    pub evaluation_path: Vec<char>,
    pub schema_location: Vec<char>,
    pub instance_location: Vec<char>,
    /// What the output shows of the entry.
    pub unit: Value,
}

/// The model of an entry.
pub struct EntryView {
    pub evaluation_path: Seq<char>,
    pub schema_location: Seq<char>,
    pub instance_location: Seq<char>,
    pub unit: Json,
}

impl View for Entry {
    type V = EntryView;

    open spec fn view(&self) -> EntryView {
        EntryView {
            evaluation_path: self.evaluation_path@,
            schema_location: self.schema_location@,
            instance_location: self.instance_location@,
            unit: self.unit@,
        }
    }
}

/// Whether the entry `a` stands before the entry `b`: by the evaluation
/// path; where that is the same, by the schema location; and where that is
/// the same too, by the instance location.
pub open spec fn entry_before(a: EntryView, b: EntryView) -> bool {
    before(a.evaluation_path, b.evaluation_path) || (a.evaluation_path == b.evaluation_path && (
    before(a.schema_location, b.schema_location) || (a.schema_location == b.schema_location
        && before(a.instance_location, b.instance_location))))
}

/// Whether the entry `a` stands before the entry `b`.
pub fn stands_before(a: &Entry, b: &Entry) -> (r: bool)
    ensures
        r == entry_before(a@, b@),
{
    proof {
        lemma_one_of_three(a.evaluation_path@, b.evaluation_path@);
        lemma_one_of_three(a.schema_location@, b.schema_location@);
        lemma_one_of_three(a.instance_location@, b.instance_location@);
    }
    match rank(&a.evaluation_path, &b.evaluation_path) {
        Rank::Before => true,
        Rank::After => false,
        Rank::Same => match rank(&a.schema_location, &b.schema_location) {
            Rank::Before => true,
            Rank::After => false,
            Rank::Same => match rank(&a.instance_location, &b.instance_location) {
                Rank::Before => true,
                _ => false,
            },
        },
    }
}

/// The entries with `x` put among them: behind those at the front that
/// stand before it, and so in front of every entry that does not.
pub open spec fn placed(x: EntryView, entries: Seq<EntryView>) -> Seq<EntryView>
    decreases entries.len(),
{
    if entries.len() == 0 || !entry_before(entries[0], x) {
        seq![x] + entries
    } else {
        seq![entries[0]] + placed(x, entries.drop_first())
    }
}

/// The entries in their order: each stands where no entry behind it stands
/// before it, and entries of which neither stands before the other keep the
/// order that they came in.
pub open spec fn arranged(entries: Seq<EntryView>) -> Seq<EntryView>
    decreases entries.len(),
{
    if entries.len() == 0 {
        Seq::empty()
    } else {
        placed(entries[0], arranged(entries.drop_first()))
    }
}

/// The models of a list of entries.
pub open spec fn entry_views(entries: Seq<Entry>) -> Seq<EntryView> {
    Seq::new(entries.len(), |i: int| entries[i]@)
}

/// Puts `x` among the entries, which are in their order.
fn place(entries: &mut Vec<Entry>, x: Entry)
    ensures
        entry_views(final(entries)@) == placed(x@, entry_views(old(entries)@)),
{
    let ghost start = entry_views(entries@);
    let mut j: usize = 0;
    proof {
        assert(start.skip(0) =~= start);
        assert(start.take(0) + placed(x@, start.skip(0)) =~= placed(x@, start));
    }
    while j < entries.len() && stands_before(&entries[j], &x)
        invariant
            j <= entries.len(),
            start == entry_views(entries@),
            placed(x@, start) == start.take(j as int) + placed(x@, start.skip(j as int)),
        decreases entries.len() - j,
    {
        proof {
            let rest = start.skip(j as int);
            assert(rest[0] == start[j as int]);
            assert(rest.drop_first() =~= start.skip(j + 1));
            assert(start.take(j as int) + (seq![rest[0]] + placed(x@, rest.drop_first()))
                =~= start.take(j + 1) + placed(x@, start.skip(j + 1)));
        }
        j += 1;
    }
    proof {
        let rest = start.skip(j as int);
        if j < entries.len() {
            assert(rest[0] == start[j as int]);
        }
        assert(placed(x@, rest) == seq![x@] + rest);
        assert(start.take(j as int) + (seq![x@] + rest) =~= start.insert(j as int, x@));
    }
    entries.insert(j, x);
    proof {
        assert(entry_views(entries@) =~= start.insert(j as int, x@));
    }
}

/// Puts the entries in their order.
pub fn arrange(entries: Vec<Entry>) -> (r: Vec<Entry>)
    ensures
        entry_views(r@) == arranged(entry_views(entries@)),
{
    let ghost all = entry_views(entries@);
    let mut waiting = entries;
    let mut done: Vec<Entry> = Vec::new();
    proof {
        assert(all.skip(all.len() as int) =~= Seq::<EntryView>::empty());
        assert(entry_views(done@) =~= arranged(all.skip(all.len() as int)));
    }
    while waiting.len() > 0
        invariant
            waiting@.len() <= all.len(),
            entry_views(waiting@) == all.take(waiting@.len() as int),
            entry_views(done@) == arranged(all.skip(waiting@.len() as int)),
        decreases waiting@.len(),
    {
        let ghost n = waiting@.len() as int;
        let ghost before_pop = entry_views(waiting@);
        match waiting.pop() {
            Some(x) => {
                proof {
                    assert(x@ == before_pop[n - 1]);
                    assert(x@ == all[n - 1]);
                    let tail = all.skip(n - 1);
                    assert(tail[0] == all[n - 1]);
                    assert(tail.drop_first() =~= all.skip(n));
                    assert(entry_views(waiting@) =~= all.take(n - 1));
                }
                place(&mut done, x);
            },
            None => {},
        }
    }
    proof {
        assert(all.skip(0) =~= all);
    }
    done
}

/// Whether no entry stands before an entry in front of it.
pub open spec fn in_order(entries: Seq<EntryView>) -> bool {
    forall|i: int, j: int|
        0 <= i < j < entries.len() ==> !entry_before(#[trigger] entries[j], #[trigger] entries[i])
}

/// Of two entries, where the first does not stand before the second and the
/// second not before a third, the first does not stand before the third.
pub proof fn lemma_not_before_chain(a: EntryView, b: EntryView, c: EntryView)
    requires
        !entry_before(a, b),
        !entry_before(b, c),
    ensures
        !entry_before(a, c),
{
    lemma_one_of_three(a.evaluation_path, b.evaluation_path);
    lemma_one_of_three(b.evaluation_path, c.evaluation_path);
    lemma_one_of_three(a.evaluation_path, c.evaluation_path);
    lemma_one_of_three(a.schema_location, b.schema_location);
    lemma_one_of_three(b.schema_location, c.schema_location);
    lemma_one_of_three(a.schema_location, c.schema_location);
    lemma_one_of_three(a.instance_location, b.instance_location);
    lemma_one_of_three(b.instance_location, c.instance_location);
    lemma_one_of_three(a.instance_location, c.instance_location);
    if before(c.evaluation_path, b.evaluation_path) && before(b.evaluation_path, a.evaluation_path) {
        lemma_before_chain(c.evaluation_path, b.evaluation_path, a.evaluation_path);
    }
    if before(c.schema_location, b.schema_location) && before(b.schema_location, a.schema_location) {
        lemma_before_chain(c.schema_location, b.schema_location, a.schema_location);
    }
    if before(c.instance_location, b.instance_location) && before(
        b.instance_location,
        a.instance_location,
    ) {
        lemma_before_chain(c.instance_location, b.instance_location, a.instance_location);
    }
}

/// An entry that is put among entries in their order leaves them in their
/// order, and they are the same entries with that one more.
pub proof fn lemma_placed(x: EntryView, entries: Seq<EntryView>)
    requires
        in_order(entries),
    ensures
        in_order(placed(x, entries)),
        placed(x, entries).to_multiset() == entries.to_multiset().insert(x),
        placed(x, entries).len() == entries.len() + 1,
        forall|k: int|
            0 <= k < placed(x, entries).len() ==> (#[trigger] placed(x, entries)[k]) == x
                || entries.contains(placed(x, entries)[k]),
    decreases entries.len(),
{
    broadcast use vstd::seq_lib::group_to_multiset_ensures;

    let r = placed(x, entries);
    if entries.len() == 0 || !entry_before(entries[0], x) {
        assert(r == seq![x] + entries);
        assert(r =~= entries.insert(0, x));
        entries.to_multiset_ensures();
        assert forall|i: int, j: int| 0 <= i < j < r.len() implies !entry_before(
            #[trigger] r[j],
            #[trigger] r[i],
        ) by {
            if i == 0 {
                assert(r[j] == entries[j - 1]);
                if j - 1 > 0 {
                    assert(!entry_before(entries[j - 1], entries[0]));
                    lemma_not_before_chain(entries[j - 1], entries[0], x);
                }
            } else {
                assert(r[i] == entries[i - 1]);
                assert(r[j] == entries[j - 1]);
            }
        }
        assert forall|k: int| 0 <= k < r.len() implies (#[trigger] r[k]) == x || entries.contains(
            r[k],
        ) by {
            if k > 0 {
                assert(r[k] == entries[k - 1]);
            }
        }
    } else {
        let rest = entries.drop_first();
        assert forall|i: int, j: int| 0 <= i < j < rest.len() implies !entry_before(
            #[trigger] rest[j],
            #[trigger] rest[i],
        ) by {
            assert(rest[i] == entries[i + 1]);
            assert(rest[j] == entries[j + 1]);
        }
        lemma_placed(x, rest);
        let inner = placed(x, rest);
        assert(r == seq![entries[0]] + inner);
        assert(r =~= inner.insert(0, entries[0]));
        assert(entries =~= rest.insert(0, entries[0]));
        inner.to_multiset_ensures();
        rest.to_multiset_ensures();
        assert(r.to_multiset() =~= entries.to_multiset().insert(x));
        assert forall|i: int, j: int| 0 <= i < j < r.len() implies !entry_before(
            #[trigger] r[j],
            #[trigger] r[i],
        ) by {
            if i == 0 {
                assert(r[j] == inner[j - 1]);
                if inner[j - 1] == x {
                    lemma_one_of_three(entries[0].evaluation_path, x.evaluation_path);
                    lemma_one_of_three(entries[0].schema_location, x.schema_location);
                    lemma_one_of_three(entries[0].instance_location, x.instance_location);
                } else {
                    assert(rest.contains(inner[j - 1]));
                    let k = choose|k: int| 0 <= k < rest.len() && rest[k] == inner[j - 1];
                    assert(rest[k] == entries[k + 1]);
                    assert(!entry_before(entries[k + 1], entries[0]));
                }
            } else {
                assert(r[i] == inner[i - 1]);
                assert(r[j] == inner[j - 1]);
            }
        }
        assert forall|k: int| 0 <= k < r.len() implies (#[trigger] r[k]) == x || entries.contains(
            r[k],
        ) by {
            if k == 0 {
                assert(entries[0] == r[0]);
            } else {
                assert(r[k] == inner[k - 1]);
                if inner[k - 1] != x {
                    let m = choose|m: int| 0 <= m < rest.len() && rest[m] == inner[k - 1];
                    assert(entries[m + 1] == rest[m]);
                }
            }
        }
    }
}

/// The arranged entries are in their order, and they are the entries that
/// were given: each as often as it was given.
pub proof fn law_arranged(entries: Seq<EntryView>)
    ensures
        in_order(arranged(entries)),
        arranged(entries).to_multiset() == entries.to_multiset(),
        arranged(entries).len() == entries.len(),
    decreases entries.len(),
{
    broadcast use vstd::seq_lib::group_to_multiset_ensures;

    if entries.len() == 0 {
        assert(arranged(entries) =~= entries);
    } else {
        let rest = entries.drop_first();
        law_arranged(rest);
        lemma_placed(entries[0], arranged(rest));
        assert(entries =~= rest.insert(0, entries[0]));
        rest.to_multiset_ensures();
    }
}

} // verus!
