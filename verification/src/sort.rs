//! Stable ordering of directory entries, by size (largest first) or by name.
use vstd::prelude::*;
use crate::app::SortMode;
use crate::scanner::FileEntry;
use crate::text::{seq_lt, chars_lt, chars_of};

verus! {

/// `a` goes strictly before `b` in the given order.
pub open spec fn goes_before(mode: SortMode, a: FileEntry, b: FileEntry) -> bool {
    match mode {
        SortMode::Size => a.size > b.size,
        SortMode::Name => seq_lt(a.name@, b.name@),
    }
}

/// `a` and `b` have the same sort key.
pub open spec fn same_key(mode: SortMode, a: FileEntry, b: FileEntry) -> bool {
    match mode {
        SortMode::Size => a.size == b.size,
        SortMode::Name => a.name@ == b.name@,
    }
}

/// No entry goes strictly before one that precedes it.
pub open spec fn sorted_by(mode: SortMode, s: Seq<FileEntry>) -> bool {
    forall|i: int, j: int| 0 <= i < j < s.len() ==> !goes_before(mode, #[trigger] s[j], #[trigger] s[i])
}

/// The entries of `s` with the same key as `e`, in their order in `s`.
pub open spec fn key_class(mode: SortMode, s: Seq<FileEntry>, e: FileEntry) -> Seq<FileEntry> {
    s.filter(|x: FileEntry| same_key(mode, x, e))
}

/// `output` is `input` stably sorted: ordered, and holding for every key the same
/// entries in the same relative order.
pub open spec fn stably_sorted(mode: SortMode, input: Seq<FileEntry>, output: Seq<FileEntry>) -> bool {
    &&& sorted_by(mode, output)
    &&& forall|e: FileEntry| #[trigger] key_class(mode, input, e) == key_class(mode, output, e)
}

proof fn lemma_order_facts(mode: SortMode, a: FileEntry, b: FileEntry, c: FileEntry)
    ensures
        goes_before(mode, a, b) ==> !goes_before(mode, b, a),
        goes_before(mode, a, b) ==> !same_key(mode, a, b),
        same_key(mode, a, b) && same_key(mode, b, c) ==> same_key(mode, a, c),
        same_key(mode, a, b) ==> same_key(mode, b, a),
        !goes_before(mode, b, a) && !goes_before(mode, c, b) ==> !goes_before(mode, c, a),
{
    match mode {
        SortMode::Size => {},
        SortMode::Name => {
            crate::text::lemma_seq_lt_irreflexive(a.name@);
            if seq_lt(a.name@, b.name@) && seq_lt(b.name@, a.name@) {
                crate::text::lemma_seq_lt_transitive(a.name@, b.name@, a.name@);
            }
            if !seq_lt(b.name@, a.name@) && !seq_lt(c.name@, b.name@) {
                crate::text::lemma_seq_lt_total(a.name@, b.name@);
                crate::text::lemma_seq_lt_total(b.name@, c.name@);
                if seq_lt(c.name@, a.name@) {
                    if seq_lt(a.name@, b.name@) {
                        crate::text::lemma_seq_lt_transitive(c.name@, a.name@, b.name@);
                    }
                    if seq_lt(b.name@, c.name@) {
                        crate::text::lemma_seq_lt_transitive(b.name@, c.name@, a.name@);
                        if seq_lt(a.name@, b.name@) {
                            crate::text::lemma_seq_lt_transitive(a.name@, b.name@, a.name@);
                        }
                    }
                    crate::text::lemma_seq_lt_irreflexive(a.name@);
                    crate::text::lemma_seq_lt_irreflexive(b.name@);
                }
            }
        },
    }
}

proof fn lemma_filter_single(x: FileEntry, p: spec_fn(FileEntry) -> bool)
    ensures
        seq![x].filter(p) == (if p(x) { seq![x] } else { Seq::<FileEntry>::empty() }),
{
    reveal(Seq::filter);
    assert(seq![x].drop_last() == Seq::<FileEntry>::empty());
    assert(Seq::<FileEntry>::empty().filter(p) == Seq::<FileEntry>::empty());
}

proof fn lemma_filter_none(s: Seq<FileEntry>, p: spec_fn(FileEntry) -> bool)
    requires
        forall|i: int| 0 <= i < s.len() ==> !p(#[trigger] s[i]),
    ensures
        s.filter(p) == Seq::<FileEntry>::empty(),
    decreases s.len(),
{
    reveal(Seq::filter);
    if s.len() > 0 {
        lemma_filter_none(s.drop_last(), p);
    }
}

/// Whether `a` goes strictly before `b`, given the characters of their names.
fn goes_before_exec(mode: SortMode, a: &FileEntry, akey: &Vec<char>, b: &FileEntry, bkey: &Vec<char>) -> (r: bool)
    requires
        akey@ == a.name@,
        bkey@ == b.name@,
    ensures
        r == goes_before(mode, *a, *b),
{
    match mode {
        SortMode::Size => a.size > b.size,
        SortMode::Name => chars_lt(akey, bkey),
    }
}

/// Sorts entries stably: by size with the largest first, or by name in code point
/// order.
pub fn sort_entries(entries: &mut Vec<FileEntry>, mode: SortMode)
    ensures
        stably_sorted(mode, old(entries)@, final(entries)@),
{
    let mut input: Vec<FileEntry> = Vec::new();
    std::mem::swap(entries, &mut input);
    let ghost orig = input@;
    let mut keys: Vec<Vec<char>> = Vec::new();
    assert(orig.skip(orig.len() as int) == Seq::<FileEntry>::empty());
    assert forall|e: FileEntry| #[trigger] key_class(mode, orig.skip(orig.len() as int), e) == key_class(mode, entries@, e) by {
        reveal(Seq::filter);
    }
    while input.len() > 0
        invariant
            input@ == orig.take(input.len() as int),
            input.len() <= orig.len(),
            keys.len() == entries.len(),
            forall|j: int| 0 <= j < keys.len() ==> (#[trigger] keys@[j])@ == entries@[j].name@,
            sorted_by(mode, entries@),
            forall|e: FileEntry| #[trigger] key_class(mode, orig.skip(input.len() as int), e) == key_class(mode, entries@, e),
        decreases input.len(),
    {
        let ghost r = entries@;
        let ghost n = input.len() as int;
        let x = match input.pop() {
            Some(x) => x,
            None => { return; },
        };
        assert(x == orig[n - 1]);
        let xkey = chars_of(x.name.as_str());
        let mut lo: usize = 0;
        let mut hi: usize = entries.len();
        while lo < hi
            invariant
                lo <= hi <= entries.len(),
                entries@ == r,
                keys.len() == entries.len(),
                forall|j: int| 0 <= j < keys.len() ==> (#[trigger] keys@[j])@ == entries@[j].name@,
                xkey@ == x.name@,
                sorted_by(mode, r),
                forall|j: int| 0 <= j < lo ==> goes_before(mode, #[trigger] r[j], x),
                forall|j: int| hi <= j < r.len() ==> !goes_before(mode, #[trigger] r[j], x),
            decreases hi - lo,
        {
            let mid = lo + (hi - lo) / 2;
            if goes_before_exec(mode, &entries[mid], &keys[mid], &x, &xkey) {
                assert forall|j: int| 0 <= j <= mid implies goes_before(mode, #[trigger] r[j], x) by {
                    if j < mid {
                        lemma_order_facts(mode, x, r[mid as int], r[j]);
                        lemma_order_facts(mode, r[j], r[mid as int], x);
                        lemma_order_facts(mode, x, r[j], r[mid as int]);
                        lemma_order_facts(mode, r[mid as int], x, r[j]);
                    }
                }
                lo = mid + 1;
            } else {
                assert forall|j: int| mid <= j < r.len() implies !goes_before(mode, #[trigger] r[j], x) by {
                    if j > mid {
                        lemma_order_facts(mode, x, r[mid as int], r[j]);
                    }
                }
                hi = mid;
            }
        }
        let pos = lo;
        entries.insert(pos, x);
        keys.insert(pos, xkey);
        proof {
            let nr = entries@;
            assert(nr == r.take(pos as int) + seq![x] + r.skip(pos as int));
            assert forall|i: int, j: int| 0 <= i < j < nr.len() implies !goes_before(mode, #[trigger] nr[j], #[trigger] nr[i]) by {
                if j < pos {
                } else if j == pos {
                    lemma_order_facts(mode, nr[i], x, x);
                } else if i < pos {
                    lemma_order_facts(mode, x, r[j - 1], r[i]);
                    lemma_order_facts(mode, r[i], x, r[j - 1]);
                } else if i == pos {
                } else {
                    assert(nr[i] == r[i - 1] && nr[j] == r[j - 1]);
                }
            }
            assert(orig.skip(n - 1) == seq![x] + orig.skip(n));
            assert forall|e: FileEntry| #[trigger] key_class(mode, orig.skip(n - 1), e) == key_class(mode, nr, e) by {
                let p = |y: FileEntry| same_key(mode, y, e);
                Seq::filter_distributes_over_add(seq![x], orig.skip(n), p);
                Seq::filter_distributes_over_add(r.take(pos as int) + seq![x], r.skip(pos as int), p);
                Seq::filter_distributes_over_add(r.take(pos as int), seq![x], p);
                Seq::filter_distributes_over_add(r.take(pos as int), r.skip(pos as int), p);
                assert(r == r.take(pos as int) + r.skip(pos as int));
                lemma_filter_single(x, p);
                assert(key_class(mode, orig.skip(n), e) == key_class(mode, r, e));
                if p(x) {
                    assert forall|i: int| 0 <= i < r.take(pos as int).len() implies !p(#[trigger] r.take(pos as int)[i]) by {
                        lemma_order_facts(mode, r[i], x, e);
                        lemma_order_facts(mode, x, r[i], e);
                        lemma_order_facts(mode, r[i], e, x);
                        lemma_order_facts(mode, e, x, r[i]);
                    }
                    lemma_filter_none(r.take(pos as int), p);
                    assert(Seq::<FileEntry>::empty() + seq![x] == seq![x]);
                }
            }
        }
    }
    assert(orig.skip(0) == orig);
}

}
