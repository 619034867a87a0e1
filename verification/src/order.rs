//! The orders in which lists are shown, and stable sorting by them.
//!
//! Lists are sorted by keys: a rank and a text. The sort is a merge sort
//! over positions: it decides where each element goes, and the elements are
//! then laid out in that order.

use crate::apt::{dep_rank, dep_type_order};
use crate::text::{chars_of, text_before};
use crate::types::{rows, PackageInfo, PackageInfoView, SortBy};
use vstd::prelude::*;

verus! {

// ============================================================================
// The order of texts
// ============================================================================

/// No text comes before itself.
pub proof fn lemma_text_before_irreflexive(a: Seq<char>)
    ensures
        !text_before(a, a),
    decreases a.len(),
{
    if a.len() > 0 {
        lemma_text_before_irreflexive(a.drop_first());
    }
}

/// Of two texts at most one comes before the other.
pub proof fn lemma_text_before_asymmetric(a: Seq<char>, b: Seq<char>)
    requires
        text_before(a, b),
    ensures
        !text_before(b, a),
    decreases a.len(),
{
    if a.len() > 0 && b.len() > 0 && a[0] == b[0] {
        lemma_text_before_asymmetric(a.drop_first(), b.drop_first());
    }
}

/// The order of texts is transitive.
pub proof fn lemma_text_before_transitive(a: Seq<char>, b: Seq<char>, c: Seq<char>)
    requires
        text_before(a, b),
        text_before(b, c),
    ensures
        text_before(a, c),
    decreases a.len(),
{
    if a.len() > 0 && b.len() > 0 && c.len() > 0 && a[0] == b[0] && b[0] == c[0] {
        lemma_text_before_transitive(a.drop_first(), b.drop_first(), c.drop_first());
    }
}

/// The order of texts is total: two different texts are ordered.
pub proof fn lemma_text_before_total(a: Seq<char>, b: Seq<char>)
    ensures
        text_before(a, b) || text_before(b, a) || a == b,
    decreases a.len(),
{
    if a.len() > 0 && b.len() > 0 {
        if a[0] == b[0] {
            lemma_text_before_total(a.drop_first(), b.drop_first());
            if a.drop_first() == b.drop_first() {
                assert(a =~= seq![a[0]] + a.drop_first());
                assert(b =~= seq![b[0]] + b.drop_first());
            }
        } else {
            vstd::utf8::char_u32_cast(a[0], a[0] as u32);
            vstd::utf8::char_u32_cast(b[0], b[0] as u32);
        }
    } else if a.len() == 0 && b.len() == 0 {
        assert(a =~= b);
    }
}

/// Whether `a` comes before `b`, from where they first differ.
fn chars_before(a: &Vec<char>, b: &Vec<char>) -> (r: bool)
    ensures
        r == text_before(a@, b@),
{
    let mut i: usize = 0;
    proof {
        assert(a@.skip(0) =~= a@);
        assert(b@.skip(0) =~= b@);
    }
    while i < a.len() && i < b.len()
        invariant
            i <= a@.len(),
            i <= b@.len(),
            text_before(a@, b@) == text_before(a@.skip(i as int), b@.skip(i as int)),
        decreases a@.len() - i,
    {
        proof {
            assert(a@.skip(i as int)[0] == a@[i as int]);
            assert(b@.skip(i as int)[0] == b@[i as int]);
            assert(a@.skip(i as int).drop_first() =~= a@.skip(i + 1));
            assert(b@.skip(i as int).drop_first() =~= b@.skip(i + 1));
        }
        if a[i] != b[i] {
            return (a[i] as u32) < (b[i] as u32);
        }
        i += 1;
    }
    i < b.len()
}

// ============================================================================
// Keys
// ============================================================================

/// What an element is sorted by: ranks count first, texts within a rank.
pub struct SortKey {
    pub rank: u8,
    pub text: Vec<char>,
}

/// Whether the key `a` comes before the key `b`: by rank, and within a rank
/// by text, the other way round in descending order.
pub open spec fn key_before(a: (u8, Seq<char>), b: (u8, Seq<char>), descending: bool) -> bool {
    a.0 < b.0 || (a.0 == b.0 && if descending {
        text_before(b.1, a.1)
    } else {
        text_before(a.1, b.1)
    })
}

/// The keys as plain values.
pub open spec fn keys_view(keys: Seq<SortKey>) -> Seq<(u8, Seq<char>)> {
    Seq::new(keys.len(), |i: int| (keys[i].rank, keys[i].text@))
}

/// Whether position `x` goes before position `y`: its key comes first, or
/// neither key comes first and `x` stands first.
pub open spec fn goes_before(keys: Seq<(u8, Seq<char>)>, descending: bool, x: int, y: int) -> bool {
    key_before(keys[x], keys[y], descending) || (!key_before(keys[y], keys[x], descending) && x
        < y)
}

/// Of two keys at most one comes before the other, and keys of which
/// neither comes first are the same.
pub proof fn lemma_key_order(a: (u8, Seq<char>), b: (u8, Seq<char>), descending: bool)
    ensures
        !(key_before(a, b, descending) && key_before(b, a, descending)),
        !key_before(a, b, descending) && !key_before(b, a, descending) ==> a == b,
{
    if text_before(a.1, b.1) {
        lemma_text_before_asymmetric(a.1, b.1);
    }
    lemma_text_before_total(a.1, b.1);
}

/// The order of keys is transitive.
pub proof fn lemma_key_before_transitive(
    a: (u8, Seq<char>),
    b: (u8, Seq<char>),
    c: (u8, Seq<char>),
    descending: bool,
)
    requires
        key_before(a, b, descending),
        key_before(b, c, descending),
    ensures
        key_before(a, c, descending),
{
    if a.0 == b.0 && b.0 == c.0 {
        if descending {
            lemma_text_before_transitive(c.1, b.1, a.1);
        } else {
            lemma_text_before_transitive(a.1, b.1, c.1);
        }
    }
}

/// Going before is a strict total order of the positions.
proof fn lemma_goes_before(keys: Seq<(u8, Seq<char>)>, descending: bool, x: int, y: int, z: int)
    ensures
        !goes_before(keys, descending, x, x),
        x != y ==> (goes_before(keys, descending, x, y) <==> !goes_before(keys, descending, y, x)),
        goes_before(keys, descending, x, y) && goes_before(keys, descending, y, z) ==> goes_before(
            keys,
            descending,
            x,
            z,
        ),
{
    lemma_key_order(keys[x], keys[x], descending);
    lemma_key_order(keys[x], keys[y], descending);
    lemma_key_order(keys[y], keys[z], descending);
    lemma_key_order(keys[x], keys[z], descending);
    if goes_before(keys, descending, x, y) && goes_before(keys, descending, y, z) {
        if key_before(keys[x], keys[y], descending) && key_before(keys[y], keys[z], descending) {
            lemma_key_before_transitive(keys[x], keys[y], keys[z], descending);
        }
    }
}

/// Whether position `x` goes before position `y`.
fn position_before(keys: &Vec<SortKey>, descending: bool, x: usize, y: usize) -> (r: bool)
    requires
        x < keys@.len(),
        y < keys@.len(),
    ensures
        r == goes_before(keys_view(keys@), descending, x as int, y as int),
{
    let a = &keys[x];
    let b = &keys[y];
    if a.rank != b.rank {
        return a.rank < b.rank;
    }
    let forth = if descending {
        chars_before(&b.text, &a.text)
    } else {
        chars_before(&a.text, &b.text)
    };
    if forth {
        return true;
    }
    let back = if descending {
        chars_before(&a.text, &b.text)
    } else {
        chars_before(&b.text, &a.text)
    };
    !back && x < y
}

// ============================================================================
// Merge sort over positions
// ============================================================================

/// The positions of `run` are in order: each goes before those after it.
spec fn in_order(keys: Seq<(u8, Seq<char>)>, descending: bool, run: Seq<usize>) -> bool {
    &&& forall|i: int| 0 <= i < run.len() ==> (#[trigger] run[i]) < keys.len()
    &&& forall|i: int, j: int|
        0 <= i < j < run.len() ==> goes_before(
            keys,
            descending,
            #[trigger] run[i] as int,
            #[trigger] run[j] as int,
        )
}

/// Merges two runs that are in order into one.
fn merge(keys: &Vec<SortKey>, descending: bool, a: &Vec<usize>, b: &Vec<usize>) -> (out: Vec<usize>)
    requires
        in_order(keys_view(keys@), descending, a@),
        in_order(keys_view(keys@), descending, b@),
        forall|i: int, j: int| 0 <= i < a@.len() && 0 <= j < b@.len() ==> a@[i] != b@[j],
        a@.len() + b@.len() <= usize::MAX,
    ensures
        in_order(keys_view(keys@), descending, out@),
        out@.len() == a@.len() + b@.len(),
        forall|x: usize| out@.contains(x) <==> a@.contains(x) || b@.contains(x),
{
    let ghost k = keys_view(keys@);
    let mut out: Vec<usize> = Vec::new();
    let mut i: usize = 0;
    let mut j: usize = 0;
    while i < a.len() || j < b.len()
        invariant
            i <= a@.len(),
            j <= b@.len(),
            k == keys_view(keys@),
            in_order(k, descending, a@),
            in_order(k, descending, b@),
            forall|p: int, q: int| 0 <= p < a@.len() && 0 <= q < b@.len() ==> a@[p] != b@[q],
            a@.len() + b@.len() <= usize::MAX,
            out@.len() == i + j,
            in_order(k, descending, out@),
            forall|p: int, q: int|
                0 <= p < out@.len() && i <= q < a@.len() ==> goes_before(
                    k,
                    descending,
                    #[trigger] out@[p] as int,
                    #[trigger] a@[q] as int,
                ),
            forall|p: int, q: int|
                0 <= p < out@.len() && j <= q < b@.len() ==> goes_before(
                    k,
                    descending,
                    #[trigger] out@[p] as int,
                    #[trigger] b@[q] as int,
                ),
            forall|x: usize|
                out@.contains(x) <==> a@.take(i as int).contains(x) || b@.take(j as int).contains(x),
        decreases a@.len() - i + b@.len() - j,
    {
        let from_a = if i >= a.len() {
            false
        } else if j >= b.len() {
            true
        } else {
            position_before(keys, descending, a[i], b[j])
        };
        let ghost before = out@;
        if from_a {
            let x = a[i];
            out.push(x);
            proof {
                assert forall|p: int, q: int|
                    0 <= p < out@.len() && i + 1 <= q < a@.len() implies goes_before(
                    k,
                    descending,
                    #[trigger] out@[p] as int,
                    #[trigger] a@[q] as int,
                ) by {
                    if p < before.len() {
                        assert(out@[p] == before[p]);
                    }
                }
                assert forall|p: int, q: int|
                    0 <= p < out@.len() && j <= q < b@.len() implies goes_before(
                    k,
                    descending,
                    #[trigger] out@[p] as int,
                    #[trigger] b@[q] as int,
                ) by {
                    if p < before.len() {
                        assert(out@[p] == before[p]);
                    } else {
                        if q > j {
                            lemma_goes_before(k, descending, x as int, b@[j as int] as int, b@[q] as int);
                        }
                    }
                }
                assert(in_order(k, descending, out@)) by {
                    assert forall|p: int, q: int| 0 <= p < q < out@.len() implies goes_before(
                        k,
                        descending,
                        #[trigger] out@[p] as int,
                        #[trigger] out@[q] as int,
                    ) by {
                        assert(out@[p] == before[p]);
                        if q < before.len() {
                            assert(out@[q] == before[q]);
                        } else {
                            assert(out@[q] == a@[i as int]);
                        }
                    }
                    assert forall|p: int| 0 <= p < out@.len() implies (#[trigger] out@[p]) < k.len() by {
                        if p < before.len() {
                            assert(out@[p] == before[p]);
                        }
                    }
                }
                assert(a@.take(i + 1) =~= a@.take(i as int).push(x));
                lemma_push_contains(before, out@, a@.take(i as int), a@.take(i + 1), b@.take(j as int), x);
            }
            i += 1;
        } else {
            let x = b[j];
            out.push(x);
            proof {
                if i < a@.len() {
                    lemma_goes_before(k, descending, a@[i as int] as int, x as int, x as int);
                }
                assert forall|p: int, q: int|
                    0 <= p < out@.len() && j + 1 <= q < b@.len() implies goes_before(
                    k,
                    descending,
                    #[trigger] out@[p] as int,
                    #[trigger] b@[q] as int,
                ) by {
                    if p < before.len() {
                        assert(out@[p] == before[p]);
                    }
                }
                assert forall|p: int, q: int|
                    0 <= p < out@.len() && i <= q < a@.len() implies goes_before(
                    k,
                    descending,
                    #[trigger] out@[p] as int,
                    #[trigger] a@[q] as int,
                ) by {
                    if p < before.len() {
                        assert(out@[p] == before[p]);
                    } else {
                        if q > i {
                            lemma_goes_before(k, descending, x as int, a@[i as int] as int, a@[q] as int);
                        }
                    }
                }
                assert(in_order(k, descending, out@)) by {
                    assert forall|p: int, q: int| 0 <= p < q < out@.len() implies goes_before(
                        k,
                        descending,
                        #[trigger] out@[p] as int,
                        #[trigger] out@[q] as int,
                    ) by {
                        assert(out@[p] == before[p]);
                        if q < before.len() {
                            assert(out@[q] == before[q]);
                        } else {
                            assert(out@[q] == b@[j as int]);
                        }
                    }
                    assert forall|p: int| 0 <= p < out@.len() implies (#[trigger] out@[p]) < k.len() by {
                        if p < before.len() {
                            assert(out@[p] == before[p]);
                        }
                    }
                }
                assert(b@.take(j + 1) =~= b@.take(j as int).push(x));
                lemma_push_contains(before, out@, b@.take(j as int), b@.take(j + 1), a@.take(i as int), x);
            }
            j += 1;
        }
    }
    proof {
        assert(a@.take(i as int) =~= a@);
        assert(b@.take(j as int) =~= b@);
    }
    out
}

/// Pushing the same element onto a merged run and onto one of its sources
/// keeps their contents in step.
proof fn lemma_push_contains(
    out: Seq<usize>,
    out2: Seq<usize>,
    from: Seq<usize>,
    from2: Seq<usize>,
    other: Seq<usize>,
    x: usize,
)
    requires
        out2 == out.push(x),
        from2 == from.push(x),
        forall|y: usize| out.contains(y) <==> from.contains(y) || other.contains(y),
    ensures
        forall|y: usize| out2.contains(y) <==> from2.contains(y) || other.contains(y),
{
    assert forall|y: usize| out2.contains(y) <==> from2.contains(y) || other.contains(y) by {
        if out2.contains(y) {
            let p = choose|p: int| 0 <= p < out2.len() && out2[p] == y;
            if p < out.len() {
                assert(out[p] == y);
                assert(out.contains(y));
                if from.contains(y) {
                    let q = choose|q: int| 0 <= q < from.len() && from[q] == y;
                    assert(from2[q] == y);
                }
            } else {
                assert(from2[from2.len() - 1] == y);
            }
        }
        if from2.contains(y) {
            let q = choose|q: int| 0 <= q < from2.len() && from2[q] == y;
            if q < from.len() {
                assert(from[q] == y);
                assert(out.contains(y));
                let p = choose|p: int| 0 <= p < out.len() && out[p] == y;
                assert(out2[p] == y);
            } else {
                assert(out2[out2.len() - 1] == y);
            }
        }
        if other.contains(y) {
            assert(out.contains(y));
            let p = choose|p: int| 0 <= p < out.len() && out[p] == y;
            assert(out2[p] == y);
        }
    }
}

/// The positions from `lo` up to `hi` in the order in which their elements
/// go.
fn sort_range(keys: &Vec<SortKey>, descending: bool, lo: usize, hi: usize) -> (run: Vec<usize>)
    requires
        lo <= hi <= keys@.len(),
    ensures
        in_order(keys_view(keys@), descending, run@),
        run@.len() == hi - lo,
        forall|x: usize| run@.contains(x) <==> lo <= x < hi,
    decreases hi - lo,
{
    let ghost k = keys_view(keys@);
    if hi - lo == 0 {
        let run: Vec<usize> = Vec::new();
        run
    } else if hi - lo == 1 {
        let mut run: Vec<usize> = Vec::new();
        run.push(lo);
        proof {
            assert forall|x: usize| run@.contains(x) <==> lo <= x < hi by {
                if lo <= x < hi {
                    assert(run@[0] == x);
                }
            }
        }
        run
    } else {
        let mid = lo + (hi - lo) / 2;
        let a = sort_range(keys, descending, lo, mid);
        let b = sort_range(keys, descending, mid, hi);
        proof {
            assert forall|i: int, j: int| 0 <= i < a@.len() && 0 <= j < b@.len() implies a@[i]
                != b@[j] by {
                assert(a@.contains(a@[i]));
                assert(b@.contains(b@[j]));
            }
        }
        merge(keys, descending, &a, &b)
    }
}

/// Where each element goes: position `i` of the sorted list takes the
/// element at `picks[i]`.
pub open spec fn sorted_picks(keys: Seq<(u8, Seq<char>)>, descending: bool, picks: Seq<int>) -> bool {
    &&& picks.len() == keys.len()
    &&& picks.no_duplicates()
    &&& forall|i: int| 0 <= i < picks.len() ==> 0 <= #[trigger] picks[i] < keys.len()
    &&& forall|i: int, j: int|
        0 <= i < j < picks.len() ==> goes_before(
            keys,
            descending,
            #[trigger] picks[i],
            #[trigger] picks[j],
        )
}

/// The positions as integers.
pub open spec fn as_ints(run: Seq<usize>) -> Seq<int> {
    Seq::new(run.len(), |i: int| run[i] as int)
}

/// Sorts positions by their keys. Elements with the same key keep their
/// order: the sort is stable.
pub fn sort_positions(keys: &Vec<SortKey>, descending: bool) -> (run: Vec<usize>)
    ensures
        sorted_picks(keys_view(keys@), descending, as_ints(run@)),
{
    let run = sort_range(keys, descending, 0, keys.len());
    proof {
        let k = keys_view(keys@);
        let picks = as_ints(run@);
        assert forall|i: int, j: int| 0 <= i < j < picks.len() implies goes_before(
            k,
            descending,
            #[trigger] picks[i],
            #[trigger] picks[j],
        ) by {
            assert(goes_before(k, descending, run@[i] as int, run@[j] as int));
        }
        assert forall|i: int, j: int|
            0 <= i < picks.len() && 0 <= j < picks.len() && i != j implies picks[i] != picks[j] by {
            lemma_goes_before(k, descending, picks[i], picks[i], picks[i]);
            if i < j {
                assert(goes_before(k, descending, run@[i] as int, run@[j] as int));
            } else {
                assert(goes_before(k, descending, run@[j] as int, run@[i] as int));
            }
        }
    }
    run
}

// ============================================================================
// Sorted lists
// ============================================================================

/// `out` holds the elements of `inp` in another order: `out[i]` is
/// `inp[picks[i]]`, and no position is picked twice.
pub open spec fn rearranges<T>(inp: Seq<T>, out: Seq<T>, picks: Seq<int>) -> bool {
    &&& picks.len() == inp.len()
    &&& out.len() == inp.len()
    &&& picks.no_duplicates()
    &&& forall|i: int|
        0 <= i < picks.len() ==> 0 <= #[trigger] picks[i] < inp.len() && out[i] == inp[picks[i]]
}

/// A dependency `(kind, target)` comes before another where its kind ranks
/// lower, or the kinds rank alike and its target comes first.
pub open spec fn dependency_before(a: (String, String), b: (String, String)) -> bool {
    dep_rank(a.0@) < dep_rank(b.0@) || (dep_rank(a.0@) == dep_rank(b.0@) && text_before(
        a.1@,
        b.1@,
    ))
}

/// `out` is `inp` sorted by `dependency_before`, elements that neither comes
/// before the other staying in the order of `inp`.
pub open spec fn dependencies_sorted(inp: Seq<(String, String)>, out: Seq<(String, String)>) -> bool {
    exists|picks: Seq<int>| dependencies_sorted_by(inp, out, picks)
}

/// `out` is `inp` sorted by `dependency_before`, with `out[i]` taken from
/// `inp[picks[i]]`.
pub open spec fn dependencies_sorted_by(
    inp: Seq<(String, String)>,
    out: Seq<(String, String)>,
    picks: Seq<int>,
) -> bool {
    &&& rearranges(inp, out, picks)
    &&& forall|i: int, j: int|
        0 <= i < j < out.len() ==> !dependency_before(out[j], out[i]) && (!dependency_before(
            out[i],
            out[j],
        ) ==> #[trigger] picks[i] < #[trigger] picks[j])
}

/// The text that a row is sorted by.
pub open spec fn sort_key(row: PackageInfoView, by: SortBy) -> Seq<char> {
    match by {
        SortBy::Name => row.name,
        SortBy::Section => row.section,
        SortBy::InstalledVersion => row.installed_version,
        SortBy::CandidateVersion => row.candidate_version,
    }
}

/// A row comes before another where its key comes first; in descending
/// order, where its key comes last.
pub open spec fn row_before(
    a: PackageInfoView,
    b: PackageInfoView,
    by: SortBy,
    ascending: bool,
) -> bool {
    if ascending {
        text_before(sort_key(a, by), sort_key(b, by))
    } else {
        text_before(sort_key(b, by), sort_key(a, by))
    }
}

/// `out` is `inp` sorted by `row_before`, rows with equal keys staying in the
/// order of `inp`.
pub open spec fn rows_sorted(
    inp: Seq<PackageInfoView>,
    out: Seq<PackageInfoView>,
    by: SortBy,
    ascending: bool,
) -> bool {
    exists|picks: Seq<int>| rows_sorted_by(inp, out, picks, by, ascending)
}

/// `out` is `inp` sorted by `row_before`, with `out[i]` taken from
/// `inp[picks[i]]`.
pub open spec fn rows_sorted_by(
    inp: Seq<PackageInfoView>,
    out: Seq<PackageInfoView>,
    picks: Seq<int>,
    by: SortBy,
    ascending: bool,
) -> bool {
    &&& rearranges(inp, out, picks)
    &&& forall|i: int, j: int|
        0 <= i < j < out.len() ==> !row_before(out[j], out[i], by, ascending) && (!row_before(
            out[i],
            out[j],
            by,
            ascending,
        ) ==> #[trigger] picks[i] < #[trigger] picks[j])
}

/// Sorts dependencies: strongest kind first, targets in order within a
/// kind, and what is alike in the order it came in.
pub fn sort_dependencies(deps: &mut Vec<(String, String)>)
    ensures
        dependencies_sorted(old(deps)@, final(deps)@),
{
    let ghost inp = deps@;
    let mut keys: Vec<SortKey> = Vec::new();
    let mut i: usize = 0;
    while i < deps.len()
        invariant
            i <= deps@.len(),
            deps@ == inp,
            keys@.len() == i,
            forall|k: int|
                0 <= k < i ==> (#[trigger] keys@[k]).rank == dep_rank(inp[k].0@) && keys@[k].text@
                    == inp[k].1@,
        decreases deps@.len() - i,
    {
        let rank = dep_type_order(deps[i].0.as_str());
        let text = chars_of(deps[i].1.as_str());
        keys.push(SortKey { rank, text });
        i += 1;
    }
    let run = sort_positions(&keys, false);
    let ghost k = keys_view(keys@);
    let ghost picks = as_ints(run@);
    let mut out: Vec<(String, String)> = Vec::new();
    let mut j: usize = 0;
    while j < run.len()
        invariant
            j <= run@.len(),
            deps@ == inp,
            run@.len() == inp.len(),
            picks == as_ints(run@),
            forall|p: int| 0 <= p < run@.len() ==> 0 <= #[trigger] picks[p] < inp.len(),
            out@.len() == j,
            forall|p: int| 0 <= p < j ==> #[trigger] out@[p] == inp[picks[p]],
        decreases run@.len() - j,
    {
        let at = run[j];
        proof {
            assert(picks[j as int] == at);
        }
        out.push((deps[at].0.clone(), deps[at].1.clone()));
        j += 1;
    }
    proof {
        assert forall|p: int, q: int| 0 <= p < q < out@.len() implies !dependency_before(
            out@[q],
            out@[p],
        ) && (!dependency_before(out@[p], out@[q]) ==> #[trigger] picks[p] < #[trigger] picks[q]) by {
            assert(goes_before(k, false, picks[p], picks[q]));
            lemma_key_order(k[picks[p]], k[picks[q]], false);
            assert(k[picks[p]] == (dep_rank(out@[p].0@), out@[p].1@));
            assert(k[picks[q]] == (dep_rank(out@[q].0@), out@[q].1@));
        }
        assert(dependencies_sorted_by(inp, out@, picks));
    }
    *deps = out;
}

fn key_chars(row: &PackageInfo, by: SortBy) -> (chars: Vec<char>)
    ensures
        chars@ == sort_key(row@, by),
{
    match by {
        SortBy::Name => chars_of(row.name.as_str()),
        SortBy::Section => chars_of(row.section.as_str()),
        SortBy::InstalledVersion => chars_of(row.installed_version.as_str()),
        SortBy::CandidateVersion => chars_of(row.candidate_version.as_str()),
    }
}

/// Sorts rows by a key, ascending or descending; rows with the same key
/// stay in the order they came in.
pub fn sort_rows(list: &mut Vec<PackageInfo>, by: SortBy, ascending: bool)
    ensures
        rows_sorted(rows(old(list)@), rows(final(list)@), by, ascending),
{
    let ghost inp = list@;
    let mut keys: Vec<SortKey> = Vec::new();
    let mut i: usize = 0;
    while i < list.len()
        invariant
            i <= list@.len(),
            list@ == inp,
            keys@.len() == i,
            forall|k: int|
                0 <= k < i ==> (#[trigger] keys@[k]).rank == 0 && keys@[k].text@ == sort_key(
                    inp[k]@,
                    by,
                ),
        decreases list@.len() - i,
    {
        let text = key_chars(&list[i], by);
        keys.push(SortKey { rank: 0, text });
        i += 1;
    }
    let run = sort_positions(&keys, !ascending);
    let ghost k = keys_view(keys@);
    let ghost picks = as_ints(run@);
    let mut out: Vec<PackageInfo> = Vec::new();
    let mut j: usize = 0;
    while j < run.len()
        invariant
            j <= run@.len(),
            list@ == inp,
            run@.len() == inp.len(),
            picks == as_ints(run@),
            forall|p: int| 0 <= p < run@.len() ==> 0 <= #[trigger] picks[p] < inp.len(),
            out@.len() == j,
            forall|p: int| 0 <= p < j ==> #[trigger] out@[p] == inp[picks[p]],
        decreases run@.len() - j,
    {
        let at = run[j];
        proof {
            assert(picks[j as int] == at);
        }
        out.push(list[at].clone());
        j += 1;
    }
    proof {
        let before = rows(inp);
        let after = rows(out@);
        assert forall|p: int| 0 <= p < picks.len() implies 0 <= #[trigger] picks[p] < before.len()
            && after[p] == before[picks[p]] by {
            assert(out@[p] == inp[picks[p]]);
        }
        assert forall|p: int, q: int| 0 <= p < q < after.len() implies !row_before(
            after[q],
            after[p],
            by,
            ascending,
        ) && (!row_before(after[p], after[q], by, ascending) ==> #[trigger] picks[p]
            < #[trigger] picks[q]) by {
            assert(goes_before(k, !ascending, picks[p], picks[q]));
            lemma_key_order(k[picks[p]], k[picks[q]], !ascending);
            assert(out@[p] == inp[picks[p]]);
            assert(out@[q] == inp[picks[q]]);
            assert(k[picks[p]] == (0u8, sort_key(after[p], by)));
            assert(k[picks[q]] == (0u8, sort_key(after[q], by)));
        }
        assert(rows_sorted_by(before, after, picks, by, ascending));
    }
    *list = out;
}

} // verus!
