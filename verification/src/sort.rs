//! Stable ordering of hierarchy items by name, then uri, then start position.
use vstd::prelude::*;
use crate::item::{HierarchyItem, HierarchyItemView, items_view};
use crate::text::{
    Rank, chars_lt, lemma_chars_lt_asymmetric, lemma_chars_lt_irreflexive,
    lemma_chars_lt_total, lemma_chars_lt_transitive, rank_chars, string_chars,
};

verus! {

/// What items are ordered by: name, uri, start line, start character.
pub type SortKey = (Seq<char>, Seq<char>, u32, u32);

pub open spec fn sort_key(it: HierarchyItemView) -> SortKey {
    (it.name, it.uri, it.range.start.line, it.range.start.character)
}

/// Lexicographic order on sort keys; strings compare as `str` does.
pub open spec fn key_lt(a: SortKey, b: SortKey) -> bool {
    ||| chars_lt(a.0, b.0)
    ||| a.0 == b.0 && chars_lt(a.1, b.1)
    ||| a.0 == b.0 && a.1 == b.1 && a.2 < b.2
    ||| a.0 == b.0 && a.1 == b.1 && a.2 == b.2 && a.3 < b.3
}

/// No item comes after one whose key is greater.
pub open spec fn sorted_by_key(s: Seq<HierarchyItemView>) -> bool {
    forall|i: int, j: int| 0 <= i < j < s.len() ==> !key_lt(sort_key(#[trigger] s[j]), sort_key(#[trigger] s[i]))
}

/// `after` is `before` reordered by `perm` (`after[i]` is `before[perm[i]]`),
/// sorted by key, with items of equal key kept in their order in `before`.
pub open spec fn is_stable_sort(before: Seq<HierarchyItemView>, after: Seq<HierarchyItemView>, perm: Seq<int>) -> bool {
    &&& after.len() == before.len()
    &&& perm.len() == before.len()
    &&& forall|i: int| 0 <= i < after.len() ==> 0 <= #[trigger] perm[i] < before.len() && after[i] == before[perm[i]]
    &&& forall|i: int, j: int| 0 <= i < j < after.len() ==> #[trigger] perm[i] != #[trigger] perm[j]
    &&& sorted_by_key(after)
    &&& forall|i: int, j: int|
        0 <= i < j < after.len() && sort_key(#[trigger] after[i]) == sort_key(#[trigger] after[j])
            ==> perm[i] < perm[j]
}

pub proof fn lemma_key_lt_irreflexive(a: SortKey)
    ensures
        !key_lt(a, a),
{
    lemma_chars_lt_irreflexive(a.0);
    lemma_chars_lt_irreflexive(a.1);
}

pub proof fn lemma_key_lt_transitive(a: SortKey, b: SortKey, c: SortKey)
    requires
        key_lt(a, b),
        key_lt(b, c),
    ensures
        key_lt(a, c),
{
    if chars_lt(a.0, b.0) && chars_lt(b.0, c.0) {
        lemma_chars_lt_transitive(a.0, b.0, c.0);
    }
    if a.0 == b.0 && b.0 == c.0 && chars_lt(a.1, b.1) && chars_lt(b.1, c.1) {
        lemma_chars_lt_transitive(a.1, b.1, c.1);
    }
}

pub proof fn lemma_key_lt_total(a: SortKey, b: SortKey)
    ensures
        a == b || key_lt(a, b) || key_lt(b, a),
{
    lemma_chars_lt_total(a.0, b.0);
    lemma_chars_lt_total(a.1, b.1);
}

pub proof fn lemma_key_lt_asymmetric(a: SortKey, b: SortKey)
    requires
        key_lt(a, b),
    ensures
        !key_lt(b, a),
{
    if key_lt(b, a) {
        lemma_key_lt_transitive(a, b, a);
        lemma_key_lt_irreflexive(a);
    }
}

/// Whether `a` comes strictly before `b` in the key order.
pub fn item_precedes(a: &HierarchyItem, b: &HierarchyItem) -> (r: bool)
    ensures
        r == key_lt(sort_key(a@), sort_key(b@)),
{
    let an = string_chars(a.name.as_str());
    let bn = string_chars(b.name.as_str());
    match rank_chars(&an, &bn) {
        Rank::Less => true,
        Rank::Greater => {
            proof {
                lemma_chars_lt_asymmetric(b.name@, a.name@);
            }
            false
        },
        Rank::Equal => {
            proof {
                lemma_chars_lt_irreflexive(a.name@);
            }
            let au = string_chars(a.uri.as_str());
            let bu = string_chars(b.uri.as_str());
            match rank_chars(&au, &bu) {
                Rank::Less => true,
                Rank::Greater => {
                    proof {
                        lemma_chars_lt_asymmetric(b.uri@, a.uri@);
                    }
                    false
                },
                Rank::Equal => {
                    proof {
                        lemma_chars_lt_irreflexive(a.uri@);
                    }
                    if a.range.start.line != b.range.start.line {
                        a.range.start.line < b.range.start.line
                    } else {
                        a.range.start.character < b.range.start.character
                    }
                },
            }
        },
    }
}

/// What holds once the items `orig[lo..]` have been placed into `out`.
pub open spec fn placed(orig: Seq<HierarchyItemView>, out: Seq<HierarchyItemView>, perm: Seq<int>, lo: int) -> bool {
    &&& 0 <= lo <= orig.len()
    &&& out.len() + lo == orig.len()
    &&& perm.len() == out.len()
    &&& forall|i: int| 0 <= i < out.len() ==> lo <= #[trigger] perm[i] < orig.len() && out[i] == orig[perm[i]]
    &&& forall|i: int, j: int| 0 <= i < j < out.len() ==> #[trigger] perm[i] != #[trigger] perm[j]
    &&& sorted_by_key(out)
    &&& forall|i: int, j: int|
        0 <= i < j < out.len() && sort_key(#[trigger] out[i]) == sort_key(#[trigger] out[j])
            ==> perm[i] < perm[j]
}

/// Placing `orig[lo]` in front of the first item whose key is not smaller keeps the order stable.
proof fn lemma_place_next(orig: Seq<HierarchyItemView>, out: Seq<HierarchyItemView>, perm: Seq<int>, lo: int, pos: int)
    requires
        placed(orig, out, perm, lo + 1),
        0 <= lo,
        0 <= pos <= out.len(),
        forall|k: int| 0 <= k < pos ==> key_lt(sort_key(#[trigger] out[k]), sort_key(orig[lo])),
        pos < out.len() ==> !key_lt(sort_key(out[pos]), sort_key(orig[lo])),
    ensures
        placed(orig, out.insert(pos, orig[lo]), perm.insert(pos, lo), lo),
{
    let x = orig[lo];
    let out2 = out.insert(pos, x);
    let perm2 = perm.insert(pos, lo);
    assert forall|k: int| pos <= k < out.len() implies !key_lt(sort_key(#[trigger] out[k]), sort_key(x)) by {
        if k > pos {
            assert(!key_lt(sort_key(out[k]), sort_key(out[pos])));
            lemma_key_lt_total(sort_key(out[k]), sort_key(out[pos]));
            if key_lt(sort_key(out[k]), sort_key(x)) {
                if key_lt(sort_key(out[pos]), sort_key(out[k])) {
                    lemma_key_lt_transitive(sort_key(out[pos]), sort_key(out[k]), sort_key(x));
                }
            }
        }
    }
    assert forall|i: int| 0 <= i < out2.len() implies lo <= #[trigger] perm2[i] < orig.len() && out2[i]
        == orig[perm2[i]] by {
        if i < pos {
            assert(perm2[i] == perm[i]);
        } else if i > pos {
            assert(perm2[i] == perm[i - 1]);
        }
    }
    assert forall|i: int, j: int| 0 <= i < j < out2.len() implies #[trigger] perm2[i] != #[trigger] perm2[j] by {
        if i < pos && j > pos {
            assert(perm2[j] == perm[j - 1]);
        } else if i > pos {
            assert(perm2[i] == perm[i - 1]);
            assert(perm2[j] == perm[j - 1]);
        } else if i == pos {
            assert(perm2[j] == perm[j - 1]);
        } else if j == pos {
            assert(perm2[i] == perm[i]);
        }
    }
    assert forall|i: int, j: int| 0 <= i < j < out2.len() implies !key_lt(
        sort_key(#[trigger] out2[j]),
        sort_key(#[trigger] out2[i]),
    ) by {
        if j == pos {
            lemma_key_lt_asymmetric(sort_key(out[i]), sort_key(x));
        } else if i == pos {
            assert(out2[j] == out[j - 1]);
        } else if i < pos && j > pos {
            assert(out2[j] == out[j - 1]);
        } else if i > pos {
            assert(out2[i] == out[i - 1]);
            assert(out2[j] == out[j - 1]);
        }
    }
    assert forall|i: int, j: int|
        0 <= i < j < out2.len() && sort_key(#[trigger] out2[i]) == sort_key(#[trigger] out2[j]) implies perm2[i]
        < perm2[j] by {
        if j == pos {
            lemma_key_lt_irreflexive(sort_key(x));
        } else if i == pos {
            assert(perm2[j] == perm[j - 1]);
        } else if i < pos && j > pos {
            assert(out2[j] == out[j - 1]);
            assert(perm2[j] == perm[j - 1]);
        } else if i > pos {
            assert(out2[i] == out[i - 1]);
            assert(out2[j] == out[j - 1]);
            assert(perm2[i] == perm[i - 1]);
            assert(perm2[j] == perm[j - 1]);
        }
    }
}

/// Sorts items by name, then uri, then start line and character, keeping
/// items with equal keys in their input order.
pub fn sort_items_stably(items: &mut Vec<HierarchyItem>)
    ensures
        exists|perm: Seq<int>| is_stable_sort(items_view(old(items)@), items_view(final(items)@), perm),
{
    let mut src: Vec<HierarchyItem> = Vec::new();
    std::mem::swap(&mut src, items);
    let ghost orig = items_view(src@);
    let mut out: Vec<HierarchyItem> = Vec::new();
    let ghost mut perm: Seq<int> = Seq::empty();
    assert(orig.take(orig.len() as int) =~= orig);
    while src.len() > 0
        invariant
            items_view(src@) == orig.take(src.len() as int),
            placed(orig, items_view(out@), perm, src.len() as int),
        decreases src.len(),
    {
        let ghost before_pop = src@;
        let x = src.pop().unwrap();
        let ghost lo = src.len() as int;
        assert(x == before_pop[lo]);
        assert(items_view(before_pop)[lo] == x@);
        assert(orig.take(lo + 1)[lo] == orig[lo]);
        assert(x@ == orig[lo]);
        assert(items_view(src@) =~= orig.take(lo));
        let mut pos: usize = 0;
        while pos < out.len()
            invariant
                pos <= out.len(),
                0 <= lo < orig.len(),
                x@ == orig[lo],
                forall|k: int| 0 <= k < pos ==> key_lt(sort_key(#[trigger] items_view(out@)[k]), sort_key(orig[lo])),
            ensures
                pos <= out.len(),
                forall|k: int| 0 <= k < pos ==> key_lt(sort_key(#[trigger] items_view(out@)[k]), sort_key(orig[lo])),
                pos < out.len() ==> !key_lt(sort_key(items_view(out@)[pos as int]), sort_key(orig[lo])),
            decreases out.len() - pos,
        {
            if !item_precedes(&out[pos], &x) {
                break;
            }
            pos = pos + 1;
        }
        proof {
            lemma_place_next(orig, items_view(out@), perm, lo, pos as int);
            perm = perm.insert(pos as int, lo);
        }
        let ghost before_insert = out@;
        out.insert(pos, x);
        assert(items_view(out@) =~= items_view(before_insert).insert(pos as int, orig[lo]));
    }
    assert(is_stable_sort(orig, items_view(out@), perm));
    *items = out;
}

/// A sequence of `n` distinct positions below `n` takes every position below `n`.
proof fn lemma_positions_onto(perm: Seq<int>, n: int)
    requires
        perm.len() == n,
        forall|i: int| 0 <= i < n ==> 0 <= #[trigger] perm[i] < n,
        forall|i: int, j: int| 0 <= i < j < n ==> #[trigger] perm[i] != #[trigger] perm[j],
    ensures
        forall|t: int| 0 <= t < n ==> #[trigger] perm.contains(t),
{
    assert(perm.no_duplicates());
    perm.unique_seq_to_set();
    vstd::set_lib::lemma_int_range(0, n);
    assert(perm.to_set().subset_of(vstd::set_lib::set_int_range(0, n)));
    vstd::seq_lib::seq_to_set_is_finite(perm);
    vstd::set_lib::lemma_subset_equality(perm.to_set(), vstd::set_lib::set_int_range(0, n));
    assert forall|t: int| 0 <= t < n implies #[trigger] perm.contains(t) by {
        assert(vstd::set_lib::set_int_range(0, n).contains(t));
        assert(perm.to_set().contains(t));
    }
}

/// Two stable sorts of one sequence agree on the first `i` positions.
proof fn lemma_stable_sort_prefix(
    before: Seq<HierarchyItemView>,
    a: Seq<HierarchyItemView>,
    p: Seq<int>,
    b: Seq<HierarchyItemView>,
    q: Seq<int>,
    i: int,
)
    requires
        is_stable_sort(before, a, p),
        is_stable_sort(before, b, q),
        0 <= i <= before.len(),
    ensures
        forall|k: int| 0 <= k < i ==> p[k] == q[k],
    decreases i,
{
    if i > 0 {
        lemma_stable_sort_prefix(before, a, p, b, q, i - 1);
        let n = before.len() as int;
        let c = i - 1;
        let x = p[c];
        let y = q[c];
        if x != y {
            lemma_positions_onto(p, n);
            lemma_positions_onto(q, n);
            assert(q.contains(x));
            assert(p.contains(y));
            let j = choose|j: int| 0 <= j < n && q[j] == x;
            let k = choose|k: int| 0 <= k < n && p[k] == y;
            if j < c {
                assert(p[j] == q[j]);
            }
            if k < c {
                assert(p[k] == q[k]);
            }
            assert(j > c);
            assert(k > c);
            assert(a[c] == before[x] && a[k] == before[y]);
            assert(b[c] == before[y] && b[j] == before[x]);
            assert(!key_lt(sort_key(a[k]), sort_key(a[c])));
            assert(!key_lt(sort_key(b[j]), sort_key(b[c])));
            lemma_key_lt_total(sort_key(before[x]), sort_key(before[y]));
            assert(sort_key(before[x]) == sort_key(before[y]));
            assert(p[c] < p[k]);
            assert(q[c] < q[j]);
        }
    }
}

/// The stable sort of a sequence is unique: the key order and, among equal
/// keys, the input order determine the output completely.
pub proof fn lemma_stable_sort_unique(
    before: Seq<HierarchyItemView>,
    a: Seq<HierarchyItemView>,
    p: Seq<int>,
    b: Seq<HierarchyItemView>,
    q: Seq<int>,
)
    requires
        is_stable_sort(before, a, p),
        is_stable_sort(before, b, q),
    ensures
        a == b,
{
    lemma_stable_sort_prefix(before, a, p, b, q, before.len() as int);
    assert forall|k: int| 0 <= k < a.len() implies a[k] == b[k] by {
        assert(p[k] == q[k]);
    }
    assert(a =~= b);
}

/// A sequence already sorted by key comes out of a stable sort unchanged.
pub proof fn lemma_stable_sort_of_sorted(before: Seq<HierarchyItemView>, after: Seq<HierarchyItemView>, perm: Seq<int>)
    requires
        sorted_by_key(before),
        is_stable_sort(before, after, perm),
    ensures
        after == before,
{
    let id = Seq::new(before.len(), |i: int| i);
    assert(is_stable_sort(before, before, id));
    lemma_stable_sort_unique(before, after, perm, before, id);
}

/// The result of a stable sort is sorted, so sorting it again changes nothing.
pub proof fn lemma_stable_sort_idempotent(
    before: Seq<HierarchyItemView>,
    once: Seq<HierarchyItemView>,
    p: Seq<int>,
    twice: Seq<HierarchyItemView>,
    q: Seq<int>,
)
    requires
        is_stable_sort(before, once, p),
        is_stable_sort(once, twice, q),
    ensures
        twice == once,
{
    lemma_stable_sort_of_sorted(once, twice, q);
}

/// Items are ordered by name first, then by uri, then by start line, then by
/// start character; items that agree on all four are not ordered either way.
pub proof fn lemma_key_lt_fields(a: HierarchyItemView, b: HierarchyItemView)
    ensures
        key_lt(sort_key(a), sort_key(b)) <==> {
            ||| chars_lt(a.name, b.name)
            ||| a.name == b.name && chars_lt(a.uri, b.uri)
            ||| a.name == b.name && a.uri == b.uri && a.range.start.line < b.range.start.line
            ||| a.name == b.name && a.uri == b.uri && a.range.start.line == b.range.start.line
                && a.range.start.character < b.range.start.character
        },
        (a.name == b.name && a.uri == b.uri && a.range.start == b.range.start) ==> !key_lt(sort_key(a), sort_key(b)),
{
    lemma_chars_lt_irreflexive(a.name);
    lemma_chars_lt_irreflexive(a.uri);
}

} // verus!
