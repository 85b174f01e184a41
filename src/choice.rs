//! Weighted and uniform choice among generators, and unique index subsets.

use crate::random::{draw_range, shuffle_items};
use rand::rngs::StdRng;
use vstd::prelude::*;
use vstd::set_lib::{lemma_int_range, set_int_range};

verus! {

/// Sum of the first `n` weights.
pub open spec fn prefix_weight(w: Seq<u64>, n: int) -> nat
    decreases n,
{
    if n <= 0 {
        0
    } else {
        prefix_weight(w, n - 1) + w[n - 1] as nat
    }
}

/// Sum of all weights.
pub open spec fn total_weight(w: Seq<u64>) -> nat {
    prefix_weight(w, w.len() as int)
}

/// Scanning from entry `i`, the first entry whose cumulative weight exceeds `d`.
pub open spec fn first_above(w: Seq<u64>, d: int, i: int) -> int
    decreases w.len() - i,
{
    if i >= w.len() {
        w.len() as int
    } else if d < prefix_weight(w, i + 1) {
        i
    } else {
        first_above(w, d, i + 1)
    }
}

/// The entry that a draw `d` from `[0, total)` selects: the one whose slice
/// `[prefix(i), prefix(i + 1))` of the total holds `d`.
pub open spec fn weighted_pick(w: Seq<u64>, d: int) -> int {
    first_above(w, d, 0)
}

/// The weights of a list of weighted entries.
pub open spec fn weights_of<F>(choices: Seq<(u64, F)>) -> Seq<u64> {
    choices.map_values(|c: (u64, F)| c.0)
}

/// Number of integers in a half-open range, zero when it is reversed.
pub open spec fn range_len(range: std::ops::Range<usize>) -> int {
    if range.start <= range.end {
        range.end - range.start
    } else {
        0
    }
}

proof fn lemma_prefix_monotone(w: Seq<u64>, j: int, k: int)
    requires
        0 <= j <= k <= w.len(),
    ensures
        prefix_weight(w, j) <= prefix_weight(w, k),
    decreases k - j,
{
    if j < k {
        lemma_prefix_monotone(w, j, k - 1);
    }
}

proof fn lemma_first_above_bounds(w: Seq<u64>, d: int, i: int)
    requires
        0 <= i <= w.len(),
        prefix_weight(w, i) <= d < total_weight(w),
    ensures
        i <= first_above(w, d, i) < w.len(),
        prefix_weight(w, first_above(w, d, i)) <= d < prefix_weight(w, first_above(w, d, i) + 1),
    decreases w.len() - i,
{
    if i < w.len() && d >= prefix_weight(w, i + 1) {
        lemma_first_above_bounds(w, d, i + 1);
    }
}

/// The draw `d` lands in the slice of exactly one entry, and `weighted_pick`
/// names that entry.
pub proof fn lemma_weighted_pick_slice(w: Seq<u64>, d: int, i: int)
    requires
        0 <= d < total_weight(w),
        0 <= i < w.len(),
    ensures
        0 <= weighted_pick(w, d) < w.len(),
        weighted_pick(w, d) == i <==> (prefix_weight(w, i) <= d < prefix_weight(w, i + 1)),
{
    lemma_first_above_bounds(w, d, 0);
    let r = weighted_pick(w, d);
    if r < i {
        lemma_prefix_monotone(w, r + 1, i);
    } else if r > i {
        lemma_prefix_monotone(w, i + 1, r);
    }
}

/// Weighted selection is exactly proportional: of the `total` equally likely
/// draws from `[0, total)`, exactly `w[i]` select entry `i`.
pub proof fn lemma_weighted_share(w: Seq<u64>, i: int)
    requires
        0 <= i < w.len(),
    ensures
        Set::new(|d: int| 0 <= d < total_weight(w) && weighted_pick(w, d) == i).finite(),
        Set::new(|d: int| 0 <= d < total_weight(w) && weighted_pick(w, d) == i).len() == w[i],
{
    let lo = prefix_weight(w, i) as int;
    let hi = prefix_weight(w, i + 1) as int;
    lemma_prefix_monotone(w, i + 1, w.len() as int);
    lemma_prefix_monotone(w, 0, i);
    let s = Set::new(|d: int| 0 <= d < total_weight(w) && weighted_pick(w, d) == i);
    assert forall|d: int| s.contains(d) <==> set_int_range(lo, hi).contains(d) by {
        if 0 <= d < total_weight(w) {
            lemma_weighted_pick_slice(w, d, i);
        }
    }
    assert(s =~= set_int_range(lo, hi));
    lemma_int_range(lo, hi);
}

/// The index of the entry that the draw `draw` selects: scan the weights in
/// order, taking each weight off the draw, and stop at the first entry whose
/// weight exceeds what is left.
pub fn weighted_index(weights: &Vec<u64>, draw: u64) -> (r: usize)
    requires
        draw < total_weight(weights@),
    ensures
        r < weights@.len(),
        r == weighted_pick(weights@, draw as int),
        prefix_weight(weights@, r as int) <= draw < prefix_weight(weights@, r + 1),
{
    let mut choice: u64 = draw;
    let mut i: usize = 0;
    while i < weights.len()
        invariant
            0 <= i <= weights@.len(),
            prefix_weight(weights@, i as int) <= draw,
            choice == draw - prefix_weight(weights@, i as int),
            draw < total_weight(weights@),
            first_above(weights@, draw as int, 0) == first_above(weights@, draw as int, i as int),
        decreases weights@.len() - i,
    {
        if choice < weights[i] {
            proof {
                lemma_first_above_bounds(weights@, draw as int, i as int);
            }
            return i;
        }
        choice = choice - weights[i];
        i = i + 1;
    }
    proof {
        lemma_first_above_bounds(weights@, draw as int, i as int);
    }
    i
}

/// Invokes one generator picked with chance proportional to its weight: a
/// value is drawn uniformly from `[0, total)` and the entry whose slice of the
/// total holds it is invoked.
pub fn frequency<T, F: Fn(&mut StdRng) -> T>(choices: Vec<(u64, F)>, rng: &mut StdRng) -> (r: T)
    requires
        total_weight(weights_of(choices@)) > 0,
        total_weight(weights_of(choices@)) <= u64::MAX,
        forall|i: int, g: &mut StdRng| 0 <= i < choices@.len() ==> #[trigger] choices@[i].1.requires((g,)),
    ensures
        exists|d: int, g: &mut StdRng|
            0 <= d < total_weight(weights_of(choices@))
            && #[trigger] choices@[weighted_pick(weights_of(choices@), d)].1.ensures((g,), r),
{
    let ghost w = weights_of(choices@);
    let mut weights: Vec<u64> = Vec::new();
    let mut total: u64 = 0;
    let mut i: usize = 0;
    while i < choices.len()
        invariant
            0 <= i <= choices@.len(),
            w == weights_of(choices@),
            weights@ == w.subrange(0, i as int),
            total == prefix_weight(w, i as int),
            total_weight(w) <= u64::MAX,
        decreases choices@.len() - i,
    {
        proof {
            lemma_prefix_monotone(w, i + 1, w.len() as int);
        }
        weights.push(choices[i].0);
        total = total + choices[i].0;
        i = i + 1;
        proof {
            assert(weights@ =~= w.subrange(0, i as int));
        }
    }
    proof {
        assert(weights@ =~= w);
    }
    let draw = draw_range(rng, 0, total);
    let index = weighted_index(&weights, draw);
    let f = &choices[index].1;
    let r = f(rng);
    r
}

/// A uniformly drawn index in `[0, n)`.
pub fn pick_index(n: usize, rng: &mut StdRng) -> (r: usize)
    requires
        n > 0,
    ensures
        r < n,
{
    draw_range(rng, 0, n as u64) as usize
}

/// Invokes one generator picked uniformly from the list.
pub fn one_of<T, F: Fn(&mut StdRng) -> T>(choices: Vec<F>, rng: &mut StdRng) -> (r: T)
    requires
        choices@.len() > 0,
        forall|i: int, g: &mut StdRng| 0 <= i < choices@.len() ==> #[trigger] choices@[i].requires((g,)),
    ensures
        exists|i: int, g: &mut StdRng| 0 <= i < choices@.len() && #[trigger] choices@[i].ensures((g,), r),
{
    let index = pick_index(choices.len(), rng);
    let f = &choices[index];
    f(rng)
}

/// A uniformly picked element of the slice, borrowed from it.
pub fn pick<'a, T>(choices: &'a [T], rng: &mut StdRng) -> (r: &'a T)
    requires
        choices@.len() > 0,
    ensures
        exists|i: int| 0 <= i < choices@.len() && *r == choices@[i],
{
    let index = pick_index(choices.len(), rng);
    &choices[index]
}

/// `n` distinct values of `range`, drawn without replacement: the whole range
/// is shuffled and its first `n` values are kept. With `n` equal to the size
/// of the range the result is a permutation of it.
pub fn pick_n_unique(range: std::ops::Range<usize>, n: usize, rng: &mut StdRng) -> (r: Vec<usize>)
    requires
        n <= range_len(range),
    ensures
        r@.len() == n,
        r@.no_duplicates(),
        forall|k: int| 0 <= k < r@.len() ==> range.start <= #[trigger] r@[k] < range.end,
        n == range_len(range) ==> forall|x: usize| range.start <= x < range.end ==> r@.contains(x),
{
    let mut items: Vec<usize> = Vec::new();
    let mut v: usize = range.start;
    while v < range.end
        invariant
            range.start <= v <= range.end || (range.start > range.end && v == range.start),
            range.start <= range.end ==> items@.len() == v - range.start,
            range.start > range.end ==> items@.len() == 0,
            forall|k: int| 0 <= k < items@.len() ==> #[trigger] items@[k] == range.start + k,
        decreases range.end - v,
    {
        items.push(v);
        v = v + 1;
    }
    let ghost before = items@;
    proof {
        assert(before.len() == range_len(range));
        assert forall|x: usize| range.start <= x < range.end implies before.contains(x) by {
            assert(before[x - range.start] == x);
        }
        assert(before.no_duplicates());
        before.lemma_multiset_has_no_duplicates();
    }
    shuffle_items(rng, &mut items);
    proof {
        broadcast use vstd::seq_lib::group_to_multiset_ensures;
        assert(items@.len() == before.len()) by {
            assert(items@.to_multiset().len() == before.to_multiset().len());
        }
        items@.lemma_multiset_has_no_duplicates_conv();
        assert forall|x: usize| before.contains(x) <==> items@.contains(x) by {
            assert(before.to_multiset().count(x) == items@.to_multiset().count(x));
        }
        assert forall|k: int| 0 <= k < items@.len() implies range.start <= #[trigger] items@[k] < range.end by {
            assert(items@.contains(items@[k]));
            assert(before.contains(items@[k]));
            let j = choose|j: int| 0 <= j < before.len() && before[j] == items@[k];
        }
    }
    let ghost shuffled = items@;
    items.truncate(n);
    proof {
        assert(items@ =~= shuffled.subrange(0, n as int));
        assert forall|x: usize| range.start <= x < range.end && n == range_len(range) implies items@.contains(x) by {
            assert(before.contains(x));
            assert(shuffled.contains(x));
            assert(items@ =~= shuffled);
        }
    }
    items
}

} // verus!
