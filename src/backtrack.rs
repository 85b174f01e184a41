//! Bounded backtracking search across fallible generators, each with its own
//! budget of failed attempts.

use crate::choice::pick_index;
use rand::rngs::StdRng;
use vstd::prelude::*;

verus! {

/// Sum of the first `n` budgets.
pub open spec fn prefix_budget(b: Seq<usize>, n: int) -> nat
    decreases n,
{
    if n <= 0 {
        0
    } else {
        prefix_budget(b, n - 1) + b[n - 1] as nat
    }
}

/// Sum of all remaining budgets.
pub open spec fn total_budget(b: Seq<usize>) -> nat {
    prefix_budget(b, b.len() as int)
}

/// The candidate pool among the first `n` entries: the indices, in order,
/// whose budget is positive.
pub open spec fn pool_upto(b: Seq<usize>, n: int) -> Seq<usize>
    decreases n,
{
    if n <= 0 {
        Seq::empty()
    } else if b[n - 1] > 0 {
        pool_upto(b, n - 1).push((n - 1) as usize)
    } else {
        pool_upto(b, n - 1)
    }
}

/// The candidate pool: the indices, in order, of the entries with attempts left.
pub open spec fn pool_of(b: Seq<usize>) -> Seq<usize> {
    pool_upto(b, b.len() as int)
}

/// The budgets after a failed invocation of entry `i`.
pub open spec fn charge(b: Seq<usize>, i: int) -> Seq<usize> {
    b.update(i, (b[i] - 1) as usize)
}

/// Whether each failure in `picks`, charged in turn, fell on an entry that
/// still had attempts left.
pub open spec fn failures_allowed(b: Seq<usize>, picks: Seq<int>) -> bool
    decreases picks.len(),
{
    if picks.len() == 0 {
        true
    } else {
        let before = after_failures(b, picks.drop_last());
        &&& failures_allowed(b, picks.drop_last())
        &&& 0 <= picks.last() < before.len()
        &&& before[picks.last()] > 0
    }
}

/// The budgets after the failures `picks`, charged in order.
pub open spec fn after_failures(b: Seq<usize>, picks: Seq<int>) -> Seq<usize>
    decreases picks.len(),
{
    if picks.len() == 0 {
        b
    } else {
        charge(after_failures(b, picks.drop_last()), picks.last())
    }
}

/// The budgets of a list of retry-budgeted entries.
pub open spec fn budgets_of<F>(choices: Seq<(usize, F)>) -> Seq<usize> {
    choices.map_values(|c: (usize, F)| c.0)
}

/// What a search over `choices` may return: a value that an entry with
/// attempts produced, or `None` only when every entry that had attempts can
/// fail.
pub open spec fn search_outcome<T, F: Fn(&mut StdRng) -> Option<T>>(
    choices: Seq<(usize, F)>,
    r: Option<T>,
) -> bool {
    &&& r is Some ==> exists|i: int, g: &mut StdRng|
        0 <= i < choices.len() && choices[i].0 > 0 && #[trigger] choices[i].1.ensures((g,), r)
    &&& r is None ==> forall|i: int| 0 <= i < choices.len() && #[trigger] choices[i].0 > 0
        ==> exists|g: &mut StdRng| choices[i].1.ensures((g,), None::<T>)
}

/// How often entry `k` occurs among the failures `picks`.
pub open spec fn times_charged(picks: Seq<int>, k: int) -> nat
    decreases picks.len(),
{
    if picks.len() == 0 {
        0
    } else {
        times_charged(picks.drop_last(), k) + if picks.last() == k {
            1nat
        } else {
            0nat
        }
    }
}

/// The record of one search: the failed invocations `picks`, in order, each
/// charged to an entry that had attempts left at that point; then either one
/// successful invocation (`r` is a value; attempts were still left) or none
/// (`r` is `None`; every attempt of every entry was spent).
pub open spec fn search_trace<T, F: Fn(&mut StdRng) -> Option<T>>(
    choices: Seq<(usize, F)>,
    picks: Seq<int>,
    r: Option<T>,
) -> bool {
    &&& failures_allowed(budgets_of(choices), picks)
    &&& r is None ==> picks.len() == total_budget(budgets_of(choices))
    &&& r is Some ==> picks.len() < total_budget(budgets_of(choices))
}

proof fn lemma_charge_prefix(b: Seq<usize>, i: int, n: int)
    requires
        0 <= i < b.len(),
        b[i] > 0,
        0 <= n <= b.len(),
    ensures
        prefix_budget(charge(b, i), n) + (if i < n { 1int } else { 0int }) == prefix_budget(b, n),
    decreases n,
{
    if n > 0 {
        lemma_charge_prefix(b, i, n - 1);
    }
}

proof fn lemma_pool_upto(b: Seq<usize>, n: int)
    requires
        0 <= n <= b.len(),
        b.len() <= usize::MAX + 1,
    ensures
        forall|k: int| 0 <= k < pool_upto(b, n).len() ==> {
            &&& #[trigger] pool_upto(b, n)[k] < n
            &&& b[pool_upto(b, n)[k] as int] > 0
        },
        forall|j: int| 0 <= j < n && b[j] > 0 ==> #[trigger] pool_upto(b, n).contains(j as usize),
        pool_upto(b, n).len() == 0 <==> prefix_budget(b, n) == 0,
    decreases n,
{
    if n > 0 {
        lemma_pool_upto(b, n - 1);
        let p = pool_upto(b, n - 1);
        if b[n - 1] > 0 {
            assert(pool_upto(b, n) == p.push((n - 1) as usize));
            assert forall|j: int| 0 <= j < n && b[j] > 0 implies #[trigger] pool_upto(b, n).contains(j as usize) by {
                if j < n - 1 {
                    assert(p.contains(j as usize));
                    let k = choose|k: int| 0 <= k < p.len() && p[k] == j as usize;
                    assert(pool_upto(b, n)[k] == j as usize);
                } else {
                    assert(pool_upto(b, n)[p.len() as int] == j as usize);
                }
            }
        }
    }
}

/// Charging a failed invocation to an entry with attempts left lowers that
/// entry's counter by one and leaves every other counter as it was: no
/// counter ever rises, and only the failing entry's falls.
pub proof fn lemma_charge_monotone(b: Seq<usize>, i: int)
    requires
        0 <= i < b.len(),
        b[i] > 0,
    ensures
        charge(b, i).len() == b.len(),
        charge(b, i)[i] + 1 == b[i],
        forall|j: int| 0 <= j < b.len() ==> #[trigger] charge(b, i)[j] <= b[j],
        forall|j: int| 0 <= j < b.len() && j != i ==> #[trigger] charge(b, i)[j] == b[j],
        total_budget(charge(b, i)) + 1 == total_budget(b),
{
    lemma_charge_prefix(b, i, b.len() as int);
}

/// The candidate pool is empty exactly when every budget is spent, and holds
/// exactly the entries with attempts left.
pub proof fn lemma_pool_exhausted(b: Seq<usize>)
    requires
        b.len() <= usize::MAX + 1,
    ensures
        pool_of(b).len() == 0 <==> total_budget(b) == 0,
        forall|j: int| 0 <= j < b.len() ==> (b[j] > 0 <==> #[trigger] pool_of(b).contains(j as usize)),
{
    lemma_pool_upto(b, b.len() as int);
    assert forall|j: int| 0 <= j < b.len() implies (b[j] > 0 <==> #[trigger] pool_of(b).contains(
        j as usize,
    )) by {
        if pool_of(b).contains(j as usize) {
            let k = choose|k: int| 0 <= k < pool_of(b).len() && pool_of(b)[k] == j as usize;
            assert(b[pool_of(b)[k] as int] > 0);
        }
    }
}

/// Bounded failures: starting from budgets `r_1..r_K`, a run of failed
/// invocations (as `backtrack` records it), each charged to an entry with
/// attempts left, has at most `r_1 + ... + r_K` steps; after exactly that many
/// the candidate pool is empty and the search ends.
pub proof fn lemma_failures_bounded(b: Seq<usize>, picks: Seq<int>)
    requires
        b.len() <= usize::MAX + 1,
        failures_allowed(b, picks),
    ensures
        after_failures(b, picks).len() == b.len(),
        picks.len() + total_budget(after_failures(b, picks)) == total_budget(b),
        picks.len() <= total_budget(b),
        picks.len() == total_budget(b) ==> pool_of(after_failures(b, picks)).len() == 0,
    decreases picks.len(),
{
    if picks.len() > 0 {
        lemma_failures_bounded(b, picks.drop_last());
        lemma_charge_monotone(after_failures(b, picks.drop_last()), picks.last());
    }
    lemma_pool_exhausted(after_failures(b, picks));
}

proof fn lemma_budget_le_prefix(b: Seq<usize>, j: int, n: int)
    requires
        0 <= j < n <= b.len(),
    ensures
        b[j] <= prefix_budget(b, n),
    decreases n,
{
    if j < n - 1 {
        lemma_budget_le_prefix(b, j, n - 1);
    }
}

proof fn lemma_after_failures_counts(b: Seq<usize>, picks: Seq<int>)
    requires
        failures_allowed(b, picks),
    ensures
        after_failures(b, picks).len() == b.len(),
        forall|k: int| 0 <= k < b.len() ==>
            #[trigger] after_failures(b, picks)[k] + times_charged(picks, k) == b[k],
    decreases picks.len(),
{
    if picks.len() > 0 {
        lemma_after_failures_counts(b, picks.drop_last());
    }
}

/// Each search is bounded and charges only failures: it invokes generators
/// at most `r_1 + ... + r_K` times in all; entry `k`'s counter ends at `r_k`
/// less the number of absent results its own generator gave, so it never
/// rises and entry `k` fails at most `r_k` times.
pub proof fn lemma_search_bounded<T, F: Fn(&mut StdRng) -> Option<T>>(
    choices: Seq<(usize, F)>,
    picks: Seq<int>,
    r: Option<T>,
)
    requires
        choices.len() <= usize::MAX + 1,
        search_trace(choices, picks, r),
    ensures
        picks.len() + (if r is Some { 1int } else { 0int }) <= total_budget(budgets_of(choices)),
        forall|k: int| 0 <= k < choices.len() ==> {
            &&& after_failures(budgets_of(choices), picks)[k] + #[trigger] times_charged(picks, k)
                == choices[k].0
            &&& times_charged(picks, k) <= choices[k].0
        },
{
    let b = budgets_of(choices);
    lemma_failures_bounded(b, picks);
    lemma_after_failures_counts(b, picks);
    assert forall|k: int| 0 <= k < choices.len() implies {
        &&& after_failures(b, picks)[k] + #[trigger] times_charged(picks, k) == choices[k].0
        &&& times_charged(picks, k) <= choices[k].0
    } by {
        assert(b[k] == choices[k].0);
        assert(after_failures(b, picks)[k] + times_charged(picks, k) == b[k]);
    }
}

/// A search cannot miss a value that is always there: when an entry `j` with
/// attempts never fails, the search returns a value, after at most the other
/// entries' attempts `(r_1 + ... + r_K) - r_j` failures.
pub proof fn lemma_search_finds_sure_entry<T, F: Fn(&mut StdRng) -> Option<T>>(
    choices: Seq<(usize, F)>,
    picks: Seq<int>,
    r: Option<T>,
    j: int,
)
    requires
        choices.len() <= usize::MAX + 1,
        search_trace(choices, picks, r),
        forall|k: int| 0 <= k < choices.len() && #[trigger] times_charged(picks, k) > 0
            ==> exists|g: &mut StdRng| choices[k].1.ensures((g,), None::<T>),
        0 <= j < choices.len(),
        choices[j].0 > 0,
        forall|g: &mut StdRng| !(#[trigger] choices[j].1.ensures((g,), None::<T>)),
    ensures
        r is Some,
        picks.len() + choices[j].0 <= total_budget(budgets_of(choices)),
{
    let b = budgets_of(choices);
    assert(times_charged(picks, j) == 0);
    lemma_failures_bounded(b, picks);
    lemma_after_failures_counts(b, picks);
    let a = after_failures(b, picks);
    assert(a[j] == b[j]);
    lemma_budget_le_prefix(a, j, a.len() as int);
    if r is None {
        lemma_pool_exhausted(a);
        assert(pool_of(a).contains(j as usize));
    }
}

proof fn lemma_trace_failures<T, F: Fn(&mut StdRng) -> Option<T>>(
    choices: Seq<(usize, F)>,
    init: Seq<usize>,
    budgets: Seq<usize>,
    picks: Seq<int>,
)
    requires
        init == budgets_of(choices),
        failures_allowed(init, picks),
        budgets == after_failures(init, picks),
        forall|j: int| 0 <= j < init.len() && #[trigger] budgets[j] < init[j]
            ==> exists|g: &mut StdRng| choices[j].1.ensures((g,), None::<T>),
    ensures
        forall|j: int| 0 <= j < choices.len() && #[trigger] times_charged(picks, j) > 0
            ==> exists|g: &mut StdRng| choices[j].1.ensures((g,), None::<T>),
{
    lemma_after_failures_counts(init, picks);
    assert forall|j: int| 0 <= j < choices.len() && #[trigger] times_charged(picks, j) > 0
        implies exists|g: &mut StdRng| choices[j].1.ensures((g,), None::<T>) by {
        assert(after_failures(init, picks)[j] + times_charged(picks, j) == init[j]);
        assert(budgets[j] < init[j]);
    }
}

/// The candidate pool of `budgets`: the indices, in order, of the entries with
/// attempts left.
pub fn live_entries(budgets: &Vec<usize>) -> (r: Vec<usize>)
    ensures
        r@ == pool_of(budgets@),
{
    let mut pool: Vec<usize> = Vec::new();
    let mut i: usize = 0;
    while i < budgets.len()
        invariant
            0 <= i <= budgets@.len(),
            pool@ == pool_upto(budgets@, i as int),
        decreases budgets@.len() - i,
    {
        if budgets[i] > 0 {
            pool.push(i);
        }
        i = i + 1;
    }
    pool
}

/// Searches for a value among fallible generators, each with a budget of
/// failed attempts. Each round picks uniformly among the entries with attempts
/// left and invokes it: a value is returned at once, with no charge; an absent
/// result costs that entry one attempt. When no entry has attempts left the
/// search gives up and returns `None`.
///
/// A value returned comes from an entry that had attempts; `None` comes only
/// after every entry that started with attempts has failed. The failed
/// invocations form a `search_trace`: each charged to an entry with attempts
/// left and whose generator can fail, `r_1 + ... + r_K` of them in all when
/// the search gives up, fewer when it finds a value (see
/// `lemma_search_bounded` and `lemma_search_finds_sure_entry`).
pub fn backtrack<T, F: Fn(&mut StdRng) -> Option<T>>(choices: Vec<(usize, F)>, rng: &mut StdRng) -> (r: Option<T>)
    requires
        forall|i: int, g: &mut StdRng| 0 <= i < choices@.len() ==> #[trigger] choices@[i].1.requires((g,)),
    ensures
        search_outcome(choices@, r),
        exists|picks: Seq<int>| #[trigger] search_trace(choices@, picks, r)
            && forall|j: int| 0 <= j < choices@.len() && #[trigger] times_charged(picks, j) > 0
                ==> exists|g: &mut StdRng| choices@[j].1.ensures((g,), None::<T>),
{
    let ghost init = budgets_of(choices@);
    let mut budgets: Vec<usize> = Vec::new();
    let mut i: usize = 0;
    while i < choices.len()
        invariant
            0 <= i <= choices@.len(),
            init == budgets_of(choices@),
            budgets@ == init.subrange(0, i as int),
        decreases choices@.len() - i,
    {
        budgets.push(choices[i].0);
        i = i + 1;
        proof {
            assert(budgets@ =~= init.subrange(0, i as int));
        }
    }
    proof {
        assert(budgets@ =~= init);
    }
    assert(budgets@.len() == budgets.len());
    let ghost mut picks: Seq<int> = Seq::empty();
    loop
        invariant
            init == budgets_of(choices@),
            budgets@ == after_failures(init, picks),
            failures_allowed(init, picks),
            budgets@.len() == init.len(),
            budgets@.len() <= usize::MAX,
            forall|i: int, g: &mut StdRng| 0 <= i < choices@.len() ==> #[trigger] choices@[i].1.requires((g,)),
            forall|j: int| 0 <= j < init.len() ==> #[trigger] budgets@[j] <= init[j],
            forall|j: int| 0 <= j < init.len() && #[trigger] budgets@[j] < init[j]
                ==> exists|g: &mut StdRng| choices@[j].1.ensures((g,), None::<T>),
        decreases total_budget(budgets@),
    {
        let pool = live_entries(&budgets);
        proof {
            lemma_pool_exhausted(budgets@);
        }
        if pool.len() == 0 {
            proof {
                assert forall|j: int| 0 <= j < choices@.len() && #[trigger] choices@[j].0 > 0
                    implies exists|g: &mut StdRng| choices@[j].1.ensures((g,), None::<T>) by {
                    assert(init[j] > 0);
                    if budgets@[j] > 0 {
                        assert(pool@.contains(j as usize));
                    }
                    assert(budgets@[j] < init[j]);
                }
                lemma_failures_bounded(init, picks);
                assert(search_trace(choices@, picks, None::<T>));
                lemma_trace_failures::<T, F>(choices@, init, budgets@, picks);
            }
            return None;
        }
        let k = pick_index(pool.len(), rng);
        let index = pool[k];
        proof {
            assert(pool@.contains(index));
            lemma_pool_upto(budgets@, budgets@.len() as int);
        }
        let f = &choices[index].1;
        let result = f(rng);
        match result {
            Some(v) => {
                proof {
                    lemma_failures_bounded(init, picks);
                    assert(search_trace(choices@, picks, Some(v)));
                    lemma_trace_failures::<T, F>(choices@, init, budgets@, picks);
                }
                return Some(v);
            },
            None => {
                let ghost prev = budgets@;
                assert(exists|g: &mut StdRng| #[trigger] choices@[index as int].1.ensures((g,), None::<T>));
                proof {
                    lemma_charge_monotone(prev, index as int);
                }
                let left = budgets[index] - 1;
                budgets.set(index, left);
                proof {
                    assert(budgets@ == charge(prev, index as int));
                    let ghost next = picks.push(index as int);
                    assert(next.drop_last() =~= picks);
                    assert(prev[index as int] > 0);
                    assert(failures_allowed(init, next));
                    assert(after_failures(init, next) == charge(prev, index as int));
                    assert(failures_allowed(budgets_of(choices@), next));
                    picks = next;
                }
            },
        }
    }
}

} // verus!
