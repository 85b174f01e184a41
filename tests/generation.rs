use std::cell::Cell;

use rand::rngs::StdRng;
use rand::SeedableRng;
use sim_generation::{
    backtrack, frequency, gen_random_text, identifier_text, live_entries, one_of, pick,
    pick_index, pick_n_unique, stress_text, weighted_index, Arbitrary, ArbitraryFromMaybe,
    Shadow,
};

type Gen<'a, T> = Box<dyn Fn(&mut StdRng) -> T + 'a>;
type Fallible<'a, T> = Box<dyn Fn(&mut StdRng) -> Option<T> + 'a>;

#[test]
fn weighted_index_scans_slices_in_order() {
    let w = vec![1u64, 3];
    assert_eq!(weighted_index(&w, 0), 0);
    assert_eq!(weighted_index(&w, 1), 1);
    assert_eq!(weighted_index(&w, 3), 1);
    let w = vec![0u64, 2, 0, 5];
    assert_eq!(weighted_index(&w, 0), 1);
    assert_eq!(weighted_index(&w, 1), 1);
    assert_eq!(weighted_index(&w, 2), 3);
    assert_eq!(weighted_index(&w, 6), 3);
}

#[test]
fn weighted_index_counts_match_weights() {
    let w = vec![2u64, 0, 5, 1];
    let total: u64 = w.iter().sum();
    let mut counts = vec![0u64; w.len()];
    for d in 0..total {
        counts[weighted_index(&w, d)] += 1;
    }
    assert_eq!(counts, w);
}

fn weighted_pair<'a>() -> Vec<(u64, Gen<'a, char>)> {
    vec![(1, Box::new(|_: &mut StdRng| 'a')), (3, Box::new(|_: &mut StdRng| 'b'))]
}

#[test]
fn frequency_one_to_three_over_4000_trials() {
    let mut rng = StdRng::seed_from_u64(7);
    let mut a = 0u32;
    let mut b = 0u32;
    for _ in 0..4000 {
        match frequency(weighted_pair(), &mut rng) {
            'a' => a += 1,
            _ => b += 1,
        }
    }
    assert!((950..=1050).contains(&a), "genA chosen {a} times");
    assert!((2850..=3150).contains(&b), "genB chosen {b} times");
}

#[test]
fn frequency_never_picks_zero_weight() {
    let mut rng = StdRng::seed_from_u64(3);
    for _ in 0..500 {
        let choices: Vec<(u64, Gen<u32>)> = vec![
            (0, Box::new(|_: &mut StdRng| 1)),
            (5, Box::new(|_: &mut StdRng| 2)),
            (0, Box::new(|_: &mut StdRng| 3)),
        ];
        assert_eq!(frequency(choices, &mut rng), 2);
    }
}

#[test]
fn frequency_hands_the_source_to_the_generator() {
    let mut rng = StdRng::seed_from_u64(11);
    let choices: Vec<(u64, Gen<usize>)> = vec![(4, Box::new(|r: &mut StdRng| pick_index(10, r)))];
    let v = frequency(choices, &mut rng);
    assert!(v < 10);
}

fn run_workload(seed: u64) -> (Vec<String>, Vec<Vec<usize>>, Vec<char>, Vec<Option<u32>>) {
    let mut rng = StdRng::seed_from_u64(seed);
    let mut texts = Vec::new();
    let mut subsets = Vec::new();
    let mut picks = Vec::new();
    let mut searches = Vec::new();
    for _ in 0..50 {
        texts.push(gen_random_text(&mut rng));
        subsets.push(pick_n_unique(0..20, 5, &mut rng));
        picks.push(frequency(weighted_pair(), &mut rng));
        let choices: Vec<(usize, Fallible<u32>)> = vec![
            (2, Box::new(|r: &mut StdRng| if pick_index(3, r) == 0 { Some(1) } else { None })),
            (2, Box::new(|r: &mut StdRng| if pick_index(3, r) == 0 { Some(2) } else { None })),
        ];
        searches.push(backtrack(choices, &mut rng));
    }
    (texts, subsets, picks, searches)
}

#[test]
fn same_seed_same_outputs() {
    assert_eq!(run_workload(42), run_workload(42));
    assert_ne!(run_workload(42), run_workload(43));
}

#[test]
fn backtrack_returns_the_value_of_the_entry_that_succeeds() {
    for seed in 0..200 {
        let mut rng = StdRng::seed_from_u64(seed);
        let failures = Cell::new(0u32);
        let choices: Vec<(usize, Fallible<u32>)> = vec![
            (2, Box::new(|_: &mut StdRng| {
                failures.set(failures.get() + 1);
                None
            })),
            (1, Box::new(|_: &mut StdRng| Some(17))),
        ];
        assert_eq!(backtrack(choices, &mut rng), Some(17));
        assert!(failures.get() <= 2);
    }
}

#[test]
fn backtrack_exhausts_every_budget_before_giving_up() {
    let mut rng = StdRng::seed_from_u64(5);
    let calls: Vec<Cell<usize>> = (0..3).map(|_| Cell::new(0)).collect();
    let budgets = [2usize, 3, 0];
    let choices: Vec<(usize, Fallible<u8>)> = (0..3)
        .map(|i| {
            let c = &calls[i];
            let f: Fallible<u8> = Box::new(move |_: &mut StdRng| {
                c.set(c.get() + 1);
                None
            });
            (budgets[i], f)
        })
        .collect();
    assert_eq!(backtrack(choices, &mut rng), None);
    let counts: Vec<usize> = calls.iter().map(|c| c.get()).collect();
    assert_eq!(counts, vec![2, 3, 0]);
}

#[test]
fn backtrack_with_no_budget_is_absent() {
    let mut rng = StdRng::seed_from_u64(1);
    let empty: Vec<(usize, Fallible<u8>)> = Vec::new();
    assert_eq!(backtrack(empty, &mut rng), None);
    let disabled: Vec<(usize, Fallible<u8>)> = vec![(0, Box::new(|_: &mut StdRng| Some(1)))];
    assert_eq!(backtrack(disabled, &mut rng), None);
}

#[test]
fn live_entries_lists_positive_budgets_in_order() {
    assert_eq!(live_entries(&vec![0, 2, 0, 1, 5]), vec![1, 3, 4]);
    assert_eq!(live_entries(&vec![0, 0]), Vec::<usize>::new());
    assert_eq!(live_entries(&vec![]), Vec::<usize>::new());
}

#[test]
fn pick_n_unique_gives_distinct_values_in_range() {
    let mut rng = StdRng::seed_from_u64(9);
    for n in 0..=12 {
        let r = pick_n_unique(5..17, n, &mut rng);
        assert_eq!(r.len(), n);
        let mut sorted = r.clone();
        sorted.sort();
        sorted.dedup();
        assert_eq!(sorted.len(), n);
        assert!(r.iter().all(|&x| (5..17).contains(&x)));
    }
}

#[test]
fn pick_n_unique_of_whole_range_is_a_permutation() {
    let mut rng = StdRng::seed_from_u64(10);
    let mut moved = false;
    for _ in 0..10 {
        let r = pick_n_unique(0..30, 30, &mut rng);
        let mut sorted = r.clone();
        sorted.sort();
        assert_eq!(sorted, (0..30).collect::<Vec<usize>>());
        if r != sorted {
            moved = true;
        }
    }
    assert!(moved);
}

#[test]
fn pick_n_unique_of_empty_range() {
    let mut rng = StdRng::seed_from_u64(12);
    assert_eq!(pick_n_unique(4..4, 0, &mut rng), Vec::<usize>::new());
}

#[test]
fn pick_and_pick_index_stay_in_bounds() {
    let mut rng = StdRng::seed_from_u64(13);
    let items = vec!["x", "y", "z"];
    let mut seen = [false; 3];
    for _ in 0..300 {
        let p = pick(&items, &mut rng);
        assert!(items.contains(p));
        let i = pick_index(3, &mut rng);
        assert!(i < 3);
        seen[i] = true;
    }
    assert_eq!(seen, [true, true, true]);
    assert_eq!(*pick(&items[..1], &mut rng), "x");
    assert_eq!(pick_index(1, &mut rng), 0);
}

#[test]
fn one_of_invokes_one_generator() {
    let mut rng = StdRng::seed_from_u64(14);
    let mut seen = [0u32; 2];
    for _ in 0..400 {
        let gens: Vec<Gen<usize>> = vec![Box::new(|_: &mut StdRng| 0), Box::new(|_: &mut StdRng| 1)];
        seen[one_of(gens, &mut rng)] += 1;
    }
    assert!(seen[0] > 150 && seen[1] > 150);
}

#[test]
fn stress_text_cycles_the_alphabet() {
    let s = stress_text(30);
    assert_eq!(s, "ABCDEFGHIJKLMNOPQRSTUVWXYZABCD");
    assert_eq!(stress_text(0), "");
}

#[test]
fn identifier_text_replaces_dashes() {
    assert_eq!(identifier_text("brave-new-world"), "brave_new_world");
    assert_eq!(identifier_text("plain"), "plain");
    assert_eq!(identifier_text(""), "");
}

#[test]
fn random_text_is_an_identifier_or_a_stress_string() {
    let mut rng = StdRng::seed_from_u64(15);
    for _ in 0..3000 {
        let t = gen_random_text(&mut rng);
        let stress = (1024..2048).contains(&t.len()) && t == stress_text(t.len() as u64);
        let chars: Vec<char> = t.chars().collect();
        let joined = (1..chars.len().saturating_sub(1)).any(|i| chars[i] == '_');
        assert!(stress || (!t.contains('-') && joined));
    }
}

#[derive(Debug, PartialEq)]
struct Digit(u8);

impl Arbitrary for Digit {
    fn arbitrary(rng: &mut StdRng) -> Self {
        Digit(pick_index(10, rng) as u8)
    }
}

impl ArbitraryFromMaybe<&[u8]> for Digit {
    fn arbitrary_from_maybe(rng: &mut StdRng, t: &[u8]) -> Option<Self> {
        if t.is_empty() {
            None
        } else {
            Some(Digit(*pick(t, rng)))
        }
    }
}

struct Push(u8);

impl Shadow<Vec<u8>> for Push {
    type Result = usize;

    fn shadow(&self, model: &mut Vec<u8>) -> usize {
        model.push(self.0);
        model.len()
    }
}

#[test]
fn capabilities_compose_with_combinators() {
    let mut rng = StdRng::seed_from_u64(16);
    let d = Digit::arbitrary(&mut rng);
    assert!(d.0 < 10);
    assert_eq!(Digit::arbitrary_from_maybe(&mut rng, &[]), None);
    assert_eq!(Digit::arbitrary_from_maybe(&mut rng, &[4]), Some(Digit(4)));
    let mut model = Vec::new();
    assert_eq!(Push(1).shadow(&mut model), 1);
    assert_eq!(Push(2).shadow(&mut model), 2);
    assert_eq!(model, vec![1, 2]);
}
