//! Randomized workload generation for deterministic simulation testing of an
//! embedded SQL engine: weighted and uniform choice, bounded backtracking
//! search, unique index subsets and identifier text, all driven by one
//! explicitly threaded random source; and the pager settings that the page
//! size, cache size and auto vacuum pragmas change.

pub mod arbitrary;
pub mod backtrack;
pub mod choice;
pub mod pragma;
pub mod random;
pub mod text;

pub use arbitrary::{
    Arbitrary, ArbitraryFrom, ArbitraryFromMaybe, ArbitrarySized, ArbitrarySizedFrom, Shadow,
};
pub use backtrack::{backtrack, live_entries};
pub use choice::{frequency, one_of, pick, pick_index, pick_n_unique, weighted_index};
pub use pragma::{
    update_auto_vacuum_mode, update_cache_size, update_page_size, AutoVacuumMode, PagerSettings,
    PragmaError,
};
pub use text::{gen_random_text, identifier_text, stress_text};
