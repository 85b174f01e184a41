//! Random text for identifiers and stress values: mostly short readable
//! names, rarely a long run of letters that probes large-value paths.

use crate::random::{draw_range, draw_ratio};
use anarchist_readable_name_generator_lib::readable_name_custom;
use rand::rngs::StdRng;
use vstd::prelude::*;
use vstd::string::StrSliceExecFns;

verus! {

/// Chance, out of `STRESS_ODDS`, that a stress string is produced.
pub const STRESS_CHANCE: u32 = 1;

/// The odds against which `STRESS_CHANCE` is drawn.
pub const STRESS_ODDS: u32 = 1000;

/// Smallest length of a stress string.
pub const STRESS_MIN_LEN: u64 = 1024;

/// Bound, exclusive, on the length of a stress string.
pub const STRESS_MAX_LEN: u64 = 2048;

/// The letter at position `i` of a stress string: `A` to `Z`, cycling.
pub open spec fn stress_char(i: int) -> char {
    ((65 + i % 26) as u8) as char
}

/// The stress string of length `n`: `ABC...XYZABC...`.
pub open spec fn stress_seq(n: nat) -> Seq<char> {
    Seq::new(n, |i: int| stress_char(i))
}

/// A name made safe as an identifier: each `-` becomes `_`.
pub open spec fn identifier_seq(name: Seq<char>) -> Seq<char> {
    name.map_values(|c: char| if c == '-' { '_' } else { c })
}

/// Whether the text is two non-empty fragments joined by `_`: some `_`
/// stands neither first nor last.
pub open spec fn joined(s: Seq<char>) -> bool {
    exists|i: int| 0 < i < s.len() - 1 && #[trigger] s[i] == '_'
}

/// Relies on `readable_name_custom` of anarchist_readable_name_generator_lib:
/// a random adjective and name, both non-empty words, joined by the
/// separator `_`.
#[verifier::external_body]
fn readable_name(rng: &mut StdRng) -> (r: String)
    ensures
        joined(r@),
{
    readable_name_custom("_", rng)
}

/// Relies on std's `FromIterator<char>` for `String`: the string holds the
/// characters in order.
#[verifier::external_body]
fn string_of_chars(chars: &Vec<char>) -> (r: String)
    ensures
        r@ == chars@,
{
    chars.iter().collect()
}

/// The stress string of `size` letters, cycling through `A` to `Z`.
pub fn stress_text(size: u64) -> (r: String)
    requires
        size <= usize::MAX,
    ensures
        r@ == stress_seq(size as nat),
{
    let mut chars: Vec<char> = Vec::new();
    let mut i: u64 = 0;
    while i < size
        invariant
            i <= size,
            chars@ == stress_seq(i as nat),
        decreases size - i,
    {
        let c = ((i % 26) as u8 + 65u8) as char;
        chars.push(c);
        i = i + 1;
        proof {
            assert(chars@ =~= stress_seq(i as nat));
        }
    }
    string_of_chars(&chars)
}

/// `name` with each `-` replaced by `_`, so that it can stand as a table or
/// column name.
pub fn identifier_text(name: &str) -> (r: String)
    ensures
        r@ == identifier_seq(name@),
{
    let n = name.unicode_len();
    let mut chars: Vec<char> = Vec::new();
    let mut i: usize = 0;
    while i < n
        invariant
            n == name@.len(),
            i <= n,
            chars@ == identifier_seq(name@.subrange(0, i as int)),
        decreases n - i,
    {
        let c = name.get_char(i);
        if c == '-' {
            chars.push('_');
        } else {
            chars.push(c);
        }
        i = i + 1;
        proof {
            assert(chars@ =~= identifier_seq(name@.subrange(0, i as int)));
        }
    }
    proof {
        assert(name@.subrange(0, n as int) =~= name@);
    }
    string_of_chars(&chars)
}

/// Random text for names and values. One time in a thousand it is a stress
/// string of 1024 to 2047 letters; otherwise a readable name with every `-`
/// turned into `_`: two word fragments joined by `_`.
pub fn gen_random_text(rng: &mut StdRng) -> (r: String)
    ensures
        r@.len() > 0,
        (STRESS_MIN_LEN <= r@.len() < STRESS_MAX_LEN && r@ == stress_seq(r@.len()))
            || (joined(r@) && !r@.contains('-')),
{
    let big_text = draw_ratio(rng, STRESS_CHANCE, STRESS_ODDS);
    if big_text {
        let size = draw_range(rng, STRESS_MIN_LEN, STRESS_MAX_LEN);
        stress_text(size)
    } else {
        let name = readable_name(rng);
        let r = identifier_text(name.as_str());
        proof {
            assert forall|k: int| 0 <= k < r@.len() implies r@[k] != '-' by {}
            let i = choose|i: int| 0 < i < name@.len() - 1 && #[trigger] name@[i] == '_';
            assert(r@[i] == '_');
        }
        r
    }
}

} // verus!
