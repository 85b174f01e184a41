//! The generation capabilities: producing a value of a type from the random
//! source, optionally bounded by a size and/or derived from a source value,
//! and applying a generated operation to a shadow model of the database.

use rand::rngs::StdRng;
use vstd::prelude::*;

verus! {

/// Generates a random value of the type: a uniform sampling of its possible
/// values, biased towards smaller ones for practicality. Always succeeds.
pub trait Arbitrary: Sized {
    fn arbitrary(rng: &mut StdRng) -> Self;
}

/// Generates a random value that fits in the given size (a string length, a
/// row count); smaller sizes give smaller values.
pub trait ArbitrarySized: Sized {
    fn arbitrary_sized(rng: &mut StdRng, size: usize) -> Self;
}

/// Generates a random value that depends on a given source value: an integer
/// within an interval, a value that fits a table, a predicate that a row
/// satisfies.
pub trait ArbitraryFrom<T>: Sized {
    fn arbitrary_from(rng: &mut StdRng, t: T) -> Self;
}

/// Generates a random value that depends on a given source value and fits in
/// the given size.
pub trait ArbitrarySizedFrom<T>: Sized {
    fn arbitrary_sized_from(rng: &mut StdRng, t: T, size: usize) -> Self;
}

/// Fallibly generates a random value from a given source value: `None` means
/// that no valid value exists for this source under the current constraints,
/// an abstention rather than an error.
pub trait ArbitraryFromMaybe<T>: Sized {
    fn arbitrary_from_maybe(rng: &mut StdRng, t: T) -> Option<Self>;
}

/// An operation that can be applied to a shadow model of the database: it
/// moves the model to the state that a correct engine reaches by executing
/// the operation, and returns what a correct engine reports for it (nothing
/// for a schema change, the affected rows for a data change).
pub trait Shadow<Model> {
    type Result;

    fn shadow(&self, model: &mut Model) -> Self::Result;
}

} // verus!
