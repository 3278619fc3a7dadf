//! A memoizing wrapper around a function from keys to values.
//!
//! [`Memo`] owns a computation and a table of the results it has produced so far.
//! A lookup hands back the stored result for a key it has seen before and invokes the
//! computation, exactly once, for a key it has not. The table only grows: there is no
//! eviction and no invalidation.
//!
//! The module [`memo`] holds the type and its two operations with their contracts;
//! [`laws`] holds the properties that follow from them, each proved as a lemma.
pub mod laws;
pub mod memo;

pub use memo::Memo;
