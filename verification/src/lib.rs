//! Circuit-building core of a PLONK-ish proof frontend.
//!
//! The crate has two halves. [`plonk`] holds the symbolic side: typed columns,
//! the polynomial expression tree, and the constraint system that records
//! gates, lookups, shuffles and equality-enabled columns. [`circuit`] holds the
//! layout side: region shapes, the first-fit column allocator and the two-pass
//! floor planner that turns region-relative writes into absolute-row calls on
//! an assignment sink.
//!
//! Field elements are carried through the library as opaque, copyable values
//! of a type parameter `F`; the few places that need particular elements
//! (zero, one, the small integers) take them as arguments.

pub mod circuit;
pub mod middleware;
pub mod plonk;
