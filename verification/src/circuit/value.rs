//! Values that may not be known yet.

use vstd::prelude::*;

verus! {

/// A value that might exist within a circuit.
///
/// A value is unknown while a circuit is measured or its keys are made, and
/// known while a proof is made.
#[derive(Clone, Copy, Debug, PartialEq, Eq)]
pub struct Value<V> {
    pub inner: Option<V>,
}

impl<V> Value<V> {
    /// Constructs an unwitnessed value.
    pub fn unknown() -> (r: Self)
        ensures
            r.inner.is_none(),
    {
        Value { inner: None }
    }

    /// Constructs a known value.
    pub fn known(value: V) -> (r: Self)
        ensures
            r.inner == Some(value),
    {
        Value { inner: Some(value) }
    }

    /// Whether the value is unknown.
    pub fn is_none(&self) -> (r: bool)
        ensures
            r == self.inner.is_none(),
    {
        self.inner.is_none()
    }
}

} // verus!
