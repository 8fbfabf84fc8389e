//! The handful of names most callers want in scope, and a small
//! general-purpose wrapper.

use vstd::prelude::*;

pub use crate::error::position::Position;
pub use crate::error::span::Span;
pub use crate::error::Error;

verus! {

/// A plain newtype wrapper around any value.
pub struct Wrap<T>(pub T);

} // verus!
