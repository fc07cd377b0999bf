//! Typed argument container for building the parameter list of a remote
//! procedure call and rendering it into the canonical length-prefixed
//! dictionary encoding used on the wire.
//!
//! The library is organised in three layers:
//!
//! - [`order`] defines byte-wise lexicographic ordering of keys, the order in
//!   which a canonical dictionary must list its entries;
//! - [`value`] defines the closed set of argument value kinds;
//! - [`args`] defines the argument map itself, whose stored entries are kept
//!   in strictly ascending key order at all times, together with its
//!   canonical serialization.

use vstd::prelude::*;

pub mod args;
pub mod encode;
pub mod order;
pub mod value;

verus! {

pub use args::ArgValues;
pub use value::ArgName;
pub use value::ArgValue;
pub use value::JsonValue;

} // verus!
