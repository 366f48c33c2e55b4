//! Representative values of algebraic data types.
//!
//! A type that implements [`EveryVariant`] lists a short, fixed sequence of its
//! values: every constructor of a sum, the boundaries of a number, an empty, a
//! short and a long sequence. The lists are meant as seeds for tests that want
//! to touch every shape a value can take.
//!
//! - [`protocol`] holds the trait and what it means for a list to be the same
//!   on every call.
//! - [`std_impl`] implements the trait for the primitive types and for
//!   `Option`, `Result` and `Vec`.
//! - [`heapless_impl`] implements it for the bounded vector and string of
//!   `heapless`.
//! - [`derive`] works out the list of a user-defined product or sum from the
//!   lists of its fields.

pub mod protocol;
pub mod derive;
pub mod heapless_impl;
pub mod std_impl;

pub use protocol::EveryVariant;
