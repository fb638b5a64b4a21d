//! Verification-time types, re-exported for unverified implementors.
//!
//! A program that implements [`crate::math::VectorMath`] or
//! [`crate::backend::VectorBackend`] outside this crate must still write the
//! spec members' signatures, though their bodies are never run.  These
//! re-exports let it name those types without depending on the verification
//! library itself.

pub use vstd::prelude::int;
pub use vstd::prelude::nat;
pub use vstd::prelude::Seq;
pub use vstd::prelude::Set;
