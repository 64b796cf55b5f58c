//! Arithmetic on the curve secp256k1 and ECDSA signatures over it.
//!
//! Field elements and points are built on 256-bit integers whose limb
//! arithmetic the `bigint` crate does. Every operation states its result over
//! the natural numbers, and the laws of the field and of point addition that
//! do not need the whole group structure are proved from those statements.

pub mod curve_laws;
pub mod error;
pub mod field;
pub mod hash;
pub mod modular;
pub mod number_theory;
pub mod point;
pub mod private_key;
pub mod secp256k1;
pub mod signature;
pub mod uint;
