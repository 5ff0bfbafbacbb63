//! Reconstruction of an integer from its residues: the extended Euclidean
//! algorithm, and the merging of congruences whose moduli need not be
//! coprime.

pub mod bezout;
pub mod congruence;
pub mod coprimality;
pub mod crt;
pub mod divisibility;
pub mod exclusion;
pub mod integer;
pub mod merging;
pub mod reconstruction;
pub mod remainder;
pub mod truncation;

pub use crate::bezout::{bezout, bezout_recursive};
pub use crate::reconstruction::{merge_all, reconstruct};
pub use crate::remainder::{gcd_of, CrtError, RemainderValue};
