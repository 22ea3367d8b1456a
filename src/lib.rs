//! Prime-field arithmetic over 16-, 32- and 64-bit moduli, the numeric foundation of a
//! family of elliptic curves whose group order is small enough to brute-force.
pub mod codec;
pub mod curve16;
pub mod curve32;
pub mod curve64;
pub mod hash;
pub mod laws;
pub mod prime_field;
pub mod primitives;
pub mod reciprocal;
pub mod traits;

pub use curve16::TinyCurve16;
pub use curve32::TinyCurve32;
pub use curve64::TinyCurve64;
