//! Chemical-equilibrium core in the NASA CEA tradition: a binary
//! thermodynamic-library codec, a species property evaluator, a
//! Gibbs-minimization equilibrium solver, and a sweep driver.
//!
//! All real-valued quantities are carried in a saturating fixed-point
//! type ([`fx::Fx`]), so every computation is exactly specified and
//! bit-for-bit reproducible.

pub mod bytes;
pub mod codec;
pub mod driver;
pub mod fx;
pub mod index;
pub mod input;
pub mod linalg;
pub mod solver;
pub mod table;
pub mod thermo;
