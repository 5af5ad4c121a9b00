//! Kernel support vector machines trained by sequential minimal optimization,
//! generic over the scalar type.
pub mod consts;
pub mod decision;
pub mod distribution;
pub mod float;
pub mod generator;
pub mod integer;
pub mod invariants;
pub mod kernel;
pub mod model;
pub mod smo;
pub mod svm;
