//! Three-dimensional discrete Fourier transforms over cubic volumes.
//!
//! The engine is parametric in the scalar type of its samples and in the
//! numeric primitives it is built on: the planning step and the execution of
//! a one-dimensional transform, and the scaling of one component. It owns the
//! shape checks, the row-major addressing of the volume, the three axis
//! passes, the plan cache and the interleaved output format, and proves each
//! of them against a mathematical model of the volume.
//!
//! - [`layout`]: positions, coordinates and axis-aligned lines of a volume.
//! - [`plan`]: the plan cache.
//! - [`engine`]: the engine itself.
//! - [`energy`]: the total energy of a set of coefficients.
//! - [`error`]: the errors and their messages.
//! - [`text`]: decimal numbers for the messages.

pub mod energy;
pub mod engine;
pub mod error;
pub mod layout;
pub mod plan;
pub mod text;
