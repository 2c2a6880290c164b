//! Approximates a target picture by compositing transformed copies of library
//! pictures over a flat background, searching the transform parameters by
//! simulated annealing.
//!
//! Every quantity is an integer. Fractions (colour channels, opacities,
//! scales, normalised positions, temperatures, energies) are held in fixed
//! point: the value one is [`fixed::UNIT`]. Angles are millionths of a
//! radian.
//!
//! Every random choice is drawn from a [`RandomSource`] that the caller
//! seeds, so that a run is a function of its inputs and its seed.

pub mod annealer;
pub mod collager;
pub mod colors;
pub mod error;
pub mod fixed;
pub mod lab_image;
pub mod ops;
pub mod params;
pub mod point;
pub mod random;

pub use annealer::{Annealable, Annealer, StateEnergy};
pub use collager::{BackgroundAnnealable, Collager, CollagerConfig, ImageAnnealable};
pub use colors::{Lab, Laba, Rgb, Rgba};
pub use error::PreconditionViolation;
pub use lab_image::{GenericImage, LabImage, LabaImage};
pub use point::Point2;
pub use random::RandomSource;
