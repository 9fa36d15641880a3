//! A deterministic fly camera over fixed-point integers.
//!
//! Tuning values and inputs are counted in thousandths, angles and direction
//! vectors in millionths, and positions in million-millionths, so that every
//! product the camera forms is exact.
//!
//! - [`camera`]: the camera and its three kinds of input.
//! - [`frame`]: the orthonormal frame that belongs to a yaw and a pitch.
//! - [`handed`]: the handedness of that frame.
//! - [`view`]: the view transform and the look-at.
//! - [`trig`]: sine and cosine in degrees.
//! - [`vec3`]: vectors, cross products and normalisation.
//! - [`fixed`]: scales and the integer square root.
//! - [`pointer`], [`clock`]: from pointer positions and frame times to the
//!   deltas that the camera takes.

pub mod fixed;
pub mod trig;
pub mod vec3;
pub mod frame;
pub mod handed;
pub mod camera;
pub mod view;
pub mod pointer;
pub mod clock;
