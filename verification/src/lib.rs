//! Movement-simulation core of a 2D climbing/swinging platformer.
//!
//! The library is the physics layer only: an analytic two-bone
//! inverse-kinematics arm, a separating-axis collision system with
//! ground classification, and a windowed swing-rhythm analyzer that
//! turns hand motion into a movement-speed multiplier.  Rendering,
//! input handling and level persistence live outside; the core takes
//! plain numeric control values and level geometry and returns updated
//! body and arm state.
//!
//! All scalars are deterministic fixed-point numbers (see [`fixed`]):
//! `i64` raw values carrying [`fixed::UNIT`] increments per world unit,
//! so a tick is a pure, bit-reproducible function of its inputs.

pub mod fixed;
pub mod logic;
pub mod angle;
pub mod arm_skeleton;
pub mod body;
pub mod collider;
pub mod control;
pub mod point;
pub mod running;
pub mod surface;
pub mod trig;
pub mod vector;
