use vstd::prelude::*;

pub mod fixed;
pub mod framebuffer;
pub mod gamestate;
pub mod map;
pub mod raycaster;
pub mod vector;

pub use framebuffer::{filled_rectangle, is_between, set_pixel, verline};

verus! {

/// Width of the target framebuffer in pixels.
pub const WIDTH: usize = 1920;

/// Height of the target framebuffer in pixels.
pub const HEIGHT: usize = 1080;

/// Pixel scaling factor of the drawing primitives' coordinate grid.
pub const SCALEFACTOR: usize = 1;

/// Default forward/strafe acceleration: about 0.1 world units per tick, in
/// fixed-point units.
pub const DEFAULT_ACCELERATION: i64 = 6553;

} // verus!
