//! The decision logic of a small path tracer: which root of which object a
//! ray meets first, how a traced path ends, where each pixel of the frame
//! lies, and how the window loop answers its events.
//!
//! Distances along a ray are held as [`param::RayParam`], the integer key by
//! which a distance is ordered, so that every comparison the tracer makes
//! on them is made here on integers.

pub mod param;
pub mod hit;
pub mod trace;
pub mod frame;
pub mod controls;
