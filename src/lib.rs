//! A progressive path tracer's verified core: bounding boxes and the
//! bounding-volume hierarchy built over them and walked with an explicit
//! stack, the way a traced light path ends and combines its colors, the
//! per-pixel accumulation of radiance samples, and the handshake that lets a
//! consumer read the accumulated image while the render worker is parked.

pub mod accumulation;
pub mod bvh;
pub mod geometry;
pub mod handshake;
pub mod shading;
