//! The engine of an ASCII-art aquarium: sprite frames with colour masks, a
//! painter's-algorithm compositor, and the rules by which creatures are built,
//! age and die.

pub mod art;
pub mod chance;
pub mod collide;
pub mod control;
pub mod entity;
pub mod render;
pub mod scene;
pub mod spawn;
pub mod text;
