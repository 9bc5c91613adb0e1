//! A freehand chalk drawing surface: stroke interpolation, grouped undo,
//! hue-rotated palettes and a radius eraser, with every rule stated as a
//! contract and proved.

pub mod geometry;
pub mod stroke;
pub mod undo;
pub mod scene;
pub mod eraser;
pub mod palette;
pub mod textures;
mod random;
pub mod board;
