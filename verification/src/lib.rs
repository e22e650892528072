//! Settings and decision logic for rendering gaussian splat clouds, and the
//! driver of the rendering benchmark.
pub mod modes;
pub mod settings;
pub mod playback;
pub mod stats;
pub mod bench;
