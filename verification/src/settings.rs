//! The discrete settings of a splat cloud and their defaults.
//!
//! Real-valued tuning parameters (opacity, scale, timing, effect amplitudes,
//! distances) are carried by the renderer beside these settings.
use vstd::prelude::*;
use crate::modes::{DrawMode, GaussianMode, PlaybackMode, RasterizeMode, GaussianColorSpace};

verus! {

/// The discrete settings of a splat cloud.
#[derive(Clone, Copy, Debug, PartialEq, Eq, Structural)]
pub struct CloudSettings {
    pub aabb: bool,
    pub opacity_adaptive_radius: bool,
    pub visualize_bounding_box: bool,
    pub draw_mode: DrawMode,
    pub gaussian_mode: GaussianMode,
    pub playback_mode: PlaybackMode,
    pub rasterize_mode: RasterizeMode,
    pub color_space: GaussianColorSpace,
    pub num_classes: usize,
    /// Strip the entity rotation from the covariance so splats stay camera-aligned.
    pub billboard: bool,
    /// Render every Nth particle (1 = all, 2 = half, 4 = quarter).
    pub subsample: u32,
    /// Largest subsample factor that level of detail reaches at far distance.
    pub lod_max_subsample: u32,
}

impl Default for CloudSettings {
    /// Every particle drawn, three-dimensional color splats in sRGB, one
    /// class, time standing still, and a level-of-detail ceiling of 8.
    fn default() -> (s: Self)
        ensures
            !s.aabb,
            s.opacity_adaptive_radius,
            !s.visualize_bounding_box,
            s.draw_mode == DrawMode::All,
            s.gaussian_mode == GaussianMode::Gaussian3d,
            s.playback_mode == PlaybackMode::Still,
            s.rasterize_mode == RasterizeMode::Color,
            s.color_space == GaussianColorSpace::SrgbRec709Display,
            s.num_classes == 1,
            !s.billboard,
            s.subsample == 1,
            s.lod_max_subsample == 8,
    {
        CloudSettings {
            aabb: false,
            opacity_adaptive_radius: true,
            visualize_bounding_box: false,
            draw_mode: DrawMode::default(),
            gaussian_mode: GaussianMode::default(),
            playback_mode: PlaybackMode::default(),
            rasterize_mode: RasterizeMode::default(),
            color_space: GaussianColorSpace::default(),
            num_classes: 1,
            billboard: false,
            subsample: 1,
            lod_max_subsample: 8,
        }
    }
}

} // verus!
