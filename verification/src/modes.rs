//! The discrete modes a splat cloud is drawn with, each with its default.
use vstd::prelude::*;

verus! {

/// Which splats of a cloud are drawn.
#[derive(Clone, Copy, Debug, PartialEq, Eq, Hash, Structural)]
pub enum DrawMode {
    All,
    Selected,
    HighlightSelected,
}

impl Default for DrawMode {
    /// Every splat is drawn unless asked otherwise.
    fn default() -> (m: Self)
        ensures
            m == DrawMode::All,
    {
        DrawMode::All
    }
}

/// The dimensionality of the gaussians a cloud is made of.
#[derive(Clone, Copy, Debug, PartialEq, Eq, Hash, Structural)]
pub enum GaussianMode {
    Gaussian2d,
    Gaussian3d,
    Gaussian4d,
}

impl Default for GaussianMode {
    /// Clouds are three-dimensional unless asked otherwise.
    fn default() -> (m: Self)
        ensures
            m == GaussianMode::Gaussian3d,
    {
        GaussianMode::Gaussian3d
    }
}

/// How the animation time of a cloud moves between its start and stop.
#[derive(Clone, Copy, Debug, PartialEq, Eq, Hash, Structural)]
pub enum PlaybackMode {
    /// Run forward and jump back to the start after passing the stop.
    Loop,
    /// Run forward once and halt at the stop.
    Once,
    /// Swing between start and stop along a sine wave.
    Sin,
    /// Never move.
    Still,
}

impl Default for PlaybackMode {
    /// Time stands still unless asked otherwise.
    fn default() -> (m: Self)
        ensures
            m == PlaybackMode::Still,
    {
        PlaybackMode::Still
    }
}

/// The quantity a cloud is rasterized as.
#[derive(Clone, Copy, Debug, PartialEq, Eq, Hash, Structural)]
pub enum RasterizeMode {
    Classification,
    Color,
    Depth,
    Normal,
    OpticalFlow,
    Position,
    Velocity,
}

impl Default for RasterizeMode {
    /// Clouds show their color unless asked otherwise.
    fn default() -> (m: Self)
        ensures
            m == RasterizeMode::Color,
    {
        RasterizeMode::Color
    }
}

/// The color space splat colors are given in.
#[derive(Clone, Copy, Debug, PartialEq, Eq, Hash, Structural)]
pub enum GaussianColorSpace {
    SrgbRec709Display,
    LinRec709Display,
}

impl Default for GaussianColorSpace {
    /// Colors are sRGB unless asked otherwise.
    fn default() -> (m: Self)
        ensures
            m == GaussianColorSpace::SrgbRec709Display,
    {
        GaussianColorSpace::SrgbRec709Display
    }
}

} // verus!
