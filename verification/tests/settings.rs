use splat_settings::modes::{DrawMode, GaussianColorSpace, GaussianMode, PlaybackMode, RasterizeMode};
use splat_settings::playback::PlaybackStep;
use splat_settings::settings::CloudSettings;

#[test]
fn mode_defaults() {
    assert_eq!(DrawMode::default(), DrawMode::All);
    assert_eq!(GaussianMode::default(), GaussianMode::Gaussian3d);
    assert_eq!(PlaybackMode::default(), PlaybackMode::Still);
    assert_eq!(RasterizeMode::default(), RasterizeMode::Color);
    assert_eq!(GaussianColorSpace::default(), GaussianColorSpace::SrgbRec709Display);
}

#[test]
fn cloud_settings_defaults() {
    let s = CloudSettings::default();
    assert!(!s.aabb);
    assert!(s.opacity_adaptive_radius);
    assert!(!s.visualize_bounding_box);
    assert_eq!(s.draw_mode, DrawMode::All);
    assert_eq!(s.gaussian_mode, GaussianMode::Gaussian3d);
    assert_eq!(s.playback_mode, PlaybackMode::Still);
    assert_eq!(s.rasterize_mode, RasterizeMode::Color);
    assert_eq!(s.color_space, GaussianColorSpace::SrgbRec709Display);
    assert_eq!(s.num_classes, 1);
    assert!(!s.billboard);
    assert_eq!(s.subsample, 1);
}

#[test]
fn subsample_override_keeps_other_defaults() {
    let s = CloudSettings { subsample: 4, ..Default::default() };
    assert_eq!(s.subsample, 4);
    assert_eq!(s.lod_max_subsample, 8);
    assert_eq!(s.num_classes, 1);
}

#[test]
fn still_never_moves() {
    for zero in [false, true] {
        for reached in [false, true] {
            assert_eq!(PlaybackMode::Still.step(zero, reached), PlaybackStep::Hold);
        }
    }
}

#[test]
fn zero_time_scale_holds_every_mode() {
    for mode in [PlaybackMode::Loop, PlaybackMode::Once, PlaybackMode::Sin, PlaybackMode::Still] {
        assert_eq!(mode.step(true, false), PlaybackStep::Hold);
        assert_eq!(mode.step(true, true), PlaybackStep::Hold);
    }
}

#[test]
fn loop_advances_and_wraps() {
    assert_eq!(PlaybackMode::Loop.step(false, false), PlaybackStep::Advance { wrap_past_stop: true });
    assert_eq!(PlaybackMode::Loop.step(false, true), PlaybackStep::Advance { wrap_past_stop: true });
}

#[test]
fn once_advances_until_stop() {
    assert_eq!(PlaybackMode::Once.step(false, false), PlaybackStep::Advance { wrap_past_stop: false });
    assert_eq!(PlaybackMode::Once.step(false, true), PlaybackStep::Hold);
}

#[test]
fn sine_oscillates() {
    assert_eq!(PlaybackMode::Sin.step(false, false), PlaybackStep::Oscillate);
    assert_eq!(PlaybackMode::Sin.step(false, true), PlaybackStep::Oscillate);
}
