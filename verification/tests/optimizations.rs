//! Level-of-detail defaults and the subsample computation.

use splat_settings::settings::CloudSettings;

#[test]
fn test_lod_defaults() {
    // The near and far distance defaults (0.0 and 50.0) are real-valued and
    // belong to the renderer's component, not to the discrete settings held
    // here; only the subsample ceiling is checked.
    let settings = CloudSettings::default();
    assert_eq!(settings.lod_max_subsample, 8);
}

#[test]
fn test_lod_subsample_computation() {
    // Simulate the LOD computation logic
    let near = 10.0_f32;
    let far = 50.0_f32;
    let max_subsample = 8_u32;

    // At near distance: subsample should be 1
    let dist = 10.0_f32;
    let t = ((dist - near) / (far - near)).clamp(0.0, 1.0);
    let subsample = 1 + (t * (max_subsample - 1) as f32) as u32;
    assert_eq!(subsample, 1, "at near distance, subsample should be 1");

    // At far distance: subsample should be max
    let dist = 50.0_f32;
    let t = ((dist - near) / (far - near)).clamp(0.0, 1.0);
    let subsample = 1 + (t * (max_subsample - 1) as f32) as u32;
    assert_eq!(subsample, max_subsample, "at far distance, subsample should be max");

    // At mid distance: subsample should be between 1 and max
    let dist = 30.0_f32;
    let t = ((dist - near) / (far - near)).clamp(0.0, 1.0);
    let subsample = 1 + (t * (max_subsample - 1) as f32) as u32;
    assert!(subsample > 1 && subsample < max_subsample, "at mid distance, subsample should be between 1 and max");

    // Beyond far: subsample should be clamped to max
    let dist = 100.0_f32;
    let t = ((dist - near) / (far - near)).clamp(0.0, 1.0);
    let subsample = 1 + (t * (max_subsample - 1) as f32) as u32;
    assert_eq!(subsample, max_subsample, "beyond far distance, subsample should be max");
}
