use splat_settings::bench::{
    build_scenarios, BenchAction, BenchPhase, BenchScenario, BenchState, ScenarioKind, MEASURE_FRAMES,
    WARMUP_FRAMES,
};
use splat_settings::stats::MedianAt;

#[test]
fn scenario_matrix() {
    let s = build_scenarios();
    assert_eq!(s.len(), 24);
    assert_eq!(
        s[0],
        BenchScenario {
            kind: ScenarioKind::Baseline,
            particle_count: 1_000,
            global_scale_centi: 50,
            max_pixel_radius: 0,
            movement_threshold_centi: 1,
        }
    );
    assert_eq!(s[7].particle_count, 10_000);
    assert_eq!(s[7].global_scale_centi, 400);
    assert_eq!(s[15].particle_count, 500_000);
    assert_eq!(
        s[16],
        BenchScenario {
            kind: ScenarioKind::MaxPixelRadius,
            particle_count: 1_000,
            global_scale_centi: 400,
            max_pixel_radius: 50,
            movement_threshold_centi: 1,
        }
    );
    assert_eq!(
        s[23],
        BenchScenario {
            kind: ScenarioKind::SortThreshold,
            particle_count: 500_000,
            global_scale_centi: 100,
            max_pixel_radius: 0,
            movement_threshold_centi: 100,
        }
    );
}

fn one_scenario() -> BenchScenario {
    BenchScenario {
        kind: ScenarioKind::Baseline,
        particle_count: 10,
        global_scale_centi: 100,
        max_pixel_radius: 0,
        movement_threshold_centi: 1,
    }
}

#[test]
fn driver_runs_a_scenario_then_exits() {
    let scenario = one_scenario();
    let mut state = BenchState::new(vec![scenario]);
    assert_eq!(state.phase(), BenchPhase::Setup);

    match state.step(None) {
        BenchAction::Spawn(s) => assert_eq!(s, scenario),
        _ => panic!("expected the scenario to be spawned"),
    }
    assert_eq!(state.phase(), BenchPhase::Warmup);

    for _ in 0..WARMUP_FRAMES - 1 {
        assert!(matches!(state.step(None), BenchAction::Warm));
    }
    assert!(matches!(state.step(None), BenchAction::StartClock));
    assert_eq!(state.phase(), BenchPhase::Measure);

    for k in 0..MEASURE_FRAMES - 1 {
        assert!(matches!(state.step(Some(1000 + k as u128)), BenchAction::Sample));
    }
    assert_eq!(state.frame_times().len(), (MEASURE_FRAMES - 1) as usize);
    match state.step(Some(7)) {
        BenchAction::Report { scenario: s, summary } => {
            assert_eq!(s, scenario);
            assert_eq!(summary.sorted.len(), MEASURE_FRAMES as usize);
            assert_eq!(summary.sorted[0], 7);
            assert_eq!(summary.sorted[1], 1000);
            assert_eq!(summary.median, MedianAt::Between(99, 100));
            assert_eq!(summary.p95, 190);
        }
        _ => panic!("expected a report"),
    }
    assert_eq!(state.phase(), BenchPhase::Setup);
    assert_eq!(state.current_scenario(), 1);

    assert!(matches!(state.step(None), BenchAction::Finish));
    assert_eq!(state.phase(), BenchPhase::Done);
    assert!(matches!(state.step(None), BenchAction::Exit));
    assert!(matches!(state.step(None), BenchAction::Exit));
    assert_eq!(state.phase(), BenchPhase::Done);
}

#[test]
fn empty_scenario_list_finishes_at_once() {
    let mut state = BenchState::new(Vec::new());
    assert_eq!(state.scenario_count(), 0);
    assert!(matches!(state.step(None), BenchAction::Finish));
    assert!(matches!(state.step(None), BenchAction::Exit));
}

#[test]
fn every_scenario_is_reported_in_order() {
    let scenarios = build_scenarios();
    let n = scenarios.len();
    let mut state = BenchState::new(scenarios.clone());
    let mut reported = Vec::new();
    let cycle = 1 + WARMUP_FRAMES + MEASURE_FRAMES;
    let mut stamped = false;
    for _ in 0..(n as u32) * cycle + 1 {
        assert_ne!(state.phase(), BenchPhase::Done);
        // the host hands a frame time over exactly when it holds a stamp
        match state.step(if stamped { Some(1) } else { None }) {
            BenchAction::Spawn(_) => stamped = false,
            BenchAction::StartClock | BenchAction::Sample => stamped = true,
            BenchAction::Report { scenario, summary } => {
                stamped = true;
                assert_eq!(summary.sorted.len(), MEASURE_FRAMES as usize);
                reported.push(scenario);
            }
            BenchAction::Finish | BenchAction::Warm | BenchAction::Exit => {}
        }
    }
    assert_eq!(reported, scenarios);
    assert_eq!(state.phase(), BenchPhase::Done);
    assert!(matches!(state.step(None), BenchAction::Exit));
}
