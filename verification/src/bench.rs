//! The rendering benchmark: its scenario matrix and the frame-by-frame
//! driver that warms each scenario up, measures it and reports it.
//!
//! The driver decides; the host that runs it acts. Each frame the host hands
//! the driver the time since the frame it last stamped (if it holds a stamp),
//! and performs the action the driver answers with.
use vstd::prelude::*;
use crate::stats::{FrameSummary, summarize_frame_times, ascending, same_values, median_position, p95_position};

verus! {

/// Frames rendered before a scenario is measured.
pub const WARMUP_FRAMES: u32 = 40;

/// Frames measured for each scenario.
pub const MEASURE_FRAMES: u32 = 200;

/// What a scenario varies against the baseline.
#[derive(Clone, Copy, Debug, PartialEq, Eq, Structural)]
pub enum ScenarioKind {
    /// Particle count against global scale.
    Baseline,
    /// A screen-space radius clamp at a large global scale.
    MaxPixelRadius,
    /// A coarse sort movement threshold.
    SortThreshold,
}

/// One benchmark configuration. Fractional settings are held in hundredths.
#[derive(Clone, Copy, Debug, PartialEq, Eq, Structural)]
pub struct BenchScenario {
    pub kind: ScenarioKind,
    pub particle_count: usize,
    /// Global splat scale, in hundredths.
    pub global_scale_centi: u32,
    /// Screen-space radius clamp in pixels (0 = disabled).
    pub max_pixel_radius: u32,
    /// Camera movement that triggers a re-sort, in hundredths.
    pub movement_threshold_centi: u32,
}

/// The particle counts the benchmark sweeps.
pub open spec fn swept_particle_counts() -> Seq<usize> {
    seq![1_000usize, 10_000usize, 100_000usize, 500_000usize]
}

/// The global scales (in hundredths) the baseline sweeps.
pub open spec fn swept_scales_centi() -> Seq<u32> {
    seq![50u32, 100u32, 200u32, 400u32]
}

/// The number of scenarios in the matrix.
pub open spec fn scenario_count() -> nat {
    24
}

/// The scenario at position `i` of the matrix: first every particle count
/// against every global scale, then the radius clamp for every count, then
/// the coarse sort threshold for every count.
pub open spec fn scenario_at(i: int) -> BenchScenario {
    if i < 16 {
        BenchScenario {
            kind: ScenarioKind::Baseline,
            particle_count: swept_particle_counts()[i / 4],
            global_scale_centi: swept_scales_centi()[i % 4],
            max_pixel_radius: 0,
            movement_threshold_centi: 1,
        }
    } else if i < 20 {
        BenchScenario {
            kind: ScenarioKind::MaxPixelRadius,
            particle_count: swept_particle_counts()[i - 16],
            global_scale_centi: 400,
            max_pixel_radius: 50,
            movement_threshold_centi: 1,
        }
    } else {
        BenchScenario {
            kind: ScenarioKind::SortThreshold,
            particle_count: swept_particle_counts()[i - 20],
            global_scale_centi: 100,
            max_pixel_radius: 0,
            movement_threshold_centi: 100,
        }
    }
}

/// `s` holds a scenario of kind `kind` with `count` particles.
pub open spec fn has_scenario(s: Seq<BenchScenario>, kind: ScenarioKind, count: usize) -> bool {
    exists|i: int| 0 <= i < s.len() && #[trigger] s[i].kind == kind && s[i].particle_count == count
}

/// `s` holds a baseline scenario with `count` particles at scale `scale_centi`.
pub open spec fn has_baseline(s: Seq<BenchScenario>, count: usize, scale_centi: u32) -> bool {
    exists|i: int|
        0 <= i < s.len() && #[trigger] s[i].kind == ScenarioKind::Baseline && s[i].particle_count
            == count && s[i].global_scale_centi == scale_centi
}

/// `s` runs every kind of scenario at each of 1 000, 10 000, 100 000 and
/// 500 000 particles, and the baseline at each of those counts against each
/// of the scales 0.5, 1, 2 and 4.
pub open spec fn covers_matrix(s: Seq<BenchScenario>) -> bool {
    &&& forall|c: usize|
        c == 1_000 || c == 10_000 || c == 100_000 || c == 500_000 ==> {
            &&& has_scenario(s, ScenarioKind::MaxPixelRadius, c)
            &&& has_scenario(s, ScenarioKind::SortThreshold, c)
            &&& forall|g: u32| g == 50 || g == 100 || g == 200 || g == 400 ==> has_baseline(s, c, g)
        }
}

/// The scenario matrix has no scenario twice.
pub proof fn lemma_scenarios_distinct()
    ensures
        forall|i: int, j: int|
            0 <= i < j < scenario_count() ==> scenario_at(i) != scenario_at(j),
{
    let pc = swept_particle_counts();
    let sc = swept_scales_centi();
    assert(pc[0] == 1_000 && pc[1] == 10_000 && pc[2] == 100_000 && pc[3] == 500_000);
    assert(sc[0] == 50 && sc[1] == 100 && sc[2] == 200 && sc[3] == 400);
    assert forall|i: int, j: int| 0 <= i < j < scenario_count() implies scenario_at(i)
        != scenario_at(j) by {
        if j < 16 {
            assert(i / 4 != j / 4 || i % 4 != j % 4);
        }
    }
}

/// The scenario at position `i` of the matrix, as a sequence of all of them.
pub open spec fn scenario_matrix() -> Seq<BenchScenario> {
    Seq::new(scenario_count(), |i: int| scenario_at(i))
}

/// The scenario matrix covers every kind and count, and the baseline every
/// count against every scale.
pub proof fn lemma_matrix_covered()
    ensures
        covers_matrix(scenario_matrix()),
{
    let s = scenario_matrix();
    let pc = swept_particle_counts();
    let sc = swept_scales_centi();
    assert(pc[0] == 1_000 && pc[1] == 10_000 && pc[2] == 100_000 && pc[3] == 500_000);
    assert(sc[0] == 50 && sc[1] == 100 && sc[2] == 200 && sc[3] == 400);
    assert forall|c: usize| c == 1_000 || c == 10_000 || c == 100_000 || c == 500_000 implies {
        &&& has_scenario(s, ScenarioKind::MaxPixelRadius, c)
        &&& has_scenario(s, ScenarioKind::SortThreshold, c)
        &&& forall|g: u32| g == 50 || g == 100 || g == 200 || g == 400 ==> has_baseline(s, c, g)
    } by {
        let k: int = if c == 1_000 { 0 } else if c == 10_000 { 1 } else if c == 100_000 { 2 } else { 3 };
        assert(pc[k] == c);
        assert(s[16 + k].kind == ScenarioKind::MaxPixelRadius && s[16 + k].particle_count == c);
        assert(s[20 + k].kind == ScenarioKind::SortThreshold && s[20 + k].particle_count == c);
        assert forall|g: u32| g == 50 || g == 100 || g == 200 || g == 400 implies has_baseline(
            s,
            c,
            g,
        ) by {
            let t: int = if g == 50 { 0 } else if g == 100 { 1 } else if g == 200 { 2 } else { 3 };
            assert(sc[t] == g);
            let i = 4 * k + t;
            assert(i / 4 == k && i % 4 == t);
            assert(s[i].kind == ScenarioKind::Baseline && s[i].particle_count == c
                && s[i].global_scale_centi == g);
        }
    }
}

/// Builds the scenario matrix.
pub fn build_scenarios() -> (scenarios: Vec<BenchScenario>)
    ensures
        scenarios.len() == scenario_count(),
        forall|i: int| 0 <= i < scenario_count() ==> scenarios@[i] == scenario_at(i),
        forall|i: int, j: int|
            0 <= i < j < scenarios.len() ==> scenarios@[i] != scenarios@[j],
        covers_matrix(scenarios@),
{
    let particle_counts: [usize; 4] = [1_000, 10_000, 100_000, 500_000];
    let global_scales: [u32; 4] = [50, 100, 200, 400];
    assert(particle_counts@ == swept_particle_counts());
    assert(global_scales@ == swept_scales_centi());
    let mut scenarios: Vec<BenchScenario> = Vec::new();

    for c in 0..4usize
        invariant
            particle_counts@ == swept_particle_counts(),
            global_scales@ == swept_scales_centi(),
            scenarios.len() == 4 * c,
            forall|i: int| 0 <= i < scenarios.len() ==> scenarios@[i] == scenario_at(i),
    {
        for s in 0..4usize
            invariant
                c < 4,
                particle_counts@ == swept_particle_counts(),
                global_scales@ == swept_scales_centi(),
                scenarios.len() == 4 * c + s,
                forall|i: int| 0 <= i < scenarios.len() ==> scenarios@[i] == scenario_at(i),
        {
            scenarios.push(
                BenchScenario {
                    kind: ScenarioKind::Baseline,
                    particle_count: particle_counts[c],
                    global_scale_centi: global_scales[s],
                    max_pixel_radius: 0,
                    movement_threshold_centi: 1,
                },
            );
            assert((4 * c + s) / 4 == c && (4 * c + s) % 4 == s) by (nonlinear_arith)
                requires
                    s < 4,
            ;
        }
    }
    for c in 0..4usize
        invariant
            particle_counts@ == swept_particle_counts(),
            scenarios.len() == 16 + c,
            forall|i: int| 0 <= i < scenarios.len() ==> scenarios@[i] == scenario_at(i),
    {
        scenarios.push(
            BenchScenario {
                kind: ScenarioKind::MaxPixelRadius,
                particle_count: particle_counts[c],
                global_scale_centi: 400,
                max_pixel_radius: 50,
                movement_threshold_centi: 1,
            },
        );
    }
    for c in 0..4usize
        invariant
            particle_counts@ == swept_particle_counts(),
            scenarios.len() == 20 + c,
            forall|i: int| 0 <= i < scenarios.len() ==> scenarios@[i] == scenario_at(i),
    {
        scenarios.push(
            BenchScenario {
                kind: ScenarioKind::SortThreshold,
                particle_count: particle_counts[c],
                global_scale_centi: 100,
                max_pixel_radius: 0,
                movement_threshold_centi: 100,
            },
        );
    }
    proof {
        lemma_scenarios_distinct();
        lemma_matrix_covered();
        assert(scenarios@ =~= scenario_matrix());
    }
    scenarios
}


/// The stage the driver is in.
#[derive(Clone, Copy, Debug, PartialEq, Eq, Structural)]
pub enum BenchPhase {
    /// Set the next scenario up, or finish when none is left.
    Setup,
    /// Render without measuring.
    Warmup,
    /// Render and record frame times.
    Measure,
    /// Every scenario has been reported.
    Done,
}

/// What the host performs after a frame.
pub enum BenchAction {
    /// Remove the previous cloud, forget the frame stamp, apply this
    /// scenario's sort threshold and spawn its cloud.
    Spawn(BenchScenario),
    /// Remove the previous cloud: no scenario is left.
    Finish,
    /// Keep warming up.
    Warm,
    /// Warm-up is over: stamp this frame.
    StartClock,
    /// A measured frame: stamp it.
    Sample,
    /// The last measured frame of a scenario: stamp it and report the
    /// scenario with the summary of its frame times.
    Report { scenario: BenchScenario, summary: FrameSummary },
    /// Leave the application.
    Exit,
}

/// The driver's state as mathematics.
pub struct BenchModel {
    pub scenarios: Seq<BenchScenario>,
    pub current: nat,
    pub frame_count: nat,
    pub frame_times: Seq<u128>,
    pub phase: BenchPhase,
}

impl BenchModel {
    /// The counters stay within the bounds that the phases give them.
    pub open spec fn wf(self) -> bool {
        &&& self.current <= self.scenarios.len()
        &&& self.frame_count <= MEASURE_FRAMES
        &&& self.phase is Warmup ==> self.current < self.scenarios.len() && self.frame_count
            < WARMUP_FRAMES
        &&& self.phase is Measure ==> self.current < self.scenarios.len() && self.frame_count
            < MEASURE_FRAMES
    }

    /// Every measured frame so far has recorded its frame time: none are held
    /// while warming up, and while measuring there are as many as frames.
    pub open spec fn counted(self) -> bool {
        &&& self.phase is Warmup ==> self.frame_times.len() == 0
        &&& self.phase is Measure ==> self.frame_times.len() == self.frame_count
    }

    /// The host hands over a frame time in every measured frame.
    pub open spec fn stamped(self, since: Option<u128>) -> bool {
        self.phase is Measure ==> since is Some
    }

    /// The frame times after a measured frame with time `since` since the stamp.
    pub open spec fn recorded(self, since: Option<u128>) -> Seq<u128> {
        match since {
            Some(d) => self.frame_times.push(d),
            None => self.frame_times,
        }
    }

    /// The state after one frame in which `since` passed since the host's stamp.
    pub open spec fn next(self, since: Option<u128>) -> BenchModel {
        match self.phase {
            BenchPhase::Setup => if self.current >= self.scenarios.len() {
                BenchModel { phase: BenchPhase::Done, ..self }
            } else {
                BenchModel {
                    frame_count: 0,
                    frame_times: Seq::empty(),
                    phase: BenchPhase::Warmup,
                    ..self
                }
            },
            BenchPhase::Warmup => if self.frame_count + 1 >= WARMUP_FRAMES {
                BenchModel { frame_count: 0, phase: BenchPhase::Measure, ..self }
            } else {
                BenchModel { frame_count: self.frame_count + 1, ..self }
            },
            BenchPhase::Measure => if self.frame_count + 1 >= MEASURE_FRAMES {
                BenchModel {
                    frame_count: self.frame_count + 1,
                    frame_times: self.recorded(since),
                    current: self.current + 1,
                    phase: BenchPhase::Setup,
                    ..self
                }
            } else {
                BenchModel {
                    frame_count: self.frame_count + 1,
                    frame_times: self.recorded(since),
                    ..self
                }
            },
            BenchPhase::Done => self,
        }
    }

    /// The action answered for one frame in which `since` passed since the stamp.
    pub open spec fn answers(self, since: Option<u128>, action: BenchAction) -> bool {
        match self.phase {
            BenchPhase::Setup => if self.current >= self.scenarios.len() {
                action is Finish
            } else {
                action == BenchAction::Spawn(self.scenarios[self.current as int])
            },
            BenchPhase::Warmup => if self.frame_count + 1 >= WARMUP_FRAMES {
                action is StartClock
            } else {
                action is Warm
            },
            BenchPhase::Measure => if self.frame_count + 1 >= MEASURE_FRAMES {
                &&& action matches BenchAction::Report { scenario, summary }
                &&& scenario == self.scenarios[self.current as int]
                &&& summarizes(summary, self.recorded(since))
            } else {
                action is Sample
            },
            BenchPhase::Done => action is Exit,
        }
    }
}

/// `s` summarizes the frame times `times`.
pub open spec fn summarizes(s: FrameSummary, times: Seq<u128>) -> bool {
    &&& ascending(s.sorted@)
    &&& same_values(s.sorted@, times)
    &&& s.median == median_position(times.len())
    &&& s.p95 == p95_position(times.len())
}

/// The frame-by-frame benchmark driver.
pub struct BenchState {
    scenarios: Vec<BenchScenario>,
    current_scenario: usize,
    frame_count: u32,
    frame_times: Vec<u128>,
    phase: BenchPhase,
}

impl View for BenchState {
    type V = BenchModel;

    closed spec fn view(&self) -> BenchModel {
        BenchModel {
            scenarios: self.scenarios@,
            current: self.current_scenario as nat,
            frame_count: self.frame_count as nat,
            frame_times: self.frame_times@,
            phase: self.phase,
        }
    }
}

impl BenchState {
    /// The driver is well formed.
    pub open spec fn wf(&self) -> bool {
        self@.wf() && self@.counted()
    }

    /// A driver about to set up the first of `scenarios`.
    pub fn new(scenarios: Vec<BenchScenario>) -> (s: Self)
        ensures
            s.wf(),
            s@ == (BenchModel {
                scenarios: scenarios@,
                current: 0,
                frame_count: 0,
                frame_times: Seq::empty(),
                phase: BenchPhase::Setup,
            }),
    {
        BenchState {
            scenarios,
            current_scenario: 0,
            frame_count: 0,
            frame_times: Vec::new(),
            phase: BenchPhase::Setup,
        }
    }

    /// Advances the driver by one frame. `since_last` is the time since the
    /// frame the host last stamped, if it holds a stamp.
    pub fn step(&mut self, since_last: Option<u128>) -> (action: BenchAction)
        requires
            old(self).wf(),
            old(self)@.stamped(since_last),
        ensures
            final(self).wf(),
            final(self)@ == old(self)@.next(since_last),
            old(self)@.answers(since_last, action),
            action matches BenchAction::Report { summary, .. } ==> summary.sorted.len()
                == MEASURE_FRAMES,
    {
        match self.phase {
            BenchPhase::Setup => {
                if self.current_scenario >= self.scenarios.len() {
                    self.phase = BenchPhase::Done;
                    return BenchAction::Finish;
                }
                let scenario = self.scenarios[self.current_scenario];
                self.frame_count = 0;
                self.frame_times = Vec::new();
                self.phase = BenchPhase::Warmup;
                BenchAction::Spawn(scenario)
            },
            BenchPhase::Warmup => {
                self.frame_count = self.frame_count + 1;
                if self.frame_count >= WARMUP_FRAMES {
                    self.frame_count = 0;
                    self.phase = BenchPhase::Measure;
                    BenchAction::StartClock
                } else {
                    BenchAction::Warm
                }
            },
            BenchPhase::Measure => {
                let n = self.scenarios.len();
                assert(self.current_scenario < n);
                if let Some(d) = since_last {
                    self.frame_times.push(d);
                }
                self.frame_count = self.frame_count + 1;
                if self.frame_count >= MEASURE_FRAMES {
                    let scenario = self.scenarios[self.current_scenario];
                    let summary = summarize_frame_times(&self.frame_times);
                    self.current_scenario = self.current_scenario + 1;
                    self.phase = BenchPhase::Setup;
                    BenchAction::Report { scenario, summary }
                } else {
                    BenchAction::Sample
                }
            },
            BenchPhase::Done => BenchAction::Exit,
        }
    }

    /// The stage the driver is in.
    pub fn phase(&self) -> (p: BenchPhase)
        ensures
            p == self@.phase,
    {
        self.phase
    }

    /// The position of the scenario being run (or next to run).
    pub fn current_scenario(&self) -> (i: usize)
        ensures
            i == self@.current,
    {
        self.current_scenario
    }

    /// The number of scenarios.
    pub fn scenario_count(&self) -> (n: usize)
        ensures
            n == self@.scenarios.len(),
    {
        self.scenarios.len()
    }

    /// The frame times recorded for the scenario being measured.
    pub fn frame_times(&self) -> (t: &Vec<u128>)
        ensures
            t@ == self@.frame_times,
    {
        &self.frame_times
    }
}


/// The state after a run of frames, `events[k]` being what the host handed
/// over in the `k`-th frame.
pub open spec fn run(m: BenchModel, events: Seq<Option<u128>>) -> BenchModel
    decreases events.len(),
{
    if events.len() == 0 {
        m
    } else {
        run(m.next(events[0]), events.drop_first())
    }
}

/// The frame times among `events`, in order.
pub open spec fn samples(events: Seq<Option<u128>>) -> Seq<u128>
    decreases events.len(),
{
    if events.len() == 0 {
        Seq::empty()
    } else {
        match events[0] {
            Some(d) => seq![d] + samples(events.drop_first()),
            None => samples(events.drop_first()),
        }
    }
}

/// The frames one scenario takes: its set-up, its warm-up and its measurement.
pub open spec fn cycle_frames() -> nat {
    (1 + WARMUP_FRAMES + MEASURE_FRAMES) as nat
}

/// A run of `a` followed by `b` is the run of `b` after the run of `a`.
proof fn lemma_run_split(m: BenchModel, a: Seq<Option<u128>>, b: Seq<Option<u128>>)
    ensures
        run(m, a + b) == run(run(m, a), b),
    decreases a.len(),
{
    if a.len() == 0 {
        assert(a + b =~= b);
    } else {
        assert((a + b).drop_first() =~= a.drop_first() + b);
        assert((a + b)[0] == a[0]);
        lemma_run_split(m.next(a[0]), a.drop_first(), b);
    }
}

/// The samples of `a` followed by `b` are those of `a`, then those of `b`.
proof fn lemma_samples_split(a: Seq<Option<u128>>, b: Seq<Option<u128>>)
    ensures
        samples(a + b) == samples(a) + samples(b),
    decreases a.len(),
{
    if a.len() == 0 {
        assert(a + b =~= b);
        assert(samples(a) + samples(b) =~= samples(b));
    } else {
        assert((a + b).drop_first() =~= a.drop_first() + b);
        assert((a + b)[0] == a[0]);
        lemma_samples_split(a.drop_first(), b);
        match a[0] {
            Some(d) => {
                assert(seq![d] + (samples(a.drop_first()) + samples(b)) =~= (seq![d] + samples(
                    a.drop_first(),
                )) + samples(b));
            },
            None => {},
        }
    }
}

/// A run of one frame is one step.
proof fn lemma_run_one(m: BenchModel, e: Seq<Option<u128>>)
    requires
        e.len() == 1,
    ensures
        run(m, e) == m.next(e[0]),
{
    assert(e.drop_first().len() == 0);
    assert(run(m.next(e[0]), e.drop_first()) == m.next(e[0]));
}

/// The samples of one frame.
proof fn lemma_samples_one(e: Seq<Option<u128>>)
    requires
        e.len() == 1,
    ensures
        samples(e) == (match e[0] {
            Some(d) => seq![d],
            None => Seq::<u128>::empty(),
        }),
{
    assert(e.drop_first().len() == 0);
    assert(samples(e.drop_first()) == Seq::<u128>::empty());
    match e[0] {
        Some(d) => {
            assert(seq![d] + Seq::<u128>::empty() =~= seq![d]);
        },
        None => {},
    }
}

/// Once done, the driver stays done whatever frames follow.
pub proof fn lemma_done_is_final(m: BenchModel, events: Seq<Option<u128>>)
    requires
        m.phase is Done,
    ensures
        run(m, events) == m,
    decreases events.len(),
{
    if events.len() > 0 {
        lemma_done_is_final(m.next(events[0]), events.drop_first());
    }
}

/// Warming up runs until the warm-up frame count is reached, then measuring
/// starts from a zero count.
proof fn lemma_warmup(m: BenchModel, events: Seq<Option<u128>>)
    requires
        m.wf(),
        m.phase is Warmup,
        events.len() == WARMUP_FRAMES - m.frame_count,
    ensures
        run(m, events) == (BenchModel { frame_count: 0, phase: BenchPhase::Measure, ..m }),
    decreases events.len(),
{
    let n = m.next(events[0]);
    if m.frame_count + 1 < WARMUP_FRAMES {
        lemma_warmup(n, events.drop_first());
    } else {
        lemma_run_one(m, events);
    }
}

/// Measuring fewer frames than remain keeps measuring, recording every
/// frame time handed over.
proof fn lemma_measure_part(m: BenchModel, events: Seq<Option<u128>>)
    requires
        m.wf(),
        m.phase is Measure,
        m.frame_count + events.len() < MEASURE_FRAMES,
    ensures
        run(m, events) == (BenchModel {
            frame_count: m.frame_count + events.len(),
            frame_times: m.frame_times + samples(events),
            ..m
        }),
    decreases events.len(),
{
    if events.len() == 0 {
        assert(m.frame_times + samples(events) =~= m.frame_times);
    } else {
        let n = m.next(events[0]);
        lemma_measure_part(n, events.drop_first());
        match events[0] {
            Some(d) => {
                assert(m.frame_times.push(d) + samples(events.drop_first()) =~= m.frame_times + (
                seq![d] + samples(events.drop_first())));
            },
            None => {},
        }
    }
}

/// Within one scenario the driver sets it up, warms it up for the warm-up
/// frames, measures it for the measured frames, and is then ready for the
/// next scenario, holding exactly the frame times handed over while
/// measuring.
pub proof fn lemma_scenario_cycle(m: BenchModel, events: Seq<Option<u128>>)
    requires
        m.wf(),
        m.phase is Setup,
        m.current < m.scenarios.len(),
        events.len() == cycle_frames(),
    ensures
        run(m, events) == (BenchModel {
            scenarios: m.scenarios,
            current: m.current + 1,
            frame_count: MEASURE_FRAMES as nat,
            frame_times: samples(events.skip(1 + WARMUP_FRAMES)),
            phase: BenchPhase::Setup,
        }),
{
    let w = 1 + WARMUP_FRAMES;
    let set_up = events.take(1);
    let warm = events.subrange(1, w as int);
    let measured = events.skip(w as int);
    assert(events =~= set_up + (warm + measured));
    lemma_run_split(m, set_up, warm + measured);
    let m1 = run(m, set_up);
    lemma_run_one(m, set_up);
    assert(set_up[0] == events[0]);
    lemma_run_split(m1, warm, measured);
    lemma_warmup(m1, warm);
    let m2 = run(m1, warm);
    let last = measured.skip(MEASURE_FRAMES - 1);
    let most = measured.take(MEASURE_FRAMES - 1);
    assert(measured =~= most + last);
    lemma_run_split(m2, most, last);
    lemma_measure_part(m2, most);
    let m3 = run(m2, most);
    assert(m2.frame_times + samples(most) =~= samples(most));
    lemma_run_one(m3, last);
    lemma_samples_one(last);
    lemma_samples_split(most, last);
    assert(m3.recorded(last[0]) =~= samples(most) + samples(last));
}

/// The driver reports a scenario exactly at the last frame of its cycle: the
/// frame before is a measuring frame at the last count, for the same
/// scenario, and the frame times recorded by that last frame are all the
/// ones handed over while measuring.
pub proof fn lemma_report_ends_cycle(m: BenchModel, events: Seq<Option<u128>>)
    requires
        m.wf(),
        m.phase is Setup,
        m.current < m.scenarios.len(),
        events.len() == cycle_frames(),
    ensures
        ({
            let before = run(m, events.take(cycle_frames() - 1));
            &&& before.phase is Measure
            &&& before.frame_count + 1 == MEASURE_FRAMES
            &&& before.current == m.current
            &&& before.scenarios == m.scenarios
            &&& before.recorded(events.last()) == samples(events.skip(1 + WARMUP_FRAMES))
        }),
{
    let w = 1 + WARMUP_FRAMES;
    let prefix = events.take(cycle_frames() - 1);
    let set_up = events.take(1);
    let warm = events.subrange(1, w as int);
    let most = events.subrange(w as int, cycle_frames() - 1);
    assert(prefix =~= set_up + (warm + most));
    lemma_run_split(m, set_up, warm + most);
    let m1 = run(m, set_up);
    lemma_run_one(m, set_up);
    assert(set_up[0] == events[0]);
    lemma_run_split(m1, warm, most);
    lemma_warmup(m1, warm);
    let m2 = run(m1, warm);
    lemma_measure_part(m2, most);
    assert(m2.frame_times + samples(most) =~= samples(most));
    let last = events.skip(cycle_frames() - 1);
    assert(events.skip(w as int) =~= most + last);
    lemma_samples_split(most, last);
    lemma_samples_one(last);
    assert(last[0] == events.last());
    let before = run(m2, most);
    assert(before.recorded(events.last()) =~= samples(most) + samples(last));
}

/// From setting up scenario `current`, the frames of one cycle per remaining
/// scenario and one more leave the driver done, every scenario run.
pub proof fn lemma_runs_every_scenario(m: BenchModel, events: Seq<Option<u128>>)
    requires
        m.wf(),
        m.phase is Setup,
        events.len() == (m.scenarios.len() - m.current) * cycle_frames() + 1,
    ensures
        run(m, events).phase is Done,
        run(m, events).current == m.scenarios.len(),
        run(m, events).scenarios == m.scenarios,
    decreases m.scenarios.len() - m.current,
{
    let left = m.scenarios.len() - m.current;
    if left == 0 {
        assert(left * cycle_frames() == 0) by (nonlinear_arith)
            requires
                left == 0,
        ;
        lemma_run_one(m, events);
    } else {
        assert(events.len() == cycle_frames() + (left - 1) * cycle_frames() + 1) by (
        nonlinear_arith)
            requires
                events.len() == left * cycle_frames() + 1,
                left >= 1,
        ;
        let first = events.take(cycle_frames() as int);
        let rest = events.skip(cycle_frames() as int);
        assert(events =~= first + rest);
        lemma_run_split(m, first, rest);
        lemma_scenario_cycle(m, first);
        lemma_runs_every_scenario(run(m, first), rest);
    }
}

/// The driver as it starts, about to set up the first of `scenarios`.
pub open spec fn fresh(scenarios: Seq<BenchScenario>) -> BenchModel {
    BenchModel {
        scenarios,
        current: 0,
        frame_count: 0,
        frame_times: Seq::empty(),
        phase: BenchPhase::Setup,
    }
}

/// What holds of every state a fresh driver reaches: it is well formed, and
/// it is done only once every scenario has run.
pub open spec fn reachable(m: BenchModel) -> bool {
    &&& m.wf()
    &&& m.phase is Done ==> m.current == m.scenarios.len()
}

/// The phase moves only from set-up to warm-up or done, from warm-up to
/// measuring, from measuring back to set-up, and stays otherwise.
pub open spec fn allowed_move(from: BenchPhase, to: BenchPhase) -> bool {
    ||| from == to
    ||| from is Setup && (to is Warmup || to is Done)
    ||| from is Warmup && to is Measure
    ||| from is Measure && to is Setup
}

/// The frame taken in state `m` reports a scenario.
pub open spec fn reports_now(m: BenchModel) -> bool {
    m.phase is Measure && m.frame_count + 1 >= MEASURE_FRAMES
}

/// The number of frames of a run that report a scenario.
pub open spec fn reports_in(m: BenchModel, events: Seq<Option<u128>>) -> nat
    decreases events.len(),
{
    if events.len() == 0 {
        0
    } else {
        (if reports_now(m) { 1nat } else { 0nat }) + reports_in(m.next(events[0]), events.drop_first())
    }
}

/// One frame keeps the invariant and the scenarios, moves the phase only
/// along the allowed moves, and advances the scenario position exactly when
/// it reports.
pub proof fn lemma_frame_keeps_invariant(m: BenchModel, e: Option<u128>)
    requires
        reachable(m),
    ensures
        reachable(m.next(e)),
        m.next(e).scenarios == m.scenarios,
        allowed_move(m.phase, m.next(e).phase),
        m.next(e).current == m.current + (if reports_now(m) { 1nat } else { 0nat }),
{
}

/// Every state a run reaches from a reachable state is reachable, over the
/// same scenarios, and its scenario position has advanced by the number of
/// reports in the run.
pub proof fn lemma_run_keeps_invariant(m: BenchModel, events: Seq<Option<u128>>)
    requires
        reachable(m),
    ensures
        reachable(run(m, events)),
        run(m, events).scenarios == m.scenarios,
        run(m, events).current == m.current + reports_in(m, events),
    decreases events.len(),
{
    if events.len() > 0 {
        lemma_frame_keeps_invariant(m, events[0]);
        lemma_run_keeps_invariant(m.next(events[0]), events.drop_first());
    }
}

/// From a fresh driver, every state reached is well formed, over the same
/// scenarios, done only with every scenario run, and has run exactly as many
/// scenarios as it has reported. Since a report is always of the scenario at
/// the current position, the scenarios are reported in order, each once.
pub proof fn lemma_fresh_run_invariant(scenarios: Seq<BenchScenario>, events: Seq<Option<u128>>)
    ensures
        reachable(run(fresh(scenarios), events)),
        run(fresh(scenarios), events).scenarios == scenarios,
        run(fresh(scenarios), events).current == reports_in(fresh(scenarios), events),
        run(fresh(scenarios), events).current <= scenarios.len(),
{
    lemma_run_keeps_invariant(fresh(scenarios), events);
}

/// Warming up for fewer frames than remain keeps warming up.
proof fn lemma_warmup_part(m: BenchModel, events: Seq<Option<u128>>)
    requires
        m.wf(),
        m.phase is Warmup,
        m.frame_count + events.len() < WARMUP_FRAMES,
    ensures
        run(m, events) == (BenchModel { frame_count: m.frame_count + events.len(), ..m }),
    decreases events.len(),
{
    if events.len() > 0 {
        lemma_warmup_part(m.next(events[0]), events.drop_first());
    }
}

/// Inside the cycle of a scenario, before its last frame has been taken,
/// the driver is not done and still runs that scenario.
proof fn lemma_within_cycle(m: BenchModel, events: Seq<Option<u128>>)
    requires
        m.wf(),
        m.phase is Setup,
        m.current < m.scenarios.len(),
        events.len() < cycle_frames(),
    ensures
        !(run(m, events).phase is Done),
        run(m, events).current == m.current,
{
    if events.len() > 0 {
        let w = 1 + WARMUP_FRAMES;
        let set_up = events.take(1);
        let rest = events.skip(1);
        assert(events =~= set_up + rest);
        lemma_run_split(m, set_up, rest);
        lemma_run_one(m, set_up);
        assert(set_up[0] == events[0]);
        let m1 = run(m, set_up);
        if rest.len() < WARMUP_FRAMES {
            lemma_warmup_part(m1, rest);
        } else {
            let warm = rest.take(WARMUP_FRAMES as int);
            let most = rest.skip(WARMUP_FRAMES as int);
            assert(rest =~= warm + most);
            lemma_run_split(m1, warm, most);
            lemma_warmup(m1, warm);
            lemma_measure_part(run(m1, warm), most);
        }
    }
}

/// From setting up scenario `current`, the driver is not done before one
/// cycle of frames per remaining scenario has been taken, nor right then.
proof fn lemma_not_done_early(m: BenchModel, events: Seq<Option<u128>>)
    requires
        m.wf(),
        m.phase is Setup,
        events.len() <= (m.scenarios.len() - m.current) * cycle_frames(),
    ensures
        !(run(m, events).phase is Done),
    decreases m.scenarios.len() - m.current,
{
    let left = m.scenarios.len() - m.current;
    if left == 0 {
        assert(left * cycle_frames() == 0) by (nonlinear_arith)
            requires
                left == 0,
        ;
    } else if events.len() < cycle_frames() {
        lemma_within_cycle(m, events);
    } else {
        assert(events.len() - cycle_frames() <= (left - 1) * cycle_frames()) by (nonlinear_arith)
            requires
                events.len() <= left * cycle_frames(),
                left >= 1,
        ;
        let first = events.take(cycle_frames() as int);
        let rest = events.skip(cycle_frames() as int);
        assert(events =~= first + rest);
        lemma_run_split(m, first, rest);
        lemma_scenario_cycle(m, first);
        lemma_not_done_early(run(m, first), rest);
    }
}

/// A fresh driver over `scenarios`, one frame at a time, first becomes done
/// after one cycle of frames per scenario and one frame more, with every
/// scenario run; the frame after that answers with leaving the application.
pub proof fn lemma_fresh_driver_done_first(
    scenarios: Seq<BenchScenario>,
    events: Seq<Option<u128>>,
    e: Option<u128>,
    a: BenchAction,
)
    requires
        events.len() == scenarios.len() * cycle_frames() + 1,
    ensures
        run(fresh(scenarios), events).phase is Done,
        run(fresh(scenarios), events).current == scenarios.len(),
        reports_in(fresh(scenarios), events) == scenarios.len(),
        forall|k: int| 0 <= k < events.len() ==> !(#[trigger] run(fresh(scenarios), events.take(k)).phase is Done),
        run(fresh(scenarios), events).answers(e, a) ==> a is Exit,
{
    lemma_runs_every_scenario(fresh(scenarios), events);
    lemma_fresh_run_invariant(scenarios, events);
    assert forall|k: int| 0 <= k < events.len() implies !(#[trigger] run(
        fresh(scenarios),
        events.take(k),
    ).phase is Done) by {
        lemma_not_done_early(fresh(scenarios), events.take(k));
    }
}

/// Reports arrive in order: a frame of a fresh driver's run that reports
/// answers with the scenario whose position is the number of reports before
/// it.
pub proof fn lemma_reports_in_order(
    scenarios: Seq<BenchScenario>,
    events: Seq<Option<u128>>,
    e: Option<u128>,
    a: BenchAction,
)
    requires
        reports_now(run(fresh(scenarios), events)),
        run(fresh(scenarios), events).answers(e, a),
    ensures
        reports_in(fresh(scenarios), events) < scenarios.len(),
        a matches BenchAction::Report { scenario, .. } && scenario
            == scenarios[reports_in(fresh(scenarios), events) as int],
{
    lemma_fresh_run_invariant(scenarios, events);
}

/// The frames of a run meet the driver's precondition: the host hands over
/// a frame time in every measured frame.
pub open spec fn stamped_run(m: BenchModel, events: Seq<Option<u128>>) -> bool
    decreases events.len(),
{
    events.len() == 0 || (m.stamped(events[0]) && stamped_run(m.next(events[0]), events.drop_first()))
}

/// A frame meeting the driver's precondition keeps the frame times counted.
pub proof fn lemma_frame_keeps_counted(m: BenchModel, e: Option<u128>)
    requires
        reachable(m),
        m.counted(),
        m.stamped(e),
    ensures
        m.next(e).counted(),
        reports_now(m) ==> m.recorded(e).len() == MEASURE_FRAMES,
{
}

/// Along a run meeting the driver's precondition from a reachable state
/// whose frame times are counted, they stay counted.
pub proof fn lemma_run_keeps_counted(m: BenchModel, events: Seq<Option<u128>>)
    requires
        reachable(m),
        m.counted(),
        stamped_run(m, events),
    ensures
        run(m, events).counted(),
    decreases events.len(),
{
    if events.len() > 0 {
        lemma_frame_keeps_counted(m, events[0]);
        lemma_frame_keeps_invariant(m, events[0]);
        lemma_run_keeps_counted(m.next(events[0]), events.drop_first());
    }
}

/// From a fresh driver, every report summarizes exactly the measured frame
/// count of frame times: whatever run of frames the driver accepts, the
/// frame that reports has recorded one frame time per measured frame.
pub proof fn lemma_reports_carry_every_measured_frame(
    scenarios: Seq<BenchScenario>,
    events: Seq<Option<u128>>,
    e: Option<u128>,
    a: BenchAction,
)
    requires
        stamped_run(fresh(scenarios), events),
        reports_now(run(fresh(scenarios), events)),
        run(fresh(scenarios), events).stamped(e),
        run(fresh(scenarios), events).answers(e, a),
    ensures
        run(fresh(scenarios), events).recorded(e).len() == MEASURE_FRAMES,
        a matches BenchAction::Report { summary, .. } && summary.sorted.len() == MEASURE_FRAMES,
{
    lemma_fresh_run_invariant(scenarios, events);
    lemma_run_keeps_counted(fresh(scenarios), events);
    lemma_frame_keeps_counted(run(fresh(scenarios), events), e);
    let m = run(fresh(scenarios), events);
    broadcast use vstd::seq_lib::group_to_multiset_ensures;

    if let BenchAction::Report { summary, .. } = a {
        assert(summary.sorted@.to_multiset().len() == m.recorded(e).to_multiset().len());
    }
}

/// The frame taken in state `m` sets a scenario up.
pub open spec fn spawns_now(m: BenchModel) -> bool {
    m.phase is Setup && m.current < m.scenarios.len()
}

/// One while a scenario is set up and not yet reported, zero otherwise.
pub open spec fn in_flight(m: BenchModel) -> nat {
    if m.phase is Warmup || m.phase is Measure {
        1
    } else {
        0
    }
}

/// The number of frames of a run that set a scenario up.
pub open spec fn spawns_in(m: BenchModel, events: Seq<Option<u128>>) -> nat
    decreases events.len(),
{
    if events.len() == 0 {
        0
    } else {
        (if spawns_now(m) { 1nat } else { 0nat }) + spawns_in(m.next(events[0]), events.drop_first())
    }
}

/// A frame sets a scenario up exactly when the count of scenarios reported
/// or under way grows, and then by one.
proof fn lemma_frame_spawn_count(m: BenchModel, e: Option<u128>)
    requires
        reachable(m),
    ensures
        m.next(e).current + in_flight(m.next(e)) == m.current + in_flight(m) + (if spawns_now(m) {
            1nat
        } else {
            0nat
        }),
{
}

/// Over a run, the scenarios reported or under way grow by the number of
/// set-ups.
proof fn lemma_run_spawn_count(m: BenchModel, events: Seq<Option<u128>>)
    requires
        reachable(m),
    ensures
        run(m, events).current + in_flight(run(m, events)) == m.current + in_flight(m) + spawns_in(
            m,
            events,
        ),
    decreases events.len(),
{
    if events.len() > 0 {
        lemma_frame_spawn_count(m, events[0]);
        lemma_frame_keeps_invariant(m, events[0]);
        lemma_run_spawn_count(m.next(events[0]), events.drop_first());
    }
}

/// Set-ups arrive in order: a frame of a fresh driver's run that sets a
/// scenario up spawns the scenario whose position is the number of set-ups
/// before it, so each scenario is spawned once, first to last.
pub proof fn lemma_spawns_in_order(
    scenarios: Seq<BenchScenario>,
    events: Seq<Option<u128>>,
    e: Option<u128>,
    a: BenchAction,
)
    requires
        run(fresh(scenarios), events).answers(e, a),
        a is Spawn,
    ensures
        spawns_in(fresh(scenarios), events) < scenarios.len(),
        a == BenchAction::Spawn(scenarios[spawns_in(fresh(scenarios), events) as int]),
{
    lemma_fresh_run_invariant(scenarios, events);
    lemma_run_spawn_count(fresh(scenarios), events);
}

/// The scenario a set-up frame spawns is the one the same cycle reports: if
/// a frame answers with spawning `s`, the frame that ends its cycle, one
/// cycle of frames later, reports `s`.
pub proof fn lemma_spawn_is_reported(
    m: BenchModel,
    events: Seq<Option<u128>>,
    spawn: BenchAction,
    report: BenchAction,
)
    requires
        reachable(m),
        events.len() == cycle_frames(),
        m.answers(events[0], spawn),
        spawn is Spawn,
        run(m, events.take(cycle_frames() - 1)).answers(events.last(), report),
    ensures
        report matches BenchAction::Report { scenario, .. } && spawn == BenchAction::Spawn(scenario),
{
    lemma_report_ends_cycle(m, events);
}

/// The frame times among `events` are as many as the frames when the host
/// handed one over in every frame.
pub proof fn lemma_samples_every_frame(events: Seq<Option<u128>>)
    requires
        forall|i: int| 0 <= i < events.len() ==> #[trigger] events[i] is Some,
    ensures
        samples(events).len() == events.len(),
    decreases events.len(),
{
    if events.len() > 0 {
        assert forall|i: int| 0 <= i < events.drop_first().len() implies #[trigger] events.drop_first()[i] is Some by {
            assert(events.drop_first()[i] == events[i + 1]);
        }
        lemma_samples_every_frame(events.drop_first());
    }
}

/// When the host hands over a frame time in every measured frame of a
/// scenario, the report that ends the cycle summarizes exactly the measured
/// frame count of frame times.
pub proof fn lemma_report_has_every_measured_frame(m: BenchModel, events: Seq<Option<u128>>)
    requires
        m.wf(),
        m.phase is Setup,
        m.current < m.scenarios.len(),
        events.len() == cycle_frames(),
        forall|i: int| 1 + WARMUP_FRAMES <= i < cycle_frames() ==> #[trigger] events[i] is Some,
    ensures
        ({
            let before = run(m, events.take(cycle_frames() - 1));
            &&& reports_now(before)
            &&& before.recorded(events.last()).len() == MEASURE_FRAMES
        }),
{
    lemma_report_ends_cycle(m, events);
    let measured = events.skip(1 + WARMUP_FRAMES);
    assert forall|i: int| 0 <= i < measured.len() implies #[trigger] measured[i] is Some by {
        assert(measured[i] == events[i + 1 + WARMUP_FRAMES]);
    }
    lemma_samples_every_frame(measured);
}

} // verus!
