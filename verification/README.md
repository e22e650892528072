# splat_settings

Verified settings and decision logic for rendering gaussian splat clouds, and
the driver of their rendering benchmark.

- `src/modes.rs`: the draw, gaussian, playback, rasterize and color-space modes
  with their defaults.
- `src/settings.rs`: the discrete cloud settings and their defaults.
- `src/playback.rs`: the step a playback update takes in each mode, with its laws.
- `src/stats.rs`: sorting measured frame times and locating their median and
  95th percentile.
- `src/bench.rs`: the benchmark's scenario matrix and its frame-by-frame
  driver, modelled as a state machine, with laws over whole runs of frames.
- `app/`: the Bevy component and systems that carry the real-valued
  parameters, and the host loop of the benchmark.
