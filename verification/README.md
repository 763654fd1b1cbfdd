# zot_cell

A digital immune system whose integer core is verified with Verus.

`src/` is the verified library:

- `rng`: the linear congruential streams (seed stream, receptor draws,
  mutation stream, CPU-stress spin).
- `cascade`: the kinetic proofreading cascade of a receptor, with its laws
  (sustained signal fires, firing needs sustained signal, three gaps or a
  quiet signal start it over, one cycle from rest never fires), and its
  reactivity to the self history.
- `genome`: the discrete genome (sensor pair, windows, cascade depths),
  drawn for fresh receptors and mutated by evolution.
- `tally`: fires, right fires, age and memory of a receptor.
- `receptor`: genome, cascade and tally kept consistent.
- `organism`: calibration percentiles, thymic test windows, negative
  selection (self-reactive candidates are killed), the cull (memory cells
  are kept), rolling history, population cap and evolution quota, threat
  schedule.
- `probe`: the pointer chase, page touching and cache thrash workloads.

`app/main.rs` runs the experiment: timing probes, threads, the
floating-point signal processing, confidence and voting.
