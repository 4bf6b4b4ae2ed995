# proxy-demo

`proxy-demo` is a Linux userspace scheduler benchmark that simulates locking
priority inversion. A periodic foreground thread and a background thread contend
for the kernel's file-position mutex, while a CPU worker thread competes with
them for CPU time.

- `src/` is the verified library: options and their validation, the frame loop
  and its deadlines, the reporter, the dashboard's state, statistics, histograms,
  reports, and CSV files. Contracts state what its functions do, and Verus proves
  them; nothing is claimed of what the clock reads. Means, percentages and rates are computed with integers that
  round the way double-precision hardware does, in `double.rs`.
- `app/` is the program around it: threads, files, the window, and printing.
- `tests/` runs the library on concrete values.

Calls into `clap` and `nix` stand in `options.rs`, `timing.rs` and `affinity.rs`,
behind functions whose doc comments say what is taken on trust; sorting in
`stats.rs` is the standard library's.
