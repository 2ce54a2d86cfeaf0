# tiny_exp_scheduler

A minimal `tmux` scheduler for one-line experiment commands on selected CUDA
GPUs and CPU core slots, with its decisions verified by Verus.

The command file holds one job per line. Each job runs in its own `tmux`
window, holds one GPU (`CUDA_VISIBLE_DEVICES`) and, where the run has them,
one CPU core slot (`taskset`), and writes a log and an exit-code file. The
pools of GPUs and slots are fixed at startup.

## Layout

- `src/` — the verified library.
  - `cli.rs`: the command line and its options.
  - `input.rs`: the command file and what `tmux` prints.
  - `gpu.rs`: `nvidia-smi` output, the idle rule, and which GPUs a run uses.
  - `cpu.rs`: splitting a core pool into fixed-size slots.
  - `namespace.rs`: the names of the scheduler window and of the job windows.
  - `script.rs`: shell quoting and the bash script of a job.
  - `job.rs`: jobs, their states, and exit codes.
  - `scheduler.rs`: the scheduler state, its invariant, and one round of
    decisions (schedule, launch, finish).
  - `run.rs`: startup decisions and reports.
  - `format.rs`, `text.rs`, `sorted.rs`, `error.rs`: shared pieces.
- `app/` — the program: process I/O with `tmux`, `nvidia-smi` and files, and
  the polling loop that feeds the library's decisions.
- `tests/` — tests of the library.

## Main properties proved

- Parsing of options, core lists and device lists is exact; core and device
  lists come out strictly increasing.
- `shell_quote` output is read back by the shell as the original string.
- Core slots partition a prefix of the pool into disjoint fixed-size slots.
- A run's GPUs were all reported idle; `auto` takes every idle GPU; an
  explicit list is used as given or refused.
- The scheduler invariant holds across creating the scheduler and across the
  scheduling, launching and ending operations: no GPU or slot is held by two
  jobs, only Scheduled and Running jobs hold them, and they come from the fixed
  pools; a round schedules exactly the first Pending jobs that the free GPUs and
  slots allow, in input order, and gives them the free GPUs and slots in order;
  ending jobs frees exactly their entries; job states only move forward.
