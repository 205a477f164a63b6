# ll

Structured task-tree instrumentation. Code is wrapped into hierarchical
tasks; each task carries data and tags and emits start, progress and end
events, which reporters turn into log lines, an in-memory transcript, a
live terminal status tree, Chrome trace files or JavaScript console
messages.

## Layout

- `src/` — the library, verified with Verus:
  - `task_tree.rs`: the tree of tasks, its invariant, task creation,
    completion and the removal of finished subtrees, event queues.
  - `data.rs`, `tags.rs`, `level.rs`: task data, `#tag` parsing, levels.
  - `text.rs`, `style.rs`, `reporters.rs`, `stdio.rs`: log lines and the
    stdio, string and console reporters.
  - `term_status.rs`, `ids.rs`: rows, frames and the log buffer of the live
    status display.
  - `trace.rs`: trace records and the trace file's header and footer.
  - `spawn.rs`: what ends a spawned task, with error context.
  - `task_attr.rs`: the options and checks of the `#[task]` attribute.
- `app/` — the process around it: the shared global tree and task handles,
  reporter threads, the terminal render loop, trace writers, the console
  timer, the `#[task]` token expansion and a demonstration pipeline.
- `tests/` — tests of the library.
