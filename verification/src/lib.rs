//! Structured task-tree instrumentation: tasks form a tree, carry data and
//! tags, and emit start/end/progress events that reporters turn into text,
//! live status frames or trace records.

pub mod strs;
pub mod sorted;
pub mod tags;
pub mod data;
pub mod time;
pub mod level;
pub mod ids;
pub mod task_tree;
pub mod style;
pub mod text;
pub mod reporters;
pub mod term_status;
pub mod trace;
pub mod task_attr;
pub mod spawn;
pub mod stdio;
