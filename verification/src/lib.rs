//! File telemetry and enforcement.
//!
//! Probes in the kernel watch file creation, writes and deletion. An operation
//! under one of the monitored directories is reported to user space in a
//! record; one under the protected directory terminates its process as well.
//!
//! The library holds everything that is decided or computed on both sides, and
//! none of the calls into the kernel: a [`probe::Probe`] names the next
//! [`kernel::Action`], and whoever runs it performs the action and hands back
//! the reply. [`runs`] states and proves what the probes come to as a whole, and
//! [`laws`] what all of it is for, in plain bytes and numbers.

pub mod bytes;
pub mod cstr;
pub mod dirs;
pub mod display;
pub mod event;
pub mod file_op;
pub mod kernel;
pub mod laws;
pub mod matching;
pub mod probe;
pub mod runs;
pub mod task;
pub mod walk;

pub use cstr::{cstr, cstr_bytes, cstr_len};
pub use dirs::{is_enforced, is_monitored, is_under, ENFORCED_DIR, MONITORED_DIRS};
pub use display::{display_item, format_event};
pub use event::{Event, PATH_BUF_SIZE};
pub use file_op::FileOp;
pub use kernel::{Action, RESERVED_SIZE};
pub use probe::{graph_unlink, graph_write, openat2_create, openat_create, Probe};
