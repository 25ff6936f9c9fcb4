//! What a record says of the process: its parent, and the dentry of its
//! binary.

use vstd::prelude::*;

use crate::kernel::field_at;
use crate::kernel::{field_addr, Action, Kernel};

verus! {

/// Where a task points to its memory descriptor.
pub const TASK_MM_OFF: u64 = 0x900;

/// Where a task points to its parent.
pub const TASK_REAL_PARENT_OFF: u64 = 0x990;

/// Where a task holds its thread group ID.
pub const TASK_TGID_OFF: u64 = 0x984;

/// Where a memory descriptor points to the file of the binary.
pub const MM_EXE_FILE_OFF: u64 = 0x488;

/// Where a file holds its path (a `struct path`, not a pointer to one).
pub const FILE_F_PATH_OFF: u64 = 0x40;

/// Where a `struct path` points to its dentry.
pub const PATH_DENTRY_OFF: u64 = 0x08;

/// What the search for the parent's process ID waits for.
#[derive(Debug, Clone, Copy, PartialEq, Eq)]
pub enum PpidLookup {
    /// The current task.
    Task,
    /// The parent of `task`.
    Parent { task: u64 },
    /// The thread group ID of `parent`.
    Tgid { parent: u64 },
    /// Nothing: this is it, or 0 if it cannot be read.
    Done { ppid: u32 },
}

impl PpidLookup {
    /// What the search wants done next.
    pub open spec fn wants(self) -> Action {
        match self {
            PpidLookup::Task => Action::CurrentTask,
            PpidLookup::Parent { task } => Action::ReadPtr {
                addr: field_addr(task, TASK_REAL_PARENT_OFF),
            },
            PpidLookup::Tgid { parent } => Action::ReadU32 {
                addr: field_addr(parent, TASK_TGID_OFF),
            },
            PpidLookup::Done { .. } => Action::Leave,
        }
    }

    /// The search once `reply` has come.
    pub open spec fn after(self, reply: Option<u64>) -> PpidLookup {
        match (self, reply) {
            (PpidLookup::Done { .. }, _) => self,
            (_, None) => PpidLookup::Done { ppid: 0 },
            (PpidLookup::Task, Some(task)) => PpidLookup::Parent { task },
            (PpidLookup::Parent { .. }, Some(parent)) => PpidLookup::Tgid { parent },
            (PpidLookup::Tgid { .. }, Some(tgid)) => PpidLookup::Done { ppid: tgid as u32 },
        }
    }

    /// More than the number of replies that the search can still take.
    pub open spec fn rank(self) -> nat {
        match self {
            PpidLookup::Task => 3,
            PpidLookup::Parent { .. } => 2,
            PpidLookup::Tgid { .. } => 1,
            PpidLookup::Done { .. } => 0,
        }
    }

    /// What the search wants done next; [`Action::Leave`] once it is over.
    pub fn action(&self) -> (action: Action)
        ensures
            action == self.wants(),
    {
        match *self {
            PpidLookup::Task => Action::CurrentTask,
            PpidLookup::Parent { task } => Action::ReadPtr {
                addr: field_at(task, TASK_REAL_PARENT_OFF),
            },
            PpidLookup::Tgid { parent } => Action::ReadU32 {
                addr: field_at(parent, TASK_TGID_OFF),
            },
            PpidLookup::Done { .. } => Action::Leave,
        }
    }

    /// Takes the reply to the action that the search wanted.
    pub fn step(&self, reply: Option<u64>) -> (next: PpidLookup)
        ensures
            next == self.after(reply),
            !(self is Done) ==> next.rank() < self.rank(),
    {
        match (*self, reply) {
            (PpidLookup::Done { .. }, _) => *self,
            (_, None) => PpidLookup::Done { ppid: 0 },
            (PpidLookup::Task, Some(task)) => PpidLookup::Parent { task },
            (PpidLookup::Parent { .. }, Some(parent)) => PpidLookup::Tgid { parent },
            (PpidLookup::Tgid { .. }, Some(tgid)) => PpidLookup::Done { ppid: tgid as u32 },
        }
    }
}

/// Starts the search for the process ID of the current process's parent.
pub fn current_ppid() -> (lookup: PpidLookup)
    ensures
        lookup == PpidLookup::Task,
{
    PpidLookup::Task
}

/// What the search for the binary's dentry waits for.
#[derive(Debug, Clone, Copy, PartialEq, Eq)]
pub enum ExeLookup {
    /// The current task.
    Task,
    /// The memory descriptor of `task`.
    Mm { task: u64 },
    /// The binary's file in the memory descriptor `mm`.
    File { mm: u64 },
    /// The dentry of `file`.
    Dentry { file: u64 },
    /// Nothing: this is it, or null if it cannot be read.
    Done { dentry: u64 },
}

impl ExeLookup {
    /// What the search wants done next.
    pub open spec fn wants(self) -> Action {
        match self {
            ExeLookup::Task => Action::CurrentTask,
            ExeLookup::Mm { task } => Action::ReadPtr { addr: field_addr(task, TASK_MM_OFF) },
            ExeLookup::File { mm } => Action::ReadPtr { addr: field_addr(mm, MM_EXE_FILE_OFF) },
            ExeLookup::Dentry { file } => Action::ReadPtr {
                addr: field_addr(field_addr(file, FILE_F_PATH_OFF), PATH_DENTRY_OFF),
            },
            ExeLookup::Done { .. } => Action::Leave,
        }
    }

    /// The search once `reply` has come.
    pub open spec fn after(self, reply: Option<u64>) -> ExeLookup {
        match (self, reply) {
            (ExeLookup::Done { .. }, _) => self,
            (_, None) => ExeLookup::Done { dentry: 0 },
            (ExeLookup::Task, Some(task)) => ExeLookup::Mm { task },
            (ExeLookup::Mm { .. }, Some(mm)) => ExeLookup::File { mm },
            (ExeLookup::File { .. }, Some(file)) => ExeLookup::Dentry { file },
            (ExeLookup::Dentry { .. }, Some(dentry)) => ExeLookup::Done { dentry },
        }
    }

    /// More than the number of replies that the search can still take.
    pub open spec fn rank(self) -> nat {
        match self {
            ExeLookup::Task => 4,
            ExeLookup::Mm { .. } => 3,
            ExeLookup::File { .. } => 2,
            ExeLookup::Dentry { .. } => 1,
            ExeLookup::Done { .. } => 0,
        }
    }

    /// What the search wants done next; [`Action::Leave`] once it is over.
    pub fn action(&self) -> (action: Action)
        ensures
            action == self.wants(),
    {
        match *self {
            ExeLookup::Task => Action::CurrentTask,
            ExeLookup::Mm { task } => Action::ReadPtr { addr: field_at(task, TASK_MM_OFF) },
            ExeLookup::File { mm } => Action::ReadPtr { addr: field_at(mm, MM_EXE_FILE_OFF) },
            ExeLookup::Dentry { file } => Action::ReadPtr {
                addr: field_at(field_at(file, FILE_F_PATH_OFF), PATH_DENTRY_OFF),
            },
            ExeLookup::Done { .. } => Action::Leave,
        }
    }

    /// Takes the reply to the action that the search wanted.
    pub fn step(&self, reply: Option<u64>) -> (next: ExeLookup)
        ensures
            next == self.after(reply),
            !(self is Done) ==> next.rank() < self.rank(),
    {
        match (*self, reply) {
            (ExeLookup::Done { .. }, _) => *self,
            (_, None) => ExeLookup::Done { dentry: 0 },
            (ExeLookup::Task, Some(task)) => ExeLookup::Mm { task },
            (ExeLookup::Mm { .. }, Some(mm)) => ExeLookup::File { mm },
            (ExeLookup::File { .. }, Some(file)) => ExeLookup::Dentry { file },
            (ExeLookup::Dentry { .. }, Some(dentry)) => ExeLookup::Done { dentry },
        }
    }
}

/// Starts the search for the dentry of the current process's binary.
pub fn current_exe_dentry() -> (lookup: ExeLookup)
    ensures
        lookup == ExeLookup::Task,
{
    ExeLookup::Task
}

impl Kernel {
    /// The dentry of the file at `file`.
    pub open spec fn file_dentry(self, file: u64) -> Option<u64> {
        self.ptr(field_addr(file, FILE_F_PATH_OFF), PATH_DENTRY_OFF)
    }

    /// The process ID of the current process's parent, or 0.
    pub open spec fn ppid(self) -> u32 {
        match self.ptr(self.task, TASK_REAL_PARENT_OFF) {
            Some(parent) => match self.read_number(field_addr(parent, TASK_TGID_OFF), 4) {
                Some(tgid) => tgid as u32,
                None => 0,
            },
            None => 0,
        }
    }

    /// The dentry of the current process's binary, or null.
    pub open spec fn exe_dentry(self) -> u64 {
        match self.ptr(self.task, TASK_MM_OFF) {
            Some(mm) => match self.ptr(mm, MM_EXE_FILE_OFF) {
                Some(file) => match self.file_dentry(file) {
                    Some(dentry) => dentry,
                    None => 0,
                },
                None => 0,
            },
            None => 0,
        }
    }

    /// The search after this kernel has answered all that it wants.
    pub open spec fn run_ppid(self, lookup: PpidLookup) -> PpidLookup
        decreases lookup.rank(),
    {
        if lookup is Done {
            lookup
        } else {
            self.run_ppid(lookup.after(self.answer(lookup.wants(), Seq::empty()).0))
        }
    }

    /// The search after this kernel has answered all that it wants.
    pub open spec fn run_exe(self, lookup: ExeLookup) -> ExeLookup
        decreases lookup.rank(),
    {
        if lookup is Done {
            lookup
        } else {
            self.run_exe(lookup.after(self.answer(lookup.wants(), Seq::empty()).0))
        }
    }
}

/// The search for the parent finds it.
pub proof fn law_ppid_is_found(k: Kernel)
    ensures
        k.run_ppid(PpidLookup::Task) == (PpidLookup::Done { ppid: k.ppid() }),
{
    reveal_with_fuel(Kernel::run_ppid, 4);
}

/// The search for the binary's dentry finds it.
pub proof fn law_exe_dentry_is_found(k: Kernel)
    ensures
        k.run_exe(ExeLookup::Task) == (ExeLookup::Done { dentry: k.exe_dentry() }),
{
    reveal_with_fuel(Kernel::run_exe, 5);
}

} // verus!
