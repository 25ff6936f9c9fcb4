//! The probes: from a file operation to a submitted record, and to the
//! termination of the process that touches the protected directory.

use vstd::prelude::*;
use vstd::slice::slice_subrange;

use crate::cstr::{cstr_end, cstr_text};
use crate::event::write_header;
use crate::event::{file_area, with_header, Event, EXE_OFF, FILE_OFF, PATH_BUF_SIZE};
use crate::file_op::FileOp;
use crate::kernel::field_at;
use crate::kernel::{field_addr, Action};
use crate::matching::{enforced_bytes, monitored_bytes};
use crate::matching::{path_is_enforced, path_len, path_matches_any};
use crate::task::{current_exe_dentry, current_ppid};
use crate::task::{ExeLookup, PpidLookup, FILE_F_PATH_OFF, PATH_DENTRY_OFF};
use crate::walk::build_path;
use crate::walk::{PathWalk, WalkStage};

verus! {

/// Where a file points to its inode.
pub const FILE_F_INODE_OFF: u64 = 0x28;

/// Where an inode holds its mode.
pub const INODE_I_MODE_OFF: u64 = 0x00;

/// The bits of a mode that tell the type of a file.
pub const S_IFMT: u16 = 0o170000;

/// The type of a regular file.
pub const S_IFREG: u16 = 0o100000;

/// The flag of an open call that may create the file.
pub const O_CREAT: u32 = 0o100;

/// The signal that terminates a process.
pub const SIGKILL: u32 = 9;

/// The index of the `struct file *` among the arguments of `vfs_write`.
pub const WRITE_FILE_ARG: u64 = 0;

/// The index of the `struct dentry *` among the arguments of `vfs_unlink`.
pub const UNLINK_DENTRY_ARG: u64 = 2;

/// Where the data of the open tracepoints holds the address of the path.
pub const OPEN_NAME_FIELD: u64 = 24;

/// Where the data of the `openat` tracepoint holds the flags, and that of the
/// `openat2` tracepoint the address of the structure that starts with them.
pub const OPEN_FLAGS_FIELD: u64 = 32;

/// The file with this mode is a regular file.
pub open spec fn is_regular(mode: u64) -> bool {
    (mode as u16) & S_IFMT == S_IFREG
}

/// An open call with these flags may create the file.
pub open spec fn may_create(flags: u64) -> bool {
    (flags as u32) & O_CREAT != 0
}

/// The process ID in the upper half of a pair of IDs.
pub open spec fn pid_of(pid_tgid: u64) -> u32 {
    (pid_tgid / 0x1_0000_0000) as u32
}

/// Where the path at `name` in user memory goes on if its area cannot hold it:
/// a path that fits ends there at the latest.
pub open spec fn path_tail(name: u64) -> u64 {
    field_addr(name, (PATH_BUF_SIZE - 1) as u64)
}

/// What the operation that set off a probe names its file by.
#[derive(Debug, Clone, Copy, PartialEq, Eq)]
pub enum Source {
    /// A `struct file *` among the arguments.
    File,
    /// A `struct dentry *` among the arguments.
    Dentry,
    /// The path at this address in user memory.
    User { name: u64 },
}

/// What a probe gets the path of the file from.
#[derive(Debug, Clone, Copy, PartialEq, Eq)]
pub enum Target {
    Dentry { dentry: u64 },
    User { name: u64 },
}

/// What a probe waits for.
#[derive(Debug, Clone, Copy, PartialEq, Eq)]
pub enum Stage {
    /// The address of the path of an open call. `indirect` tells `openat2`,
    /// which takes its flags from user memory, from `openat`.
    OpenName { indirect: bool },
    /// The flags of an `openat` call.
    OpenFlags { name: u64 },
    /// The address of the structure that an `openat2` call takes its flags
    /// from.
    OpenHow { name: u64 },
    /// The flags at `how`.
    OpenHowFlags { name: u64, how: u64 },
    /// The IDs of the current process.
    Ids { source: Source },
    /// The observer's process ID.
    Observer { source: Source },
    /// The file among the arguments.
    FileArg,
    /// The inode of `file`.
    FileInode { file: u64 },
    /// The mode of `inode`.
    FileMode { file: u64, inode: u64 },
    /// The dentry of `file`.
    FileDentry { file: u64 },
    /// The dentry among the arguments.
    DentryArg,
    /// Room for a record. Without it the probe goes on in a scratch buffer.
    Room { target: Target },
    /// The copy of the path from user memory.
    UserPath { name: u64 },
    /// The resolution of the file's path.
    FileWalk { walk: PathWalk },
    /// The signal to the current process. `tail` is where the path goes on in
    /// user memory if it is longer than its area.
    Kill { tail: Option<u64> },
    /// The byte at `tail`, which tells whether the path ends with its area.
    PathEnd { tail: u64 },
    /// The parent's process ID.
    Parent { lookup: PpidLookup },
    /// The cgroup ID.
    Cgroup { ppid: u32 },
    /// The dentry of the binary.
    Exe { search: ExeLookup },
    /// The resolution of the binary's path.
    ExeWalk { walk: PathWalk },
    /// Nothing: the probe ended, and has no record.
    Left,
    /// Nothing: the probe ended, and its record is to be discarded.
    Discarded,
    /// Nothing: the probe ended, and its record is to be submitted.
    Submitted,
}

/// A probe under way, for one operation of one process.
#[derive(Debug, Clone, Copy, PartialEq, Eq)]
pub struct Probe {
    pub op: FileOp,
    pub pid: u32,
    /// The probe has reserved a record, and works in it. Else it works in a
    /// scratch buffer, and can enforce but not report.
    pub reserved: bool,
    pub stage: Stage,
}

impl Probe {
    /// The probe, waiting for something else.
    pub open spec fn at(self, stage: Stage) -> Probe {
        Probe { stage, ..self }
    }

    /// The probe works in a buffer: its record, or scratch.
    pub open spec fn has_buffer(self) -> bool {
        match self.stage {
            Stage::UserPath { .. }
            | Stage::FileWalk { .. }
            | Stage::Kill { .. }
            | Stage::PathEnd { .. }
            | Stage::Parent { .. }
            | Stage::Cgroup { .. }
            | Stage::Exe { .. }
            | Stage::ExeWalk { .. }
            | Stage::Discarded
            | Stage::Submitted => true,
            _ => false,
        }
    }

    /// What the probe waits for is not over yet, and stays in its part of the
    /// buffer. Until the path of the file is judged the buffer may be scratch;
    /// what comes after that is for a record alone, and a probe that simply
    /// leaves has none.
    pub open spec fn wf(self) -> bool {
        match self.stage {
            Stage::UserPath { .. } | Stage::Kill { .. } => true,
            Stage::FileWalk { walk } => {
                &&& walk.wf()
                &&& !walk.is_done()
                &&& walk.base == FILE_OFF
                &&& walk.size == PATH_BUF_SIZE
            },
            Stage::ExeWalk { walk } => {
                &&& self.reserved
                &&& walk.wf()
                &&& !walk.is_done()
                &&& walk.base == EXE_OFF
                &&& walk.size == PATH_BUF_SIZE
            },
            Stage::Parent { lookup } => self.reserved && !(lookup is Done),
            Stage::Exe { search } => self.reserved && !(search is Done),
            Stage::PathEnd { .. }
            | Stage::Cgroup { .. }
            | Stage::Discarded
            | Stage::Submitted => self.reserved,
            _ => !self.reserved,
        }
    }

    /// What the probe wants done next.
    pub open spec fn wants(self) -> Action {
        match self.stage {
            Stage::OpenName { .. } => Action::Field { offset: OPEN_NAME_FIELD },
            Stage::OpenFlags { .. } => Action::Field { offset: OPEN_FLAGS_FIELD },
            Stage::OpenHow { .. } => Action::Field { offset: OPEN_FLAGS_FIELD },
            Stage::OpenHowFlags { name, how } => Action::ReadUser { addr: how },
            Stage::Ids { .. } => Action::PidTgid,
            Stage::Observer { .. } => Action::Observer,
            Stage::FileArg => Action::Argument { index: WRITE_FILE_ARG },
            Stage::FileInode { file } => Action::ReadPtr {
                addr: field_addr(file, FILE_F_INODE_OFF),
            },
            Stage::FileMode { file, inode } => Action::ReadU16 {
                addr: field_addr(inode, INODE_I_MODE_OFF),
            },
            Stage::FileDentry { file } => Action::ReadPtr {
                addr: field_addr(field_addr(file, FILE_F_PATH_OFF), PATH_DENTRY_OFF),
            },
            Stage::DentryArg => Action::Argument { index: UNLINK_DENTRY_ARG },
            Stage::Room { .. } => Action::Reserve,
            Stage::UserPath { name } => Action::CopyUserPath { from: name },
            Stage::FileWalk { walk } => walk.wants(),
            Stage::Kill { .. } => Action::Signal { signal: SIGKILL },
            Stage::PathEnd { tail } => Action::ReadUserByte { addr: tail },
            Stage::Parent { lookup } => lookup.wants(),
            Stage::Cgroup { .. } => Action::CgroupId,
            Stage::Exe { search } => search.wants(),
            Stage::ExeWalk { walk } => walk.wants(),
            Stage::Left => Action::Leave,
            Stage::Discarded => Action::Discard,
            Stage::Submitted => Action::Submit,
        }
    }

    /// The probe once there is nothing to report: a record is given back.
    pub open spec fn dropped(self) -> Probe {
        self.at(
            if self.reserved {
                Stage::Discarded
            } else {
                Stage::Left
            },
        )
    }

    /// The probe once the path of the file stands in its area: only paths
    /// under a monitored directory are reported, and the process is terminated
    /// first if the directory is the protected one. `tail` is where the path
    /// goes on in user memory if it is longer than its area; a path that was
    /// resolved is complete.
    pub open spec fn judged(self, record: Seq<u8>, tail: Option<u64>) -> Probe {
        let path = cstr_text(file_area(record));
        if !monitored_bytes(path) {
            self.dropped()
        } else if enforced_bytes(path) {
            self.at(Stage::Kill { tail })
        } else {
            self.reported(record, tail)
        }
    }

    /// The probe once enforcement is behind it: it goes on to the rest of the
    /// record, if there is one. Where the path fills its area it may have been
    /// cut; that is looked into first.
    pub open spec fn reported(self, record: Seq<u8>, tail: Option<u64>) -> Probe {
        let len = cstr_end(file_area(record));
        if !self.reserved || len >= PATH_BUF_SIZE {
            self.dropped()
        } else {
            match tail {
                Some(tail) if len == PATH_BUF_SIZE - 1 => self.at(Stage::PathEnd { tail }),
                _ => self.at(Stage::Parent { lookup: PpidLookup::Task }),
            }
        }
    }

    /// The probe and the record once `reply` has come.
    pub open spec fn after(self, reply: Option<u64>, record: Seq<u8>) -> (Probe, Seq<u8>) {
        match self.stage {
            Stage::OpenName { indirect } => (
                self.at(
                    match reply {
                        Some(name) => if indirect {
                            Stage::OpenHow { name }
                        } else {
                            Stage::OpenFlags { name }
                        },
                        None => Stage::Left,
                    },
                ),
                record,
            ),
            Stage::OpenFlags { name } => (
                match reply {
                    Some(flags) if may_create(flags) => creating(name),
                    _ => self.at(Stage::Left),
                },
                record,
            ),
            Stage::OpenHow { name } => (
                self.at(
                    match reply {
                        Some(how) if how != 0 => Stage::OpenHowFlags { name, how },
                        _ => Stage::Left,
                    },
                ),
                record,
            ),
            Stage::OpenHowFlags { name, how } => (
                match reply {
                    Some(flags) if may_create(flags) => creating(name),
                    _ => self.at(Stage::Left),
                },
                record,
            ),
            Stage::Ids { source } => (
                match reply {
                    Some(ids) => Probe { pid: pid_of(ids), ..self.at(Stage::Observer { source }) },
                    None => self.at(Stage::Left),
                },
                record,
            ),
            Stage::Observer { source } => (
                self.at(
                    if reply == Some(self.pid as u64) {
                        Stage::Left
                    } else {
                        match source {
                            Source::File => Stage::FileArg,
                            Source::Dentry => Stage::DentryArg,
                            Source::User { name } => Stage::Room { target: Target::User { name } },
                        }
                    },
                ),
                record,
            ),
            Stage::FileArg => (
                self.at(
                    match reply {
                        Some(file) => Stage::FileInode { file },
                        None => Stage::Left,
                    },
                ),
                record,
            ),
            Stage::FileInode { file } => (
                self.at(
                    match reply {
                        Some(inode) => Stage::FileMode { file, inode },
                        None => Stage::Left,
                    },
                ),
                record,
            ),
            Stage::FileMode { file, inode } => (
                self.at(
                    match reply {
                        Some(mode) if is_regular(mode) => Stage::FileDentry { file },
                        _ => Stage::Left,
                    },
                ),
                record,
            ),
            Stage::FileDentry { .. } | Stage::DentryArg => (
                self.at(
                    match reply {
                        Some(dentry) => Stage::Room { target: Target::Dentry { dentry } },
                        None => Stage::Left,
                    },
                ),
                record,
            ),
            Stage::Room { target } => (
                Probe {
                    reserved: reply is Some,
                    ..self.at(
                        match target {
                            Target::Dentry { dentry } => Stage::FileWalk {
                                walk: PathWalk::start(dentry, FILE_OFF, PATH_BUF_SIZE),
                            },
                            Target::User { name } => Stage::UserPath { name },
                        },
                    )
                },
                record,
            ),
            Stage::UserPath { name } => (self.judged(record, Some(path_tail(name))), record),
            Stage::FileWalk { walk } => {
                let (walk, record) = walk.after(reply, record);
                (
                    match walk.stage {
                        WalkStage::Done { len } => if len == 0 {
                            self.dropped()
                        } else {
                            self.judged(record, None)
                        },
                        _ => self.at(Stage::FileWalk { walk }),
                    },
                    record,
                )
            },
            Stage::Kill { tail } => (self.reported(record, tail), record),
            Stage::PathEnd { .. } => (
                if reply == Some(0u64) {
                    self.at(Stage::Parent { lookup: PpidLookup::Task })
                } else {
                    self.dropped()
                },
                record,
            ),
            Stage::Parent { lookup } => (
                self.at(
                    match lookup.after(reply) {
                        PpidLookup::Done { ppid } => Stage::Cgroup { ppid },
                        lookup => Stage::Parent { lookup },
                    },
                ),
                record,
            ),
            Stage::Cgroup { ppid } => match reply {
                Some(cgroup_id) => (
                    self.at(Stage::Exe { search: ExeLookup::Task }),
                    with_header(record, self.op, self.pid, ppid, cgroup_id),
                ),
                None => (self.at(Stage::Discarded), record),
            },
            Stage::Exe { search } => (
                self.at(
                    match search.after(reply) {
                        ExeLookup::Done { dentry } => Stage::ExeWalk {
                            walk: PathWalk::start(dentry, EXE_OFF, PATH_BUF_SIZE),
                        },
                        search => Stage::Exe { search },
                    },
                ),
                record,
            ),
            Stage::ExeWalk { walk } => {
                let (walk, record) = walk.after(reply, record);
                (
                    self.at(
                        match walk.stage {
                            WalkStage::Done { len } => if len == 0 {
                                Stage::Discarded
                            } else {
                                Stage::Submitted
                            },
                            _ => Stage::ExeWalk { walk },
                        },
                    ),
                    record,
                )
            },
            Stage::Left | Stage::Discarded | Stage::Submitted => (self, record),
        }
    }

    /// More than the number of replies that the probe can still take.
    pub open spec fn rank(self) -> nat {
        match self.stage {
            Stage::OpenName { .. } => 9003,
            Stage::OpenFlags { .. } => 9002,
            Stage::OpenHow { .. } => 9002,
            Stage::OpenHowFlags { .. } => 9001,
            Stage::Ids { .. } => 8007,
            Stage::Observer { .. } => 8006,
            Stage::FileArg => 8005,
            Stage::FileInode { .. } => 8004,
            Stage::FileMode { .. } => 8003,
            Stage::FileDentry { .. } => 8002,
            Stage::DentryArg => 8002,
            Stage::Room { .. } => 8001,
            Stage::UserPath { .. } => 8000,
            Stage::FileWalk { walk } => 5000 + walk.rank(),
            Stage::Kill { .. } => 4000,
            Stage::PathEnd { .. } => 3900,
            Stage::Parent { lookup } => 3000 + lookup.rank(),
            Stage::Cgroup { .. } => 2900,
            Stage::Exe { search } => 2000 + search.rank(),
            Stage::ExeWalk { walk } => 1 + walk.rank(),
            Stage::Left | Stage::Discarded | Stage::Submitted => 0,
        }
    }

    /// What the probe wants done next. An action that is the last one says
    /// what becomes of the record.
    pub fn action(&self) -> (action: Action)
        requires
            self.wf(),
        ensures
            action == self.wants(),
    {
        match self.stage {
            Stage::OpenName { .. } => Action::Field { offset: OPEN_NAME_FIELD },
            Stage::OpenFlags { .. } => Action::Field { offset: OPEN_FLAGS_FIELD },
            Stage::OpenHow { .. } => Action::Field { offset: OPEN_FLAGS_FIELD },
            Stage::OpenHowFlags { name, how } => Action::ReadUser { addr: how },
            Stage::Ids { .. } => Action::PidTgid,
            Stage::Observer { .. } => Action::Observer,
            Stage::FileArg => Action::Argument { index: WRITE_FILE_ARG },
            Stage::FileInode { file } => Action::ReadPtr {
                addr: field_at(file, FILE_F_INODE_OFF),
            },
            Stage::FileMode { file, inode } => Action::ReadU16 {
                addr: field_at(inode, INODE_I_MODE_OFF),
            },
            Stage::FileDentry { file } => Action::ReadPtr {
                addr: field_at(field_at(file, FILE_F_PATH_OFF), PATH_DENTRY_OFF),
            },
            Stage::DentryArg => Action::Argument { index: UNLINK_DENTRY_ARG },
            Stage::Room { .. } => Action::Reserve,
            Stage::UserPath { name } => Action::CopyUserPath { from: name },
            Stage::FileWalk { walk } => walk.action(),
            Stage::Kill { .. } => Action::Signal { signal: SIGKILL },
            Stage::PathEnd { tail } => Action::ReadUserByte { addr: tail },
            Stage::Parent { lookup } => lookup.action(),
            Stage::Cgroup { .. } => Action::CgroupId,
            Stage::Exe { search } => search.action(),
            Stage::ExeWalk { walk } => walk.action(),
            Stage::Left => Action::Leave,
            Stage::Discarded => Action::Discard,
            Stage::Submitted => Action::Submit,
        }
    }

    fn give_up(&self) -> (next: Probe)
        ensures
            next == self.dropped(),
    {
        let stage: Stage = if self.reserved {
            Stage::Discarded
        } else {
            Stage::Left
        };
        Probe { stage, ..*self }
    }

    fn judge(&self, record: &[u8], tail: Option<u64>) -> (next: Probe)
        requires
            record@.len() >= Event::SIZE,
        ensures
            next == self.judged(record@, tail),
    {
        let area = slice_subrange(record, FILE_OFF, FILE_OFF + PATH_BUF_SIZE);
        if !path_matches_any(area) {
            self.give_up()
        } else if path_is_enforced(area) {
            Probe { stage: Stage::Kill { tail }, ..*self }
        } else {
            self.report(record, tail)
        }
    }

    fn report(&self, record: &[u8], tail: Option<u64>) -> (next: Probe)
        requires
            record@.len() >= Event::SIZE,
        ensures
            next == self.reported(record@, tail),
    {
        let area = slice_subrange(record, FILE_OFF, FILE_OFF + PATH_BUF_SIZE);
        let len: usize = path_len(area);
        if !self.reserved || len >= PATH_BUF_SIZE {
            return self.give_up();
        }
        match tail {
            Some(tail) if len == PATH_BUF_SIZE - 1 => Probe {
                stage: Stage::PathEnd { tail },
                ..*self
            },
            _ => Probe { stage: Stage::Parent { lookup: current_ppid() }, ..*self },
        }
    }

    /// Takes the reply to the action that the probe wanted. `record` is the
    /// buffer that the probe works in, once it has one.
    pub fn step(&mut self, reply: Option<u64>, record: &mut [u8])
        requires
            old(self).wf(),
            old(self).has_buffer() ==> old(record)@.len() >= Event::SIZE,
        ensures
            (*final(self), final(record)@) == old(self).after(reply, old(record)@),
            final(self).wf(),
            final(record)@.len() == old(record)@.len(),
            !old(self).wants().is_last() ==> final(self).rank() < old(self).rank(),
    {
        match self.stage {
            Stage::OpenName { indirect } => {
                self.stage = match reply {
                    Some(name) => if indirect {
                        Stage::OpenHow { name }
                    } else {
                        Stage::OpenFlags { name }
                    },
                    None => Stage::Left,
                };
            },
            Stage::OpenFlags { name } => {
                match reply {
                    Some(flags) => {
                        if flags as u32 & O_CREAT != 0 {
                            *self = emit_create(name);
                        } else {
                            self.stage = Stage::Left;
                        }
                    },
                    None => {
                        self.stage = Stage::Left;
                    },
                }
            },
            Stage::OpenHow { name } => {
                self.stage = match reply {
                    Some(how) => if how != 0 {
                        Stage::OpenHowFlags { name, how }
                    } else {
                        Stage::Left
                    },
                    None => Stage::Left,
                };
            },
            Stage::OpenHowFlags { name, how } => {
                match reply {
                    Some(flags) => {
                        if flags as u32 & O_CREAT != 0 {
                            *self = emit_create(name);
                        } else {
                            self.stage = Stage::Left;
                        }
                    },
                    None => {
                        self.stage = Stage::Left;
                    },
                }
            },
            Stage::Ids { source } => {
                match reply {
                    Some(ids) => {
                        self.pid = (ids / 0x1_0000_0000) as u32;
                        self.stage = Stage::Observer { source };
                    },
                    None => {
                        self.stage = Stage::Left;
                    },
                }
            },
            Stage::Observer { source } => {
                let is_observer: bool = match reply {
                    Some(observer) => observer == self.pid as u64,
                    None => false,
                };
                // Never act on the observer itself.
                self.stage = if is_observer {
                    Stage::Left
                } else {
                    match source {
                        Source::File => Stage::FileArg,
                        Source::Dentry => Stage::DentryArg,
                        Source::User { name } => Stage::Room { target: Target::User { name } },
                    }
                };
            },
            Stage::FileArg => {
                self.stage = match reply {
                    Some(file) => Stage::FileInode { file },
                    None => Stage::Left,
                };
            },
            Stage::FileInode { file } => {
                self.stage = match reply {
                    Some(inode) => Stage::FileMode { file, inode },
                    None => Stage::Left,
                };
            },
            Stage::FileMode { file, inode } => {
                // Pipes, sockets, character devices and the like are skipped.
                self.stage = match reply {
                    Some(mode) => if mode as u16 & S_IFMT == S_IFREG {
                        Stage::FileDentry { file }
                    } else {
                        Stage::Left
                    },
                    None => Stage::Left,
                };
            },
            Stage::FileDentry { .. } | Stage::DentryArg => {
                self.stage = match reply {
                    Some(dentry) => Stage::Room { target: Target::Dentry { dentry } },
                    None => Stage::Left,
                };
            },
            Stage::Room { target } => {
                // Enforcement does not wait for room.
                self.reserved = reply.is_some();
                self.stage = match target {
                    Target::Dentry { dentry } => Stage::FileWalk {
                        walk: build_path(dentry, FILE_OFF, PATH_BUF_SIZE),
                    },
                    Target::User { name } => Stage::UserPath { name },
                };
            },
            Stage::UserPath { name } => {
                *self = self.judge(record, Some(field_at(name, PATH_BUF_SIZE as u64 - 1)));
            },
            Stage::FileWalk { walk } => {
                let mut walk: PathWalk = walk;
                walk.step(reply, record);
                match walk.stage {
                    WalkStage::Done { len } => {
                        if len == 0 {
                            *self = self.give_up();
                        } else {
                            *self = self.judge(record, None);
                        }
                    },
                    _ => {
                        self.stage = Stage::FileWalk { walk };
                    },
                }
            },
            Stage::Kill { tail } => {
                *self = self.report(record, tail);
            },
            Stage::PathEnd { .. } => {
                // No part of a path passes for the whole.
                match reply {
                    Some(0) => {
                        self.stage = Stage::Parent { lookup: current_ppid() };
                    },
                    _ => {
                        *self = self.give_up();
                    },
                }
            },
            Stage::Parent { lookup } => {
                self.stage = match lookup.step(reply) {
                    PpidLookup::Done { ppid } => Stage::Cgroup { ppid },
                    lookup => Stage::Parent { lookup },
                };
            },
            Stage::Cgroup { ppid } => {
                match reply {
                    Some(cgroup_id) => {
                        write_header(record, self.op, self.pid, ppid, cgroup_id);
                        self.stage = Stage::Exe { search: current_exe_dentry() };
                    },
                    None => {
                        self.stage = Stage::Discarded;
                    },
                }
            },
            Stage::Exe { search } => {
                self.stage = match search.step(reply) {
                    ExeLookup::Done { dentry } => Stage::ExeWalk {
                        walk: build_path(dentry, EXE_OFF, PATH_BUF_SIZE),
                    },
                    search => Stage::Exe { search },
                };
            },
            Stage::ExeWalk { walk } => {
                let mut walk: PathWalk = walk;
                walk.step(reply, record);
                self.stage = match walk.stage {
                    // An incomplete record is never submitted. Enforcement has
                    // been seen to before.
                    WalkStage::Done { len } => if len == 0 {
                        Stage::Discarded
                    } else {
                        Stage::Submitted
                    },
                    _ => Stage::ExeWalk { walk },
                };
            },
            Stage::Left | Stage::Discarded | Stage::Submitted => {},
        }
    }
}

/// Each reply brings a probe closer to its end.
pub proof fn law_probe_descends(probe: Probe, reply: Option<u64>, record: Seq<u8>)
    requires
        !probe.wants().is_last(),
    ensures
        probe.after(reply, record).0.rank() < probe.rank(),
{
    let next = probe.after(reply, record).0;
    match probe.stage {
        Stage::FileWalk { walk } => {
            assert(walk.after(reply, record).0.rank() < walk.rank());
        },
        Stage::ExeWalk { walk } => {
            assert(walk.after(reply, record).0.rank() < walk.rank());
        },
        Stage::Parent { lookup } => {
            assert(lookup.after(reply).rank() < lookup.rank());
        },
        Stage::Exe { search } => {
            assert(search.after(reply).rank() < search.rank());
        },
        _ => {},
    }
}

/// The probe has enforcement behind it, if there was any.
pub open spec fn past_enforcement(probe: Probe) -> bool {
    match probe.stage {
        Stage::PathEnd { .. }
        | Stage::Parent { .. }
        | Stage::Cgroup { .. }
        | Stage::Exe { .. }
        | Stage::ExeWalk { .. }
        | Stage::Left
        | Stage::Discarded
        | Stage::Submitted => true,
        _ => false,
    }
}

/// Enforcement comes first: a probe asks about the process, whether the path is
/// complete, or for its record to be submitted, only with enforcement behind it, and from then on sends no
/// signal, whatever the replies.
pub proof fn law_enforcement_comes_first(probe: Probe, reply: Option<u64>, record: Seq<u8>)
    requires
        probe.wf(),
    ensures
        probe.wants() is CurrentTask || probe.wants() is CgroupId || probe.wants() is ReadUserByte
            || probe.wants() is Submit ==> past_enforcement(probe),
        past_enforcement(probe) ==> !(probe.wants() is Signal),
        past_enforcement(probe) ==> past_enforcement(probe.after(reply, record).0),
{
}

/// What is reserved is settled: a probe reserves once at most, keeps its record
/// to the end, and then gives it back or submits it. Without one it does
/// neither.
pub proof fn law_record_is_settled(probe: Probe, reply: Option<u64>, record: Seq<u8>)
    requires
        probe.wf(),
    ensures
        probe.wants() is Reserve ==> !probe.reserved && probe.after(reply, record).0.reserved == (
        reply is Some),
        !(probe.wants() is Reserve) ==> probe.after(reply, record).0.reserved == probe.reserved,
        probe.wants() is Leave ==> !probe.reserved,
        probe.wants() is Discard || probe.wants() is Submit ==> probe.reserved,
{
}

/// The probe for an operation on a file that is among the arguments of the
/// probed function: as a `struct file *` if `target_is_file`, else as a
/// `struct dentry *`.
pub open spec fn emitting(op: FileOp, target_is_file: bool) -> Probe {
    Probe {
        op,
        pid: 0,
        reserved: false,
        stage: Stage::Ids {
            source: if target_is_file {
                Source::File
            } else {
                Source::Dentry
            },
        },
    }
}

/// The probe for the creation of the file whose path stands at `name` in user
/// memory.
pub open spec fn creating(name: u64) -> Probe {
    Probe {
        op: FileOp::Create,
        pid: 0,
        reserved: false,
        stage: Stage::Ids { source: Source::User { name } },
    }
}

/// The probe for an open call.
pub open spec fn opening(indirect: bool) -> Probe {
    Probe { op: FileOp::Create, pid: 0, reserved: false, stage: Stage::OpenName { indirect } }
}

/// Starts the probe for an operation on a file that is among the arguments of
/// the probed function.
pub fn try_emit(op: FileOp, target_is_file: bool) -> (probe: Probe)
    ensures
        probe == emitting(op, target_is_file),
        probe.wf(),
{
    Probe {
        op,
        pid: 0,
        reserved: false,
        stage: Stage::Ids {
            source: if target_is_file {
                Source::File
            } else {
                Source::Dentry
            },
        },
    }
}

/// Starts the probe for the creation of the file whose path stands at
/// `filename` in user memory: the raw path of the system call, usually
/// absolute.
pub fn emit_create(filename: u64) -> (probe: Probe)
    ensures
        probe == creating(filename),
        probe.wf(),
{
    Probe {
        op: FileOp::Create,
        pid: 0,
        reserved: false,
        stage: Stage::Ids { source: Source::User { name: filename } },
    }
}

/// The probe on `vfs_write`, which receives a `struct file *`.
pub fn graph_write() -> (probe: Probe)
    ensures
        probe == emitting(FileOp::Write, true),
        probe.wf(),
{
    try_emit(FileOp::Write, true)
}

/// The probe on `vfs_unlink`, which receives a `struct dentry *`.
pub fn graph_unlink() -> (probe: Probe)
    ensures
        probe == emitting(FileOp::Delete, false),
        probe.wf(),
{
    try_emit(FileOp::Delete, false)
}

/// The probe on the `openat` tracepoint.
pub fn openat_create() -> (probe: Probe)
    ensures
        probe == opening(false),
        probe.wf(),
{
    Probe { op: FileOp::Create, pid: 0, reserved: false, stage: Stage::OpenName { indirect: false } }
}

/// The probe on the `openat2` tracepoint.
pub fn openat2_create() -> (probe: Probe)
    ensures
        probe == opening(true),
        probe.wf(),
{
    Probe { op: FileOp::Create, pid: 0, reserved: false, stage: Stage::OpenName { indirect: true } }
}

} // verus!
