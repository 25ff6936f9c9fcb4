//! What a probe can ask the kernel for, and a picture of the kernel that
//! answers.
//!
//! A probe never calls the kernel itself. It names the next [`Action`]; its
//! caller performs it and hands the reply back. [`Kernel`] says, for proofs
//! only, what the replies are while nothing changes under the probe's feet.

use vstd::prelude::*;

use crate::bytes::{le_nat, splice};
use crate::event::{Event, FILE_OFF, PATH_BUF_SIZE};

verus! {

/// The next thing that a probe wants done.
///
/// The reply to an action is a number, or `None` where there is nothing to
/// hand back: a read that faulted, an argument or map entry that is not there,
/// no room in the ring buffer. Narrower numbers are handed back widened. The
/// IDs of the process, its task and its cgroup can always be had; a probe that
/// gets no reply for them all the same reports nothing.
#[derive(Debug, Clone, Copy, PartialEq, Eq)]
pub enum Action {
    /// Get the thread group ID and thread ID of the current process, the
    /// former in the upper half.
    PidTgid,
    /// Look up the observer's process ID in the configuration map.
    Observer,
    /// Get the argument of the probed function with this index.
    Argument { index: u64 },
    /// Read the 8-byte field at this offset of the tracepoint's data.
    Field { offset: u64 },
    /// Read an 8-byte number from user memory.
    ReadUser { addr: u64 },
    /// Read a byte from user memory.
    ReadUserByte { addr: u64 },
    /// Read a pointer from kernel memory.
    ReadPtr { addr: u64 },
    /// Read a 2-byte number from kernel memory.
    ReadU16 { addr: u64 },
    /// Read a 4-byte number from kernel memory.
    ReadU32 { addr: u64 },
    /// Reserve a record of [`RESERVED_SIZE`] bytes in the ring buffer, for the
    /// probe to work in. Without room there the probe works in a scratch buffer
    /// of that size instead.
    Reserve,
    /// Copy `len` bytes of kernel memory into the buffer, to `at`.
    CopyName { from: u64, at: usize, len: usize },
    /// Copy the NUL-terminated string at `from` in user memory into the
    /// buffer, to the area where the path of the file stands, as far as there is
    /// room in that area.
    CopyUserPath { from: u64 },
    /// Send this signal to the current process.
    Signal { signal: u32 },
    /// Get the address of the current task.
    CurrentTask,
    /// Get the current cgroup ID.
    CgroupId,
    /// The probe is over; it has no record.
    Leave,
    /// The probe is over; give the record back.
    Discard,
    /// The probe is over; hand the record to user space.
    Submit,
}

/// The bytes that a probe reserves for a record: the event, and one path area
/// of slack behind it. User space reads no more than the event.
pub const RESERVED_SIZE: usize = Event::SIZE + PATH_BUF_SIZE;

impl Action {
    /// Nothing comes after this action.
    pub open spec fn is_last(self) -> bool {
        self is Leave || self is Discard || self is Submit
    }
}

/// A kernel at the moment of a probe.
pub struct Kernel {
    /// The IDs of the current process.
    pub pid_tgid: u64,
    /// The configured observer.
    pub observer: Option<u32>,
    /// The arguments of the probed function, by index.
    pub arguments: Map<u64, u64>,
    /// The fields of the tracepoint's data, by offset.
    pub fields: Map<u64, u64>,
    /// The kernel memory that can be read.
    pub memory: Map<int, u8>,
    /// The user memory that can be read.
    pub user_memory: Map<int, u8>,
    /// What a string that is copied from user memory leaves behind its NUL.
    pub residue: Seq<u8>,
    /// The ring buffer has room for a record.
    pub has_room: bool,
    /// The address of the current task.
    pub task: u64,
    /// The current cgroup ID.
    pub cgroup_id: u64,
}

/// The address `off` bytes after `base`.
pub open spec fn field_addr(base: u64, off: u64) -> u64 {
    ((base + off) % 0x1_0000_0000_0000_0000) as u64
}

/// The address `off` bytes after `base`.
pub fn field_at(base: u64, off: u64) -> (addr: u64)
    ensures
        addr == field_addr(base, off),
{
    base.wrapping_add(off)
}

/// No byte of `text` is a NUL.
pub open spec fn no_nul(text: Seq<u8>) -> bool {
    forall|i: int| 0 <= i < text.len() ==> text[i] != 0
}

/// `n` zero bytes.
pub open spec fn zeros(n: nat) -> Seq<u8> {
    Seq::new(n, |i: int| 0u8)
}

/// The `n` bytes of `memory` at `addr`, if all of them can be read.
pub open spec fn bytes_at(memory: Map<int, u8>, addr: u64, n: nat) -> Option<Seq<u8>> {
    if forall|i: int| 0 <= i < n ==> memory.dom().contains(#[trigger] (addr + i)) {
        Some(Seq::new(n, |i: int| memory[addr + i]))
    } else {
        None
    }
}

impl Kernel {
    /// The `n` bytes of kernel memory at `addr`, if all of them can be read.
    pub open spec fn read(self, addr: u64, n: nat) -> Option<Seq<u8>> {
        bytes_at(self.memory, addr, n)
    }

    /// The number in the `n` bytes of kernel memory at `addr`.
    pub open spec fn read_number(self, addr: u64, n: nat) -> Option<u64> {
        match self.read(addr, n) {
            Some(bytes) => Some(le_nat(bytes) as u64),
            None => None,
        }
    }

    /// The pointer at `base + off`.
    pub open spec fn ptr(self, base: u64, off: u64) -> Option<u64> {
        self.read_number(field_addr(base, off), 8)
    }

    /// The 8-byte number at `addr` in user memory.
    pub open spec fn user_number(self, addr: u64) -> Option<u64> {
        match bytes_at(self.user_memory, addr, 8) {
            Some(bytes) => Some(le_nat(bytes) as u64),
            None => None,
        }
    }

    /// The string at `addr` in user memory up to its NUL, or its first `n` bytes
    /// if there is no NUL among them; `None` if it cannot be read so far.
    pub open spec fn user_start(self, addr: int, n: nat) -> Option<Seq<u8>>
        decreases n,
    {
        if n == 0 {
            Some(Seq::empty())
        } else {
            match self.user_memory.get(addr) {
                Some(byte) => if byte == 0 {
                    Some(Seq::empty())
                } else {
                    match self.user_start(addr + 1, (n - 1) as nat) {
                        Some(rest) => Some(seq![byte] + rest),
                        None => None,
                    }
                },
                None => None,
            }
        }
    }

    /// What a copy of the string at `addr` in user memory puts into a path area,
    /// before the NUL: all of the string, or as much as leaves room for the NUL.
    /// The copy reads no further than the area is long.
    pub open spec fn copied_path(self, addr: u64) -> Option<Seq<u8>> {
        match self.user_start(addr as int, PATH_BUF_SIZE as nat) {
            Some(start) => Some(
                if start.len() < PATH_BUF_SIZE {
                    start
                } else {
                    start.drop_last()
                },
            ),
            None => None,
        }
    }

    /// The addresses of user memory are 64-bit numbers.
    pub open spec fn wf(self) -> bool {
        forall|addr: int| #[trigger]
            self.user_memory.dom().contains(addr) ==> 0 <= addr <= u64::MAX
    }

    /// The reply to `action`, and what becomes of the buffer.
    ///
    /// A copy that faults fills its place with zeros. A string that is longer
    /// than the area for it is cut, and ends with a NUL all the same; what stands
    /// behind the NUL then is left open.
    pub open spec fn answer(self, action: Action, record: Seq<u8>) -> (Option<u64>, Seq<u8>) {
        match action {
            Action::PidTgid => (Some(self.pid_tgid), record),
            Action::Observer => (
                match self.observer {
                    Some(pid) => Some(pid as u64),
                    None => None,
                },
                record,
            ),
            Action::Argument { index } => (self.arguments.get(index), record),
            Action::Field { offset } => (self.fields.get(offset), record),
            Action::ReadUser { addr } => (self.user_number(addr), record),
            Action::ReadUserByte { addr } => (
                match self.user_memory.get(addr as int) {
                    Some(byte) => Some(byte as u64),
                    None => None,
                },
                record,
            ),
            Action::ReadPtr { addr } => (self.read_number(addr, 8), record),
            Action::ReadU16 { addr } => (self.read_number(addr, 2), record),
            Action::ReadU32 { addr } => (self.read_number(addr, 4), record),
            Action::Reserve => (
                if self.has_room {
                    Some(0)
                } else {
                    None
                },
                record,
            ),
            Action::CopyName { from, at, len } => match self.read(from, len as nat) {
                Some(bytes) => (Some(0), splice(record, at as int, bytes)),
                None => (None, splice(record, at as int, zeros(len as nat))),
            },
            Action::CopyUserPath { from } => match self.copied_path(from) {
                Some(path) => {
                    let text = path.push(0) + self.residue;
                    let written = if text.len() < PATH_BUF_SIZE {
                        text
                    } else {
                        text.take(PATH_BUF_SIZE as int)
                    };
                    (Some(path.len() as u64), splice(record, FILE_OFF as int, written))
                },
                None => (None, splice(record, FILE_OFF as int, zeros(PATH_BUF_SIZE as nat))),
            },
            Action::Signal { signal } => (Some(0), record),
            Action::CurrentTask => (Some(self.task), record),
            Action::CgroupId => (Some(self.cgroup_id), record),
            Action::Leave | Action::Discard | Action::Submit => (None, record),
        }
    }
}

} // verus!
