//! The record that a probe produces and user space consumes.

use vstd::prelude::*;

use crate::bytes::{get_le_u32, get_le_u64, put_le};
use crate::bytes::{le_bytes, le_nat, splice};
use crate::bytes::{lemma_le_round_trip_u32, lemma_le_round_trip_u64};
use crate::file_op::FileOp;

verus! {

/// Maximum length of a path carried in an [`Event`], with its NUL terminator.
/// A multiple of 8, so that the ring-buffer records stay 8-byte aligned.
pub const PATH_BUF_SIZE: usize = 256;

/// Where the operation stands in a record.
pub const OP_OFF: usize = 0;

/// Where the process ID stands in a record.
pub const PID_OFF: usize = 4;

/// Where the parent's process ID stands in a record.
pub const PPID_OFF: usize = 8;

/// Where the cgroup ID stands in a record.
pub const CGROUP_OFF: usize = 16;

/// Where the path of the process binary stands in a record.
pub const EXE_OFF: usize = 24;

/// Where the path of the file stands in a record.
pub const FILE_OFF: usize = EXE_OFF + PATH_BUF_SIZE;

/// An event, as it is carried from the probes to user space.
///
/// A record is [`Event::SIZE`] bytes. The header fields stand at their fixed
/// offsets, least significant byte first, with unused bytes between them; the
/// two path areas hold NUL-terminated strings.
#[derive(Debug, Clone, Copy, PartialEq, Eq)]
pub struct Event {
    pub op: u8,
    pub pid: u32,
    pub ppid: u32,
    pub cgroup_id: u64,
    pub exe_path: [u8; PATH_BUF_SIZE],
    pub file_path: [u8; PATH_BUF_SIZE],
}

/// The area of a record that holds the path of the process binary.
pub open spec fn exe_area(record: Seq<u8>) -> Seq<u8> {
    record.subrange(EXE_OFF as int, EXE_OFF + PATH_BUF_SIZE)
}

/// The area of a record that holds the path of the file.
pub open spec fn file_area(record: Seq<u8>) -> Seq<u8> {
    record.subrange(FILE_OFF as int, FILE_OFF + PATH_BUF_SIZE)
}

impl Event {
    /// The length of a record.
    pub const SIZE: usize = 536;

    /// `record` starts with the bytes of this event.
    pub open spec fn stands_in(self, record: Seq<u8>) -> bool {
        &&& record.len() >= Event::SIZE
        &&& record[OP_OFF as int] == self.op
        &&& le_nat(record.subrange(PID_OFF as int, PID_OFF + 4)) == self.pid
        &&& le_nat(record.subrange(PPID_OFF as int, PPID_OFF + 4)) == self.ppid
        &&& le_nat(record.subrange(CGROUP_OFF as int, CGROUP_OFF + 8)) == self.cgroup_id
        &&& exe_area(record) == self.exe_path@
        &&& file_area(record) == self.file_path@
    }

    /// The event in `bytes`, if they are as many as a record has.
    pub fn from_bytes(bytes: &[u8]) -> (event: Option<Event>)
        ensures
            event is Some <==> bytes@.len() == Event::SIZE,
            event matches Some(event) ==> event.stands_in(bytes@),
    {
        if bytes.len() != Event::SIZE {
            return None;
        }
        Some(
            Event {
                op: bytes[OP_OFF],
                pid: get_le_u32(bytes, PID_OFF),
                ppid: get_le_u32(bytes, PPID_OFF),
                cgroup_id: get_le_u64(bytes, CGROUP_OFF),
                exe_path: copy_area(bytes, EXE_OFF),
                file_path: copy_area(bytes, FILE_OFF),
            },
        )
    }
}

/// The path area of `bytes` that starts at `at`.
fn copy_area(bytes: &[u8], at: usize) -> (area: [u8; PATH_BUF_SIZE])
    requires
        at + PATH_BUF_SIZE <= bytes.len(),
    ensures
        area@ == bytes@.subrange(at as int, at + PATH_BUF_SIZE),
{
    let mut area: [u8; PATH_BUF_SIZE] = [0; PATH_BUF_SIZE];
    let mut i: usize = 0;
    while i < PATH_BUF_SIZE
        invariant
            i <= PATH_BUF_SIZE,
            at + PATH_BUF_SIZE <= bytes.len(),
            forall|j: int| 0 <= j < i ==> area@[j] == bytes@[at + j],
        decreases PATH_BUF_SIZE - i,
    {
        area[i] = bytes[at + i];
        i += 1;
    }
    assert(area@ =~= bytes@.subrange(at as int, at + PATH_BUF_SIZE));
    area
}

/// `record` with the header fields set; the unused bytes keep their values.
pub open spec fn with_header(
    record: Seq<u8>,
    op: FileOp,
    pid: u32,
    ppid: u32,
    cgroup_id: u64,
) -> Seq<u8> {
    splice(
        splice(
            splice(
                record.update(OP_OFF as int, op.byte()),
                PID_OFF as int,
                le_bytes(pid as nat, 4),
            ),
            PPID_OFF as int,
            le_bytes(ppid as nat, 4),
        ),
        CGROUP_OFF as int,
        le_bytes(cgroup_id as nat, 8),
    )
}

/// Writes the header fields into `record`.
pub fn write_header(record: &mut [u8], op: FileOp, pid: u32, ppid: u32, cgroup_id: u64)
    requires
        old(record)@.len() >= EXE_OFF,
    ensures
        final(record)@ == with_header(old(record)@, op, pid, ppid, cgroup_id),
        final(record)@.len() == old(record)@.len(),
{
    proof {
        lemma_le_round_trip_u32(pid);
        lemma_le_round_trip_u32(ppid);
        lemma_le_round_trip_u64(cgroup_id);
    }
    record[OP_OFF] = op.to_u8();
    put_le(record, PID_OFF, pid as u64, 4);
    put_le(record, PPID_OFF, ppid as u64, 4);
    put_le(record, CGROUP_OFF, cgroup_id, 8);
}

/// Setting the header touches nothing else: the path areas, and what follows
/// the record, stay as they were.
pub proof fn law_header_leaves_the_paths(
    record: Seq<u8>,
    op: FileOp,
    pid: u32,
    ppid: u32,
    cgroup_id: u64,
)
    requires
        record.len() >= EXE_OFF,
    ensures
        with_header(record, op, pid, ppid, cgroup_id).len() == record.len(),
        with_header(record, op, pid, ppid, cgroup_id).skip(EXE_OFF as int) == record.skip(
            EXE_OFF as int,
        ),
{
    lemma_le_round_trip_u32(pid);
    lemma_le_round_trip_u32(ppid);
    lemma_le_round_trip_u64(cgroup_id);
    assert(with_header(record, op, pid, ppid, cgroup_id).skip(EXE_OFF as int) =~= record.skip(
        EXE_OFF as int,
    ));
}

/// What stands in a record whose header has been set.
pub proof fn lemma_header_reads(
    record: Seq<u8>,
    op: FileOp,
    pid: u32,
    ppid: u32,
    cgroup_id: u64,
)
    requires
        record.len() >= Event::SIZE,
    ensures
        ({
            let written = with_header(record, op, pid, ppid, cgroup_id);
            &&& written[OP_OFF as int] == op.byte()
            &&& le_nat(written.subrange(PID_OFF as int, PID_OFF + 4)) == pid
            &&& le_nat(written.subrange(PPID_OFF as int, PPID_OFF + 4)) == ppid
            &&& le_nat(written.subrange(CGROUP_OFF as int, CGROUP_OFF + 8)) == cgroup_id
            &&& exe_area(written) == exe_area(record)
            &&& file_area(written) == file_area(record)
        }),
{
    lemma_le_round_trip_u32(pid);
    lemma_le_round_trip_u32(ppid);
    lemma_le_round_trip_u64(cgroup_id);
    let written = with_header(record, op, pid, ppid, cgroup_id);
    assert(written.subrange(PID_OFF as int, PID_OFF + 4) =~= le_bytes(pid as nat, 4));
    assert(written.subrange(PPID_OFF as int, PPID_OFF + 4) =~= le_bytes(ppid as nat, 4));
    assert(written.subrange(CGROUP_OFF as int, CGROUP_OFF + 8) =~= le_bytes(cgroup_id as nat, 8));
    assert(exe_area(written) =~= exe_area(record));
    assert(file_area(written) =~= file_area(record));
}

/// What a header was given is what a reader of the record finds in it.
pub proof fn law_record_round_trip(
    record: Seq<u8>,
    op: FileOp,
    pid: u32,
    ppid: u32,
    cgroup_id: u64,
    event: Event,
)
    requires
        record.len() >= Event::SIZE,
        event.stands_in(with_header(record, op, pid, ppid, cgroup_id)),
    ensures
        event.op == op.byte(),
        event.pid == pid,
        event.ppid == ppid,
        event.cgroup_id == cgroup_id,
        event.exe_path@ == exe_area(record),
        event.file_path@ == file_area(record),
{
    lemma_header_reads(record, op, pid, ppid, cgroup_id);
}

/// No two events stand in one record.
pub proof fn law_record_holds_one_event(record: Seq<u8>, a: Event, b: Event)
    requires
        a.stands_in(record),
        b.stands_in(record),
    ensures
        a == b,
{
    assert(a.exe_path =~= b.exe_path);
    assert(a.file_path =~= b.file_path);
}

} // verus!
