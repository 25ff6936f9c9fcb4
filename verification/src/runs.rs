//! What the probes do as a whole: whom they terminate, and what they report.

use vstd::prelude::*;
use vstd::utf8::{encode_utf8, is_ascii_chars, is_ascii_chars_encode_utf8};

use crate::bytes::le_nat;
use crate::cstr::{cstr_end, cstr_text, law_cstr_end, law_terminated_text};
use crate::dirs::{under, ENFORCED_DIR, MONITORED_DIRS, SLASH};
use crate::display::{event_line, is_shown, item_line, utf8_lossy};
use crate::event::{exe_area, file_area, with_header};
use crate::event::{law_header_leaves_the_paths, lemma_header_reads};
use crate::event::{Event, CGROUP_OFF, EXE_OFF, FILE_OFF, OP_OFF, PATH_BUF_SIZE, PID_OFF, PPID_OFF};
use crate::file_op::FileOp;
use crate::kernel::{field_addr, no_nul, Action, Kernel};
use crate::matching::{enforced_bytes, monitored_bytes};
use crate::matching::{law_enforced_bytes_are_monitored, law_relative_path_is_not_watched};
use crate::probe::{creating, emitting, is_regular, law_probe_descends, may_create, opening};
use crate::probe::{path_tail, pid_of, Probe, Source, Stage, Target, FILE_F_INODE_OFF, INODE_I_MODE_OFF};
use crate::probe::{OPEN_FLAGS_FIELD, OPEN_NAME_FIELD, SIGKILL, UNLINK_DENTRY_ARG, WRITE_FILE_ARG};
use crate::task::{law_exe_dentry_is_found, law_ppid_is_found, ExeLookup, PpidLookup};
use crate::walk::{law_walk_resolves, PathWalk, WalkStage};

verus! {

/// What a probe came to: its last action, the buffer that it worked in at that
/// time, and the signals that it sent on the way.
pub struct Run {
    pub last: Action,
    pub record: Seq<u8>,
    pub signals: Seq<u32>,
}

/// `record` starts with an event of these contents.
pub open spec fn carries(
    record: Seq<u8>,
    op: FileOp,
    pid: u32,
    ppid: u32,
    cgroup_id: u64,
    exe: Seq<u8>,
    file: Seq<u8>,
) -> bool {
    &&& record.len() >= Event::SIZE
    &&& record[OP_OFF as int] == op.byte()
    &&& le_nat(record.subrange(PID_OFF as int, PID_OFF + 4)) == pid
    &&& le_nat(record.subrange(PPID_OFF as int, PPID_OFF + 4)) == ppid
    &&& le_nat(record.subrange(CGROUP_OFF as int, CGROUP_OFF + 8)) == cgroup_id
    &&& cstr_text(exe_area(record)) == exe
    &&& cstr_text(file_area(record)) == file
}

impl Kernel {
    /// What `probe` comes to when this kernel does all that it wants. `record`
    /// is the buffer that it is given to work in: the reserved record, or
    /// scratch where the ring buffer has no room for one.
    #[verifier::opaque]
    pub open spec fn run(self, probe: Probe, record: Seq<u8>) -> Run
        decreases probe.rank(),
    {
        let action = probe.wants();
        if action.is_last() {
            Run { last: action, record, signals: Seq::empty() }
        } else {
            let (reply, answered) = self.answer(action, record);
            let (next, left) = probe.after(reply, answered);
            proof {
                law_probe_descends(probe, reply, answered);
            }
            let rest = self.run(next, left);
            match action {
                Action::Signal { signal } => Run { signals: seq![signal] + rest.signals, ..rest },
                _ => rest,
            }
        }
    }

    /// The current process is the observer.
    pub open spec fn is_observer(self) -> bool {
        self.observer == Some(pid_of(self.pid_tgid))
    }

    /// The dentry of the file among the arguments, if it is a regular one.
    pub open spec fn written_dentry(self) -> Option<u64> {
        match self.arguments.get(WRITE_FILE_ARG) {
            Some(file) => match self.ptr(file, FILE_F_INODE_OFF) {
                Some(inode) => match self.read_number(field_addr(inode, INODE_I_MODE_OFF), 2) {
                    Some(mode) if is_regular(mode) => self.file_dentry(file),
                    _ => None,
                },
                None => None,
            },
            None => None,
        }
    }

    /// The path of the current process's binary.
    pub open spec fn exe_path(self) -> Option<Seq<u8>> {
        self.resolve(self.exe_dentry(), PATH_BUF_SIZE as nat)
    }

    /// The dentry of the file that a probed function works on: as a file among
    /// its arguments if `target_is_file`, else as a dentry.
    pub open spec fn target_dentry(self, target_is_file: bool) -> Option<u64> {
        if target_is_file {
            self.written_dentry()
        } else {
            self.arguments.get(UNLINK_DENTRY_ARG)
        }
    }

    /// The path of that file, if it can be resolved.
    pub open spec fn target_path(self, target_is_file: bool) -> Option<Seq<u8>> {
        match self.target_dentry(target_is_file) {
            Some(dentry) => match self.resolve(dentry, PATH_BUF_SIZE as nat) {
                Some(path) => Some(cstr_text(path.push(0u8))),
                None => None,
            },
            None => None,
        }
    }

    /// `run` reported nothing: the record, if there was room for one, is given
    /// back.
    pub open spec fn reports_nothing(self, run: Run) -> bool {
        run.last == if self.has_room {
            Action::Discard
        } else {
            Action::Leave
        }
    }

    /// `run` deals with an operation on the file at `path` as it should: it
    /// terminates the process exactly where the path is under the protected
    /// directory, room or no room, and submits a record exactly where the path
    /// is under a monitored directory, fits in a record, the path of the binary
    /// can be had, and the ring buffer has room. The record then carries all of
    /// it.
    pub open spec fn deals_with(self, run: Run, op: FileOp, path: Seq<u8>) -> bool {
        &&& run.signals == if enforced_bytes(path) {
            seq![SIGKILL]
        } else {
            Seq::empty()
        }
        &&& if self.has_room && monitored_bytes(path) && path.len() < PATH_BUF_SIZE
            && self.exe_path() is Some {
            &&& run.last is Submit
            &&& carries(
                run.record,
                op,
                pid_of(self.pid_tgid),
                self.ppid(),
                self.cgroup_id,
                cstr_text(self.exe_path()->0.push(0u8)),
                path,
            )
        } else {
            self.reports_nothing(run)
        }
    }

    /// `path` is the path at `name` in user memory. It can be read as far as its
    /// end, or as far as a path area is long.
    pub open spec fn is_named(self, path: Seq<u8>, name: u64) -> bool {
        &&& no_nul(path)
        &&& forall|i: int|
            0 <= i < path.len() && i < PATH_BUF_SIZE ==> self.user_memory.get(
                #[trigger] (name + i),
            ) == Some(path[i])
        &&& path.len() < PATH_BUF_SIZE ==> self.user_memory.get(name + path.len()) == Some(0u8)
    }

    /// The path in the area of `record` was cut: it fills the area, and goes on
    /// at `tail` in user memory.
    pub open spec fn is_cut(self, record: Seq<u8>, tail: Option<u64>) -> bool {
        &&& tail matches Some(tail)
        &&& cstr_end(file_area(record)) == PATH_BUF_SIZE - 1
        &&& self.user_memory.get(tail as int) != Some(0u8)
    }

    /// `run` did nothing.
    pub open spec fn leaves(self, run: Run, record: Seq<u8>) -> bool {
        run == (Run { last: Action::Leave, record, signals: Seq::empty() })
    }
}

/// A probe that wants nothing more has come to its end.
proof fn lemma_last(k: Kernel, probe: Probe, record: Seq<u8>)
    requires
        probe.wants().is_last(),
    ensures
        k.run(probe, record) == (Run { last: probe.wants(), record, signals: Seq::empty() }),
{
    reveal_with_fuel(Kernel::run, 1);
}

/// One action of a probe, other than a signal.
proof fn lemma_next(k: Kernel, probe: Probe, record: Seq<u8>, next: Probe, left: Seq<u8>)
    requires
        !probe.wants().is_last(),
        !(probe.wants() is Signal),
        ({
            let (reply, answered) = k.answer(probe.wants(), record);
            (next, left) == probe.after(reply, answered)
        }),
    ensures
        k.run(probe, record) == k.run(next, left),
{
    reveal_with_fuel(Kernel::run, 1);
}

/// The resolution of a file's path, as a part of a probe.
proof fn lemma_file_walk(k: Kernel, probe: Probe, walk: PathWalk, record: Seq<u8>)
    requires
        probe.stage == (Stage::FileWalk { walk }),
        !walk.is_done(),
    ensures
        ({
            let (end, left) = k.run_walk(walk, record);
            let next = if end.stage == (WalkStage::Done { len: 0 }) {
                probe.dropped()
            } else {
                probe.judged(left, None)
            };
            k.run(probe, record) == k.run(next, left)
        }),
    decreases walk.rank(),
{
    let (reply, answered) = k.answer(walk.wants(), record);
    let (next, left) = walk.after(reply, answered);
    let (next_probe, _) = probe.after(reply, answered);
    lemma_next(k, probe, record, next_probe, left);
    if next.is_done() {
        assert(k.run_walk(next, left) == (next, left));
    } else {
        lemma_file_walk(k, next_probe, next, left);
    }
}

/// The resolution of the binary's path, as a part of a probe.
proof fn lemma_exe_walk(k: Kernel, probe: Probe, walk: PathWalk, record: Seq<u8>)
    requires
        probe.stage == (Stage::ExeWalk { walk }),
        !walk.is_done(),
    ensures
        ({
            let (end, left) = k.run_walk(walk, record);
            k.run(probe, record) == Run {
                last: if end.stage == (WalkStage::Done { len: 0 }) {
                    Action::Discard
                } else {
                    Action::Submit
                },
                record: left,
                signals: Seq::empty(),
            }
        }),
    decreases walk.rank(),
{
    let (reply, answered) = k.answer(walk.wants(), record);
    let (next, left) = walk.after(reply, answered);
    let (next_probe, _) = probe.after(reply, answered);
    lemma_next(k, probe, record, next_probe, left);
    if next.is_done() {
        assert(k.run_walk(next, left) == (next, left));
        lemma_last(k, next_probe, left);
    } else {
        lemma_exe_walk(k, next_probe, next, left);
    }
}

/// From the parent to the binary: the searches, as a part of a probe.
proof fn lemma_header(k: Kernel, probe: Probe, record: Seq<u8>)
    requires
        probe.stage == (Stage::Parent { lookup: PpidLookup::Task }),
    ensures
        k.run(probe, record) == k.run(
            probe.at(
                Stage::ExeWalk { walk: PathWalk::start(k.exe_dentry(), EXE_OFF, PATH_BUF_SIZE) },
            ),
            with_header(record, probe.op, probe.pid, k.ppid(), k.cgroup_id),
        ),
{
    let written = with_header(record, probe.op, probe.pid, k.ppid(), k.cgroup_id);
    let at_cgroup = probe.at(Stage::Cgroup { ppid: k.ppid() });
    let at_exe = probe.at(Stage::Exe { search: ExeLookup::Task });
    lemma_ppid(k, probe, PpidLookup::Task, record);
    law_ppid_is_found(k);
    lemma_next(k, at_cgroup, record, at_exe, written);
    lemma_exe(k, at_exe, ExeLookup::Task, written);
    law_exe_dentry_is_found(k);
}

/// The search for the parent, as a part of a probe.
proof fn lemma_ppid(k: Kernel, probe: Probe, lookup: PpidLookup, record: Seq<u8>)
    requires
        probe.stage == (Stage::Parent { lookup }),
        !(lookup is Done),
    ensures
        k.run_ppid(lookup) matches PpidLookup::Done { ppid } && k.run(probe, record) == k.run(
            probe.at(Stage::Cgroup { ppid }),
            record,
        ),
    decreases lookup.rank(),
{
    let (reply, answered) = k.answer(lookup.wants(), record);
    assert(reply == k.answer(lookup.wants(), Seq::empty()).0);
    let next = lookup.after(reply);
    let (next_probe, _) = probe.after(reply, record);
    lemma_next(k, probe, record, next_probe, record);
    if next is Done {
        assert(k.run_ppid(next) == next);
    } else {
        lemma_ppid(k, next_probe, next, record);
    }
}

/// The search for the binary's dentry, as a part of a probe.
proof fn lemma_exe(k: Kernel, probe: Probe, search: ExeLookup, record: Seq<u8>)
    requires
        probe.stage == (Stage::Exe { search }),
        !(search is Done),
    ensures
        k.run_exe(search) matches ExeLookup::Done { dentry } && k.run(probe, record) == k.run(
            probe.at(Stage::ExeWalk { walk: PathWalk::start(dentry, EXE_OFF, PATH_BUF_SIZE) }),
            record,
        ),
    decreases search.rank(),
{
    let (reply, answered) = k.answer(search.wants(), record);
    assert(reply == k.answer(search.wants(), Seq::empty()).0);
    let next = search.after(reply);
    let (next_probe, _) = probe.after(reply, record);
    lemma_next(k, probe, record, next_probe, record);
    if next is Done {
        assert(k.run_exe(next) == next);
    } else {
        lemma_exe(k, next_probe, next, record);
    }
}

/// What a probe comes to once there is nothing to report.
proof fn lemma_dropped(k: Kernel, probe: Probe, record: Seq<u8>)
    requires
        probe.reserved == k.has_room,
    ensures
        k.reports_nothing(k.run(probe.dropped(), record)),
        k.run(probe.dropped(), record).signals == Seq::<u32>::empty(),
{
    lemma_last(k, probe.dropped(), record);
}

/// What a probe comes to once it has the file's path and enforcement is behind
/// it.
proof fn lemma_report(k: Kernel, probe: Probe, record: Seq<u8>, tail: Option<u64>)
    requires
        Event::SIZE <= record.len() <= usize::MAX,
        probe.reserved == k.has_room,
    ensures
        ({
            let run = k.run(probe.reported(record, tail), record);
            let path = cstr_text(file_area(record));
            &&& run.signals == Seq::<u32>::empty()
            &&& if k.has_room && path.len() < PATH_BUF_SIZE && !k.is_cut(record, tail)
                && k.exe_path() is Some {
                &&& run.last is Submit
                &&& carries(
                    run.record,
                    probe.op,
                    probe.pid,
                    k.ppid(),
                    k.cgroup_id,
                    cstr_text(k.exe_path()->0.push(0u8)),
                    path,
                )
            } else {
                k.reports_nothing(run)
            }
        }),
{
    law_cstr_end(file_area(record), cstr_end(file_area(record)));
    let start = probe.reported(record, tail);
    if let Stage::PathEnd { .. } = start.stage {
        let next = if k.is_cut(record, tail) {
            probe.dropped()
        } else {
            probe.at(Stage::Parent { lookup: PpidLookup::Task })
        };
        lemma_next(k, start, record, next, record);
    }
    if k.has_room && cstr_end(file_area(record)) < PATH_BUF_SIZE && !k.is_cut(record, tail) {
        let at_parent = probe.at(Stage::Parent { lookup: PpidLookup::Task });
        lemma_header(k, at_parent, record);
        let written = with_header(record, probe.op, probe.pid, k.ppid(), k.cgroup_id);
        law_header_leaves_the_paths(record, probe.op, probe.pid, k.ppid(), k.cgroup_id);
        let walk = PathWalk::start(k.exe_dentry(), EXE_OFF, PATH_BUF_SIZE);
        lemma_exe_walk(k, at_parent.at(Stage::ExeWalk { walk }), walk, written);
        law_walk_resolves(k, k.exe_dentry(), EXE_OFF, PATH_BUF_SIZE, written);
        let (end, left) = k.run_walk(walk, written);
        if let Some(exe) = k.exe_path() {
            lemma_carried(
                record,
                written,
                left,
                probe.op,
                probe.pid,
                k.ppid(),
                k.cgroup_id,
                exe,
            );
        }
    } else {
        lemma_dropped(k, probe, record);
    }
}

/// A record that was given a header, and then the path of the binary, carries
/// them, and the path of the file that stood in it before.
proof fn lemma_carried(
    record: Seq<u8>,
    written: Seq<u8>,
    left: Seq<u8>,
    op: FileOp,
    pid: u32,
    ppid: u32,
    cgroup_id: u64,
    exe: Seq<u8>,
)
    requires
        record.len() >= Event::SIZE,
        written == with_header(record, op, pid, ppid, cgroup_id),
        left.len() == written.len(),
        left.take(EXE_OFF as int) == written.take(EXE_OFF as int),
        left.skip(EXE_OFF + PATH_BUF_SIZE) == written.skip(EXE_OFF + PATH_BUF_SIZE),
        exe.len() < PATH_BUF_SIZE,
        left.subrange(EXE_OFF as int, EXE_OFF + exe.len() + 1) == exe.push(0u8),
    ensures
        carries(
            left,
            op,
            pid,
            ppid,
            cgroup_id,
            cstr_text(exe.push(0u8)),
            cstr_text(file_area(record)),
        ),
{
    law_header_leaves_the_paths(record, op, pid, ppid, cgroup_id);
    lemma_header_reads(record, op, pid, ppid, cgroup_id);
    let head = EXE_OFF as int;
    assert(left[OP_OFF as int] == left.take(head)[OP_OFF as int]);
    assert(written[OP_OFF as int] == written.take(head)[OP_OFF as int]);
    lemma_same_part(left, written, head, PID_OFF as int, PID_OFF + 4);
    lemma_same_part(left, written, head, PPID_OFF as int, PPID_OFF + 4);
    lemma_same_part(left, written, head, CGROUP_OFF as int, CGROUP_OFF + 8);
    assert(file_area(left) =~= left.skip(EXE_OFF + PATH_BUF_SIZE).take(PATH_BUF_SIZE as int));
    assert(file_area(written) =~= written.skip(EXE_OFF + PATH_BUF_SIZE).take(PATH_BUF_SIZE as int));
    assert(exe_area(left).take(exe.len() as int + 1) =~= exe.push(0u8));
    lemma_same_text(exe, exe_area(left));
}

/// Parts of equal beginnings are equal.
proof fn lemma_same_part(a: Seq<u8>, b: Seq<u8>, head: int, from: int, to: int)
    requires
        a.len() == b.len(),
        0 <= from <= to <= head <= a.len(),
        a.take(head) == b.take(head),
    ensures
        a.subrange(from, to) == b.subrange(from, to),
{
    assert(a.subrange(from, to) =~= a.take(head).subrange(from, to));
    assert(b.subrange(from, to) =~= b.take(head).subrange(from, to));
}

/// What follows the NUL has no part in the string.
proof fn lemma_same_text(text: Seq<u8>, buf: Seq<u8>)
    requires
        text.len() < buf.len(),
        buf.take(text.len() as int + 1) == text.push(0u8),
    ensures
        cstr_text(buf) == cstr_text(text.push(0u8)),
        cstr_text(buf).len() <= text.len(),
{
    let short = text.push(0u8);
    let end = cstr_end(short);
    law_cstr_end(short, end);
    assert(short[text.len() as int] == 0);
    assert(end <= text.len());
    assert forall|i: int| 0 <= i <= text.len() implies buf[i] == short[i] by {
        assert(buf[i] == buf.take(text.len() as int + 1)[i]);
    }
    law_cstr_end(buf, end);
    assert(cstr_text(buf) =~= cstr_text(short));
}

/// What a probe comes to once it has the file's path, or the start of it.
proof fn lemma_judge(k: Kernel, probe: Probe, record: Seq<u8>, tail: Option<u64>, path: Seq<u8>)
    requires
        Event::SIZE <= record.len() <= usize::MAX,
        probe.pid == pid_of(k.pid_tgid),
        probe.reserved == k.has_room,
        ({
            let seen = cstr_text(file_area(record));
            &&& enforced_bytes(seen) == enforced_bytes(path)
            &&& monitored_bytes(seen) == monitored_bytes(path)
            &&& if seen.len() < PATH_BUF_SIZE && !k.is_cut(record, tail) {
                seen == path
            } else {
                path.len() >= PATH_BUF_SIZE
            }
        }),
    ensures
        k.deals_with(k.run(probe.judged(record, tail), record), probe.op, path),
{
    lemma_report(k, probe, record, tail);
    let seen = cstr_text(file_area(record));
    law_cstr_end(file_area(record), cstr_end(file_area(record)));
    if enforced_bytes(path) {
        law_enforced_bytes_are_monitored(path);
        let rest = k.run(probe.reported(record, tail), record);
        let at_kill = probe.at(Stage::Kill { tail });
        assert(at_kill.reported(record, tail) == probe.reported(record, tail));
        let run = k.run(at_kill, record);
        reveal_with_fuel(Kernel::run, 1);
        assert(run == Run { signals: seq![SIGKILL] + rest.signals, ..rest });
        assert(seq![SIGKILL] + rest.signals =~= seq![SIGKILL]);
    } else if !monitored_bytes(path) {
        lemma_dropped(k, probe, record);
    }
}

/// The probes on functions that receive the file: they leave the observer
/// alone, and files that are not regular. Else they deal with the file's path,
/// if it can be resolved; if not, nothing is terminated and nothing is
/// submitted.
pub proof fn law_probe_on_arguments(
    k: Kernel,
    op: FileOp,
    target_is_file: bool,
    record: Seq<u8>,
)
    requires
        Event::SIZE <= record.len() <= usize::MAX,
    ensures
        ({
            let run = k.run(emitting(op, target_is_file), record);
            match k.target_dentry(target_is_file) {
                Some(dentry) if !k.is_observer() => match k.resolve(dentry, PATH_BUF_SIZE as nat) {
                    Some(path) => k.deals_with(run, op, cstr_text(path.push(0u8))),
                    None => k.reports_nothing(run) && run.signals == Seq::<u32>::empty(),
                },
                _ => k.leaves(run, record),
            }
        }),
{
    let start = emitting(op, target_is_file);
    let source = if target_is_file {
        Source::File
    } else {
        Source::Dentry
    };
    let probe = Probe { pid: pid_of(k.pid_tgid), ..start.at(Stage::Observer { source }) };
    lemma_next(k, start, record, probe, record);
    let left = probe.at(Stage::Left);
    lemma_last(k, left, record);
    if k.is_observer() {
        lemma_next(k, probe, record, left, record);
    } else if target_is_file {
        lemma_next(k, probe, record, probe.at(Stage::FileArg), record);
        if let Some(file) = k.arguments.get(WRITE_FILE_ARG) {
            let at_inode = probe.at(Stage::FileInode { file });
            lemma_next(k, probe.at(Stage::FileArg), record, at_inode, record);
            if let Some(inode) = k.ptr(file, FILE_F_INODE_OFF) {
                let at_mode = probe.at(Stage::FileMode { file, inode });
                lemma_next(k, at_inode, record, at_mode, record);
                match k.read_number(field_addr(inode, INODE_I_MODE_OFF), 2) {
                    Some(mode) if is_regular(mode) => {
                        let at_dentry = probe.at(Stage::FileDentry { file });
                        lemma_next(k, at_mode, record, at_dentry, record);
                        if let Some(dentry) = k.file_dentry(file) {
                            let target = Target::Dentry { dentry };
                            let at_room = probe.at(Stage::Room { target });
                            lemma_next(k, at_dentry, record, at_room, record);
                            lemma_dentry(k, probe, dentry, record);
                        } else {
                            lemma_next(k, at_dentry, record, left, record);
                        }
                    },
                    _ => {
                        lemma_next(k, at_mode, record, left, record);
                    },
                }
            } else {
                lemma_next(k, at_inode, record, left, record);
            }
        } else {
            lemma_next(k, probe.at(Stage::FileArg), record, left, record);
        }
    } else {
        let at_arg = probe.at(Stage::DentryArg);
        lemma_next(k, probe, record, at_arg, record);
        if let Some(dentry) = k.arguments.get(UNLINK_DENTRY_ARG) {
            let at_room = probe.at(Stage::Room { target: Target::Dentry { dentry } });
            lemma_next(k, at_arg, record, at_room, record);
            lemma_dentry(k, probe, dentry, record);
        } else {
            lemma_next(k, at_arg, record, left, record);
        }
    }
}

/// What a probe comes to once it has the file's dentry.
proof fn lemma_dentry(k: Kernel, probe: Probe, dentry: u64, record: Seq<u8>)
    requires
        Event::SIZE <= record.len() <= usize::MAX,
        probe.pid == pid_of(k.pid_tgid),
    ensures
        ({
            let at_room = probe.at(Stage::Room { target: Target::Dentry { dentry } });
            let run = k.run(at_room, record);
            match k.resolve(dentry, PATH_BUF_SIZE as nat) {
                Some(path) => k.deals_with(run, probe.op, cstr_text(path.push(0u8))),
                None => k.reports_nothing(run) && run.signals == Seq::<u32>::empty(),
            }
        }),
{
    let at_room = probe.at(Stage::Room { target: Target::Dentry { dentry } });
    let walk = PathWalk::start(dentry, FILE_OFF, PATH_BUF_SIZE);
    let at_walk = Probe { reserved: k.has_room, ..probe.at(Stage::FileWalk { walk }) };
    lemma_next(k, at_room, record, at_walk, record);
    lemma_file_walk(k, at_walk, walk, record);
    law_walk_resolves(k, dentry, FILE_OFF, PATH_BUF_SIZE, record);
    let (end, left) = k.run_walk(walk, record);
    if let Some(path) = k.resolve(dentry, PATH_BUF_SIZE as nat) {
        assert(file_area(left).take(path.len() as int + 1) =~= left.subrange(
            FILE_OFF as int,
            FILE_OFF + path.len() + 1,
        ));
        lemma_same_text(path, file_area(left));
        lemma_judge(k, at_walk, left, None, cstr_text(path.push(0u8)));
    } else {
        lemma_dropped(k, at_walk, left);
    }
}

/// The watched directories' names are far shorter than a path area.
proof fn lemma_dirs_are_short()
    ensures
        encode_utf8(ENFORCED_DIR@).len() < 32,
        forall|i: int| 0 <= i < 3 ==> encode_utf8(#[trigger] MONITORED_DIRS@[i]@).len() < 32,
{
    reveal_strlit("/opt/protected");
    reveal_strlit("/var/secure");
    reveal_strlit("/home/secure_area");
    assert forall|i: int| 0 <= i < 3 implies encode_utf8(#[trigger] MONITORED_DIRS@[i]@).len()
        < 32 by {
        let dir = MONITORED_DIRS@[i]@;
        assert(dir == "/opt/protected"@ || dir == "/var/secure"@ || dir == "/home/secure_area"@);
        assert(is_ascii_chars(dir));
        is_ascii_chars_encode_utf8(dir);
    }
    assert(ENFORCED_DIR@ == MONITORED_DIRS@[1]@);
}

/// The first bytes of a path tell which directories it is under.
proof fn lemma_cut_path(path: Seq<u8>, n: int, dir: Seq<u8>)
    requires
        dir.len() < n <= path.len(),
    ensures
        under(path.take(n), dir, SLASH) == under(path, dir, SLASH),
{
    let prefix = dir.push(SLASH);
    assert(path.take(n).subrange(0, prefix.len() as int) =~= path.subrange(
        0,
        prefix.len() as int,
    ));
}

proof fn lemma_cut_path_is_watched_alike(path: Seq<u8>, n: int)
    requires
        32 <= n <= path.len(),
    ensures
        enforced_bytes(path.take(n)) == enforced_bytes(path),
        monitored_bytes(path.take(n)) == monitored_bytes(path),
{
    lemma_dirs_are_short();
    lemma_cut_path(path, n, encode_utf8(ENFORCED_DIR@));
    assert forall|i: int| 0 <= i < 3 implies under(
        path.take(n),
        encode_utf8(#[trigger] MONITORED_DIRS@[i]@),
        SLASH,
    ) == under(path, encode_utf8(MONITORED_DIRS@[i]@), SLASH) by {
        lemma_cut_path(path, n, encode_utf8(MONITORED_DIRS@[i]@));
    }
}

/// What the start of a string in user memory is.
pub(crate) proof fn lemma_user_start(k: Kernel, addr: int, n: nat)
    ensures
        k.user_start(addr, n) matches Some(start) ==> {
            &&& start.len() <= n
            &&& no_nul(start)
            &&& forall|i: int|
                0 <= i < start.len() ==> k.user_memory.get(#[trigger] (addr + i)) == Some(start[i])
            &&& start.len() < n ==> k.user_memory.get(addr + start.len()) == Some(0u8)
        },
    decreases n,
{
    if n > 0 {
        lemma_user_start(k, addr + 1, (n - 1) as nat);
        if let Some(start) = k.user_start(addr, n) {
            if start.len() > 0 {
                let rest = k.user_start(addr + 1, (n - 1) as nat)->0;
                assert(start =~= seq![k.user_memory[addr]] + rest);
                assert forall|i: int| 0 <= i < start.len() implies start[i] != 0
                    && k.user_memory.get(#[trigger] (addr + i)) == Some(start[i]) by {
                    if i > 0 {
                        assert(start[i] == rest[i - 1]);
                        assert(k.user_memory.get((addr + 1) + (i - 1)) == Some(rest[i - 1]));
                    }
                }
            }
        }
    }
}

/// The start of a string that is known.
proof fn lemma_start_of(k: Kernel, addr: int, text: Seq<u8>, n: nat)
    requires
        no_nul(text),
        forall|i: int|
            0 <= i < text.len() && i < n ==> k.user_memory.get(#[trigger] (addr + i)) == Some(
                text[i],
            ),
        text.len() < n ==> k.user_memory.get(addr + text.len()) == Some(0u8),
    ensures
        k.user_start(addr, n) == Some(
            if text.len() < n {
                text
            } else {
                text.take(n as int)
            },
        ),
    decreases n,
{
    if n == 0 {
        assert(text.take(0) =~= Seq::empty());
    } else if text.len() == 0 {
        assert(text =~= Seq::empty());
    } else {
        let rest = text.drop_first();
        assert(k.user_memory.get(addr + 0) == Some(text[0]));
        assert forall|i: int| 0 <= i < rest.len() && i < n - 1 implies k.user_memory.get(
            #[trigger] ((addr + 1) + i),
        ) == Some(rest[i]) by {
            assert(k.user_memory.get(addr + (i + 1)) == Some(text[i + 1]));
        }
        lemma_start_of(k, addr + 1, rest, (n - 1) as nat);
        let start = k.user_start(addr, n)->0;
        if text.len() < n {
            assert(start =~= text);
        } else {
            assert(start =~= text.take(n as int));
        }
    }
}

/// The probes on open calls that may create their file deal with the raw path
/// of the call, as far as a path area is long, if it can be read so far,
/// whatever comes behind it; if it cannot, nothing is terminated and nothing is
/// submitted. They leave the observer alone.
pub proof fn law_probe_on_create(k: Kernel, name: u64, record: Seq<u8>)
    requires
        k.wf(),
        Event::SIZE <= record.len() <= usize::MAX,
    ensures
        ({
            let run = k.run(creating(name), record);
            if k.is_observer() {
                k.leaves(run, record)
            } else {
                match k.user_start(name as int, PATH_BUF_SIZE as nat) {
                    Some(path) => k.deals_with(run, FileOp::Create, path),
                    None => k.reports_nothing(run) && run.signals == Seq::<u32>::empty(),
                }
            }
        }),
{
    let start = creating(name);
    let source = Source::User { name };
    let probe = Probe { pid: pid_of(k.pid_tgid), ..start.at(Stage::Observer { source }) };
    lemma_next(k, start, record, probe, record);
    if k.is_observer() {
        let left = probe.at(Stage::Left);
        lemma_next(k, probe, record, left, record);
        lemma_last(k, left, record);
    } else {
        let at_room = probe.at(Stage::Room { target: Target::User { name } });
        lemma_next(k, probe, record, at_room, record);
        let at_path = Probe { reserved: k.has_room, ..probe.at(Stage::UserPath { name }) };
        lemma_next(k, at_room, record, at_path, record);
        let (reply, copied) = k.answer(Action::CopyUserPath { from: name }, record);
        let tail = Some(path_tail(name));
        lemma_next(k, at_path, record, at_path.judged(copied, tail), copied);
        lemma_copied_path(k, name, record);
        if let Some(path) = k.user_start(name as int, PATH_BUF_SIZE as nat) {
            lemma_judge(k, at_path, copied, tail, path);
        } else {
            assert(at_path.judged(copied, tail) == at_path.dropped());
            lemma_dropped(k, at_path, copied);
        }
    }
}

/// What the copy of a path from user memory leaves in the path's area.
proof fn lemma_copied_path(k: Kernel, name: u64, record: Seq<u8>)
    requires
        k.wf(),
        record.len() >= Event::SIZE,
    ensures
        ({
            let copied = k.answer(Action::CopyUserPath { from: name }, record).1;
            let seen = cstr_text(file_area(copied));
            &&& copied.len() == record.len()
            &&& match k.user_start(name as int, PATH_BUF_SIZE as nat) {
                Some(path) => {
                    &&& seen.len() < PATH_BUF_SIZE
                    &&& if k.is_cut(copied, Some(path_tail(name))) {
                        path.len() >= PATH_BUF_SIZE
                    } else {
                        seen == path
                    }
                    &&& enforced_bytes(seen) == enforced_bytes(path)
                    &&& monitored_bytes(seen) == monitored_bytes(path)
                },
                None => !enforced_bytes(seen) && !monitored_bytes(seen),
            }
        }),
{
    let copied = k.answer(Action::CopyUserPath { from: name }, record).1;
    let area = file_area(copied);
    lemma_user_start(k, name as int, PATH_BUF_SIZE as nat);
    match k.user_start(name as int, PATH_BUF_SIZE as nat) {
        Some(path) => {
            let kept = k.copied_path(name)->0;
            assert(no_nul(kept));
            assert(area =~= kept.push(0u8) + area.skip(kept.len() as int + 1));
            law_terminated_text(kept, area.skip(kept.len() as int + 1));
            law_cstr_end(area, cstr_end(area));
            let last = PATH_BUF_SIZE - 1;
            if kept.len() == last {
                assert(k.user_memory.dom().contains(name + last)) by {
                    if path.len() == PATH_BUF_SIZE {
                        assert(k.user_memory.get(name + last) == Some(path[last]));
                    }
                }
                assert(path_tail(name) == name + last);
            }
            if path.len() == PATH_BUF_SIZE {
                assert(kept =~= path.take(last));
                lemma_cut_path_is_watched_alike(path, last);
            }
        },
        None => {
            assert(area[0] == 0);
            law_cstr_end(area, 0);
            assert(cstr_text(area) =~= Seq::empty());
            law_relative_path_is_not_watched(Seq::empty());
        },
    }
}

/// A creation is dealt with by its path, however long. Of a long path no more
/// than its start needs to be readable for the process to be terminated.
pub proof fn law_creation_goes_by_its_path(k: Kernel, name: u64, path: Seq<u8>, record: Seq<u8>)
    requires
        k.wf(),
        !k.is_observer(),
        k.is_named(path, name),
        Event::SIZE <= record.len() <= usize::MAX,
    ensures
        k.deals_with(k.run(creating(name), record), FileOp::Create, path),
{
    law_probe_on_create(k, name, record);
    lemma_start_of(k, name as int, path, PATH_BUF_SIZE as nat);
    if path.len() >= PATH_BUF_SIZE {
        lemma_cut_path_is_watched_alike(path, PATH_BUF_SIZE as int);
    }
}

/// An open call is probed as the creation of its file exactly where the
/// address of the path and the flags can be read and the flags allow creation;
/// else nothing is done. `openat2` holds its flags behind a pointer.
pub proof fn law_probe_on_open(k: Kernel, indirect: bool, record: Seq<u8>)
    ensures
        ({
            let run = k.run(opening(indirect), record);
            let flags = match k.fields.get(OPEN_FLAGS_FIELD) {
                Some(how) if indirect => if how == 0 {
                    None
                } else {
                    k.user_number(how)
                },
                flags => flags,
            };
            match (k.fields.get(OPEN_NAME_FIELD), flags) {
                (Some(name), Some(flags)) if may_create(flags) => run == k.run(
                    creating(name),
                    record,
                ),
                _ => k.leaves(run, record),
            }
        }),
{
    let start = opening(indirect);
    let left = start.at(Stage::Left);
    lemma_last(k, left, record);
    if let Some(name) = k.fields.get(OPEN_NAME_FIELD) {
        let second = if indirect {
            start.at(Stage::OpenHow { name })
        } else {
            start.at(Stage::OpenFlags { name })
        };
        lemma_next(k, start, record, second, record);
        let third = second.after(k.fields.get(OPEN_FLAGS_FIELD), record).0;
        lemma_next(k, second, record, third, record);
        if let Stage::OpenHowFlags { how, .. } = third.stage {
            let last = third.after(k.user_number(how), record).0;
            lemma_next(k, third, record, last, record);
        }
    } else {
        lemma_next(k, start, record, left, record);
    }
}

/// The observer is never touched: whatever it does, no signal is sent and no
/// record is submitted.
pub proof fn law_observer_is_left_alone(
    k: Kernel,
    op: FileOp,
    target_is_file: bool,
    indirect: bool,
    record: Seq<u8>,
)
    requires
        k.wf(),
        k.is_observer(),
        Event::SIZE <= record.len() <= usize::MAX,
    ensures
        k.leaves(k.run(emitting(op, target_is_file), record), record),
        k.leaves(k.run(opening(indirect), record), record),
{
    law_probe_on_arguments(k, op, target_is_file, record);
    law_probe_on_open(k, indirect, record);
    if let Some(name) = k.fields.get(OPEN_NAME_FIELD) {
        law_probe_on_create(k, name, record);
    }
}

/// A write, deletion or creation terminates its process exactly where the path
/// can be had and is under the protected directory, and the process is not the
/// observer. Nothing else has a say in it: neither room for a record, nor what
/// can be had of the process.
pub proof fn law_protected_directory_is_enforced(
    k: Kernel,
    op: FileOp,
    target_is_file: bool,
    name: u64,
    record: Seq<u8>,
)
    requires
        k.wf(),
        Event::SIZE <= record.len() <= usize::MAX,
    ensures
        k.run(emitting(op, target_is_file), record).signals == if !k.is_observer() && (
        k.target_path(target_is_file) matches Some(path) && enforced_bytes(path)) {
            seq![SIGKILL]
        } else {
            Seq::empty()
        },
        k.run(creating(name), record).signals == if !k.is_observer() && (k.user_start(
            name as int,
            PATH_BUF_SIZE as nat,
        ) matches Some(path) && enforced_bytes(path)) {
            seq![SIGKILL]
        } else {
            Seq::empty()
        },
{
    law_probe_on_arguments(k, op, target_is_file, record);
    law_probe_on_create(k, name, record);
}

/// What user space reads from a record that carries an event.
pub proof fn law_carried_event(
    record: Seq<u8>,
    op: FileOp,
    pid: u32,
    ppid: u32,
    cgroup_id: u64,
    exe: Seq<u8>,
    file: Seq<u8>,
    event: Event,
)
    requires
        carries(record, op, pid, ppid, cgroup_id, exe, file),
        event.stands_in(record),
    ensures
        event.op == op.byte(),
        event.pid == pid,
        event.ppid == ppid,
        event.cgroup_id == cgroup_id,
        cstr_text(event.exe_path@) == exe,
        cstr_text(event.file_path@) == file,
{
}

/// What user space prints for a record that carries an event.
pub proof fn law_carried_line(
    record: Seq<u8>,
    op: FileOp,
    pid: u32,
    ppid: u32,
    cgroup_id: u64,
    exe: Seq<u8>,
    file: Seq<u8>,
)
    requires
        carries(record, op, pid, ppid, cgroup_id, exe, file),
    ensures
        item_line(record) == event_line(
            op.byte(),
            pid,
            ppid,
            cgroup_id,
            utf8_lossy(exe),
            utf8_lossy(file),
        ),
{
}

/// What a probe submits, user space shows.
pub proof fn law_submitted_is_shown(
    k: Kernel,
    op: FileOp,
    target_is_file: bool,
    indirect: bool,
    record: Seq<u8>,
)
    requires
        k.wf(),
        Event::SIZE <= record.len() <= usize::MAX,
    ensures
        ({
            let run = k.run(emitting(op, target_is_file), record);
            run.last is Submit ==> is_shown(run.record)
        }),
        ({
            let run = k.run(opening(indirect), record);
            run.last is Submit ==> is_shown(run.record)
        }),
{
    law_probe_on_arguments(k, op, target_is_file, record);
    law_probe_on_open(k, indirect, record);
    if let Some(name) = k.fields.get(OPEN_NAME_FIELD) {
        law_probe_on_create(k, name, record);
    }
}

} // verus!
