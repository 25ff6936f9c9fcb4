//! The probes, run against a pretended kernel.

use std::collections::HashMap;

use graph::event::{EXE_OFF, FILE_OFF};
use graph::probe::{O_CREAT, SIGKILL};
use graph::task::{current_exe_dentry, current_ppid, ExeLookup, PpidLookup};
use graph::walk::{build_path, PathWalk, WalkStage};
use graph::{
    cstr, cstr_bytes, display_item, graph_unlink, graph_write, is_monitored, openat2_create,
    openat_create, Action, Event, FileOp, Probe, PATH_BUF_SIZE, RESERVED_SIZE,
};

const FILE: u64 = 0x1_0000;
const INODE: u64 = 0x2_0000;
const TASK: u64 = 0x3_0000;
const PARENT: u64 = 0x4_0000;
const MM: u64 = 0x5_0000;
const EXE_FILE: u64 = 0x6_0000;
const SB: u64 = 0x7_0000;
const ROOT: u64 = 0x8_0000;
const USER_NAME: u64 = 0x9_0000;
const USER_HOW: u64 = 0xa_0000;
const FIRST_DENTRY: u64 = 0x10_0000;
const FIRST_NAME: u64 = 0x100_0000;

/// A kernel that answers what probes ask for.
struct Machine {
    memory: HashMap<u64, u8>,
    pid_tgid: u64,
    observer: Option<u32>,
    arguments: HashMap<u64, u64>,
    fields: HashMap<u64, u64>,
    user_memory: HashMap<u64, u8>,
    has_room: bool,
    next_dentry: u64,
    next_name: u64,
}

/// What a probe came to.
struct Outcome {
    last: Action,
    record: Vec<u8>,
    signals: Vec<u32>,
    asked: Vec<Action>,
}

impl Machine {
    /// A process 1234, child of 1, run from /usr/bin/dash.
    fn new() -> Machine {
        let mut machine = Machine {
            memory: HashMap::new(),
            pid_tgid: (1234 << 32) | 77,
            observer: Some(4321),
            arguments: HashMap::new(),
            fields: HashMap::new(),
            user_memory: HashMap::new(),
            has_room: true,
            next_dentry: FIRST_DENTRY,
            next_name: FIRST_NAME,
        };
        machine.put(SB + 0x68, &ROOT.to_le_bytes());
        machine.put(ROOT + 0x68, &SB.to_le_bytes());
        machine.put(TASK + 0x990, &PARENT.to_le_bytes());
        machine.put(PARENT + 0x984, &1u32.to_le_bytes());
        machine.put(TASK + 0x900, &MM.to_le_bytes());
        machine.put(MM + 0x488, &EXE_FILE.to_le_bytes());
        let exe = machine.add_path("/usr/bin/dash");
        machine.put(EXE_FILE + 0x40 + 0x08, &exe.to_le_bytes());
        machine
    }

    fn put(&mut self, addr: u64, bytes: &[u8]) {
        for (i, byte) in bytes.iter().enumerate() {
            self.memory.insert(addr + i as u64, *byte);
        }
    }

    fn forget(&mut self, addr: u64) {
        self.memory.remove(&addr);
    }

    /// A new dentry with this name under `parent`.
    fn add_dentry(&mut self, parent: u64, name: &[u8]) -> u64 {
        let dentry = self.next_dentry;
        self.next_dentry += 0x100;
        let at = self.next_name;
        self.next_name += 0x1000;
        self.put(at, name);
        self.put(dentry + 0x68, &SB.to_le_bytes());
        self.put(dentry + 0x18, &parent.to_le_bytes());
        self.put(dentry + 0x20 + 0x08, &at.to_le_bytes());
        self.put(dentry + 0x20 + 0x04, &(name.len() as u32).to_le_bytes());
        dentry
    }

    /// The dentry of a new file at this absolute path.
    fn add_path(&mut self, path: &str) -> u64 {
        let mut dentry = ROOT;
        for name in path.split('/').skip(1) {
            dentry = self.add_dentry(dentry, name.as_bytes());
        }
        dentry
    }

    /// A write to a file of this mode at this path.
    fn write_to(&mut self, path: &str, mode: u16) {
        let dentry = self.add_path(path);
        self.put(FILE + 0x28, &INODE.to_le_bytes());
        self.put(INODE, &mode.to_le_bytes());
        self.put(FILE + 0x40 + 0x08, &dentry.to_le_bytes());
        self.arguments.insert(0, FILE);
    }

    fn put_user(&mut self, addr: u64, bytes: &[u8]) {
        for (i, byte) in bytes.iter().enumerate() {
            self.user_memory.insert(addr + i as u64, *byte);
        }
    }

    fn open(&mut self, path: &[u8], flags: u64) {
        self.put_user(USER_NAME, path);
        self.put_user(USER_NAME + path.len() as u64, &[0]);
        self.fields.insert(24, USER_NAME);
        self.fields.insert(32, flags);
    }

    fn read(&self, addr: u64, len: usize) -> Option<Vec<u8>> {
        let mut bytes = Vec::new();
        for i in 0..len {
            bytes.push(*self.memory.get(&(addr + i as u64))?);
        }
        Some(bytes)
    }

    fn number(&self, addr: u64, len: usize) -> Option<u64> {
        let mut wide = [0u8; 8];
        wide[..len].copy_from_slice(&self.read(addr, len)?);
        Some(u64::from_le_bytes(wide))
    }

    fn answer(&self, action: Action, record: &mut [u8]) -> Option<u64> {
        match action {
            Action::PidTgid => Some(self.pid_tgid),
            Action::Observer => self.observer.map(u64::from),
            Action::Argument { index } => self.arguments.get(&index).copied(),
            Action::Field { offset } => self.fields.get(&offset).copied(),
            Action::ReadUser { addr } => {
                let mut word = [0u8; 8];
                for (i, byte) in word.iter_mut().enumerate() {
                    *byte = *self.user_memory.get(&(addr + i as u64))?;
                }
                Some(u64::from_le_bytes(word))
            }
            Action::ReadUserByte { addr } => self.user_memory.get(&addr).map(|b| u64::from(*b)),
            Action::ReadPtr { addr } => self.number(addr, 8),
            Action::ReadU16 { addr } => self.number(addr, 2),
            Action::ReadU32 { addr } => self.number(addr, 4),
            Action::Reserve => {
                if self.has_room {
                    Some(0)
                } else {
                    None
                }
            }
            Action::CopyName { from, at, len } => {
                let name = self.read(from, len)?;
                record[at..at + len].copy_from_slice(&name);
                Some(0)
            }
            Action::CopyUserPath { from } => {
                let area = &mut record[FILE_OFF..FILE_OFF + PATH_BUF_SIZE];
                for i in 0..PATH_BUF_SIZE {
                    match self.user_memory.get(&(from + i as u64)) {
                        Some(0) => {
                            area[i] = 0;
                            return Some(i as u64);
                        }
                        Some(byte) => area[i] = *byte,
                        None => {
                            area.fill(0);
                            return None;
                        }
                    }
                }
                area[PATH_BUF_SIZE - 1] = 0;
                Some(PATH_BUF_SIZE as u64 - 1)
            }
            Action::Signal { .. } => Some(0),
            Action::CurrentTask => Some(TASK),
            Action::CgroupId => Some(16761),
            Action::Leave | Action::Discard | Action::Submit => None,
        }
    }

    fn run(&self, probe: Probe) -> Outcome {
        self.run_in(probe, RESERVED_SIZE)
    }

    fn run_in(&self, mut probe: Probe, size: usize) -> Outcome {
        // What a record held before must not matter.
        let mut record = vec![0xaau8; size];
        let mut signals = Vec::new();
        let mut asked = Vec::new();
        loop {
            let action = probe.action();
            asked.push(action);
            match action {
                Action::Leave | Action::Discard | Action::Submit => {
                    return Outcome {
                        last: action,
                        record,
                        signals,
                        asked,
                    };
                }
                Action::Signal { signal } => signals.push(signal),
                _ => {}
            }
            let reply = self.answer(action, &mut record);
            probe.step(reply, &mut record);
        }
    }

    fn walk(&self, mut walk: PathWalk, record: &mut [u8]) -> usize {
        loop {
            if let WalkStage::Done { len } = walk.stage {
                return len;
            }
            let reply = self.answer(walk.action(), record);
            walk.step(reply, record);
        }
    }
}

const REGULAR: u16 = 0o100644;

fn event_of(outcome: &Outcome) -> Event {
    assert_eq!(outcome.last, Action::Submit);
    Event::from_bytes(&outcome.record[..Event::SIZE]).unwrap()
}

#[test]
fn write_under_protected_dir_terminates_and_reports() {
    let mut machine = Machine::new();
    machine.write_to("/var/secure/evil", REGULAR);
    let outcome = machine.run(graph_write());
    assert_eq!(outcome.signals, vec![SIGKILL]);
    let event = event_of(&outcome);
    assert_eq!(event.op, FileOp::Write.to_u8());
    assert_eq!(event.pid, 1234);
    assert_eq!(event.ppid, 1);
    assert_eq!(event.cgroup_id, 16761);
    assert_eq!(cstr(&event.exe_path), "/usr/bin/dash");
    assert_eq!(cstr(&event.file_path), "/var/secure/evil");
}

#[test]
fn signal_comes_before_the_rest_of_the_record() {
    let mut machine = Machine::new();
    machine.write_to("/var/secure/evil", REGULAR);
    let asked = machine.run(graph_write()).asked;
    let signal = asked
        .iter()
        .position(|a| *a == Action::Signal { signal: SIGKILL })
        .unwrap();
    let task = asked.iter().position(|a| *a == Action::CurrentTask).unwrap();
    assert!(signal < task);
}

#[test]
fn monitored_dir_only_reports() {
    let mut machine = Machine::new();
    machine.write_to("/home/secure_area/note", REGULAR);
    let outcome = machine.run(graph_write());
    assert!(outcome.signals.is_empty());
    assert_eq!(cstr(&event_of(&outcome).file_path), "/home/secure_area/note");
}

#[test]
fn benign_path_is_neither_reported_nor_terminated() {
    for path in ["/tmp/benign", "/var/secure_2", "/var", "/opt/protected2/x"] {
        let mut machine = Machine::new();
        machine.write_to(path, REGULAR);
        let outcome = machine.run(graph_write());
        assert_eq!(outcome.last, Action::Discard);
        assert!(outcome.signals.is_empty());
    }
}

#[test]
fn delete_is_reported_and_enforced() {
    let mut machine = Machine::new();
    let dentry = machine.add_path("/var/secure/gone");
    machine.arguments.insert(2, dentry);
    let outcome = machine.run(graph_unlink());
    assert_eq!(outcome.signals, vec![SIGKILL]);
    let event = event_of(&outcome);
    assert_eq!(event.op, FileOp::Delete.to_u8());
    assert_eq!(cstr(&event.file_path), "/var/secure/gone");

    machine.arguments.clear();
    assert_eq!(machine.run(graph_unlink()).last, Action::Leave);
}

#[test]
fn create_is_reported_and_enforced() {
    let mut machine = Machine::new();
    machine.open(b"/var/secure/evil", u64::from(O_CREAT) | 1);
    let outcome = machine.run(openat_create());
    assert_eq!(outcome.signals, vec![SIGKILL]);
    let event = event_of(&outcome);
    assert_eq!(event.op, FileOp::Create.to_u8());
    assert_eq!(event.pid, 1234);
    assert_eq!(cstr(&event.exe_path), "/usr/bin/dash");
    assert_eq!(cstr(&event.file_path), "/var/secure/evil");

    machine.open(b"/opt/protected/a", u64::from(O_CREAT));
    let outcome = machine.run(openat_create());
    assert!(outcome.signals.is_empty());
    assert_eq!(cstr(&event_of(&outcome).file_path), "/opt/protected/a");
}

#[test]
fn open_without_creation_is_ignored() {
    let mut machine = Machine::new();
    machine.open(b"/var/secure/evil", 0o2);
    assert_eq!(machine.run(openat_create()).last, Action::Leave);
    // Only the lower half of the field holds flags.
    machine.open(b"/var/secure/evil", u64::from(O_CREAT) << 32);
    assert_eq!(machine.run(openat_create()).last, Action::Leave);
    machine.fields.remove(&32);
    assert_eq!(machine.run(openat_create()).last, Action::Leave);
    machine.fields.remove(&24);
    assert_eq!(machine.run(openat_create()).last, Action::Leave);
}

#[test]
fn openat2_takes_its_flags_from_user_memory() {
    let mut machine = Machine::new();
    machine.open(b"/home/secure_area/x", USER_HOW);
    machine.put_user(USER_HOW, &u64::from(O_CREAT).to_le_bytes());
    let outcome = machine.run(openat2_create());
    assert_eq!(cstr(&event_of(&outcome).file_path), "/home/secure_area/x");

    machine.put_user(USER_HOW, &[0; 8]);
    assert_eq!(machine.run(openat2_create()).last, Action::Leave);
    machine.put_user(USER_HOW, &u64::from(O_CREAT).to_le_bytes());
    machine.user_memory.remove(&(USER_HOW + 7));
    assert_eq!(machine.run(openat2_create()).last, Action::Leave);
    machine.fields.insert(32, 0);
    machine.put_user(0, &u64::from(O_CREAT).to_le_bytes());
    assert_eq!(machine.run(openat2_create()).last, Action::Leave);
}

#[test]
fn relative_or_unreadable_create_path_is_discarded() {
    let mut machine = Machine::new();
    machine.open(b"var/secure/evil", u64::from(O_CREAT));
    let outcome = machine.run(openat_create());
    assert_eq!(outcome.last, Action::Discard);
    assert!(outcome.signals.is_empty());
    machine.user_memory.clear();
    let outcome = machine.run(openat_create());
    assert_eq!(outcome.last, Action::Discard);
    assert!(outcome.signals.is_empty());
}

#[test]
fn create_path_is_reported_only_if_it_fits() {
    let mut path = b"/var/secure/".to_vec();
    path.resize(PATH_BUF_SIZE - 1, b'a');
    let mut machine = Machine::new();
    machine.open(&path, u64::from(O_CREAT));
    let outcome = machine.run(openat_create());
    assert_eq!(outcome.signals, vec![SIGKILL]);
    assert_eq!(cstr_bytes(&event_of(&outcome).file_path), &path[..]);

    // One byte more, and many more: the process is terminated all the same,
    // but no part of the path passes for the whole.
    for len in [PATH_BUF_SIZE, PATH_BUF_SIZE + 1, 3000] {
        path.resize(len, b'a');
        machine.open(&path, u64::from(O_CREAT));
        let outcome = machine.run(openat_create());
        assert_eq!(outcome.signals, vec![SIGKILL]);
        assert_eq!(outcome.last, Action::Discard);
    }
}

#[test]
fn start_of_a_create_path_is_enough_for_enforcement() {
    let mut path = b"/var/secure/".to_vec();
    path.resize(3000, b'a');
    for readable in [PATH_BUF_SIZE, PATH_BUF_SIZE + 1, 2 * PATH_BUF_SIZE - 1] {
        for dir in [&b"/var/secure/"[..], &b"/opt/protected/"[..], &b"/tmp/of/anyone/"[..]] {
            path[..dir.len()].copy_from_slice(dir);
            let mut machine = Machine::new();
            machine.open(&path, u64::from(O_CREAT));
            for i in readable..path.len() + 1 {
                machine.user_memory.remove(&(USER_NAME + i as u64));
            }
            let outcome = machine.run(openat_create());
            assert_eq!(outcome.signals.len(), usize::from(dir == b"/var/secure/"));
            assert_eq!(outcome.last, Action::Discard);
        }
    }

    // Less than that cannot be copied.
    let mut machine = Machine::new();
    path[..12].copy_from_slice(b"/var/secure/");
    machine.put_user(USER_NAME, &path[..PATH_BUF_SIZE - 1]);
    machine.fields.insert(24, USER_NAME);
    machine.fields.insert(32, u64::from(O_CREAT));
    let outcome = machine.run(openat_create());
    assert!(outcome.signals.is_empty());
    assert_eq!(outcome.last, Action::Discard);
}

#[test]
fn end_of_a_create_path_is_looked_into_only_after_enforcement() {
    let mut path = b"/var/secure/".to_vec();
    path.resize(PATH_BUF_SIZE - 1, b'a');
    let mut machine = Machine::new();
    machine.open(&path, u64::from(O_CREAT));
    let asked = machine.run(openat_create()).asked;
    let end = Action::ReadUserByte {
        addr: USER_NAME + PATH_BUF_SIZE as u64 - 1,
    };
    let signal = asked
        .iter()
        .position(|a| *a == Action::Signal { signal: SIGKILL })
        .unwrap();
    assert_eq!(asked[signal + 1], end);
    assert_eq!(asked.last(), Some(&Action::Submit));

    // A shorter path ends in its area for certain.
    path.pop();
    machine.open(&path, u64::from(O_CREAT));
    assert!(!machine.run(openat_create()).asked.contains(&end));
}

#[test]
fn slack_is_of_no_use_to_a_create_path() {
    // The same record without the slack: a path that was cut is not reported.
    let mut path = b"/opt/protected/".to_vec();
    path.resize(300, b'a');
    let mut machine = Machine::new();
    machine.open(&path, u64::from(O_CREAT));
    assert_eq!(machine.run_in(openat_create(), Event::SIZE).last, Action::Discard);
    path.truncate(PATH_BUF_SIZE - 1);
    machine.open(&path, u64::from(O_CREAT));
    assert_eq!(machine.run_in(openat_create(), Event::SIZE).last, Action::Submit);
}

#[test]
fn observer_is_left_alone() {
    let mut machine = Machine::new();
    machine.observer = Some(1234);
    machine.write_to("/var/secure/evil", REGULAR);
    let dentry = machine.add_path("/var/secure/gone");
    machine.arguments.insert(2, dentry);
    machine.open(b"/var/secure/evil", u64::from(O_CREAT));
    for probe in [graph_write(), graph_unlink(), openat_create()] {
        let outcome = machine.run(probe);
        assert_eq!(outcome.last, Action::Leave);
        assert!(outcome.signals.is_empty());
        assert_eq!(outcome.record, vec![0xaau8; RESERVED_SIZE]);
    }
    // Without an observer nobody is left alone.
    machine.observer = None;
    assert_eq!(machine.run(graph_write()).last, Action::Submit);
}

#[test]
fn only_regular_files_are_watched_for_writes() {
    for mode in [0o010644, 0o020620, 0o140755, 0o040755, 0o120777] {
        let mut machine = Machine::new();
        machine.write_to("/var/secure/pipe", mode);
        let outcome = machine.run(graph_write());
        assert_eq!(outcome.last, Action::Leave);
        assert!(outcome.signals.is_empty());
    }
    let mut machine = Machine::new();
    machine.write_to("/var/secure/f", REGULAR);
    machine.forget(INODE);
    assert_eq!(machine.run(graph_write()).last, Action::Leave);
    machine.forget(FILE + 0x28);
    assert_eq!(machine.run(graph_write()).last, Action::Leave);
    machine.arguments.clear();
    assert_eq!(machine.run(graph_write()).last, Action::Leave);
}

#[test]
fn full_ring_buffer_stops_reports_but_not_enforcement() {
    let mut machine = Machine::new();
    machine.has_room = false;
    machine.write_to("/var/secure/evil", REGULAR);
    let dentry = machine.add_path("/var/secure/gone");
    machine.arguments.insert(2, dentry);
    machine.open(b"/var/secure/evil", u64::from(O_CREAT));
    for probe in [graph_write(), graph_unlink(), openat_create()] {
        let outcome = machine.run(probe);
        assert_eq!(outcome.signals, vec![SIGKILL]);
        assert_eq!(outcome.last, Action::Leave);
        // Without a record there is no more to ask about the process.
        assert!(!outcome.asked.contains(&Action::CurrentTask));
        assert!(!outcome.asked.contains(&Action::CgroupId));
    }

    machine.write_to("/opt/protected/a", REGULAR);
    machine.open(b"/home/secure_area/a", u64::from(O_CREAT));
    for probe in [graph_write(), openat_create()] {
        let outcome = machine.run(probe);
        assert!(outcome.signals.is_empty());
        assert_eq!(outcome.last, Action::Leave);
    }

    machine.write_to("/tmp/x", REGULAR);
    machine.user_memory.clear();
    for probe in [graph_write(), openat_create()] {
        let outcome = machine.run(probe);
        assert!(outcome.signals.is_empty());
        assert_eq!(outcome.last, Action::Leave);
    }
}

#[test]
fn full_ring_buffer_leaves_the_observer_alone() {
    let mut machine = Machine::new();
    machine.has_room = false;
    machine.observer = Some(1234);
    machine.write_to("/var/secure/evil", REGULAR);
    let outcome = machine.run(graph_write());
    assert!(outcome.signals.is_empty());
    assert_eq!(outcome.last, Action::Leave);
}

#[test]
fn reserved_record_is_settled() {
    // Unresolved, unwatched, too long or complete: what was reserved is given
    // back or submitted.
    let mut machine = Machine::new();
    machine.write_to("/tmp/x", REGULAR);
    machine.arguments.insert(2, 0xdead);
    machine.open(&[b'/'; 400], u64::from(O_CREAT));
    for probe in [graph_write(), graph_unlink(), openat_create()] {
        let outcome = machine.run(probe);
        assert!(outcome.asked.contains(&Action::Reserve));
        assert_eq!(outcome.last, Action::Discard);
    }
    machine.write_to("/opt/protected/x", REGULAR);
    let asked = machine.run(graph_write()).asked;
    assert_eq!(asked.iter().filter(|a| **a == Action::Reserve).count(), 1);
    assert_eq!(asked.last(), Some(&Action::Submit));
}

#[test]
fn enforcement_does_not_depend_on_the_binary() {
    let mut machine = Machine::new();
    machine.write_to("/var/secure/evil", REGULAR);
    machine.forget(TASK + 0x900);
    let outcome = machine.run(graph_write());
    assert_eq!(outcome.signals, vec![SIGKILL]);
    assert_eq!(outcome.last, Action::Discard);
}

#[test]
fn unknown_parent_is_zero() {
    let mut machine = Machine::new();
    machine.write_to("/opt/protected/a", REGULAR);
    machine.forget(PARENT + 0x984);
    assert_eq!(event_of(&machine.run(graph_write())).ppid, 0);
    machine.forget(TASK + 0x990);
    assert_eq!(event_of(&machine.run(graph_write())).ppid, 0);
}

#[test]
fn submitted_record_is_shown() {
    let mut machine = Machine::new();
    let dentry = machine.add_path("/var/secure");
    let odd = machine.add_dentry(dentry, b"\xff\xfe");
    machine.arguments.insert(2, odd);
    let outcome = machine.run(graph_unlink());
    let event = event_of(&outcome);
    assert_eq!(cstr(&event.file_path), "");
    assert_eq!(cstr_bytes(&event.file_path), b"/var/secure/\xff\xfe");
    let line = display_item(&outcome.record).unwrap();
    assert!(line.starts_with("[delete] pid=1234 "));
    assert!(line.ends_with(" path=/var/secure/\u{fffd}\u{fffd}"));
}

#[test]
fn searches_find_parent_and_binary() {
    let machine = Machine::new();
    let mut ppid = current_ppid();
    for _ in 0..3 {
        ppid = ppid.step(machine.answer(ppid.action(), &mut []));
    }
    assert_eq!(ppid, PpidLookup::Done { ppid: 1 });
    assert_eq!(ppid.action(), Action::Leave);
    assert_eq!(ppid.step(Some(7)), ppid);

    let mut exe = current_exe_dentry();
    for _ in 0..4 {
        exe = exe.step(machine.answer(exe.action(), &mut []));
    }
    let ExeLookup::Done { dentry } = exe else {
        panic!("the search goes on");
    };
    let mut buf = [0u8; 32];
    assert_eq!(machine.walk(build_path(dentry, 0, 32), &mut buf), 14);
    assert_eq!(&buf[..14], b"/usr/bin/dash\0");
}

#[test]
fn walk_writes_the_path_and_nothing_else() {
    let mut machine = Machine::new();
    let dentry = machine.add_path("/var/secure/sub/f");
    let mut record = vec![0xaau8; 64];
    assert_eq!(machine.walk(build_path(dentry, 8, 40), &mut record), 18);
    assert_eq!(&record[8..26], b"/var/secure/sub/f\0");
    assert!(record[..8].iter().all(|b| *b == 0xaa));
    assert!(record[48..].iter().all(|b| *b == 0xaa));
}

#[test]
fn walk_of_the_root() {
    let machine = Machine::new();
    let mut buf = [0xaau8; 4];
    assert_eq!(machine.walk(build_path(ROOT, 1, 2), &mut buf), 2);
    assert_eq!(buf, [0xaa, b'/', 0, 0xaa]);
    assert_eq!(machine.walk(build_path(ROOT, 0, 1), &mut buf), 0);
    assert_eq!(machine.walk(build_path(ROOT, 0, 0), &mut buf), 0);
}

#[test]
fn walk_needs_room_for_all_of_the_path() {
    let mut machine = Machine::new();
    let dentry = machine.add_path("/ab/c");
    let mut buf = [0u8; 6];
    assert_eq!(machine.walk(build_path(dentry, 0, 6), &mut buf), 6);
    assert_eq!(&buf, b"/ab/c\0");
    assert_eq!(machine.walk(build_path(dentry, 0, 5), &mut buf), 0);
    assert_eq!(machine.walk(build_path(dentry, 0, 2), &mut buf), 0);
}

#[test]
fn walk_resolves_every_path_that_a_record_can_hold() {
    let mut machine = Machine::new();
    let mut path = String::new();
    for _ in 0..127 {
        path.push_str("/a");
    }
    let dentry = machine.add_path(&path);
    let mut record = vec![0u8; RESERVED_SIZE];
    let len = machine.walk(build_path(dentry, EXE_OFF, PATH_BUF_SIZE), &mut record);
    assert_eq!(len, 255);
    assert_eq!(&record[EXE_OFF..EXE_OFF + 254], path.as_bytes());
    assert_eq!(record[EXE_OFF + 254], 0);

    let deeper = machine.add_dentry(dentry, b"a");
    assert_eq!(machine.walk(build_path(deeper, EXE_OFF, PATH_BUF_SIZE), &mut record), 0);
    // With more room 128 components are resolved, and no more.
    let mut buf = vec![0u8; 1000];
    assert_eq!(machine.walk(build_path(deeper, 0, 1000), &mut buf), 257);
    let deepest = machine.add_dentry(deeper, b"a");
    assert_eq!(machine.walk(build_path(deepest, 0, 1000), &mut buf), 0);
}

#[test]
fn walk_gives_up_on_what_it_cannot_read() {
    let offsets = [0x68, 0x28, 0x24, 0x18];
    for offset in offsets {
        let mut machine = Machine::new();
        let dentry = machine.add_path("/opt/protected/a");
        machine.forget(dentry + offset);
        let mut buf = [0u8; 64];
        assert_eq!(machine.walk(build_path(dentry, 0, 64), &mut buf), 0);
    }
    let mut machine = Machine::new();
    let name = machine.next_name;
    let dentry = machine.add_path("/opt");
    machine.forget(name + 2);
    let mut buf = [0u8; 64];
    assert_eq!(machine.walk(build_path(dentry, 0, 64), &mut buf), 0);
    machine.forget(SB + 0x68);
    assert_eq!(machine.walk(build_path(ROOT, 0, 64), &mut buf), 0);
}

#[test]
fn walk_gives_up_on_empty_and_overlong_names() {
    let mut machine = Machine::new();
    let empty = machine.add_dentry(ROOT, b"");
    let long = machine.add_dentry(ROOT, &[b'n'; 256]);
    let longest = machine.add_dentry(ROOT, &[b'n'; 255]);
    let mut buf = vec![0u8; 1000];
    assert_eq!(machine.walk(build_path(empty, 0, 1000), &mut buf), 0);
    assert_eq!(machine.walk(build_path(long, 0, 1000), &mut buf), 0);
    assert_eq!(machine.walk(build_path(longest, 0, 1000), &mut buf), 257);
    assert_eq!(machine.walk(build_path(longest, 0, 256), &mut buf), 0);
}

#[test]
fn walk_gives_up_on_a_chain_without_end() {
    let mut machine = Machine::new();
    let dentry = machine.add_dentry(ROOT, b"x");
    machine.put(dentry + 0x18, &dentry.to_le_bytes());
    let mut buf = vec![0u8; 1000];
    assert_eq!(machine.walk(build_path(dentry, 0, 1000), &mut buf), 0);
}

#[test]
fn probe_and_user_space_agree() {
    for path in ["/opt/protected", "/var/secure/ä", "/home/secure_area", "/home/secure"] {
        let mut machine = Machine::new();
        machine.write_to(path, REGULAR);
        let outcome = machine.run(graph_write());
        assert_eq!(outcome.last == Action::Submit, is_monitored(path));
    }
}

#[test]
fn probes_end() {
    let mut machine = Machine::new();
    let mut path = String::from("/var/secure");
    for _ in 0..120 {
        path.push_str("/a");
    }
    machine.write_to(&path, REGULAR);
    let asked = machine.run(graph_write()).asked;
    assert!(asked.len() < 600);
    let last = *asked.last().unwrap();
    assert_eq!(last, Action::Submit);
}
