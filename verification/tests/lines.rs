//! The lines that user space prints.

use graph::display::format_line;
use graph::{display_item, format_event, Event, FileOp, PATH_BUF_SIZE};

fn event(op: u8, exe: &[u8], file: &[u8]) -> Event {
    let mut event = Event {
        op,
        pid: 1234,
        ppid: 1,
        cgroup_id: 16761,
        exe_path: [0; PATH_BUF_SIZE],
        file_path: [0; PATH_BUF_SIZE],
    };
    event.exe_path[..exe.len()].copy_from_slice(exe);
    event.file_path[..file.len()].copy_from_slice(file);
    event
}

fn item(event: &Event) -> Vec<u8> {
    let mut bytes = vec![0x55u8; Event::SIZE];
    bytes[0] = event.op;
    bytes[4..8].copy_from_slice(&event.pid.to_le_bytes());
    bytes[8..12].copy_from_slice(&event.ppid.to_le_bytes());
    bytes[16..24].copy_from_slice(&event.cgroup_id.to_le_bytes());
    bytes[24..280].copy_from_slice(&event.exe_path);
    bytes[280..536].copy_from_slice(&event.file_path);
    bytes
}

#[test]
fn lines_align() {
    let create = event(FileOp::Create.to_u8(), b"/usr/bin/dash", b"/var/secure/evil");
    assert_eq!(
        format_event(&create),
        "[create] pid=1234 ppid=1 cgroup=16761 exe=/usr/bin/dash path=/var/secure/evil"
    );
    let write = event(FileOp::Write.to_u8(), b"/usr/bin/dash", b"/var/secure/evil");
    assert_eq!(
        format_event(&write),
        "[write]  pid=1234 ppid=1 cgroup=16761 exe=/usr/bin/dash path=/var/secure/evil"
    );
    let delete = event(FileOp::Delete.to_u8(), b"/usr/bin/rm", b"/home/secure_area/note");
    assert_eq!(
        format_event(&delete),
        "[delete] pid=1234 ppid=1 cgroup=16761 exe=/usr/bin/rm path=/home/secure_area/note"
    );
}

#[test]
fn unknown_operation_is_named_so() {
    for op in [0, 4, 255] {
        assert_eq!(
            format_event(&event(op, b"/e", b"/f")),
            "[unknown] pid=1234 ppid=1 cgroup=16761 exe=/e path=/f"
        );
    }
}

#[test]
fn numbers_are_decimal() {
    assert_eq!(
        format_line(1, 0, u32::MAX, u64::MAX, "", ""),
        "[create] pid=0 ppid=4294967295 cgroup=18446744073709551615 exe= path="
    );
    assert_eq!(
        format_line(3, 10, 109, 99, "é", "ü"),
        "[delete] pid=10 ppid=109 cgroup=99 exe=é path=ü"
    );
}

#[test]
fn paths_that_are_no_utf8_are_printed_as_far_as_they_can_be() {
    assert_eq!(
        format_event(&event(1, b"/bin/\xc3\xa9", b"/opt/protected/a\xffb")),
        "[create] pid=1234 ppid=1 cgroup=16761 exe=/bin/é path=/opt/protected/a\u{fffd}b"
    );
}

#[test]
fn monitored_items_are_displayed() {
    let shown = event(2, b"/usr/bin/dash", b"/opt/protected/a");
    let mut bytes = item(&shown);
    assert_eq!(display_item(&bytes), Some(format_event(&shown)));
    // The slack behind a record does not matter.
    bytes.resize(Event::SIZE + PATH_BUF_SIZE, 0xee);
    assert_eq!(display_item(&bytes), Some(format_event(&shown)));
}

#[test]
fn other_items_are_not_displayed() {
    for path in ["/tmp/x", "/var/secure_2", "/opt/protected2/x", "", "var/secure/x"] {
        assert_eq!(display_item(&item(&event(2, b"/e", path.as_bytes()))), None);
    }
    let shown = item(&event(2, b"/e", b"/var/secure"));
    assert!(display_item(&shown).is_some());
    assert_eq!(display_item(&shown[..Event::SIZE - 1]), None);
    assert_eq!(display_item(&[]), None);
}

#[test]
fn skipped_items_leave_the_other_lines_alone() {
    let first = item(&event(1, b"/e", b"/var/secure/a"));
    let second = item(&event(3, b"/e", b"/opt/protected/b"));
    let unmonitored = item(&event(2, b"/e", b"/tmp/x"));
    let short = first[..Event::SIZE - 1].to_vec();
    let lines = |items: &[&Vec<u8>]| -> Vec<String> {
        items.iter().filter_map(|bytes| display_item(bytes)).collect()
    };
    let plain = lines(&[&first, &second]);
    assert_eq!(
        plain,
        vec![
            "[create] pid=1234 ppid=1 cgroup=16761 exe=/e path=/var/secure/a".to_string(),
            "[delete] pid=1234 ppid=1 cgroup=16761 exe=/e path=/opt/protected/b".to_string(),
        ]
    );
    for skipped in [&unmonitored, &short] {
        assert_eq!(lines(&[skipped, &first, &second]), plain);
        assert_eq!(lines(&[&first, skipped, &second]), plain);
        assert_eq!(lines(&[&first, &second, skipped]), plain);
    }
}

#[test]
fn replacements_change_no_verdict() {
    assert!(display_item(&item(&event(2, b"/e", b"/var/secure/\xff"))).is_some());
    assert_eq!(display_item(&item(&event(2, b"/e", b"/var/secure\xff/x"))), None);
    assert_eq!(display_item(&item(&event(2, b"/e", b"\xff/var/secure/x"))), None);
}
