//! Records: operations, events and NUL-terminated strings.

use graph::event::write_header;
use graph::{cstr, cstr_bytes, cstr_len, Event, FileOp, PATH_BUF_SIZE};

#[test]
fn file_op_round_trip() {
    for op in [FileOp::Create, FileOp::Write, FileOp::Delete] {
        assert_eq!(FileOp::from_u8(op.to_u8()), Some(op));
        assert_eq!(op.label().len() > 0, true);
    }
    assert_eq!(FileOp::from_u8(0), None);
    assert_eq!(FileOp::from_u8(42), None);
}

/// The bytes of `event`, each field at its place and zeros between them.
fn bytes_of(event: &Event) -> Vec<u8> {
    let mut bytes = vec![0u8; Event::SIZE];
    bytes[0] = event.op;
    bytes[4..8].copy_from_slice(&event.pid.to_ne_bytes());
    bytes[8..12].copy_from_slice(&event.ppid.to_ne_bytes());
    bytes[16..24].copy_from_slice(&event.cgroup_id.to_ne_bytes());
    bytes[24..280].copy_from_slice(&event.exe_path);
    bytes[280..536].copy_from_slice(&event.file_path);
    bytes
}

#[test]
fn event_round_trip() {
    let mut event = Event {
        op: FileOp::Delete.to_u8(),
        pid: 4242,
        ppid: 1,
        cgroup_id: 0xdead_beef_cafe,
        exe_path: [0; PATH_BUF_SIZE],
        file_path: [0; PATH_BUF_SIZE],
    };
    let exe = b"/usr/bin/touch";
    let file = b"/var/secure/gone";
    event.exe_path[..exe.len()].copy_from_slice(exe);
    event.file_path[..file.len()].copy_from_slice(file);

    let bytes = bytes_of(&event);
    let decoded = Event::from_bytes(&bytes).unwrap();
    assert_eq!(decoded, event);
    assert_eq!(decoded.op, FileOp::Delete.to_u8());
    assert_eq!(decoded.pid, 4242);
    assert_eq!(decoded.ppid, 1);
    assert_eq!(decoded.cgroup_id, 0xdead_beef_cafe);
    assert_eq!(cstr(&decoded.exe_path), "/usr/bin/touch");
    assert_eq!(cstr(&decoded.file_path), "/var/secure/gone");
}

#[test]
fn event_decode_rejects_wrong_size() {
    assert!(Event::from_bytes(&[]).is_none());
    assert!(Event::from_bytes(&[0u8; Event::SIZE - 1]).is_none());
    assert!(Event::from_bytes(&[0u8; Event::SIZE + 1]).is_none());
}

#[test]
fn cstr_handles_no_terminator() {
    let buf = [b'a'; PATH_BUF_SIZE];
    assert_eq!(cstr_len(&buf), PATH_BUF_SIZE);
    assert_eq!(cstr_bytes(&buf), &buf);
}

#[test]
fn cstr_ends_at_the_first_nul() {
    assert_eq!(cstr_len(b"ab\0cd\0"), 2);
    assert_eq!(cstr_bytes(b"ab\0cd\0"), b"ab");
    assert_eq!(cstr(b"ab\0\xff"), "ab");
    assert_eq!(cstr_len(b"\0"), 0);
    assert_eq!(cstr_len(b""), 0);
    assert_eq!(cstr(b""), "");
}

#[test]
fn cstr_is_empty_where_it_is_no_utf8() {
    assert_eq!(cstr(b"a\xff\0"), "");
    assert_eq!(cstr("größe\0".as_bytes()), "größe");
}

#[test]
fn header_is_read_back() {
    let mut record = vec![0x11u8; Event::SIZE];
    write_header(&mut record, FileOp::Write, 0x0102_0304, u32::MAX, 0x0102_0304_0506_0708);
    assert_eq!(record[..4], [2, 0x11, 0x11, 0x11]);
    assert_eq!(record[4..8], [4, 3, 2, 1]);
    assert_eq!(record[8..16], [0xff, 0xff, 0xff, 0xff, 0x11, 0x11, 0x11, 0x11]);
    assert_eq!(record[16..24], [8, 7, 6, 5, 4, 3, 2, 1]);
    assert!(record[24..].iter().all(|b| *b == 0x11));
    let event = Event::from_bytes(&record).unwrap();
    assert_eq!(event.op, FileOp::Write.to_u8());
    assert_eq!(event.pid, 0x0102_0304);
    assert_eq!(event.ppid, u32::MAX);
    assert_eq!(event.cgroup_id, 0x0102_0304_0506_0708);
    assert_eq!(event.exe_path, [0x11; PATH_BUF_SIZE]);
    assert_eq!(event.file_path, [0x11; PATH_BUF_SIZE]);
}

#[test]
fn operations_are_told_apart() {
    assert_eq!(FileOp::Create.to_u8(), 1);
    assert_eq!(FileOp::Write.to_u8(), 2);
    assert_eq!(FileOp::Delete.to_u8(), 3);
    assert_eq!(FileOp::Create.label(), "create");
    assert_eq!(FileOp::Write.label(), "write");
    assert_eq!(FileOp::Delete.label(), "delete");
    assert_eq!(FileOp::from_u8(4), None);
    assert_eq!(FileOp::from_u8(255), None);
}
