//! The line that user space prints for a record.

use vstd::prelude::*;
use vstd::slice::slice_subrange;
use vstd::utf8::{decode_utf8, encode_utf8, valid_utf8};
use vstd::utf8::{is_ascii_chars, is_ascii_chars_encode_utf8};

use crate::bytes::le_nat;
use crate::cstr::cstr_bytes;
use crate::cstr::cstr_text;
use crate::dirs::is_monitored;
use crate::dirs::{lemma_encode_push, monitored, under, MONITORED_DIRS, SLASH};
use crate::event::{exe_area, file_area, Event, CGROUP_OFF, OP_OFF, PID_OFF, PPID_OFF};
use crate::file_op::FileOp;
use crate::matching::monitored_bytes;

verus! {

/// The columns that the bracketed operation takes in a line.
pub const TAG_WIDTH: usize = 8;

/// The text of `bytes`, with what is no UTF-8 replaced.
pub uninterp spec fn utf8_lossy(bytes: Seq<u8>) -> Seq<char>;

/// The number of bytes of `bytes` before the first one that is no ASCII.
pub open spec fn ascii_run(bytes: Seq<u8>) -> nat
    decreases bytes.len(),
{
    if bytes.len() == 0 || bytes[0] >= 0x80 {
        0
    } else {
        1 + ascii_run(bytes.skip(1))
    }
}

/// `text` starts with the ASCII characters that `bytes` start with. If `bytes`
/// go on, it goes on with a character that is no ASCII; else it ends there.
pub open spec fn same_ascii_start(bytes: Seq<u8>, text: Seq<char>) -> bool {
    let n = ascii_run(bytes);
    &&& n <= text.len()
    &&& forall|i: int| 0 <= i < n ==> #[trigger] text[i] == bytes[i] as char
    &&& if n < bytes.len() {
        n < text.len() && text[n as int] >= '\u{80}'
    } else {
        n == text.len()
    }
}

/// `String::from_utf8_lossy`. Claimed of it: its result depends on the bytes
/// alone; valid UTF-8 gives the characters that it encodes; and up to the first
/// byte that is no ASCII each byte gives its character, while from there on a
/// character that is no ASCII comes first, be it a decoded one or the
/// replacement character. What stands for an invalid sequence, and how many
/// bytes one replacement character stands for, is left unsaid.
#[verifier::external_body]
pub(crate) fn lossy_text(bytes: &[u8]) -> (text: String)
    ensures
        text@ == utf8_lossy(bytes@),
        valid_utf8(bytes@) ==> text@ == decode_utf8(bytes@),
        same_ascii_start(bytes@, text@),
{
    String::from_utf8_lossy(bytes).into_owned()
}

proof fn lemma_ascii_run(bytes: Seq<u8>)
    ensures
        ascii_run(bytes) <= bytes.len(),
        forall|i: int| 0 <= i < ascii_run(bytes) ==> bytes[i] < 0x80,
        ascii_run(bytes) < bytes.len() ==> bytes[ascii_run(bytes) as int] >= 0x80,
    decreases bytes.len(),
{
    if bytes.len() > 0 && bytes[0] < 0x80 {
        let rest = bytes.skip(1);
        lemma_ascii_run(rest);
        assert forall|i: int| 0 <= i < ascii_run(bytes) implies bytes[i] < 0x80 by {
            if i > 0 {
                assert(rest[i - 1] == bytes[i]);
            }
        }
        if ascii_run(bytes) < bytes.len() {
            assert(rest[ascii_run(rest) as int] == bytes[ascii_run(bytes) as int]);
        }
    }
}

/// A text starts with an ASCII text where the bytes that it was made from do.
proof fn lemma_ascii_prefix(bytes: Seq<u8>, text: Seq<char>, start: Seq<char>)
    requires
        same_ascii_start(bytes, text),
        is_ascii_chars(start),
    ensures
        start.is_prefix_of(text) == encode_utf8(start).is_prefix_of(bytes),
        (start == text) == (encode_utf8(start) == bytes),
{
    is_ascii_chars_encode_utf8(start);
    lemma_ascii_run(bytes);
    let n = ascii_run(bytes);
    let encoded = encode_utf8(start);
    if start.is_prefix_of(text) {
        assert forall|i: int| 0 <= i < start.len() implies start[i] == text[i] by {
            assert(start[i] == text.subrange(0, start.len() as int)[i]);
        }
        if n < start.len() {
            assert(start[n as int] < '\u{80}');
        }
        assert(encoded =~= bytes.subrange(0, encoded.len() as int)) by {
            assert forall|i: int| 0 <= i < encoded.len() implies encoded[i] == bytes[i] by {
                assert(text[i] == bytes[i] as char);
            }
        }
    }
    if encoded.is_prefix_of(bytes) {
        assert forall|i: int| 0 <= i < start.len() implies bytes[i] == start[i] as u8 by {
            assert(encoded[i] == bytes.subrange(0, encoded.len() as int)[i]);
        }
        if n < start.len() {
            assert(bytes[n as int] == start[n as int] as u8);
            assert(start[n as int] <= '\u{7f}');
        }
        assert(start =~= text.subrange(0, start.len() as int)) by {
            assert forall|i: int| 0 <= i < start.len() implies start[i] == text[i] by {
                assert(text[i] == bytes[i] as char);
            }
        }
    }
    if start == text {
        assert(start =~= text.subrange(0, start.len() as int));
        if n < bytes.len() {
            assert(start[n as int] <= '\u{7f}');
        }
        assert(encoded =~= bytes);
    }
    if encoded == bytes {
        assert(encoded =~= bytes.subrange(0, encoded.len() as int));
        assert(start =~= text);
    }
}

/// What is decided from the text of a path, replacements and all, is what was
/// decided from its bytes.
pub proof fn law_replacements_change_no_verdict(bytes: Seq<u8>, text: Seq<char>)
    requires
        same_ascii_start(bytes, text),
    ensures
        monitored(text) == monitored_bytes(bytes),
{
    reveal_strlit("/opt/protected");
    reveal_strlit("/var/secure");
    reveal_strlit("/home/secure_area");
    assert forall|i: int| 0 <= i < 3 implies under(text, #[trigger] MONITORED_DIRS@[i]@, '/')
        == under(bytes, encode_utf8(MONITORED_DIRS@[i]@), SLASH) by {
        let dir = MONITORED_DIRS@[i]@;
        assert(dir == "/opt/protected"@ || dir == "/var/secure"@ || dir == "/home/secure_area"@);
        assert(is_ascii_chars(dir));
        assert(is_ascii_chars(dir.push('/')));
        lemma_encode_push(dir, '/');
        lemma_ascii_prefix(bytes, text, dir);
        lemma_ascii_prefix(bytes, text, dir.push('/'));
    }
    if monitored(text) {
        let i = choose|i: int| 0 <= i < 3 && under(text, #[trigger] MONITORED_DIRS@[i]@, '/');
        assert(under(bytes, encode_utf8(MONITORED_DIRS@[i]@), SLASH));
    }
    if monitored_bytes(bytes) {
        let i = choose|i: int|
            0 <= i < 3 && under(bytes, encode_utf8(#[trigger] MONITORED_DIRS@[i]@), SLASH);
        assert(under(text, MONITORED_DIRS@[i]@, '/'));
    }
}

/// The digit of a number below ten.
pub open spec fn digit(value: nat) -> char {
    (0x30 + value) as char
}

/// `value` in decimal.
pub open spec fn decimal(value: nat) -> Seq<char>
    decreases value,
{
    if value < 10 {
        seq![digit(value)]
    } else {
        decimal(value / 10).push(digit(value % 10))
    }
}

/// What a line calls the operation that `op` stands for.
pub open spec fn op_name(op: u8) -> Seq<char> {
    if op == FileOp::Create.byte() {
        FileOp::Create.name()
    } else if op == FileOp::Write.byte() {
        FileOp::Write.name()
    } else if op == FileOp::Delete.byte() {
        FileOp::Delete.name()
    } else {
        "unknown"@
    }
}

/// `text`, filled up with blanks to `width` characters.
pub open spec fn padded(text: Seq<char>, width: nat) -> Seq<char> {
    if text.len() < width {
        text + Seq::new((width - text.len()) as nat, |i: int| ' ')
    } else {
        text
    }
}

/// The line for an event with these fields and the texts of its paths. The
/// bracketed operation takes [`TAG_WIDTH`] columns, so that the lines align:
///
/// ```text
/// [create] pid=1234 ppid=1 cgroup=16761 exe=/usr/bin/dash path=/var/secure/evil
/// [write]  pid=1234 ppid=1 cgroup=16761 exe=/usr/bin/dash path=/var/secure/evil
/// ```
pub open spec fn event_line(
    op: u8,
    pid: u32,
    ppid: u32,
    cgroup_id: u64,
    exe: Seq<char>,
    path: Seq<char>,
) -> Seq<char> {
    padded("["@ + op_name(op) + "]"@, TAG_WIDTH as nat) + " pid="@ + decimal(pid as nat)
        + " ppid="@ + decimal(ppid as nat) + " cgroup="@ + decimal(cgroup_id as nat) + " exe="@
        + exe + " path="@ + path
}

fn digit_str(value: u64) -> (text: &'static str)
    requires
        value < 10,
    ensures
        text@ == seq![digit(value as nat)],
{
    proof {
        reveal_strlit("0");
        reveal_strlit("1");
        reveal_strlit("2");
        reveal_strlit("3");
        reveal_strlit("4");
        reveal_strlit("5");
        reveal_strlit("6");
        reveal_strlit("7");
        reveal_strlit("8");
        reveal_strlit("9");
    }
    let text: &'static str = match value {
        0 => "0",
        1 => "1",
        2 => "2",
        3 => "3",
        4 => "4",
        5 => "5",
        6 => "6",
        7 => "7",
        8 => "8",
        _ => "9",
    };
    assert(text@ =~= seq![digit(value as nat)]);
    text
}

fn append_decimal(line: &mut String, value: u64)
    ensures
        final(line)@ == old(line)@ + decimal(value as nat),
    decreases value,
{
    if value >= 10 {
        append_decimal(line, value / 10);
    }
    line.append(digit_str(value % 10));
    assert(line@ =~= old(line)@ + decimal(value as nat));
}

/// The line for an event with these fields and the texts of its paths.
pub fn format_line(
    op: u8,
    pid: u32,
    ppid: u32,
    cgroup_id: u64,
    exe: &str,
    path: &str,
) -> (line: String)
    ensures
        line@ == event_line(op, pid, ppid, cgroup_id, exe@, path@),
{
    let label: &str = match FileOp::from_u8(op) {
        Some(op) => op.label(),
        None => "unknown",
    };
    let mut line: String = String::new();
    line.append("[");
    line.append(label);
    line.append("]");
    let ghost tag = "["@ + op_name(op) + "]"@;
    assert(line@ =~= tag);
    assert(tag + Seq::new(0, |i: int| ' ') =~= tag);
    let ghost mut blanks: nat = 0;
    while line.as_str().unicode_len() < TAG_WIDTH
        invariant
            line@ == tag + Seq::new(blanks, |i: int| ' '),
            blanks == 0 || line@.len() <= TAG_WIDTH,
        decreases TAG_WIDTH - line@.len(),
    {
        proof {
            reveal_strlit(" ");
            assert(line@ + " "@ =~= tag + Seq::new(blanks + 1, |i: int| ' '));
            blanks = blanks + 1;
        }
        line.append(" ");
    }
    assert(line@ =~= padded(tag, TAG_WIDTH as nat));
    line.append(" pid=");
    append_decimal(&mut line, pid as u64);
    line.append(" ppid=");
    append_decimal(&mut line, ppid as u64);
    line.append(" cgroup=");
    append_decimal(&mut line, cgroup_id);
    line.append(" exe=");
    line.append(exe);
    line.append(" path=");
    line.append(path);
    line
}

/// The line for an event. Paths that are no UTF-8 are printed as far as they
/// can be.
pub fn format_event(event: &Event) -> (line: String)
    ensures
        line@ == event_line(
            event.op,
            event.pid,
            event.ppid,
            event.cgroup_id,
            utf8_lossy(cstr_text(event.exe_path@)),
            utf8_lossy(cstr_text(event.file_path@)),
        ),
        valid_utf8(cstr_text(event.exe_path@)) && valid_utf8(cstr_text(event.file_path@))
            ==> line@ == event_line(
            event.op,
            event.pid,
            event.ppid,
            event.cgroup_id,
            decode_utf8(cstr_text(event.exe_path@)),
            decode_utf8(cstr_text(event.file_path@)),
        ),
{
    let exe_path: String = lossy_text(cstr_bytes(event.exe_path.as_slice()));
    let file_path: String = lossy_text(cstr_bytes(event.file_path.as_slice()));
    format_line(
        event.op,
        event.pid,
        event.ppid,
        event.cgroup_id,
        exe_path.as_str(),
        file_path.as_str(),
    )
}

/// `item` is shown: it is long enough to hold an event, and the event's file
/// is under a monitored directory.
pub open spec fn is_shown(item: Seq<u8>) -> bool {
    item.len() >= Event::SIZE && monitored_bytes(cstr_text(file_area(item)))
}

/// The line for the event at the start of `item`.
pub open spec fn item_line(item: Seq<u8>) -> Seq<char> {
    event_line(
        item[OP_OFF as int],
        le_nat(item.subrange(PID_OFF as int, PID_OFF + 4)) as u32,
        le_nat(item.subrange(PPID_OFF as int, PPID_OFF + 4)) as u32,
        le_nat(item.subrange(CGROUP_OFF as int, CGROUP_OFF + 8)) as u64,
        utf8_lossy(cstr_text(exe_area(item))),
        utf8_lossy(cstr_text(file_area(item))),
    )
}

/// The lines for these items of the ring buffer, in their order: one for each
/// item that is shown.
pub open spec fn lines(items: Seq<Seq<u8>>) -> Seq<Seq<char>>
    decreases items.len(),
{
    if items.len() == 0 {
        Seq::empty()
    } else if is_shown(items.last()) {
        lines(items.drop_last()).push(item_line(items.last()))
    } else {
        lines(items.drop_last())
    }
}

/// The lines for what comes first are followed by those for what comes next.
pub proof fn law_lines_follow_each_other(first: Seq<Seq<u8>>, next: Seq<Seq<u8>>)
    ensures
        lines(first + next) == lines(first) + lines(next),
    decreases next.len(),
{
    if next.len() == 0 {
        assert(first + next =~= first);
        assert(lines(first) + lines(next) =~= lines(first));
    } else {
        assert((first + next).drop_last() =~= first + next.drop_last());
        law_lines_follow_each_other(first, next.drop_last());
        assert(lines(first + next) =~= lines(first) + lines(next));
    }
}

/// An item that is too short, or whose file is under no monitored directory, is
/// skipped: the lines are those of the other items, as if it had never come.
pub proof fn law_skipped_item_changes_nothing(
    before: Seq<Seq<u8>>,
    skipped: Seq<u8>,
    after: Seq<Seq<u8>>,
)
    requires
        skipped.len() < Event::SIZE || !monitored_bytes(cstr_text(file_area(skipped))),
    ensures
        lines(before.push(skipped) + after) == lines(before + after),
{
    assert(before.push(skipped).drop_last() =~= before);
    law_lines_follow_each_other(before.push(skipped), after);
    law_lines_follow_each_other(before, after);
}

/// The line to print for an item of the ring buffer, if it is to be shown.
///
/// Only the first [`Event::SIZE`] bytes of an item carry the record; what
/// follows is slack. The probes filter by directory too, and come to the same
/// verdict.
pub fn display_item(item: &[u8]) -> (line: Option<String>)
    ensures
        line is Some <==> is_shown(item@),
        lines(seq![item@]) == match line {
            Some(line) => seq![line@],
            None => Seq::empty(),
        },
        line matches Some(line) ==> line@ == item_line(item@),
        line matches Some(line) ==> valid_utf8(cstr_text(exe_area(item@))) && valid_utf8(
            cstr_text(file_area(item@)),
        ) ==> line@ == event_line(
            item@[OP_OFF as int],
            le_nat(item@.subrange(PID_OFF as int, PID_OFF + 4)) as u32,
            le_nat(item@.subrange(PPID_OFF as int, PPID_OFF + 4)) as u32,
            le_nat(item@.subrange(CGROUP_OFF as int, CGROUP_OFF + 8)) as u64,
            decode_utf8(cstr_text(exe_area(item@))),
            decode_utf8(cstr_text(file_area(item@))),
        ),
{
    proof {
        reveal_with_fuel(lines, 2);
    }
    if item.len() < Event::SIZE {
        return None;
    }
    let record = slice_subrange(item, 0, Event::SIZE);
    proof {
        assert(record@.subrange(PID_OFF as int, PID_OFF + 4) =~= item@.subrange(
            PID_OFF as int,
            PID_OFF + 4,
        ));
        assert(record@.subrange(PPID_OFF as int, PPID_OFF + 4) =~= item@.subrange(
            PPID_OFF as int,
            PPID_OFF + 4,
        ));
        assert(record@.subrange(CGROUP_OFF as int, CGROUP_OFF + 8) =~= item@.subrange(
            CGROUP_OFF as int,
            CGROUP_OFF + 8,
        ));
        assert(exe_area(record@) =~= exe_area(item@));
        assert(file_area(record@) =~= file_area(item@));
    }
    match Event::from_bytes(record) {
        Some(event) => {
            let bytes = cstr_bytes(event.file_path.as_slice());
            let path: String = lossy_text(bytes);
            proof {
                law_replacements_change_no_verdict(bytes@, path@);
            }
            if is_monitored(path.as_str()) {
                Some(format_event(&event))
            } else {
                None
            }
        },
        None => None,
    }
}

} // verus!
