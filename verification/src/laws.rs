//! What the agent is for, said of plain bytes, characters and numbers.
//!
//! The laws here take nothing over from the definitions that the code is
//! written against. They say what stands where in memory, in a record or in a
//! line, by literal offsets, names and arithmetic.

use vstd::prelude::*;
use vstd::utf8::{encode_utf8, is_ascii_chars, is_ascii_chars_encode_utf8};

use crate::bytes::{le_bytes, le_nat, lemma_le_bytes_len, lemma_le_round_trip, splice};
use crate::cstr::{cstr_end, cstr_text, law_cstr_end};
use crate::dirs::{enforced, ends_with, monitored, nested, under};
use crate::dirs::{MONITORED_DIRS, SLASH};
use crate::display::{decimal, event_line, is_shown, item_line, lines, utf8_lossy};
use crate::event::{exe_area, file_area, lemma_header_reads, with_header, Event};
use crate::file_op::FileOp;
use crate::kernel::{bytes_at, field_addr, Action, Kernel};
use crate::matching::{enforced_bytes, monitored_bytes};
use crate::probe::{creating, emitting, is_regular, may_create, opening, pid_of, Probe};
use crate::runs::{law_creation_goes_by_its_path, law_probe_on_arguments, law_probe_on_create};
use crate::runs::{law_probe_on_open, Run};
use crate::task::{law_exe_dentry_is_found, law_ppid_is_found, ExeLookup, PpidLookup};
use crate::walk::{law_walk_resolves, PathWalk, WalkStage};

verus! {

/// The bytes of an ASCII text.
pub open spec fn ascii(text: Seq<char>) -> Seq<u8> {
    text.map_values(|c: char| c as u8)
}

/// `path` is `dir`, or `dir` with a slash and any bytes whatever behind it.
pub open spec fn below(path: Seq<u8>, dir: Seq<char>) -> bool {
    path == ascii(dir) || exists|rest: Seq<u8>| path == ascii(dir).push(0x2fu8) + rest
}

/// `path` is below one of the three directories whose files are watched.
pub open spec fn watched(path: Seq<u8>) -> bool {
    below(path, "/opt/protected"@) || below(path, "/var/secure"@) || below(
        path,
        "/home/secure_area"@,
    )
}

/// Lying under a directory is being it, or going on from it with a separator
/// and anything whatever.
pub proof fn law_under<T>(path: Seq<T>, dir: Seq<T>, separator: T)
    ensures
        under(path, dir, separator) <==> path == dir || exists|rest: Seq<T>|
            path == dir.push(separator) + rest,
{
    let longer = dir.push(separator);
    if longer.is_prefix_of(path) {
        assert(path =~= longer + path.skip(longer.len() as int));
    }
    if exists|rest: Seq<T>| path == longer + rest {
        let rest = choose|rest: Seq<T>| path == longer + rest;
        assert(longer =~= path.subrange(0, longer.len() as int));
    }
}

/// Being nested under a directory is lying under it, whether or not its name is
/// written with a separator at the end.
pub proof fn law_nested<T>(path: Seq<T>, dir: Seq<T>, separator: T, rest: Seq<T>)
    ensures
        nested(dir, dir, separator),
        nested(dir.push(separator) + rest, dir, separator),
        nested(dir.push(separator) + rest, dir.push(separator), separator),
        nested(path, dir, separator) ==> path == dir || (exists|more: Seq<T>|
            path == dir.push(separator) + more) || (exists|above: Seq<T>, more: Seq<T>|
            dir == above.push(separator) && path == #[trigger] (above.push(separator) + more)),
{
    let longer = dir.push(separator);
    law_under(longer + rest, dir, separator);
    assert(longer =~= (longer + rest).subrange(0, longer.len() as int));
    law_under(path, dir, separator);
    if ends_with(dir, separator) && dir.is_prefix_of(path) {
        let above = dir.drop_last();
        let more = path.skip(dir.len() as int);
        assert(dir =~= above.push(separator));
        assert(path =~= above.push(separator) + more);
    }
}

/// A name that goes on in any other way than with a separator is another name.
pub proof fn law_other_name<T>(dir: Seq<T>, separator: T, next: T, rest: Seq<T>)
    requires
        next != separator,
        dir.len() == 0 || dir[dir.len() - 1] != separator,
    ensures
        !nested(dir.push(next) + rest, dir, separator),
{
    let path = dir.push(next) + rest;
    let n = dir.len() as int;
    assert(path[n] == next);
    if dir.push(separator).is_prefix_of(path) {
        assert(dir.push(separator)[n] == path.subrange(0, n + 1)[n]);
    }
}

proof fn lemma_ascii_dir(path: Seq<u8>, dir: Seq<char>)
    requires
        is_ascii_chars(dir),
    ensures
        encode_utf8(dir) == ascii(dir),
        under(path, encode_utf8(dir), SLASH) == below(path, dir),
{
    is_ascii_chars_encode_utf8(dir);
    assert(encode_utf8(dir) =~= ascii(dir));
    law_under(path, encode_utf8(dir), SLASH);
}

proof fn lemma_dirs_are_ascii()
    ensures
        is_ascii_chars("/opt/protected"@),
        is_ascii_chars("/var/secure"@),
        is_ascii_chars("/home/secure_area"@),
{
    reveal_strlit("/opt/protected");
    reveal_strlit("/var/secure");
    reveal_strlit("/home/secure_area");
}

/// The protected paths are `/var/secure` and whatever follows it behind a
/// slash, and no others: as raw bytes, and as text.
pub proof fn law_protected_paths(path: Seq<u8>, text: Seq<char>, rest: Seq<u8>, more: Seq<char>)
    ensures
        enforced_bytes(path) <==> below(path, "/var/secure"@),
        enforced_bytes(ascii("/var/secure"@)),
        enforced_bytes(ascii("/var/secure/"@) + rest),
        enforced(text) <==> text == "/var/secure"@ || exists|end: Seq<char>|
            text == "/var/secure/"@ + end,
        enforced("/var/secure"@),
        enforced("/var/secure/"@ + more),
{
    lemma_dirs_are_ascii();
    lemma_ascii_dir(path, "/var/secure"@);
    lemma_ascii_dir(ascii("/var/secure"@), "/var/secure"@);
    lemma_ascii_dir(ascii("/var/secure/"@) + rest, "/var/secure"@);
    lemma_with_slash("/var/secure"@, "/var/secure/"@);
    law_under(text, "/var/secure"@, '/');
    law_under("/var/secure/"@ + more, "/var/secure"@, '/');
}

proof fn lemma_with_slash(dir: Seq<char>, longer: Seq<char>)
    requires
        (dir == "/opt/protected"@ && longer == "/opt/protected/"@) || (dir == "/var/secure"@
            && longer == "/var/secure/"@) || (dir == "/home/secure_area"@ && longer
            == "/home/secure_area/"@),
    ensures
        longer == dir.push('/'),
        ascii(longer) == ascii(dir).push(0x2fu8),
{
    reveal_strlit("/opt/protected");
    reveal_strlit("/var/secure");
    reveal_strlit("/home/secure_area");
    reveal_strlit("/opt/protected/");
    reveal_strlit("/var/secure/");
    reveal_strlit("/home/secure_area/");
    assert(longer =~= dir.push('/'));
    assert(ascii(longer) =~= ascii(dir).push(0x2fu8));
}

proof fn lemma_monitored_bytes(path: Seq<u8>)
    ensures
        monitored_bytes(path) <==> watched(path),
{
    lemma_dirs_are_ascii();
    lemma_ascii_dir(path, MONITORED_DIRS@[0]@);
    lemma_ascii_dir(path, MONITORED_DIRS@[1]@);
    lemma_ascii_dir(path, MONITORED_DIRS@[2]@);
    if monitored_bytes(path) {
        let i = choose|i: int|
            0 <= i < 3 && under(path, encode_utf8(#[trigger] MONITORED_DIRS@[i]@), SLASH);
        assert(i == 0 || i == 1 || i == 2);
    }
    if below(path, "/opt/protected"@) {
        assert(under(path, encode_utf8(MONITORED_DIRS@[0]@), SLASH));
    }
    if below(path, "/var/secure"@) {
        assert(under(path, encode_utf8(MONITORED_DIRS@[1]@), SLASH));
    }
    if below(path, "/home/secure_area"@) {
        assert(under(path, encode_utf8(MONITORED_DIRS@[2]@), SLASH));
    }
}

/// The monitored paths are `/opt/protected`, `/var/secure`,
/// `/home/secure_area`, and whatever follows one of them behind a slash, and no
/// others: as raw bytes, and as text.
pub proof fn law_monitored_paths(path: Seq<u8>, text: Seq<char>, rest: Seq<u8>, more: Seq<char>)
    ensures
        monitored_bytes(path) <==> watched(path),
        monitored_bytes(ascii("/opt/protected/"@) + rest),
        monitored_bytes(ascii("/var/secure/"@) + rest),
        monitored_bytes(ascii("/home/secure_area/"@) + rest),
        monitored(text) <==> {
            ||| text == "/opt/protected"@
            ||| text == "/var/secure"@
            ||| text == "/home/secure_area"@
            ||| exists|end: Seq<char>| text == "/opt/protected/"@ + end
            ||| exists|end: Seq<char>| text == "/var/secure/"@ + end
            ||| exists|end: Seq<char>| text == "/home/secure_area/"@ + end
        },
        monitored("/opt/protected/"@ + more),
        monitored("/var/secure/"@ + more),
        monitored("/home/secure_area/"@ + more),
{
    lemma_monitored_bytes(path);
    lemma_monitored_bytes(ascii("/opt/protected/"@) + rest);
    lemma_monitored_bytes(ascii("/var/secure/"@) + rest);
    lemma_monitored_bytes(ascii("/home/secure_area/"@) + rest);
    lemma_with_slash("/opt/protected"@, "/opt/protected/"@);
    lemma_with_slash("/var/secure"@, "/var/secure/"@);
    lemma_with_slash("/home/secure_area"@, "/home/secure_area/"@);
    lemma_monitored_text(text);
    lemma_monitored_text("/opt/protected/"@ + more);
    lemma_monitored_text("/var/secure/"@ + more);
    lemma_monitored_text("/home/secure_area/"@ + more);
}

proof fn lemma_monitored_text(text: Seq<char>)
    ensures
        monitored(text) <==> {
            ||| text == "/opt/protected"@
            ||| text == "/var/secure"@
            ||| text == "/home/secure_area"@
            ||| exists|end: Seq<char>| text == "/opt/protected/"@ + end
            ||| exists|end: Seq<char>| text == "/var/secure/"@ + end
            ||| exists|end: Seq<char>| text == "/home/secure_area/"@ + end
        },
{
    lemma_with_slash("/opt/protected"@, "/opt/protected/"@);
    lemma_with_slash("/var/secure"@, "/var/secure/"@);
    lemma_with_slash("/home/secure_area"@, "/home/secure_area/"@);
    law_under(text, MONITORED_DIRS@[0]@, '/');
    law_under(text, MONITORED_DIRS@[1]@, '/');
    law_under(text, MONITORED_DIRS@[2]@, '/');
    if monitored(text) {
        let i = choose|i: int| 0 <= i < 3 && under(text, #[trigger] MONITORED_DIRS@[i]@, '/');
        assert(i == 0 || i == 1 || i == 2);
    }
}

/// The number that a text of decimal digits is read as.
pub open spec fn read_as(digits: Seq<char>) -> nat
    decreases digits.len(),
{
    if digits.len() == 0 {
        0
    } else {
        10 * read_as(digits.drop_last()) + (digits.last() as nat - 48) as nat
    }
}

/// `text` is the decimal number `value`: nothing but digits, none of them a
/// leading zero, that are read as `value`.
pub open spec fn is_numeral(text: Seq<char>, value: nat) -> bool {
    &&& text.len() > 0
    &&& forall|i: int| 0 <= i < text.len() ==> 48 <= #[trigger] text[i] as int <= 57
    &&& text.len() > 1 ==> text[0] as int != 48
    &&& read_as(text) == value
}

/// A printed number is read back as the number.
pub proof fn law_numbers_are_read_back(value: nat)
    ensures
        is_numeral(decimal(value), value),
    decreases value,
{
    if value < 10 {
        let text = decimal(value);
        assert(text.len() == 1);
        assert(text.drop_last() =~= Seq::empty());
        assert(read_as(text.drop_last()) == 0);
    } else {
        law_numbers_are_read_back(value / 10);
        let text = decimal(value);
        let above = decimal(value / 10);
        assert(text.drop_last() =~= above);
        assert forall|i: int| 0 <= i < text.len() implies 48 <= #[trigger] text[i] as int
            <= 57 by {
            if i < above.len() {
                assert(text[i] == above[i]);
            }
        }
        if above.len() == 1 {
            assert(above.drop_last() =~= Seq::empty());
            assert(read_as(above.drop_last()) == 0);
        }
    }
}

/// A number has one numeral, so different numbers are printed differently and
/// no numeral stands for two.
pub proof fn law_one_numeral(a: Seq<char>, b: Seq<char>, x: nat, y: nat)
    requires
        is_numeral(a, x),
        is_numeral(b, y),
    ensures
        a == b <==> x == y,
    decreases a.len(),
{
    if x == y {
        lemma_numeral_size(a, x);
        lemma_numeral_size(b, y);
        assert(a.last() == b.last()) by {
            assert(48 <= a[a.len() - 1] as int <= 57);
            assert(48 <= b[b.len() - 1] as int <= 57);
        }
        if a.len() > 1 && b.len() > 1 {
            lemma_shorter_numeral(a, x);
            lemma_shorter_numeral(b, y);
            law_one_numeral(a.drop_last(), b.drop_last(), x / 10, y / 10);
        }
        assert(a =~= a.drop_last().push(a.last()));
        assert(b =~= b.drop_last().push(b.last()));
        if a.len() == 1 {
            assert(b.len() == 1);
            assert(a.drop_last() =~= b.drop_last());
        }
    }
}

proof fn lemma_shorter_numeral(text: Seq<char>, value: nat)
    requires
        is_numeral(text, value),
        text.len() > 1,
    ensures
        is_numeral(text.drop_last(), value / 10),
{
    let above = text.drop_last();
    assert forall|i: int| 0 <= i < above.len() implies 48 <= #[trigger] above[i] as int <= 57 by {
        assert(text[i] == above[i]);
    }
    assert(48 <= text[text.len() - 1] as int <= 57);
}

/// A numeral of more than one digit stands for ten or more, and a numeral of
/// one digit for less.
proof fn lemma_numeral_size(text: Seq<char>, value: nat)
    requires
        is_numeral(text, value),
    ensures
        text.len() > 1 <==> value >= 10,
        value % 10 == text.last() as int - 48,
    decreases text.len(),
{
    assert(48 <= text[text.len() - 1] as int <= 57);
    if text.len() == 1 {
        assert(text.drop_last() =~= Seq::empty());
        assert(read_as(text.drop_last()) == 0);
    } else {
        lemma_shorter_numeral(text, value);
        lemma_numeral_size(text.drop_last(), value / 10);
        if text.len() == 2 {
            let above = text.drop_last();
            assert(above.drop_last() =~= Seq::empty());
            assert(read_as(above.drop_last()) == 0);
            assert(above[0] == text[0]);
        }
    }
}

/// The line for an event: the operation in brackets, in eight columns, and then
/// the numbers and the paths, each behind its name.
pub proof fn law_line(
    op: u8,
    pid: u32,
    ppid: u32,
    cgroup_id: u64,
    exe: Seq<char>,
    path: Seq<char>,
    a: Seq<char>,
    b: Seq<char>,
    c: Seq<char>,
)
    requires
        is_numeral(a, pid as nat),
        is_numeral(b, ppid as nat),
        is_numeral(c, cgroup_id as nat),
    ensures
        event_line(op, pid, ppid, cgroup_id, exe, path) == (if op == 1 {
            "[create] pid="@
        } else if op == 2 {
            "[write]  pid="@
        } else if op == 3 {
            "[delete] pid="@
        } else {
            "[unknown] pid="@
        }) + a + " ppid="@ + b + " cgroup="@ + c + " exe="@ + exe + " path="@ + path,
{
    law_numbers_are_read_back(pid as nat);
    law_numbers_are_read_back(ppid as nat);
    law_numbers_are_read_back(cgroup_id as nat);
    law_one_numeral(a, decimal(pid as nat), pid as nat, pid as nat);
    law_one_numeral(b, decimal(ppid as nat), ppid as nat, ppid as nat);
    law_one_numeral(c, decimal(cgroup_id as nat), cgroup_id as nat, cgroup_id as nat);
    reveal_strlit("[");
    reveal_strlit("]");
    reveal_strlit("create");
    reveal_strlit("write");
    reveal_strlit("delete");
    reveal_strlit("unknown");
    reveal_strlit(" pid=");
    reveal_strlit("[create] pid=");
    reveal_strlit("[write]  pid=");
    reveal_strlit("[delete] pid=");
    reveal_strlit("[unknown] pid=");
    let start = if op == 1 {
        "[create] pid="@
    } else if op == 2 {
        "[write]  pid="@
    } else if op == 3 {
        "[delete] pid="@
    } else {
        "[unknown] pid="@
    };
    let tag = "["@ + crate::display::op_name(op) + "]"@;
    assert(crate::display::padded(tag, 8) + " pid="@ =~= start);
}

/// Numbers are read by place: the bytes that come first are the lower digits to
/// the base 256.
pub proof fn law_bytes_are_digits(low: Seq<u8>, byte: u8, bytes: Seq<u8>, value: nat, n: nat)
    ensures
        le_nat(Seq::empty()) == 0,
        le_nat(seq![byte] + bytes) == byte + 256 * le_nat(bytes),
        bytes.len() == 2 ==> le_nat(bytes) == bytes[0] + 0x100 * bytes[1],
        bytes.len() == 4 ==> le_nat(bytes) == bytes[0] + 0x100 * bytes[1] + 0x1_0000 * bytes[2]
            + 0x100_0000 * bytes[3],
        bytes.len() == 8 ==> le_nat(bytes) == bytes[0] + 0x100 * bytes[1] + 0x1_0000 * bytes[2]
            + 0x100_0000 * bytes[3] + 0x1_0000_0000 * bytes[4] + 0x100_0000_0000 * bytes[5]
            + 0x1_0000_0000_0000 * bytes[6] + 0x100_0000_0000_0000 * bytes[7],
        le_bytes(le_nat(low), low.len()) == low,
        le_bytes((byte + 256 * value) as nat, n + 1) == seq![byte] + le_bytes(value, n),
{
    assert((byte + 256 * value) % 256 == byte && (byte + 256 * value) / 256 == value);
    assert((seq![byte] + bytes).skip(1) =~= bytes);
    reveal_with_fuel(le_nat, 9);
    if bytes.len() == 8 {
        assert(bytes.skip(1).skip(1) =~= bytes.skip(2));
        assert(bytes.skip(2).skip(1) =~= bytes.skip(3));
        assert(bytes.skip(3).skip(1) =~= bytes.skip(4));
        assert(bytes.skip(4).skip(1) =~= bytes.skip(5));
        assert(bytes.skip(5).skip(1) =~= bytes.skip(6));
        assert(bytes.skip(6).skip(1) =~= bytes.skip(7));
    }
    lemma_bytes_back(low);
}

proof fn lemma_digits(bytes: Seq<u8>)
    ensures
        bytes.len() == 4 ==> le_nat(bytes) == bytes[0] + 0x100 * bytes[1] + 0x1_0000 * bytes[2]
            + 0x100_0000 * bytes[3],
        bytes.len() == 8 ==> le_nat(bytes) == bytes[0] + 0x100 * bytes[1] + 0x1_0000 * bytes[2]
            + 0x100_0000 * bytes[3] + 0x1_0000_0000 * bytes[4] + 0x100_0000_0000 * bytes[5]
            + 0x1_0000_0000_0000 * bytes[6] + 0x100_0000_0000_0000 * bytes[7],
{
    law_bytes_are_digits(Seq::empty(), 0, bytes, 0, 0);
}

proof fn lemma_bytes_back(bytes: Seq<u8>)
    ensures
        le_bytes(le_nat(bytes), bytes.len()) == bytes,
        le_nat(bytes) < vstd::arithmetic::power::pow(256, bytes.len()),
    decreases bytes.len(),
{
    reveal(vstd::arithmetic::power::pow);
    if bytes.len() == 0 {
        assert(le_bytes(0, 0) =~= bytes);
    } else {
        let rest = bytes.skip(1);
        lemma_bytes_back(rest);
        let v = le_nat(bytes);
        assert(v == bytes[0] + 256 * le_nat(rest));
        assert(v % 256 == bytes[0] && v / 256 == le_nat(rest));
        assert(le_bytes(v, bytes.len()) =~= bytes);
        let p = vstd::arithmetic::power::pow(256, rest.len());
        assert(vstd::arithmetic::power::pow(256, bytes.len()) == 256 * p);
    }
}

/// Overwriting a part of a buffer changes that part and nothing else.
pub proof fn law_overwriting(s: Seq<u8>, at: int, piece: Seq<u8>, i: int)
    requires
        0 <= at,
        at + piece.len() <= s.len(),
        0 <= i < s.len(),
    ensures
        splice(s, at, piece).len() == s.len(),
        splice(s, at, piece)[i] == if at <= i < at + piece.len() {
            piece[i - at]
        } else {
            s[i]
        },
{
}

/// `value` spelled in `n` bytes, the least significant one first.
pub open spec fn spelled(value: nat, n: nat) -> Seq<u8>
    decreases n,
{
    if n == 0 {
        Seq::empty()
    } else {
        seq![(value % 256) as u8] + spelled(value / 256, (n - 1) as nat)
    }
}

/// These bytes of memory can be read, and are these.
pub open spec fn holds(memory: Map<int, u8>, addr: int, bytes: Seq<u8>) -> bool {
    forall|i: int| 0 <= i < bytes.len() ==> memory.get(#[trigger] (addr + i)) == Some(bytes[i])
}

/// The address `off` bytes on from `base`, which goes round at the end of the
/// address space.
pub open spec fn beyond(base: u64, off: int) -> int {
    (base + off) % 0x1_0000_0000_0000_0000
}

proof fn lemma_spelled(value: nat, n: nat)
    ensures
        spelled(value, n) == le_bytes(value, n),
        spelled(value, n).len() == n,
    decreases n,
{
    lemma_le_bytes_len(value, n);
    if n > 0 {
        lemma_spelled(value / 256, (n - 1) as nat);
    }
}

proof fn lemma_sizes()
    ensures
        vstd::arithmetic::power::pow(256, 2) == 0x1_0000,
        vstd::arithmetic::power::pow(256, 4) == 0x1_0000_0000,
        vstd::arithmetic::power::pow(256, 8) == 0x1_0000_0000_0000_0000,
{
    reveal_with_fuel(vstd::arithmetic::power::pow, 9);
}

/// A number can be read from memory, and is `value`, exactly where its bytes
/// spell `value`.
pub proof fn law_number_in_memory(k: Kernel, addr: u64, n: nat, value: u64)
    requires
        n == 2 && value < 0x1_0000 || n == 4 && value < 0x1_0000_0000 || n == 8,
    ensures
        k.read_number(addr, n) == Some(value) <==> holds(
            k.memory,
            addr as int,
            spelled(value as nat, n),
        ),
        n == 8 ==> (k.user_number(addr) == Some(value) <==> holds(
            k.user_memory,
            addr as int,
            spelled(value as nat, 8),
        )),
        k.read_number(addr, n) is Some ==> {
            &&& n == 2 ==> k.read_number(addr, n)->0 < 0x1_0000
            &&& n == 4 ==> k.read_number(addr, n)->0 < 0x1_0000_0000
        },
{
    lemma_sizes();
    lemma_number(k.memory, addr, n, value as nat);
    lemma_number(k.user_memory, addr, n, value as nat);
    if let Some(bytes) = k.read(addr, n) {
        lemma_bytes_back(bytes);
    }
    if let Some(bytes) = bytes_at(k.user_memory, addr, n) {
        lemma_bytes_back(bytes);
    }
}

proof fn lemma_number(memory: Map<int, u8>, addr: u64, n: nat, value: nat)
    requires
        value < vstd::arithmetic::power::pow(256, n),
    ensures
        (bytes_at(memory, addr, n) matches Some(bytes) && le_nat(bytes) == value) <==> holds(
            memory,
            addr as int,
            spelled(value, n),
        ),
{
    let text = spelled(value, n);
    lemma_spelled(value, n);
    lemma_le_round_trip(value, n);
    if holds(memory, addr as int, text) {
        assert forall|i: int| 0 <= i < n implies memory.dom().contains(#[trigger] (addr + i)) by {
            assert(memory.get(addr as int + i) == Some(text[i]));
        }
        let bytes = bytes_at(memory, addr, n)->0;
        assert(bytes =~= text) by {
            assert forall|i: int| 0 <= i < n implies bytes[i] == text[i] by {
                assert(memory.get(addr as int + i) == Some(text[i]));
            }
        }
    }
    if let Some(bytes) = bytes_at(memory, addr, n) {
        if le_nat(bytes) == value {
            lemma_bytes_back(bytes);
            assert forall|i: int| 0 <= i < text.len() implies memory.get(
                #[trigger] (addr as int + i),
            ) == Some(text[i]) by {
                assert(memory.dom().contains(addr + i));
                assert(bytes[i] == text[i]);
            }
        }
    }
}

/// A pointer in a structure is what the eight bytes at its offset spell.
pub proof fn law_pointer_in_memory(k: Kernel, base: u64, off: u64, value: u64)
    ensures
        field_addr(base, off) == beyond(base, off as int),
        k.ptr(base, off) == Some(value) <==> holds(
            k.memory,
            beyond(base, off as int),
            spelled(value as nat, 8),
        ),
{
    law_number_in_memory(k, field_addr(base, off), 8, value);
}

/// A dentry in memory: its name and its parent.
pub open spec fn is_dentry(
    memory: Map<int, u8>,
    dentry: u64,
    name: Seq<u8>,
    parent: u64,
) -> bool {
    &&& exists|ptr: u64|
        holds(memory, beyond(dentry, 0x28), #[trigger] spelled(ptr as nat, 8)) && holds(
            memory,
            ptr as int,
            name,
        )
    &&& name.len() < 0x1_0000_0000
    &&& holds(memory, beyond(dentry, 0x24), spelled(name.len(), 4))
    &&& holds(memory, beyond(dentry, 0x18), spelled(parent as nat, 8))
}

/// The dentries from `dentry` up to `root` have these names, the one of
/// `dentry` first; the root's own name is not one of them.
pub open spec fn climbs(
    memory: Map<int, u8>,
    dentry: u64,
    root: u64,
    names: Seq<Seq<u8>>,
) -> bool
    decreases names.len(),
{
    if names.len() == 0 {
        dentry == root
    } else {
        dentry != root && exists|parent: u64| #[trigger]
            is_dentry(memory, dentry, names[0], parent) && climbs(
                memory,
                parent,
                root,
                names.drop_first(),
            )
    }
}

/// `dentry` is in a file system, and its names up to the root of it are these.
pub open spec fn is_located(memory: Map<int, u8>, dentry: u64, names: Seq<Seq<u8>>) -> bool {
    exists|sb: u64, root: u64|
        holds(memory, beyond(dentry, 0x68), #[trigger] spelled(sb as nat, 8)) && holds(
            memory,
            beyond(sb, 0x68),
            #[trigger] spelled(root as nat, 8),
        ) && climbs(memory, dentry, root, names)
}

/// The names in the order of a path, each behind a slash.
pub open spec fn joined(names: Seq<Seq<u8>>) -> Seq<u8>
    decreases names.len(),
{
    if names.len() == 0 {
        Seq::empty()
    } else {
        joined(names.drop_first()).push(0x2fu8) + names[0]
    }
}

/// The absolute path that these names make; the root is a slash alone.
pub open spec fn absolute(names: Seq<Seq<u8>>) -> Seq<u8> {
    if names.len() == 0 {
        seq![0x2fu8]
    } else {
        joined(names)
    }
}

/// No more names than are walked, none of them empty, none longer than a name
/// can be.
pub open spec fn are_walked(names: Seq<Seq<u8>>) -> bool {
    names.len() <= 128 && forall|i: int|
        0 <= i < names.len() ==> 1 <= #[trigger] names[i].len() <= 255
}

/// `dentry` has this path, which fits in `size` bytes with a NUL behind it.
pub open spec fn has_path(memory: Map<int, u8>, dentry: u64, size: nat, path: Seq<u8>) -> bool {
    path.len() < size && exists|names: Seq<Seq<u8>>| #[trigger]
        is_located(memory, dentry, names) && are_walked(names) && path == absolute(names)
}

proof fn lemma_dentry(k: Kernel, dentry: u64, name: Seq<u8>, parent: u64)
    ensures
        is_dentry(k.memory, dentry, name, parent) && 1 <= name.len() <= 255 <==> k.name(dentry)
            == Some(name) && k.parent(dentry) == Some(parent),
        is_dentry(k.memory, dentry, name, parent) && !(1 <= name.len() <= 255) ==> k.name(
            dentry,
        ) is None,
{
    law_pointer_in_memory(k, dentry, 0x18, parent);
    if name.len() < 0x1_0000_0000 {
        law_number_in_memory(k, field_addr(dentry, 0x24), 4, name.len() as u64);
    }
    if is_dentry(k.memory, dentry, name, parent) {
        let ptr = choose|ptr: u64|
            holds(k.memory, beyond(dentry, 0x28), #[trigger] spelled(ptr as nat, 8)) && holds(
                k.memory,
                ptr as int,
                name,
            );
        law_pointer_in_memory(k, dentry, 0x28, ptr);
        assert(k.read_number(field_addr(dentry, 0x24), 4) == Some(name.len() as u64));
        lemma_bytes_held(k.memory, ptr, name);
    }
    if k.name(dentry) == Some(name) && k.parent(dentry) == Some(parent) {
        let ptr = k.ptr(dentry, 0x28)->0;
        law_pointer_in_memory(k, dentry, 0x28, ptr);
        let len = k.read_number(field_addr(dentry, 0x24), 4)->0;
        assert(name.len() == len);
        lemma_bytes_held(k.memory, ptr, name);
    }
}

proof fn lemma_bytes_held(memory: Map<int, u8>, addr: u64, bytes: Seq<u8>)
    ensures
        holds(memory, addr as int, bytes) <==> bytes_at(memory, addr, bytes.len()) == Some(bytes),
{
    let n = bytes.len();
    if holds(memory, addr as int, bytes) {
        assert forall|i: int| 0 <= i < n implies memory.dom().contains(#[trigger] (addr + i)) by {
            assert(memory.get(addr as int + i) == Some(bytes[i]));
        }
        assert(bytes_at(memory, addr, n)->0 =~= bytes) by {
            assert forall|i: int| 0 <= i < n implies bytes_at(memory, addr, n)->0[i]
                == bytes[i] by {
                assert(memory.get(addr as int + i) == Some(bytes[i]));
            }
        }
    }
    if bytes_at(memory, addr, n) == Some(bytes) {
        assert forall|i: int| 0 <= i < n implies memory.get(#[trigger] (addr as int + i)) == Some(
            bytes[i],
        ) by {
            assert(memory.dom().contains(addr + i));
        }
    }
}

proof fn lemma_climb(k: Kernel, root: u64, dentry: u64, depth: nat, names: Seq<Seq<u8>>)
    requires
        climbs(k.memory, dentry, root, names),
    ensures
        k.path_below(root, dentry, depth) == if names.len() <= depth && (forall|i: int|
            0 <= i < names.len() ==> 1 <= #[trigger] names[i].len() <= 255) {
            Some(joined(names))
        } else {
            None
        },
    decreases names.len(),
{
    if names.len() > 0 {
        let parent = choose|parent: u64| #[trigger]
            is_dentry(k.memory, dentry, names[0], parent) && climbs(
                k.memory,
                parent,
                root,
                names.drop_first(),
            );
        lemma_dentry(k, dentry, names[0], parent);
        if depth > 0 {
            let rest = names.drop_first();
            lemma_climb(k, root, parent, (depth - 1) as nat, rest);
            if forall|i: int| 0 <= i < rest.len() ==> 1 <= #[trigger] rest[i].len() <= 255 {
                assert forall|i: int| 1 <= i < names.len() implies 1 <= #[trigger] names[i].len()
                    <= 255 by {
                    assert(rest[i - 1] == names[i]);
                }
            } else {
                let i = choose|i: int|
                    0 <= i < rest.len() && !(1 <= #[trigger] rest[i].len() <= 255);
                assert(names[i + 1] == rest[i]);
            }
        }
    }
}

proof fn lemma_climbed(k: Kernel, root: u64, dentry: u64, depth: nat) -> (names: Seq<Seq<u8>>)
    requires
        k.path_below(root, dentry, depth) is Some,
    ensures
        climbs(k.memory, dentry, root, names),
        names.len() <= depth,
        forall|i: int| 0 <= i < names.len() ==> 1 <= #[trigger] names[i].len() <= 255,
    decreases depth,
{
    if dentry == root {
        Seq::empty()
    } else {
        let name = k.name(dentry)->0;
        let parent = k.parent(dentry)->0;
        lemma_dentry(k, dentry, name, parent);
        let rest = lemma_climbed(k, root, parent, (depth - 1) as nat);
        let names = seq![name] + rest;
        assert(names.drop_first() =~= rest);
        assert(names[0] == name);
        assert(is_dentry(k.memory, dentry, names[0], parent));
        assert forall|i: int| 0 <= i < names.len() implies 1 <= #[trigger] names[i].len()
            <= 255 by {
            if i > 0 {
                assert(names[i] == rest[i - 1]);
            }
        }
        names
    }
}

/// A dentry is resolved to the path that its names make, from the root down: to
/// all of it, or not at all.
pub proof fn law_paths_are_complete(k: Kernel, dentry: u64, size: nat, names: Seq<Seq<u8>>)
    requires
        is_located(k.memory, dentry, names),
    ensures
        k.resolve(dentry, size) == if are_walked(names) && absolute(names).len() < size {
            Some(absolute(names))
        } else {
            None
        },
{
    let (sb, root) = choose|sb: u64, root: u64|
        holds(k.memory, beyond(dentry, 0x68), #[trigger] spelled(sb as nat, 8)) && holds(
            k.memory,
            beyond(sb, 0x68),
            #[trigger] spelled(root as nat, 8),
        ) && climbs(k.memory, dentry, root, names);
    law_pointer_in_memory(k, dentry, 0x68, sb);
    law_pointer_in_memory(k, sb, 0x68, root);
    lemma_climb(k, root, dentry, 128, names);
}

/// What a dentry is resolved to is its path: there is a chain of dentries in
/// memory, up to the root, whose names make it. No part of a chain passes for
/// the whole.
pub proof fn law_no_partial_path(k: Kernel, dentry: u64, size: nat, path: Seq<u8>)
    ensures
        k.resolve(dentry, size) == Some(path) <==> has_path(k.memory, dentry, size, path),
        k.resolve(dentry, size) is None <==> forall|other: Seq<u8>|
            !has_path(k.memory, dentry, size, other),
{
    if let Some(found) = k.resolve(dentry, size) {
        let sb = k.ptr(dentry, 0x68)->0;
        let root = k.ptr(sb, 0x68)->0;
        law_pointer_in_memory(k, dentry, 0x68, sb);
        law_pointer_in_memory(k, sb, 0x68, root);
        let names = if dentry == root {
            Seq::empty()
        } else {
            lemma_climbed(k, root, dentry, 128)
        };
        assert(climbs(k.memory, dentry, root, names));
        assert(is_located(k.memory, dentry, names));
        law_paths_are_complete(k, dentry, size, names);
        assert(has_path(k.memory, dentry, size, found));
    }
    assert forall|other: Seq<u8>| has_path(k.memory, dentry, size, other) implies k.resolve(
        dentry,
        size,
    ) == Some(other) by {
        let names = choose|names: Seq<Seq<u8>>| #[trigger]
            is_located(k.memory, dentry, names) && are_walked(names) && other == absolute(names);
        law_paths_are_complete(k, dentry, size, names);
    }
}

/// A walk leaves the path of its dentry at the start of its area, with a NUL
/// behind it, and the number of these bytes; or 0 where there is no path that
/// fits. Outside its area it changes nothing.
pub proof fn law_walk(
    k: Kernel,
    dentry: u64,
    base: usize,
    size: usize,
    record: Seq<u8>,
    path: Seq<u8>,
)
    requires
        base + size <= record.len() <= usize::MAX,
    ensures
        ({
            let (end, left) = k.run_walk(PathWalk::start(dentry, base, size), record);
            &&& left.len() == record.len()
            &&& forall|i: int|
                0 <= i < base || base + size <= i < record.len() ==> left[i] == record[i]
            &&& has_path(k.memory, dentry, size as nat, path) ==> {
                &&& end.stage == WalkStage::Done { len: (path.len() + 1) as usize }
                &&& left.subrange(base as int, base + path.len()) == path
                &&& left[base + path.len()] == 0
            }
            &&& (forall|other: Seq<u8>| !has_path(k.memory, dentry, size as nat, other))
                ==> end.stage == WalkStage::Done { len: 0 }
        }),
{
    law_walk_resolves(k, dentry, base, size, record);
    law_no_partial_path(k, dentry, size as nat, path);
    let (end, left) = k.run_walk(PathWalk::start(dentry, base, size), record);
    assert forall|i: int| 0 <= i < base || base + size <= i < record.len() implies left[i]
        == record[i] by {
        if i < base {
            assert(left.take(base as int)[i] == record.take(base as int)[i]);
        } else {
            let n = base + size;
            assert(left.skip(n)[i - n] == record.skip(n)[i - n]);
        }
    }
    if has_path(k.memory, dentry, size as nat, path) {
        let whole = left.subrange(base as int, base + path.len() + 1);
        assert(left.subrange(base as int, base + path.len()) =~= whole.take(path.len() as int));
        assert(whole.take(path.len() as int) =~= path);
        assert(left[base + path.len()] == whole[path.len() as int]);
    }
}

/// `parent` is the thread group ID in the parent of the current task.
pub open spec fn is_parent(k: Kernel, parent: u32) -> bool {
    exists|task: u64|
        holds(k.memory, beyond(k.task, 0x990), #[trigger] spelled(task as nat, 8)) && holds(
            k.memory,
            beyond(task, 0x984),
            spelled(parent as nat, 4),
        )
}

/// `dentry` is the dentry of the file that the current task runs.
pub open spec fn is_binary(k: Kernel, dentry: u64) -> bool {
    exists|mm: u64, file: u64|
        holds(k.memory, beyond(k.task, 0x900), #[trigger] spelled(mm as nat, 8)) && holds(
            k.memory,
            beyond(mm, 0x488),
            #[trigger] spelled(file as nat, 8),
        ) && holds(k.memory, beyond(file, 0x48), spelled(dentry as nat, 8))
}

/// What is told of the parent: its process ID, or 0 if that cannot be read.
pub open spec fn told_parent(k: Kernel, ppid: u32) -> bool {
    is_parent(k, ppid) || (ppid == 0 && forall|other: u32| !is_parent(k, other))
}

/// What stands for the binary: its dentry, or null if that cannot be read.
pub open spec fn told_dentry(k: Kernel, dentry: u64) -> bool {
    is_binary(k, dentry) || (dentry == 0 && forall|other: u64| !is_binary(k, other))
}

/// `exe` is the path of the binary, if it has one that fits in a record.
pub open spec fn told_binary(k: Kernel, exe: Option<Seq<u8>>) -> bool {
    exists|dentry: u64| #[trigger]
        told_dentry(k, dentry) && match exe {
            Some(exe) => has_path(k.memory, dentry, 256, exe),
            None => forall|other: Seq<u8>| !has_path(k.memory, dentry, 256, other),
        }
}

/// The parent's process ID is the number in the parent task.
pub proof fn law_parent(k: Kernel, ppid: u32)
    ensures
        k.ppid() == ppid <==> told_parent(k, ppid),
        k.run_ppid(PpidLookup::Task) == (PpidLookup::Done { ppid }) <==> told_parent(k, ppid),
{
    law_ppid_is_found(k);
    assert forall|other: u32| is_parent(k, other) implies k.ppid() == other by {
        let task = choose|task: u64|
            holds(k.memory, beyond(k.task, 0x990), #[trigger] spelled(task as nat, 8)) && holds(
                k.memory,
                beyond(task, 0x984),
                spelled(other as nat, 4),
            );
        law_pointer_in_memory(k, k.task, 0x990, task);
        law_pointer_in_memory(k, task, 0x984, 0);
        law_number_in_memory(k, field_addr(task, 0x984), 4, other as u64);
    }
    if let Some(task) = k.ptr(k.task, 0x990) {
        law_pointer_in_memory(k, k.task, 0x990, task);
        law_pointer_in_memory(k, task, 0x984, 0);
        law_number_in_memory(k, field_addr(task, 0x984), 4, 0);
        if let Some(tgid) = k.read_number(field_addr(task, 0x984), 4) {
            law_number_in_memory(k, field_addr(task, 0x984), 4, tgid);
            assert(is_parent(k, tgid as u32));
        }
    }
}

proof fn lemma_file_dentry(k: Kernel, file: u64, dentry: u64)
    ensures
        k.file_dentry(file) == Some(dentry) <==> holds(
            k.memory,
            beyond(file, 0x48),
            spelled(dentry as nat, 8),
        ),
{
    law_pointer_in_memory(k, field_addr(file, 0x40), 0x08, dentry);
    law_pointer_in_memory(k, file, 0x48, dentry);
    assert(field_addr(field_addr(file, 0x40), 0x08) == field_addr(file, 0x48));
}

/// The binary's dentry is the one of the file that the task's memory belongs
/// to.
pub proof fn law_binary(k: Kernel, dentry: u64)
    ensures
        k.exe_dentry() == dentry <==> told_dentry(k, dentry),
        k.run_exe(ExeLookup::Task) == (ExeLookup::Done { dentry }) <==> told_dentry(k, dentry),
{
    law_exe_dentry_is_found(k);
    assert forall|other: u64| is_binary(k, other) implies k.exe_dentry() == other by {
        let (mm, file) = choose|mm: u64, file: u64|
            holds(k.memory, beyond(k.task, 0x900), #[trigger] spelled(mm as nat, 8)) && holds(
                k.memory,
                beyond(mm, 0x488),
                #[trigger] spelled(file as nat, 8),
            ) && holds(k.memory, beyond(file, 0x48), spelled(other as nat, 8));
        law_pointer_in_memory(k, k.task, 0x900, mm);
        law_pointer_in_memory(k, mm, 0x488, file);
        lemma_file_dentry(k, file, other);
    }
    if let Some(mm) = k.ptr(k.task, 0x900) {
        law_pointer_in_memory(k, k.task, 0x900, mm);
        if let Some(file) = k.ptr(mm, 0x488) {
            law_pointer_in_memory(k, mm, 0x488, file);
            if let Some(found) = k.file_dentry(file) {
                lemma_file_dentry(k, file, found);
                assert(is_binary(k, found));
            }
        }
    }
}

proof fn lemma_told_binary(k: Kernel, exe: Option<Seq<u8>>)
    requires
        told_binary(k, exe),
    ensures
        k.exe_path() == exe,
{
    let dentry = choose|dentry: u64| #[trigger]
        told_dentry(k, dentry) && match exe {
            Some(exe) => has_path(k.memory, dentry, 256, exe),
            None => forall|other: Seq<u8>| !has_path(k.memory, dentry, 256, other),
        };
    law_binary(k, dentry);
    match exe {
        Some(path) => law_no_partial_path(k, dentry, 256, path),
        None => law_no_partial_path(k, dentry, 256, Seq::empty()),
    }
}

/// `record` tells of this operation, process and file: the fields stand at
/// their places, and each path has a NUL behind it.
pub open spec fn tells(
    record: Seq<u8>,
    op: FileOp,
    pid: u32,
    ppid: u32,
    cgroup_id: u64,
    exe: Seq<u8>,
    path: Seq<u8>,
) -> bool {
    &&& record.len() >= 536
    &&& record[0] == match op {
        FileOp::Create => 1u8,
        FileOp::Write => 2u8,
        FileOp::Delete => 3u8,
    }
    &&& record[4] + 0x100 * record[5] + 0x1_0000 * record[6] + 0x100_0000 * record[7] == pid
    &&& record[8] + 0x100 * record[9] + 0x1_0000 * record[10] + 0x100_0000 * record[11] == ppid
    &&& record[16] + 0x100 * record[17] + 0x1_0000 * record[18] + 0x100_0000 * record[19]
        + 0x1_0000_0000 * record[20] + 0x100_0000_0000 * record[21] + 0x1_0000_0000_0000
        * record[22] + 0x100_0000_0000_0000 * record[23] == cgroup_id
    &&& exe.len() < 256 && record.subrange(24, 24int + exe.len()) == exe && record[24int + exe.len()] == 0
    &&& path.len() < 256 && record.subrange(280, 280int + path.len()) == path && record[280int
        + path.len()] == 0
}

/// What comes of an operation on the file at `path`. The process is terminated
/// exactly where the path is protected. A record is submitted exactly where the
/// path is watched and fits, the binary has a path, and there is room; it tells
/// of all of it. Else a record that was reserved is given back.
pub open spec fn dealt(
    k: Kernel,
    run: Run,
    op: FileOp,
    pid: u32,
    ppid: u32,
    exe: Option<Seq<u8>>,
    path: Seq<u8>,
) -> bool {
    &&& run.signals == if below(path, "/var/secure"@) {
        seq![9u32]
    } else {
        Seq::empty()
    }
    &&& if k.has_room && watched(path) && path.len() < 256 && exe is Some {
        run.last is Submit && tells(run.record, op, pid, ppid, k.cgroup_id, exe->0, path)
    } else {
        run.last == if k.has_room {
            Action::Discard
        } else {
            Action::Leave
        }
    }
}

/// What comes of an operation on a file whose path cannot be had: nothing.
pub open spec fn passed_over(k: Kernel, run: Run) -> bool {
    run.signals == Seq::<u32>::empty() && run.last == if k.has_room {
        Action::Discard
    } else {
        Action::Leave
    }
}

/// Nothing was done, and no record was reserved.
pub open spec fn idle(run: Run, record: Seq<u8>) -> bool {
    run.last is Leave && run.signals == Seq::<u32>::empty() && run.record == record
}

proof fn lemma_text(area: Seq<u8>, text: Seq<u8>)
    requires
        cstr_text(area) == text,
        text.len() < area.len(),
    ensures
        area.subrange(0, text.len() as int) == text,
        area[text.len() as int] == 0,
{
    law_cstr_end(area, cstr_end(area));
    assert(area.subrange(0, text.len() as int) =~= cstr_text(area));
}

proof fn lemma_terminated(text: Seq<u8>)
    requires
        forall|i: int| 0 <= i < text.len() ==> text[i] != 0,
    ensures
        cstr_text(text.push(0u8)) == text,
{
    crate::cstr::law_terminated_text(text, Seq::empty());
    assert(text.push(0u8) + Seq::<u8>::empty() =~= text.push(0u8));
}

proof fn lemma_dealt(
    k: Kernel,
    run: Run,
    op: FileOp,
    tgid: u32,
    tid: u32,
    ppid: u32,
    exe: Option<Seq<u8>>,
    path: Seq<u8>,
)
    requires
        k.pid_tgid == tgid * 0x1_0000_0000 + tid,
        told_parent(k, ppid),
        told_binary(k, exe),
        exe matches Some(exe) ==> forall|i: int| 0 <= i < exe.len() ==> exe[i] != 0,
        k.deals_with(run, op, path),
    ensures
        dealt(k, run, op, tgid, ppid, exe, path),
{
    law_parent(k, ppid);
    lemma_told_binary(k, exe);
    law_protected_paths(path, Seq::empty(), Seq::empty(), Seq::empty());
    lemma_monitored_bytes(path);
    assert(pid_of(k.pid_tgid) == tgid);
    if k.has_room && watched(path) && path.len() < 256 && exe is Some {
        let record = run.record;
        let binary = exe->0;
        lemma_terminated(binary);
        crate::walk::law_resolved_path_is_absolute(k, k.exe_dentry(), 256);
        lemma_digits(record.subrange(4, 8));
        lemma_digits(record.subrange(8, 12));
        lemma_digits(record.subrange(16, 24));
        lemma_text(exe_area(record), binary);
        lemma_text(file_area(record), path);
        assert(record.subrange(24, 24int + binary.len()) =~= exe_area(record).subrange(
            0,
            binary.len() as int,
        ));
        assert(record.subrange(280, 280int + path.len()) =~= file_area(record).subrange(
            0,
            path.len() as int,
        ));
    }
}

/// `dentry` is the dentry of the file in the first argument, which is a regular
/// one: the type in the upper four bits of its inode's mode is 8. The lower bits
/// may be any.
pub open spec fn is_written(k: Kernel, dentry: u64) -> bool {
    exists|file: u64, inode: u64, mode: u16|
        k.arguments.get(0) == Some(file) && holds(
            k.memory,
            beyond(file, 0x28),
            #[trigger] spelled(inode as nat, 8),
        ) && holds(k.memory, inode as int, #[trigger] spelled(mode as nat, 2)) && mode / 0o10000
            == 8 && #[trigger] holds(k.memory, beyond(file, 0x48), spelled(dentry as nat, 8))
}

proof fn lemma_mode(mode: u64)
    requires
        mode < 0x1_0000,
    ensures
        is_regular(mode) <==> mode / 0o10000 == 8,
{
    let bits = mode as u16;
    assert(bits & 0o170000u16 == 0o100000u16 <==> bits / 0o10000u16 == 8u16) by (bit_vector);
}

proof fn lemma_written(k: Kernel, dentry: u64)
    ensures
        k.written_dentry() == Some(dentry) <==> is_written(k, dentry),
{
    if is_written(k, dentry) {
        let (file, inode, mode) = choose|file: u64, inode: u64, mode: u16|
            k.arguments.get(0) == Some(file) && holds(
                k.memory,
                beyond(file, 0x28),
                #[trigger] spelled(inode as nat, 8),
            ) && holds(k.memory, inode as int, #[trigger] spelled(mode as nat, 2)) && mode
                / 0o10000 == 8 && #[trigger] holds(
                k.memory,
                beyond(file, 0x48),
                spelled(dentry as nat, 8),
            );
        law_pointer_in_memory(k, file, 0x28, inode);
        law_pointer_in_memory(k, inode, 0, 0);
        law_number_in_memory(k, inode, 2, mode as u64);
        lemma_mode(mode as u64);
        lemma_file_dentry(k, file, dentry);
    }
    if k.written_dentry() == Some(dentry) {
        let file = k.arguments.get(0)->0;
        let inode = k.ptr(file, 0x28)->0;
        law_pointer_in_memory(k, file, 0x28, inode);
        law_pointer_in_memory(k, inode, 0, 0);
        assert(field_addr(inode, 0) == inode);
        let mode = k.read_number(inode, 2)->0;
        law_number_in_memory(k, inode, 2, 0);
        law_number_in_memory(k, inode, 2, mode);
        lemma_mode(mode);
        lemma_file_dentry(k, file, dentry);
        let kept = mode as u16;
        assert(holds(k.memory, inode as int, spelled(kept as nat, 2)));
    }
}

/// The mode of a written file decides by its type alone: a regular file is dealt
/// with whatever its permissions are, and any other is passed by.
pub proof fn law_mode(
    k: Kernel,
    op: FileOp,
    file: u64,
    inode: u64,
    mode: u16,
    dentry: u64,
    record: Seq<u8>,
)
    requires
        536 <= record.len() <= usize::MAX,
        k.arguments.get(0) == Some(file),
        holds(k.memory, beyond(file, 0x28), spelled(inode as nat, 8)),
        holds(k.memory, inode as int, spelled(mode as nat, 2)),
        holds(k.memory, beyond(file, 0x48), spelled(dentry as nat, 8)),
    ensures
        mode / 0o10000 == 8 <==> is_written(k, dentry),
        mode / 0o10000 != 8 ==> idle(k.run(emitting(op, true), record), record),
{
    law_pointer_in_memory(k, file, 0x28, inode);
    law_pointer_in_memory(k, inode, 0, 0);
    law_number_in_memory(k, inode, 2, mode as u64);
    lemma_mode(mode as u64);
    lemma_written(k, dentry);
    law_probe_on_arguments(k, op, true, record);
}

/// A write to a regular file is dealt with by the file's path; any other write
/// is passed by, and so is every write of the observer.
pub proof fn law_write(
    k: Kernel,
    op: FileOp,
    tgid: u32,
    tid: u32,
    ppid: u32,
    exe: Option<Seq<u8>>,
    dentry: u64,
    path: Seq<u8>,
    record: Seq<u8>,
)
    requires
        536 <= record.len() <= usize::MAX,
        k.pid_tgid == tgid * 0x1_0000_0000 + tid,
        told_parent(k, ppid),
        told_binary(k, exe),
        exe matches Some(exe) ==> forall|i: int| 0 <= i < exe.len() ==> exe[i] != 0,
        forall|i: int| 0 <= i < path.len() ==> path[i] != 0,
    ensures
        ({
            let run = k.run(emitting(op, true), record);
            &&& k.observer == Some(tgid) ==> idle(run, record)
            &&& (forall|other: u64| !is_written(k, other)) ==> idle(run, record)
            &&& k.observer != Some(tgid) && is_written(k, dentry) ==> {
                &&& has_path(k.memory, dentry, 256, path) ==> dealt(
                    k,
                    run,
                    op,
                    tgid,
                    ppid,
                    exe,
                    path,
                )
                &&& (forall|other: Seq<u8>| !has_path(k.memory, dentry, 256, other))
                    ==> passed_over(k, run)
            }
        }),
{
    let run = k.run(emitting(op, true), record);
    law_probe_on_arguments(k, op, true, record);
    lemma_written(k, dentry);
    if let Some(found) = k.written_dentry() {
        lemma_written(k, found);
    }
    assert(pid_of(k.pid_tgid) == tgid);
    law_no_partial_path(k, dentry, 256, path);
    lemma_terminated(path);
    if k.observer != Some(tgid) && is_written(k, dentry) && has_path(k.memory, dentry, 256, path) {
        lemma_dealt(k, run, op, tgid, tid, ppid, exe, path);
    }
}

/// A deletion is dealt with by the path of the dentry in the third argument; it
/// is passed by where there is none, and where the observer does it.
pub proof fn law_delete(
    k: Kernel,
    op: FileOp,
    tgid: u32,
    tid: u32,
    ppid: u32,
    exe: Option<Seq<u8>>,
    dentry: u64,
    path: Seq<u8>,
    record: Seq<u8>,
)
    requires
        536 <= record.len() <= usize::MAX,
        k.pid_tgid == tgid * 0x1_0000_0000 + tid,
        told_parent(k, ppid),
        told_binary(k, exe),
        exe matches Some(exe) ==> forall|i: int| 0 <= i < exe.len() ==> exe[i] != 0,
        forall|i: int| 0 <= i < path.len() ==> path[i] != 0,
    ensures
        ({
            let run = k.run(emitting(op, false), record);
            &&& k.observer == Some(tgid) ==> idle(run, record)
            &&& k.arguments.get(2) is None ==> idle(run, record)
            &&& k.observer != Some(tgid) && k.arguments.get(2) == Some(dentry) ==> {
                &&& has_path(k.memory, dentry, 256, path) ==> dealt(
                    k,
                    run,
                    op,
                    tgid,
                    ppid,
                    exe,
                    path,
                )
                &&& (forall|other: Seq<u8>| !has_path(k.memory, dentry, 256, other))
                    ==> passed_over(k, run)
            }
        }),
{
    let run = k.run(emitting(op, false), record);
    law_probe_on_arguments(k, op, false, record);
    assert(pid_of(k.pid_tgid) == tgid);
    law_no_partial_path(k, dentry, 256, path);
    lemma_terminated(path);
    if k.observer != Some(tgid) && k.arguments.get(2) == Some(dentry) && has_path(
        k.memory,
        dentry,
        256,
        path,
    ) {
        lemma_dealt(k, run, op, tgid, tid, ppid, exe, path);
    }
}

/// `path` stands at `name` in user memory: it has no NUL, and can be read up to
/// the NUL behind it or, if it is longer, for 256 bytes.
pub open spec fn is_passed(k: Kernel, name: u64, path: Seq<u8>) -> bool {
    &&& forall|i: int| 0 <= i < path.len() ==> path[i] != 0
    &&& path.len() < 256 ==> holds(k.user_memory, name as int, path.push(0u8))
    &&& path.len() >= 256 ==> holds(k.user_memory, name as int, path.take(256))
}

/// A creation is dealt with by the path that was passed, however long it is;
/// where it cannot be read that far, nothing comes of it. The observer's are
/// passed by.
pub proof fn law_create(
    k: Kernel,
    tgid: u32,
    tid: u32,
    ppid: u32,
    exe: Option<Seq<u8>>,
    name: u64,
    path: Seq<u8>,
    record: Seq<u8>,
)
    requires
        forall|addr: int| #[trigger]
            k.user_memory.dom().contains(addr) ==> 0 <= addr <= u64::MAX,
        536 <= record.len() <= usize::MAX,
        k.pid_tgid == tgid * 0x1_0000_0000 + tid,
        told_parent(k, ppid),
        told_binary(k, exe),
        exe matches Some(exe) ==> forall|i: int| 0 <= i < exe.len() ==> exe[i] != 0,
    ensures
        ({
            let run = k.run(creating(name), record);
            &&& k.observer == Some(tgid) ==> idle(run, record)
            &&& k.observer != Some(tgid) && is_passed(k, name, path) ==> dealt(
                k,
                run,
                FileOp::Create,
                tgid,
                ppid,
                exe,
                path,
            )
            &&& k.observer != Some(tgid) && (forall|other: Seq<u8>| !is_passed(k, name, other))
                ==> passed_over(k, run)
        }),
{
    let run = k.run(creating(name), record);
    law_probe_on_create(k, name, record);
    assert(pid_of(k.pid_tgid) == tgid);
    if k.observer != Some(tgid) && is_passed(k, name, path) {
        assert(k.is_named(path, name)) by {
            let seen = if path.len() < 256 {
                path.push(0u8)
            } else {
                path.take(256)
            };
            assert forall|i: int| 0 <= i < path.len() && i < 256 implies k.user_memory.get(
                #[trigger] (name + i),
            ) == Some(path[i]) by {
                assert(k.user_memory.get(name as int + i) == Some(seen[i]));
            }
            if path.len() < 256 {
                assert(k.user_memory.get(name as int + path.len()) == Some(seen[
                    path.len() as int
                ]));
            }
        }
        law_creation_goes_by_its_path(k, name, path, record);
        lemma_dealt(k, run, FileOp::Create, tgid, tid, ppid, exe, path);
    }
    if let Some(start) = k.user_start(name as int, 256) {
        crate::runs::lemma_user_start(k, name as int, 256);
        if start.len() < 256 {
            let whole = start.push(0u8);
            assert forall|i: int| 0 <= i < whole.len() implies k.user_memory.get(
                #[trigger] (name as int + i),
            ) == Some(whole[i]) by {
                if i < start.len() {
                    assert(whole[i] == start[i]);
                }
            }
        } else {
            assert(start.take(256) =~= start);
        }
        assert(is_passed(k, name, start));
    }
}

/// The flags of an open call are `flags`: a field of the call itself, or behind
/// a pointer in it that is not null.
pub open spec fn has_flags(k: Kernel, indirect: bool, flags: u64) -> bool {
    if indirect {
        exists|how: u64|
            how != 0 && k.fields.get(32) == Some(how) && #[trigger] holds(
                k.user_memory,
                how as int,
                spelled(flags as nat, 8),
            )
    } else {
        k.fields.get(32) == Some(flags)
    }
}

/// An open call is a creation exactly where bit 6 of its flags is set, whatever
/// the other bits are; else, and where its path or its flags are not there to be
/// read, nothing is done.
pub proof fn law_open(k: Kernel, indirect: bool, name: u64, flags: u64, record: Seq<u8>)
    ensures
        ({
            let run = k.run(opening(indirect), record);
            &&& k.fields.get(24) == Some(name) && has_flags(k, indirect, flags) && (flags / 64) % 2
                == 1 ==> run == k.run(creating(name), record)
            &&& has_flags(k, indirect, flags) && (flags / 64) % 2 == 0 ==> idle(run, record)
            &&& k.fields.get(24) is None ==> idle(run, record)
            &&& (forall|other: u64| !has_flags(k, indirect, other)) ==> idle(run, record)
        }),
{
    law_probe_on_open(k, indirect, record);
    lemma_flags(k, indirect, flags);
    let given = match k.fields.get(32) {
        Some(how) if indirect => if how == 0 {
            None
        } else {
            k.user_number(how)
        },
        given => given,
    };
    if let Some(given) = given {
        lemma_flags(k, indirect, given);
        lemma_creates(given);
        if indirect {
            let how = k.fields.get(32)->0;
            law_number_in_memory(k, how, 8, given);
        }
        assert(has_flags(k, indirect, given));
    }
    lemma_creates(flags);
}

proof fn lemma_creates(flags: u64)
    ensures
        may_create(flags) <==> (flags / 64) % 2 == 1,
{
    assert((flags as u32) & 0o100u32 != 0u32 <==> (flags / 64) % 2 == 1) by (bit_vector);
}

proof fn lemma_flags(k: Kernel, indirect: bool, flags: u64)
    ensures
        has_flags(k, indirect, flags) ==> Some(flags) == match k.fields.get(32) {
            Some(how) if indirect => if how == 0 {
                None
            } else {
                k.user_number(how)
            },
            given => given,
        },
{
    if indirect && has_flags(k, indirect, flags) {
        let how = choose|how: u64|
            how != 0 && k.fields.get(32) == Some(how) && #[trigger] holds(
                k.user_memory,
                how as int,
                spelled(flags as nat, 8),
            );
        law_number_in_memory(k, how, 8, flags);
    }
}

/// An open call with bit 6 of its flags set, from start to end: it is dealt with
/// as the creation of the file at the path that was passed.
pub proof fn law_open_that_creates(
    k: Kernel,
    indirect: bool,
    tgid: u32,
    tid: u32,
    ppid: u32,
    exe: Option<Seq<u8>>,
    name: u64,
    flags: u64,
    path: Seq<u8>,
    record: Seq<u8>,
)
    requires
        forall|addr: int| #[trigger]
            k.user_memory.dom().contains(addr) ==> 0 <= addr <= u64::MAX,
        536 <= record.len() <= usize::MAX,
        k.pid_tgid == tgid * 0x1_0000_0000 + tid,
        told_parent(k, ppid),
        told_binary(k, exe),
        exe matches Some(exe) ==> forall|i: int| 0 <= i < exe.len() ==> exe[i] != 0,
        k.fields.get(24) == Some(name),
        is_passed(k, name, path),
        has_flags(k, indirect, flags),
    ensures
        ({
            let run = k.run(opening(indirect), record);
            if (flags / 64) % 2 == 1 && k.observer != Some(tgid) {
                dealt(k, run, FileOp::Create, tgid, ppid, exe, path)
            } else {
                idle(run, record)
            }
        }),
{
    law_open(k, indirect, name, flags, record);
    law_create(k, tgid, tid, ppid, exe, name, path, record);
}

/// The process ID is the upper half of the pair of IDs, all 32 bits of it, and
/// the observer is told by exactly that number.
pub proof fn law_observer(k: Kernel, tgid: u32, tid: u32)
    requires
        k.pid_tgid == tgid * 0x1_0000_0000 + tid,
    ensures
        pid_of(k.pid_tgid) == tgid,
        k.is_observer() <==> k.observer == Some(tgid),
{
}

/// A probe asks for a signal only with the path of a protected file in its
/// buffer, whatever it was told and whatever stood there before, and the signal
/// is the one that cannot be caught.
pub proof fn law_signals(probe: Probe, reply: Option<u64>, record: Seq<u8>)
    requires
        !(probe.wants() is Signal),
    ensures
        ({
            let (next, left) = probe.after(reply, record);
            next.wants() is Signal && left.len() >= 536 ==> {
                &&& next.wants() == (Action::Signal { signal: 9 })
                &&& exists|path: Seq<u8>| #[trigger]
                    below(path, "/var/secure"@) && path.len() <= 256 && left.subrange(
                        280,
                        280int + path.len(),
                    ) == path && (path.len() < 256 ==> left[280int + path.len()] == 0)
            }
        }),
{
    let (next, left) = probe.after(reply, record);
    if next.wants() is Signal && left.len() >= 536 {
        let area = file_area(left);
        let path = cstr_text(area);
        law_protected_paths(path, Seq::empty(), Seq::empty(), Seq::empty());
        law_cstr_end(area, cstr_end(area));
        assert(left.subrange(280, 280int + path.len()) =~= path);
        assert(below(path, "/var/secure"@));
    }
}

/// What is submitted tells of a watched file and has the path of a binary in it,
/// whatever the kernel's memory holds, and there was room for it.
pub proof fn law_submissions(
    k: Kernel,
    op: FileOp,
    target_is_file: bool,
    indirect: bool,
    record: Seq<u8>,
)
    requires
        forall|addr: int| #[trigger]
            k.user_memory.dom().contains(addr) ==> 0 <= addr <= u64::MAX,
        536 <= record.len() <= usize::MAX,
    ensures
        k.run(emitting(op, target_is_file), record).last is Submit ==> k.has_room && is_telling(
            k.run(emitting(op, target_is_file), record).record,
        ),
        k.run(opening(indirect), record).last is Submit ==> k.has_room && is_telling(
            k.run(opening(indirect), record).record,
        ),
{
    law_probe_on_arguments(k, op, target_is_file, record);
    law_probe_on_open(k, indirect, record);
    lemma_telling(k, k.run(emitting(op, target_is_file), record).record);
    lemma_telling(k, k.run(opening(indirect), record).record);
    if let Some(name) = k.fields.get(24) {
        law_probe_on_create(k, name, record);
    }
}

/// The record holds the path of a watched file, and behind it a NUL, and the
/// start of an absolute path of a binary.
pub open spec fn is_telling(record: Seq<u8>) -> bool {
    &&& record.len() >= 536
    &&& exists|path: Seq<u8>| #[trigger]
        watched(path) && path.len() < 256 && record.subrange(280, 280int + path.len()) == path
            && record[280int + path.len()] == 0
    &&& record[24] == 0x2f
}

proof fn lemma_telling(k: Kernel, record: Seq<u8>)
    ensures
        record.len() >= 536 && monitored_bytes(cstr_text(file_area(record))) && cstr_text(
            file_area(record),
        ).len() < 256 && k.exe_path() is Some && cstr_text(exe_area(record)) == cstr_text(
            k.exe_path()->0.push(0u8),
        ) ==> is_telling(record),
{
    if record.len() >= 536 && monitored_bytes(cstr_text(file_area(record))) && cstr_text(
        file_area(record),
    ).len() < 256 && k.exe_path() is Some && cstr_text(exe_area(record)) == cstr_text(
        k.exe_path()->0.push(0u8),
    ) {
        let path = cstr_text(file_area(record));
        lemma_monitored_bytes(path);
        lemma_text(file_area(record), path);
        assert(record.subrange(280, 280int + path.len()) =~= file_area(record).subrange(
            0,
            path.len() as int,
        ));
        assert(watched(path));
        crate::walk::law_resolved_path_is_absolute(k, k.exe_dentry(), 256);
        let exe = k.exe_path()->0.push(0u8);
        law_cstr_end(exe, cstr_end(exe));
        assert(exe[0] == 0x2f);
        assert(cstr_end(exe) > 0);
        assert(cstr_text(exe).len() > 0 && cstr_text(exe)[0] == 0x2f);
        assert(cstr_end(exe_area(record)) > 0);
        law_cstr_end(exe_area(record), cstr_end(exe_area(record)));
        assert(cstr_text(exe_area(record))[0] == exe_area(record)[0]);
    }
}

/// `text` is the string in `buf`: it stands at the start, has no NUL, and is
/// followed by one unless it fills `buf`.
pub open spec fn is_string_in(text: Seq<u8>, buf: Seq<u8>) -> bool {
    &&& text.len() <= buf.len()
    &&& buf.subrange(0, text.len() as int) == text
    &&& forall|i: int| 0 <= i < text.len() ==> text[i] != 0
    &&& text.len() < buf.len() ==> buf[text.len() as int] == 0
}

/// The string in a buffer is what stands before its first NUL, or all of it.
pub proof fn law_string(buf: Seq<u8>, text: Seq<u8>)
    ensures
        cstr_text(buf) == text <==> is_string_in(text, buf),
        cstr_end(buf) == cstr_text(buf).len(),
{
    let end = cstr_end(buf);
    law_cstr_end(buf, end);
    assert(buf.subrange(0, end as int) =~= cstr_text(buf));
    if is_string_in(text, buf) {
        assert forall|i: int| 0 <= i < text.len() implies buf[i] != 0 by {
            assert(buf.subrange(0, text.len() as int)[i] == text[i]);
        }
        law_cstr_end(buf, text.len());
        assert(buf.subrange(0, text.len() as int) =~= cstr_text(buf));
    }
}

/// The operations go by these bytes and these names.
pub proof fn law_operations(op: FileOp)
    ensures
        op is Create ==> op.byte() == 1 && op.name() == "create"@,
        op is Write ==> op.byte() == 2 && op.name() == "write"@,
        op is Delete ==> op.byte() == 3 && op.name() == "delete"@,
{
}

/// The fields of an event stand at these places of its record, the numbers with
/// the least significant byte first.
pub proof fn law_fields(event: Event, record: Seq<u8>)
    requires
        event.stands_in(record),
    ensures
        record.len() >= 536,
        event.op == record[0],
        event.pid == record[4] + 0x100 * record[5] + 0x1_0000 * record[6] + 0x100_0000 * record[7],
        event.ppid == record[8] + 0x100 * record[9] + 0x1_0000 * record[10] + 0x100_0000
            * record[11],
        event.cgroup_id == record[16] + 0x100 * record[17] + 0x1_0000 * record[18] + 0x100_0000
            * record[19] + 0x1_0000_0000 * record[20] + 0x100_0000_0000 * record[21]
            + 0x1_0000_0000_0000 * record[22] + 0x100_0000_0000_0000 * record[23],
        forall|i: int| 0 <= i < 256 ==> event.exe_path@[i] == #[trigger] record[24 + i],
        forall|i: int| 0 <= i < 256 ==> event.file_path@[i] == #[trigger] record[280 + i],
{
    lemma_digits(record.subrange(4, 8));
    lemma_digits(record.subrange(8, 12));
    lemma_digits(record.subrange(16, 24));
    assert forall|i: int| 0 <= i < 256 implies event.exe_path@[i] == #[trigger] record[24
        + i] by {
        assert(exe_area(record)[i] == record[24 + i]);
    }
    assert forall|i: int| 0 <= i < 256 implies event.file_path@[i] == #[trigger] record[280
        + i] by {
        assert(file_area(record)[i] == record[280 + i]);
    }
}

/// Setting the header of a record puts the fields at their places, and leaves
/// every other byte as it was.
pub proof fn law_header(record: Seq<u8>, op: FileOp, pid: u32, ppid: u32, cgroup_id: u64)
    requires
        record.len() >= 536,
    ensures
        ({
            let left = with_header(record, op, pid, ppid, cgroup_id);
            &&& left.len() == record.len()
            &&& left[0] == match op {
                FileOp::Create => 1u8,
                FileOp::Write => 2u8,
                FileOp::Delete => 3u8,
            }
            &&& left[4] + 0x100 * left[5] + 0x1_0000 * left[6] + 0x100_0000 * left[7] == pid
            &&& left[8] + 0x100 * left[9] + 0x1_0000 * left[10] + 0x100_0000 * left[11] == ppid
            &&& left[16] + 0x100 * left[17] + 0x1_0000 * left[18] + 0x100_0000 * left[19]
                + 0x1_0000_0000 * left[20] + 0x100_0000_0000 * left[21] + 0x1_0000_0000_0000
                * left[22] + 0x100_0000_0000_0000 * left[23] == cgroup_id
            &&& forall|i: int|
                1 <= i < 4 || 12 <= i < 16 || 24 <= i < record.len() ==> left[i] == record[i]
        }),
{
    let left = with_header(record, op, pid, ppid, cgroup_id);
    lemma_header_reads(record, op, pid, ppid, cgroup_id);
    lemma_digits(left.subrange(4, 8));
    lemma_digits(left.subrange(8, 12));
    lemma_digits(left.subrange(16, 24));
    lemma_le_bytes_len(pid as nat, 4);
    lemma_le_bytes_len(ppid as nat, 4);
    lemma_le_bytes_len(cgroup_id as nat, 8);
}

/// An item of the ring buffer is shown exactly where it is long enough and its
/// file is watched, and its line is made of what stands in it.
pub proof fn law_item(
    item: Seq<u8>,
    pid: u32,
    ppid: u32,
    cgroup_id: u64,
    exe: Seq<u8>,
    path: Seq<u8>,
)
    requires
        item.len() >= 536 ==> {
            &&& item[4] + 0x100 * item[5] + 0x1_0000 * item[6] + 0x100_0000 * item[7] == pid
            &&& item[8] + 0x100 * item[9] + 0x1_0000 * item[10] + 0x100_0000 * item[11] == ppid
            &&& item[16] + 0x100 * item[17] + 0x1_0000 * item[18] + 0x100_0000 * item[19]
                + 0x1_0000_0000 * item[20] + 0x100_0000_0000 * item[21] + 0x1_0000_0000_0000
                * item[22] + 0x100_0000_0000_0000 * item[23] == cgroup_id
            &&& is_string_in(exe, item.subrange(24, 280))
            &&& is_string_in(path, item.subrange(280, 536))
        },
    ensures
        is_shown(item) <==> item.len() >= 536 && watched(path),
        item.len() >= 536 ==> item_line(item) == event_line(
            item[0],
            pid,
            ppid,
            cgroup_id,
            utf8_lossy(exe),
            utf8_lossy(path),
        ),
{
    if item.len() >= 536 {
        lemma_digits(item.subrange(4, 8));
        lemma_digits(item.subrange(8, 12));
        lemma_digits(item.subrange(16, 24));
        law_string(item.subrange(24, 280), exe);
        law_string(item.subrange(280, 536), path);
        lemma_monitored_bytes(path);
    }
}

/// Each item adds its own line behind the others', or nothing.
pub proof fn law_item_by_item(items: Seq<Seq<u8>>, item: Seq<u8>, path: Seq<u8>)
    requires
        item.len() >= 536 ==> is_string_in(path, item.subrange(280, 536)),
    ensures
        lines(Seq::empty()) == Seq::<Seq<char>>::empty(),
        lines(items.push(item)) == lines(items) + if item.len() >= 536 && watched(path) {
            seq![item_line(item)]
        } else {
            Seq::empty()
        },
{
    assert(items.push(item).drop_last() =~= items);
    if item.len() >= 536 {
        law_string(item.subrange(280, 536), path);
        lemma_monitored_bytes(path);
    }
    assert(lines(items.push(item)) =~= lines(items) + if item.len() >= 536 && watched(path) {
        seq![item_line(item)]
    } else {
        Seq::empty()
    });
}

/// What is submitted is printed: the line tells the operation, the numbers and
/// the paths of the record.
pub proof fn law_told_is_printed(
    record: Seq<u8>,
    op: FileOp,
    pid: u32,
    ppid: u32,
    cgroup_id: u64,
    exe: Seq<u8>,
    path: Seq<u8>,
    a: Seq<char>,
    b: Seq<char>,
    c: Seq<char>,
)
    requires
        tells(record, op, pid, ppid, cgroup_id, exe, path),
        watched(path),
        forall|i: int| 0 <= i < exe.len() ==> exe[i] != 0,
        forall|i: int| 0 <= i < path.len() ==> path[i] != 0,
        is_numeral(a, pid as nat),
        is_numeral(b, ppid as nat),
        is_numeral(c, cgroup_id as nat),
    ensures
        is_shown(record),
        item_line(record) == (match op {
            FileOp::Create => "[create] pid="@,
            FileOp::Write => "[write]  pid="@,
            FileOp::Delete => "[delete] pid="@,
        }) + a + " ppid="@ + b + " cgroup="@ + c + " exe="@ + utf8_lossy(exe) + " path="@
            + utf8_lossy(path),
{
    let exe_bytes = record.subrange(24, 280);
    let file_bytes = record.subrange(280, 536);
    assert(exe_bytes.subrange(0, exe.len() as int) =~= record.subrange(24, 24int + exe.len()));
    assert(file_bytes.subrange(0, path.len() as int) =~= record.subrange(
        280,
        280int + path.len(),
    ));
    law_item(record, pid, ppid, cgroup_id, exe, path);
    law_line(
        record[0],
        pid,
        ppid,
        cgroup_id,
        utf8_lossy(exe),
        utf8_lossy(path),
        a,
        b,
        c,
    );
}

/// What the kernel of the model answers is what it holds, and an answer alone
/// changes no buffer.
pub proof fn law_replies(k: Kernel, i: u64, value: u64, record: Seq<u8>)
    ensures
        k.answer(Action::PidTgid, record) == (Some(k.pid_tgid), record),
        k.answer(Action::Observer, record).0 == Some(value) <==> (k.observer matches Some(pid)
            && pid == value),
        k.answer(Action::Observer, record).1 == record,
        k.answer(Action::Argument { index: i }, record) == (k.arguments.get(i), record),
        k.answer(Action::Field { offset: i }, record) == (k.fields.get(i), record),
        k.answer(Action::CurrentTask, record) == (Some(k.task), record),
        k.answer(Action::CgroupId, record) == (Some(k.cgroup_id), record),
        k.answer(Action::Reserve, record).0 is Some <==> k.has_room,
        k.answer(Action::Reserve, record).1 == record,
        k.answer(Action::ReadPtr { addr: i }, record).0 == Some(value) <==> holds(
            k.memory,
            i as int,
            spelled(value as nat, 8),
        ),
        k.answer(Action::ReadPtr { addr: i }, record).1 == record,
        value < 0x1_0000 ==> (k.answer(Action::ReadU16 { addr: i }, record).0 == Some(value)
            <==> holds(k.memory, i as int, spelled(value as nat, 2))),
        k.answer(Action::ReadU16 { addr: i }, record).1 == record,
        value < 0x1_0000_0000 ==> (k.answer(Action::ReadU32 { addr: i }, record).0 == Some(value)
            <==> holds(k.memory, i as int, spelled(value as nat, 4))),
        k.answer(Action::ReadU32 { addr: i }, record).1 == record,
        k.answer(Action::ReadUser { addr: i }, record).0 == Some(value) <==> holds(
            k.user_memory,
            i as int,
            spelled(value as nat, 8),
        ),
        k.answer(Action::ReadUser { addr: i }, record).1 == record,
        k.answer(Action::ReadUserByte { addr: i }, record).0 == Some(value) <==> (
        k.user_memory.get(i as int) matches Some(byte) && byte == value),
        k.answer(Action::ReadUserByte { addr: i }, record).1 == record,
{
    law_number_in_memory(k, i, 8, value);
    if value < 0x1_0000 {
        law_number_in_memory(k, i, 2, value);
    }
    if value < 0x1_0000_0000 {
        law_number_in_memory(k, i, 4, value);
    }
}

} // verus!
