//! Matching of the raw path in a record against the watched directories.

use vstd::prelude::*;
use vstd::utf8::{decode_utf8, encode_utf8, valid_utf8};
use vstd::utf8::{is_ascii_chars, is_ascii_chars_encode_utf8};

use crate::cstr::{cstr_bytes, cstr_len};
use crate::cstr::{cstr_end, cstr_text};
use crate::dirs::{bytes_under, ENFORCED_DIR, MONITORED_DIRS, SLASH};
use crate::dirs::{enforced, law_text_and_bytes_agree, monitored, under};

verus! {

/// The bytes of `path` lie under a monitored directory.
pub open spec fn monitored_bytes(path: Seq<u8>) -> bool {
    exists|i: int|
        0 <= i < 3 && under(path, encode_utf8(#[trigger] MONITORED_DIRS@[i]@), SLASH)
}

/// The bytes of `path` lie under the protected directory.
pub open spec fn enforced_bytes(path: Seq<u8>) -> bool {
    under(path, encode_utf8(ENFORCED_DIR@), SLASH)
}

/// Length of the NUL-terminated path in `buf`, bounded by the buffer's.
pub fn path_len(buf: &[u8]) -> (len: usize)
    ensures
        len == cstr_end(buf@),
{
    cstr_len(buf)
}

/// Component-boundary prefix match: the NUL-terminated path in `path` is
/// `prefix` itself or starts with `prefix` and a separator.
pub fn path_matches(path: &[u8], prefix: &[u8]) -> (yes: bool)
    ensures
        yes == under(cstr_text(path@), prefix@, SLASH),
{
    bytes_under(cstr_bytes(path), prefix)
}

/// The NUL-terminated path in `path` lies under a monitored directory.
pub fn path_matches_any(path: &[u8]) -> (yes: bool)
    ensures
        yes == monitored_bytes(cstr_text(path@)),
{
    let mut i: usize = 0;
    while i < 3
        invariant
            i <= 3,
            forall|j: int|
                0 <= j < i ==> !under(
                    cstr_text(path@),
                    encode_utf8(#[trigger] MONITORED_DIRS@[j]@),
                    SLASH,
                ),
        decreases 3 - i,
    {
        let dir: &str = MONITORED_DIRS[i];
        if path_matches(path, dir.as_bytes()) {
            assert(under(cstr_text(path@), encode_utf8(MONITORED_DIRS@[i as int]@), SLASH));
            return true;
        }
        i += 1;
    }
    false
}

/// The NUL-terminated path in `path` lies under the protected directory.
pub fn path_is_enforced(path: &[u8]) -> (yes: bool)
    ensures
        yes == enforced_bytes(cstr_text(path@)),
{
    path_matches(path, ENFORCED_DIR.as_bytes())
}

/// On a path that is UTF-8, what the probes decide from the bytes is what
/// user space decides from the text.
pub proof fn law_both_sides_agree(path: Seq<u8>)
    requires
        valid_utf8(path),
    ensures
        monitored_bytes(path) == monitored(decode_utf8(path)),
        enforced_bytes(path) == enforced(decode_utf8(path)),
{
    let text = decode_utf8(path);
    vstd::utf8::decode_utf8_encode_utf8(path);
    law_text_and_bytes_agree(text, MONITORED_DIRS@[0]@);
    law_text_and_bytes_agree(text, MONITORED_DIRS@[1]@);
    law_text_and_bytes_agree(text, MONITORED_DIRS@[2]@);
    law_text_and_bytes_agree(text, ENFORCED_DIR@);
    if monitored_bytes(path) {
        let i = choose|i: int|
            0 <= i < 3 && under(path, encode_utf8(#[trigger] MONITORED_DIRS@[i]@), SLASH);
        assert(under(text, MONITORED_DIRS@[i]@, '/'));
    }
    if monitored(text) {
        let i = choose|i: int| 0 <= i < 3 && under(text, #[trigger] MONITORED_DIRS@[i]@, '/');
        assert(under(path, encode_utf8(MONITORED_DIRS@[i]@), SLASH));
    }
}

/// Whatever is enforced is reported too, bytes that are no UTF-8 included.
pub proof fn law_enforced_bytes_are_monitored(path: Seq<u8>)
    requires
        enforced_bytes(path),
    ensures
        monitored_bytes(path),
{
    assert(under(path, encode_utf8(MONITORED_DIRS@[1]@), SLASH));
}

/// A relative path is under no watched directory: it is neither reported nor
/// enforced.
pub proof fn law_relative_path_is_not_watched(path: Seq<u8>)
    requires
        path.len() == 0 || path[0] != SLASH,
    ensures
        !monitored_bytes(path),
        !enforced_bytes(path),
{
    reveal_strlit("/opt/protected");
    reveal_strlit("/var/secure");
    reveal_strlit("/home/secure_area");
    if monitored_bytes(path) {
        let i = choose|i: int|
            0 <= i < 3 && under(path, encode_utf8(#[trigger] MONITORED_DIRS@[i]@), SLASH);
        let dir = MONITORED_DIRS@[i]@;
        assert(dir == "/opt/protected"@ || dir == "/var/secure"@ || dir == "/home/secure_area"@);
        assert(is_ascii_chars(dir));
        is_ascii_chars_encode_utf8(dir);
        let bytes = encode_utf8(dir);
        assert(dir[0] == '/');
        assert(bytes[0] == SLASH);
        assert(bytes.push(SLASH)[0] == SLASH);
        if bytes.push(SLASH).is_prefix_of(path) {
            assert(path.subrange(0, bytes.len() as int + 1)[0] == path[0]);
        }
    }
    if enforced_bytes(path) {
        law_enforced_bytes_are_monitored(path);
    }
}

} // verus!
