//! The watched directories, and which paths lie under them.

use vstd::prelude::*;
use vstd::utf8::{encode_scalar, encode_utf8, encode_utf8_first_scalar, last_continuation_byte};
use vstd::utf8::{is_ascii_chars, is_ascii_chars_encode_utf8};

verus! {

/// Directories whose file operations are reported to user space.
pub const MONITORED_DIRS: [&'static str; 3] = [
    "/opt/protected",
    "/var/secure",
    "/home/secure_area",
];

/// The protected directory: a create, write or delete under it terminates the
/// process that does it.
pub const ENFORCED_DIR: &'static str = "/var/secure";

/// The byte that separates the components of a path.
pub const SLASH: u8 = 0x2f;

/// `path` is `dir` itself, or goes on from it with a separator.
pub open spec fn under<T>(path: Seq<T>, dir: Seq<T>, separator: T) -> bool {
    path == dir || dir.push(separator).is_prefix_of(path)
}

/// `dir` ends with the separator, as `/` does.
pub open spec fn ends_with<T>(dir: Seq<T>, separator: T) -> bool {
    dir.len() > 0 && dir.last() == separator
}

/// `path` is `dir` itself or is nested under it: it goes on from `dir` at the
/// end of a component, be the separator the next one of `path` or the last one
/// of `dir`.
pub open spec fn nested<T>(path: Seq<T>, dir: Seq<T>, separator: T) -> bool {
    under(path, dir, separator) || (ends_with(dir, separator) && dir.is_prefix_of(path))
}

/// `path` lies under a monitored directory.
pub open spec fn monitored(path: Seq<char>) -> bool {
    exists|i: int| 0 <= i < 3 && under(path, #[trigger] MONITORED_DIRS@[i]@, '/')
}

/// `path` lies under the protected directory.
pub open spec fn enforced(path: Seq<char>) -> bool {
    under(path, ENFORCED_DIR@, '/')
}

/// `path` starts with `start`.
fn bytes_start_with(path: &[u8], start: &[u8]) -> (yes: bool)
    ensures
        yes == start@.is_prefix_of(path@),
{
    if path.len() < start.len() {
        return false;
    }
    let mut i: usize = 0;
    while i < start.len()
        invariant
            i <= start@.len() <= path@.len(),
            path@.take(i as int) == start@.take(i as int),
        decreases start@.len() - i,
    {
        if path[i] != start[i] {
            assert(start@[i as int] != path@.subrange(0, start@.len() as int)[i as int]);
            return false;
        }
        assert(path@.take(i + 1) =~= path@.take(i as int).push(path@[i as int]));
        assert(start@.take(i + 1) =~= start@.take(i as int).push(start@[i as int]));
        i += 1;
    }
    assert(start@.take(i as int) =~= start@);
    true
}

/// A path that starts with a directory's name, and is longer, lies under the
/// directory where a separator comes next.
proof fn lemma_next_separates<T>(path: Seq<T>, dir: Seq<T>, separator: T)
    ensures
        under(path, dir, separator) <==> dir.is_prefix_of(path) && (path.len() == dir.len()
            || path[dir.len() as int] == separator),
{
    let n = dir.len() as int;
    let longer = dir.push(separator);
    if longer.is_prefix_of(path) {
        assert(longer[n] == path.subrange(0, n + 1)[n]);
        assert(dir =~= longer.take(n));
        assert(dir =~= path.subrange(0, n));
    }
    if path == dir {
        assert(dir =~= path.subrange(0, n));
    }
    if dir.is_prefix_of(path) {
        if path.len() == n {
            assert(path =~= path.subrange(0, n));
        } else if path[n] == separator {
            assert(longer =~= path.subrange(0, n + 1));
        }
    }
}

/// Component-boundary prefix match on bytes: `path` is `dir` itself or starts
/// with `dir` and a separator.
pub fn bytes_under(path: &[u8], dir: &[u8]) -> (yes: bool)
    ensures
        yes == under(path@, dir@, SLASH),
{
    proof {
        lemma_next_separates(path@, dir@, SLASH);
    }
    bytes_start_with(path, dir) && (path.len() == dir.len() || path[dir.len()] == SLASH)
}

/// `path` is `dir` itself or is nested under it, on bytes.
pub fn bytes_nested(path: &[u8], dir: &[u8]) -> (yes: bool)
    ensures
        yes == nested(path@, dir@, SLASH),
{
    bytes_under(path, dir) || (dir.len() > 0 && dir[dir.len() - 1] == SLASH && bytes_start_with(
        path,
        dir,
    ))
}

/// An ASCII character at the end of a text is one more byte of its encoding.
pub proof fn lemma_encode_push(chars: Seq<char>, c: char)
    requires
        c < '\u{80}',
    ensures
        encode_utf8(chars.push(c)) == encode_utf8(chars).push(c as u8),
    decreases chars.len(),
{
    if chars.len() == 0 {
        assert(is_ascii_chars(chars.push(c)));
        is_ascii_chars_encode_utf8(chars.push(c));
        assert(encode_utf8(chars.push(c)) =~= encode_utf8(chars).push(c as u8));
    } else {
        assert(chars.push(c).drop_first() =~= chars.drop_first().push(c));
        lemma_encode_push(chars.drop_first(), c);
        assert(encode_utf8(chars.push(c)) =~= encode_utf8(chars).push(c as u8));
    }
}

proof fn lemma_encode_concat(a: Seq<char>, b: Seq<char>)
    ensures
        encode_utf8(a + b) == encode_utf8(a) + encode_utf8(b),
    decreases a.len(),
{
    if a.len() == 0 {
        assert(a + b =~= b);
        assert(encode_utf8(a + b) =~= encode_utf8(a) + encode_utf8(b));
    } else {
        assert((a + b).drop_first() =~= a.drop_first() + b);
        lemma_encode_concat(a.drop_first(), b);
        assert(encode_utf8(a + b) =~= encode_utf8(a) + encode_utf8(b));
    }
}

/// One text starts with another where its encoding starts with the other's.
pub proof fn lemma_encode_prefix(a: Seq<char>, b: Seq<char>)
    ensures
        encode_utf8(a).is_prefix_of(encode_utf8(b)) <==> a.is_prefix_of(b),
    decreases a.len(),
{
    if a.is_prefix_of(b) {
        lemma_encode_concat(a, b.skip(a.len() as int));
        assert(a + b.skip(a.len() as int) =~= b);
        assert(encode_utf8(a) =~= encode_utf8(b).subrange(0, encode_utf8(a).len() as int));
    }
    if encode_utf8(a).is_prefix_of(encode_utf8(b)) && a.len() > 0 {
        let ea = encode_utf8(a);
        let eb = encode_utf8(b);
        encode_utf8_first_scalar(a);
        assert(b.len() > 0);
        encode_utf8_first_scalar(b);
        assert forall|i: int| 0 <= i < ea.len() implies ea[i] == eb[i] by {
            assert(ea[i] == eb.subrange(0, ea.len() as int)[i]);
        }
        assert(a[0] as u32 == b[0] as u32);
        vstd::utf8::char_u32_cast(a[0], b[0] as u32);
        vstd::utf8::char_u32_cast(b[0], b[0] as u32);
        assert(a[0] == b[0]);
        let ra = encode_utf8(a.drop_first());
        let rb = encode_utf8(b.drop_first());
        let k = encode_scalar(a[0] as u32).len() as int;
        assert(ra =~= ea.skip(k));
        assert(rb =~= eb.skip(k));
        assert(ra =~= rb.subrange(0, ra.len() as int));
        lemma_encode_prefix(a.drop_first(), b.drop_first());
        assert(a =~= b.subrange(0, a.len() as int)) by {
            assert forall|i: int| 0 <= i < a.len() implies a[i] == b[i] by {
                if i > 0 {
                    assert(a.drop_first()[i - 1] == b.drop_first().subrange(0, a.len() - 1)[i - 1]);
                }
            }
        }
    }
}

/// A path lies under a directory exactly where the path's bytes lie under the
/// directory's bytes: matching text and matching bytes are the same thing.
pub proof fn law_text_and_bytes_agree(path: Seq<char>, dir: Seq<char>)
    ensures
        under(encode_utf8(path), encode_utf8(dir), SLASH) <==> under(path, dir, '/'),
{
    lemma_encode_push(dir, '/');
    lemma_encode_prefix(dir.push('/'), path);
    if encode_utf8(path) == encode_utf8(dir) {
        vstd::utf8::encode_utf8_decode_utf8(path);
        vstd::utf8::encode_utf8_decode_utf8(dir);
    }
}

/// No character but the separator has an encoding that ends in the
/// separator's byte: beyond ASCII the last byte is a continuation byte.
proof fn lemma_encoded_char(c: char)
    ensures
        encode_utf8(seq![c]).len() > 0,
        (encode_utf8(seq![c]).last() == SLASH) == (c == '/'),
{
    if c <= '\u{7f}' {
        assert(is_ascii_chars(seq![c]));
        is_ascii_chars_encode_utf8(seq![c]);
        assert(encode_utf8(seq![c])[0] == c as u8);
    } else {
        let scalar = c as u32;
        reveal_with_fuel(encode_utf8, 2);
        assert(encode_utf8(seq![c]) =~= encode_scalar(scalar));
        assert((0x80u8 | (scalar & 0x3f) as u8) >= 0x80u8) by (bit_vector);
        assert(encode_utf8(seq![c]).last() == last_continuation_byte(scalar));
    }
}

/// The encoding of a text ends with the separator's byte exactly where the text
/// ends with the separator.
proof fn lemma_encoded_end(chars: Seq<char>)
    ensures
        ends_with(encode_utf8(chars), SLASH) <==> ends_with(chars, '/'),
{
    if chars.len() > 0 {
        let end = seq![chars.last()];
        assert(chars =~= chars.drop_last() + end);
        lemma_encode_concat(chars.drop_last(), end);
        lemma_encoded_char(chars.last());
        assert(encode_utf8(chars).last() == encode_utf8(end).last());
    }
}

/// A path is nested under a directory exactly where the path's bytes are nested
/// under the directory's bytes.
pub proof fn law_nesting_of_text_and_bytes_agree(path: Seq<char>, dir: Seq<char>)
    ensures
        nested(encode_utf8(path), encode_utf8(dir), SLASH) <==> nested(path, dir, '/'),
{
    law_text_and_bytes_agree(path, dir);
    lemma_encoded_end(dir);
    lemma_encode_prefix(dir, path);
}

/// Returns `true` if `path` is `dir` itself or is nested under it.
///
/// Matches on component boundaries only: `/var/secure_2` does not lie under
/// `/var/secure`. A directory may be written with a separator at its end:
/// `/var` lies under `/`.
pub fn is_under(path: &str, dir: &str) -> (yes: bool)
    ensures
        yes == nested(path@, dir@, '/'),
{
    proof {
        law_nesting_of_text_and_bytes_agree(path@, dir@);
    }
    bytes_nested(path.as_bytes(), dir.as_bytes())
}

/// No watched directory ends with a separator.
proof fn lemma_no_watched_dir_ends_with_separator()
    ensures
        forall|i: int| 0 <= i < 3 ==> !ends_with(#[trigger] MONITORED_DIRS@[i]@, '/'),
        !ends_with(ENFORCED_DIR@, '/'),
{
    reveal_strlit("/opt/protected");
    reveal_strlit("/var/secure");
    reveal_strlit("/home/secure_area");
    assert forall|i: int| 0 <= i < 3 implies !ends_with(#[trigger] MONITORED_DIRS@[i]@, '/') by {
        let dir = MONITORED_DIRS@[i]@;
        assert(dir == "/opt/protected"@ || dir == "/var/secure"@ || dir == "/home/secure_area"@);
    }
}

/// Returns `true` if `path` is under any of [`MONITORED_DIRS`].
pub fn is_monitored(path: &str) -> (yes: bool)
    ensures
        yes == monitored(path@),
{
    proof {
        lemma_no_watched_dir_ends_with_separator();
    }
    let mut i: usize = 0;
    while i < 3
        invariant
            i <= 3,
            forall|j: int| 0 <= j < 3 ==> !ends_with(#[trigger] MONITORED_DIRS@[j]@, '/'),
            forall|j: int| 0 <= j < i ==> !under(path@, #[trigger] MONITORED_DIRS@[j]@, '/'),
        decreases 3 - i,
    {
        if is_under(path, MONITORED_DIRS[i]) {
            return true;
        }
        i += 1;
    }
    false
}

/// Returns `true` if `path` is under [`ENFORCED_DIR`].
pub fn is_enforced(path: &str) -> (yes: bool)
    ensures
        yes == enforced(path@),
{
    proof {
        lemma_no_watched_dir_ends_with_separator();
    }
    is_under(path, ENFORCED_DIR)
}

/// Whatever is enforced is monitored too.
pub proof fn law_enforced_is_monitored(path: Seq<char>)
    requires
        enforced(path),
    ensures
        monitored(path),
{
    assert(under(path, MONITORED_DIRS@[1]@, '/'));
}

/// Every path lies under itself.
pub proof fn law_nesting_is_reflexive(path: Seq<char>)
    ensures
        nested(path, path, '/'),
{
}

/// What is nested under a path that is nested under a directory is nested under
/// the directory.
pub proof fn law_nesting_is_transitive(path: Seq<char>, middle: Seq<char>, dir: Seq<char>)
    requires
        nested(path, middle, '/'),
        nested(middle, dir, '/'),
    ensures
        nested(path, dir, '/'),
{
    lemma_nested_starts_with(path, middle);
    if middle != dir {
        if dir.push('/').is_prefix_of(middle) {
            lemma_prefix_is_transitive(dir.push('/'), middle, path);
        } else {
            lemma_prefix_is_transitive(dir, middle, path);
        }
    }
}

/// Two paths that are nested under each other are the same.
pub proof fn law_nesting_is_antisymmetric(a: Seq<char>, b: Seq<char>)
    requires
        nested(a, b, '/'),
        nested(b, a, '/'),
    ensures
        a == b,
{
    lemma_nested_starts_with(a, b);
    lemma_nested_starts_with(b, a);
    assert(a =~= b.subrange(0, a.len() as int));
}

proof fn lemma_nested_starts_with(path: Seq<char>, dir: Seq<char>)
    requires
        nested(path, dir, '/'),
    ensures
        dir.is_prefix_of(path),
{
    lemma_next_separates(path, dir, '/');
}

proof fn lemma_prefix_is_transitive(start: Seq<char>, middle: Seq<char>, path: Seq<char>)
    requires
        start.is_prefix_of(middle),
        middle.is_prefix_of(path),
    ensures
        start.is_prefix_of(path),
{
    let n = start.len() as int;
    assert(start =~= path.subrange(0, n)) by {
        assert forall|i: int| 0 <= i < n implies start[i] == path[i] by {
            assert(start[i] == middle.subrange(0, n)[i]);
            assert(middle[i] == path.subrange(0, middle.len() as int)[i]);
        }
    }
}

/// A name that goes on after the directory's own with anything but a separator
/// is another directory: it does not match.
pub proof fn law_sibling_is_not_nested(dir: Seq<char>, next: char, rest: Seq<char>)
    requires
        next != '/',
        !ends_with(dir, '/'),
    ensures
        !nested(dir.push(next) + rest, dir, '/'),
{
    let path = dir.push(next) + rest;
    assert(path[dir.len() as int] == next);
    lemma_next_separates(path, dir, '/');
}

} // verus!
