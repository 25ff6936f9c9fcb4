//! NUL-terminated strings in byte buffers.

use vstd::prelude::*;
use vstd::slice::slice_subrange;
use vstd::utf8::{decode_utf8, valid_utf8};

verus! {

/// Where the string in `buf` ends: at the first NUL, or at the end of `buf`
/// if there is none.
pub open spec fn cstr_end(buf: Seq<u8>) -> nat {
    match buf.index_of_first(0u8) {
        Some(i) => i as nat,
        None => buf.len(),
    }
}

/// The string in `buf`: what stands before the first NUL.
pub open spec fn cstr_text(buf: Seq<u8>) -> Seq<u8> {
    buf.take(cstr_end(buf) as int)
}

/// The end of the string is the one place that has no NUL before it and, if
/// it lies in the buffer, a NUL at it.
pub proof fn law_cstr_end(buf: Seq<u8>, end: nat)
    ensures
        end == cstr_end(buf) <==> {
            &&& end <= buf.len()
            &&& forall|i: int| 0 <= i < end ==> buf[i] != 0
            &&& end < buf.len() ==> buf[end as int] == 0
        },
{
    buf.index_of_first_ensures(0u8);
    let first = cstr_end(buf);
    assert(first < buf.len() ==> buf[first as int] == 0);
    assert(forall|i: int| 0 <= i < first ==> buf[i] != 0);
}

/// A buffer that starts with a text without NULs, and then a NUL, holds that
/// text.
pub proof fn law_terminated_text(text: Seq<u8>, rest: Seq<u8>)
    requires
        forall|i: int| 0 <= i < text.len() ==> text[i] != 0,
    ensures
        cstr_text(text.push(0u8) + rest) == text,
{
    let buf = text.push(0u8) + rest;
    assert(buf[text.len() as int] == 0);
    assert forall|i: int| 0 <= i < text.len() implies buf[i] != 0 by {
        assert(buf[i] == text[i]);
    }
    law_cstr_end(buf, text.len());
    assert(cstr_text(buf) =~= text);
}

/// Length of the NUL-terminated string in `bytes`, bounded by their number.
pub fn cstr_len(bytes: &[u8]) -> (len: usize)
    ensures
        len == cstr_end(bytes@),
{
    let mut i: usize = 0;
    while i < bytes.len()
        invariant
            i <= bytes@.len(),
            forall|j: int| 0 <= j < i ==> bytes@[j] != 0,
        decreases bytes@.len() - i,
    {
        if bytes[i] == 0 {
            proof {
                law_cstr_end(bytes@, i as nat);
            }
            return i;
        }
        i += 1;
    }
    proof {
        law_cstr_end(bytes@, i as nat);
    }
    i
}

/// The part of `bytes` before the first NUL.
pub fn cstr_bytes(bytes: &[u8]) -> (text: &[u8])
    ensures
        text@ == cstr_text(bytes@),
{
    let end: usize = cstr_len(bytes);
    proof {
        law_cstr_end(bytes@, end as nat);
        assert(bytes@.subrange(0, end as int) =~= cstr_text(bytes@));
    }
    slice_subrange(bytes, 0, end)
}

/// The NUL-terminated string in `bytes` as UTF-8, or the empty string if it
/// is no UTF-8.
///
/// Linux paths are arbitrary bytes: to print one, take
/// [`String::from_utf8_lossy`] of [`cstr_bytes`].
pub fn cstr(bytes: &[u8]) -> (text: &str)
    ensures
        text@ == if valid_utf8(cstr_text(bytes@)) {
            decode_utf8(cstr_text(bytes@))
        } else {
            Seq::empty()
        },
{
    match str_from_utf8(cstr_bytes(bytes)) {
        Some(text) => text,
        None => {
            proof {
                reveal_strlit("");
                assert(""@ =~= Seq::<char>::empty());
            }
            ""
        },
    }
}

/// `core::str::from_utf8`. Claimed of it: it succeeds on valid UTF-8 and on
/// nothing else, and then gives the characters that the bytes encode.
#[verifier::external_body]
fn str_from_utf8(bytes: &[u8]) -> (text: Option<&str>)
    ensures
        text is Some <==> valid_utf8(bytes@),
        text matches Some(text) ==> text@ == decode_utf8(bytes@),
{
    core::str::from_utf8(bytes).ok()
}

} // verus!
