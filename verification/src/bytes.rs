//! Byte-level helpers: overwriting a part of a buffer, and little-endian
//! integers in it.

use vstd::prelude::*;

verus! {

/// `s` with the elements from `at` on replaced by those of `piece`.
pub open spec fn splice(s: Seq<u8>, at: int, piece: Seq<u8>) -> Seq<u8> {
    s.take(at) + piece + s.skip(at + piece.len())
}

/// The number that `bytes` spell, least significant byte first.
pub open spec fn le_nat(bytes: Seq<u8>) -> nat
    decreases bytes.len(),
{
    if bytes.len() == 0 {
        0
    } else {
        bytes[0] as nat + 256 * le_nat(bytes.skip(1))
    }
}

/// The `n` least significant bytes of `value`, least significant first.
pub open spec fn le_bytes(value: nat, n: nat) -> Seq<u8>
    decreases n,
{
    if n == 0 {
        Seq::empty()
    } else {
        seq![(value % 256) as u8] + le_bytes(value / 256, (n - 1) as nat)
    }
}

pub proof fn lemma_le_bytes_len(value: nat, n: nat)
    ensures
        le_bytes(value, n).len() == n,
    decreases n,
{
    if n > 0 {
        lemma_le_bytes_len(value / 256, (n - 1) as nat);
    }
}

/// Reading back the bytes of a number gives the number, when it has no more
/// than `n` bytes.
pub proof fn lemma_le_round_trip(value: nat, n: nat)
    requires
        value < vstd::arithmetic::power::pow(256, n),
    ensures
        le_nat(le_bytes(value, n)) == value,
    decreases n,
{
    reveal(vstd::arithmetic::power::pow);
    if n > 0 {
        let m = (n - 1) as nat;
        let p = vstd::arithmetic::power::pow(256, m);
        assert(vstd::arithmetic::power::pow(256, n) == 256 * p);
        assert(value / 256 < p) by (nonlinear_arith)
            requires
                value < 256 * p,
        ;
        lemma_le_round_trip(value / 256, m);
        assert(le_bytes(value, n).skip(1) =~= le_bytes(value / 256, m));
    }
}

pub proof fn lemma_le_round_trip_u32(value: u32)
    ensures
        le_bytes(value as nat, 4).len() == 4,
        le_nat(le_bytes(value as nat, 4)) == value,
{
    assert(vstd::arithmetic::power::pow(256, 4) == 0x1_0000_0000) by {
        reveal_with_fuel(vstd::arithmetic::power::pow, 5);
    }
    lemma_le_bytes_len(value as nat, 4);
    lemma_le_round_trip(value as nat, 4);
}

pub proof fn lemma_le_round_trip_u64(value: u64)
    ensures
        le_bytes(value as nat, 8).len() == 8,
        le_nat(le_bytes(value as nat, 8)) == value,
{
    assert(vstd::arithmetic::power::pow(256, 8) == 0x1_0000_0000_0000_0000) by {
        reveal_with_fuel(vstd::arithmetic::power::pow, 9);
    }
    lemma_le_bytes_len(value as nat, 8);
    lemma_le_round_trip(value as nat, 8);
}

/// Writes the `n` least significant bytes of `value` at `at`.
pub fn put_le(buf: &mut [u8], at: usize, value: u64, n: usize)
    requires
        at + n <= old(buf).len(),
    ensures
        final(buf)@ == splice(old(buf)@, at as int, le_bytes(value as nat, n as nat)),
        final(buf)@.len() == old(buf)@.len(),
{
    proof {
        lemma_le_bytes_len(value as nat, n as nat);
    }
    let mut rest: u64 = value;
    let mut i: usize = 0;
    assert(splice(buf@, at as int, Seq::empty()) =~= buf@);
    assert(Seq::<u8>::empty() + le_bytes(value as nat, n as nat) =~= le_bytes(
        value as nat,
        n as nat,
    ));
    let ghost mut done: Seq<u8> = Seq::empty();
    while i < n
        invariant
            i <= n,
            at + n <= buf.len(),
            buf.len() == old(buf)@.len(),
            done.len() == i,
            buf@ == splice(old(buf)@, at as int, done),
            done + le_bytes(rest as nat, (n - i) as nat) == le_bytes(value as nat, n as nat),
        decreases n - i,
    {
        let byte: u8 = (rest % 256) as u8;
        buf[at + i] = byte;
        proof {
            let more = done.push(byte);
            assert(buf@ =~= splice(old(buf)@, at as int, more));
            assert(more + le_bytes((rest / 256) as nat, (n - i - 1) as nat) =~= done + le_bytes(
                rest as nat,
                (n - i) as nat,
            ));
            done = more;
        }
        rest = rest / 256;
        i += 1;
    }
    assert(done + Seq::<u8>::empty() =~= done);
}

/// The four bytes at `at` as a number.
pub fn get_le_u32(buf: &[u8], at: usize) -> (value: u32)
    requires
        at + 4 <= buf.len(),
    ensures
        value == le_nat(buf@.subrange(at as int, at + 4)),
{
    proof {
        reveal_with_fuel(le_nat, 5);
    }
    buf[at] as u32 + 0x100 * (buf[at + 1] as u32) + 0x1_0000 * (buf[at + 2] as u32) + 0x100_0000 * (
    buf[at + 3] as u32)
}

/// The eight bytes at `at` as a number.
pub fn get_le_u64(buf: &[u8], at: usize) -> (value: u64)
    requires
        at + 8 <= buf.len(),
    ensures
        value == le_nat(buf@.subrange(at as int, at + 8)),
{
    let low: u32 = get_le_u32(buf, at);
    let high: u32 = get_le_u32(buf, at + 4);
    proof {
        let s = buf@.subrange(at as int, at + 8);
        assert(s.skip(4) =~= buf@.subrange(at + 4, at + 8));
        assert(le_nat(s) == low + 0x1_0000_0000 * le_nat(s.skip(4))) by {
            reveal_with_fuel(le_nat, 5);
            assert(s.skip(1).skip(1) =~= s.skip(2));
            assert(s.skip(2).skip(1) =~= s.skip(3));
            assert(s.skip(3).skip(1) =~= s.skip(4));
        }
    }
    low as u64 + 0x1_0000_0000 * (high as u64)
}

} // verus!
