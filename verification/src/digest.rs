//! The 32-byte digest behind the identities of environments and of semantics.
//!
//! The bytes are folded into a word by FNV-1a, the length is folded in last, and splitmix64 expands the
//! word to four. The digest is not collision-free: what is proved of an identity is proved of the bytes that
//! it is taken of.

use vstd::prelude::*;
use crate::bytes;

verus! {

/// The multiplier of FNV-1a.
pub const FNV_PRIME: u64 = 0x0000_0100_0000_01b3;

/// The word that FNV-1a starts from.
pub const FNV_BASIS: u64 = 0xcbf2_9ce4_8422_2325;

/// What splitmix64 adds to its state for each word.
pub const MIX_STEP: u64 = 0x9E37_79B9_7F4A_7C15;

/// The multipliers of splitmix64.
pub const MIX_FIRST: u64 = 0xBF58_476D_1CE4_E5B9;

pub const MIX_SECOND: u64 = 0x94D0_49BB_1331_11EB;

/// A word with one more word folded in.
pub open spec fn folded(h: u64, x: u64) -> u64 {
    (h ^ x).wrapping_mul(FNV_PRIME)
}

/// A run of bytes folded into a word, byte by byte.
pub open spec fn folded_run(run: Seq<u8>) -> u64
    decreases run.len(),
{
    if run.len() == 0 {
        FNV_BASIS
    } else {
        folded(folded_run(run.drop_last()), run.last() as u64)
    }
}

/// The word that a run of bytes and its length fold into.
pub open spec fn seed(run: Seq<u8>) -> u64 {
    folded(folded_run(run), run.len() as u64)
}

/// The word that splitmix64 gives out in the state `x`.
pub open spec fn mixed(x: u64) -> u64 {
    let y = (x ^ (x >> 30)).wrapping_mul(MIX_FIRST);
    let z = (y ^ (y >> 27)).wrapping_mul(MIX_SECOND);
    z ^ (z >> 31)
}

/// The next state of splitmix64.
pub open spec fn stepped(x: u64) -> u64 {
    x.wrapping_add(MIX_STEP)
}

/// The digest of a run of bytes: four words, each with its least significant byte first.
#[verifier::opaque]
pub open spec fn digest(run: Seq<u8>) -> Seq<u8> {
    let a = stepped(seed(run));
    let b = stepped(a);
    let c = stepped(b);
    let d = stepped(c);
    bytes::le_bytes(mixed(a)) + bytes::le_bytes(mixed(b)) + bytes::le_bytes(mixed(c))
        + bytes::le_bytes(mixed(d))
}

/// The word that splitmix64 gives out in the state `x`.
fn mix(x: u64) -> (r: u64)
    ensures
        r == mixed(x),
{
    let y: u64 = (x ^ (x >> 30)).wrapping_mul(MIX_FIRST);
    let z: u64 = (y ^ (y >> 27)).wrapping_mul(MIX_SECOND);
    z ^ (z >> 31)
}

/// The word that a run of bytes and its length fold into.
fn fold(run: &[u8]) -> (h: u64)
    ensures
        h == seed(run@),
{
    let mut h: u64 = FNV_BASIS;
    let n: usize = run.len();
    for i in 0..n
        invariant
            n == run@.len(),
            h == folded_run(run@.take(i as int)),
    {
        assert(run@.take(i + 1).drop_last() =~= run@.take(i as int));
        h = (h ^ run[i] as u64).wrapping_mul(FNV_PRIME);
    }
    assert(run@.take(n as int) =~= run@);
    (h ^ n as u64).wrapping_mul(FNV_PRIME)
}

/// Writes the eight bytes of `x`, least significant first, from the position `at` on.
fn put_le(out: &mut [u8; 32], at: usize, x: u64)
    requires
        at <= 24,
    ensures
        final(out)@ == old(out)@.take(at as int) + bytes::le_bytes(x) + old(out)@.skip(at + 8),
{
    let ghost before = out@;
    out[at] = (x % 0x100) as u8;
    out[at + 1] = (x / 0x100 % 0x100) as u8;
    out[at + 2] = (x / 0x1_0000 % 0x100) as u8;
    out[at + 3] = (x / 0x100_0000 % 0x100) as u8;
    out[at + 4] = (x / 0x1_0000_0000 % 0x100) as u8;
    out[at + 5] = (x / 0x100_0000_0000 % 0x100) as u8;
    out[at + 6] = (x / 0x1_0000_0000_0000 % 0x100) as u8;
    out[at + 7] = (x / 0x100_0000_0000_0000 % 0x100) as u8;
    assert(out@ =~= before.take(at as int) + bytes::le_bytes(x) + before.skip(at + 8));
}

/// The digest of a run of bytes.
pub(crate) fn digest32(run: &[u8]) -> (out: [u8; 32])
    ensures
        out@ == digest(run@),
{
    let a: u64 = fold(run).wrapping_add(MIX_STEP);
    let b: u64 = a.wrapping_add(MIX_STEP);
    let c: u64 = b.wrapping_add(MIX_STEP);
    let d: u64 = c.wrapping_add(MIX_STEP);
    let mut out: [u8; 32] = [0u8; 32];
    put_le(&mut out, 0, mix(a));
    put_le(&mut out, 8, mix(b));
    put_le(&mut out, 16, mix(c));
    put_le(&mut out, 24, mix(d));
    proof {
        reveal(digest);
        assert(out@ =~= digest(run@));
    }
    out
}

} // verus!
