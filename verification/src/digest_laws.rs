//! What holds of the digest: every byte of a run reaches it, and so does the length of the run.

use vstd::prelude::*;
use vstd::arithmetic::div_mod::*;
use crate::bytes;
use crate::bytes_laws;
use crate::digest;

verus! {

// ---- what the digest is ----

/// Each byte is folded into the word of all the bytes before it: the word and the byte are combined bit by
/// bit, and the outcome is multiplied, modulo two to the power of sixty-four.
pub proof fn law_each_byte_is_folded_in(run: Seq<u8>, x: u8)
    ensures
        digest::folded_run(seq![]) == 0xcbf2_9ce4_8422_2325,
        digest::folded_run(run.push(x)) == ((digest::folded_run(run) ^ (x as u64))
            * 0x0000_0100_0000_01b3) % 0x1_0000_0000_0000_0000,
{
    assert(run.push(x).drop_last() =~= run);
}

/// The length of the run is folded in behind its bytes, in the same way.
pub proof fn law_length_is_folded_in(run: Seq<u8>)
    ensures
        digest::seed(run) == ((digest::folded_run(run) ^ (run.len() as u64)) * 0x0000_0100_0000_01b3)
            % 0x1_0000_0000_0000_0000,
{
}

/// The state of the expansion from which the word `k` is made.
proof fn lemma_states(x: u64)
    ensures
        digest::stepped(x) == (x + 0x9E37_79B9_7F4A_7C15) % 0x1_0000_0000_0000_0000,
        digest::stepped(digest::stepped(x)) == (x + 2 * 0x9E37_79B9_7F4A_7C15)
            % 0x1_0000_0000_0000_0000,
        digest::stepped(digest::stepped(digest::stepped(x))) == (x + 3 * 0x9E37_79B9_7F4A_7C15)
            % 0x1_0000_0000_0000_0000,
        digest::stepped(digest::stepped(digest::stepped(digest::stepped(x)))) == (x + 4
            * 0x9E37_79B9_7F4A_7C15) % 0x1_0000_0000_0000_0000,
{
}

/// A digest has thirty-two bytes: four words, least significant byte first, of which the word `k` is what
/// the state `k + 1` steps behind the folded run mixes to.
pub proof fn law_digest_is_four_mixed_words(run: Seq<u8>, k: int)
    requires
        0 <= k < 4,
    ensures
        digest::digest(run).len() == 32,
        ({
            let state: int = (digest::seed(run) + (k + 1) * 0x9E37_79B9_7F4A_7C15)
                % 0x1_0000_0000_0000_0000;
            let d = digest::digest(run);
            digest::mixed(state as u64) == d[8 * k] + d[8 * k + 1] * 0x100 + d[8 * k + 2] * 0x1_0000
                + d[8 * k + 3] * 0x100_0000 + d[8 * k + 4] * 0x1_0000_0000 + d[8 * k + 5]
                * 0x100_0000_0000 + d[8 * k + 6] * 0x1_0000_0000_0000 + d[8 * k + 7]
                * 0x100_0000_0000_0000
        }),
{
    reveal(digest::digest);
    let s = digest::seed(run);
    lemma_states(s);
    let w0 = digest::stepped(s);
    let w1 = digest::stepped(w0);
    let w2 = digest::stepped(w1);
    let w3 = digest::stepped(w2);
    let w = if k == 0 {
        w0
    } else if k == 1 {
        w1
    } else if k == 2 {
        w2
    } else {
        w3
    };
    bytes_laws::law_reversed_number_is_read_back(digest::mixed(w));
    let d = digest::digest(run);
    let l = bytes::le_bytes(digest::mixed(w));
    assert(bytes::le_bytes(digest::mixed(w0)).len() == 8);
    assert(bytes::le_bytes(digest::mixed(w1)).len() == 8);
    assert(bytes::le_bytes(digest::mixed(w2)).len() == 8);
    assert(bytes::le_bytes(digest::mixed(w3)).len() == 8);
    assert(d.subrange(8 * k, 8 * k + 8) =~= l);
    assert forall|i: int| 0 <= i < 8 implies #[trigger] l[i] == d[8 * k + i] by {
        assert(d.subrange(8 * k, 8 * k + 8)[i] == d[8 * k + i]);
    }
    assert(l[0] == d[8 * k] && l[1] == d[8 * k + 1] && l[2] == d[8 * k + 2] && l[3] == d[8 * k + 3]
        && l[4] == d[8 * k + 4] && l[5] == d[8 * k + 5] && l[6] == d[8 * k + 6] && l[7] == d[8 * k
        + 7]);
}

/// How a state mixes: three shifts, and between them two multiplications modulo two to the power of
/// sixty-four.
pub proof fn law_states_are_mixed(x: u64)
    ensures
        ({
            let y = (((x ^ (x >> 30)) * 0xBF58_476D_1CE4_E5B9) % 0x1_0000_0000_0000_0000) as u64;
            let z = (((y ^ (y >> 27)) * 0x94D0_49BB_1331_11EB) % 0x1_0000_0000_0000_0000) as u64;
            digest::mixed(x) == z ^ (z >> 31)
        }),
{
}

// ---- what the digest tells apart ----

/// Multiplication by a number that has an inverse, modulo two to the power of sixty-four, loses nothing.
proof fn lemma_product_injective(x: u64, y: u64, p: u64, inverse: u64, k: int)
    requires
        p * inverse == 1 + k * 0x1_0000_0000_0000_0000,
        x.wrapping_mul(p) == y.wrapping_mul(p),
    ensures
        x == y,
{
    let m: int = 0x1_0000_0000_0000_0000;
    assert((x * p) % m == (y * p) % m);
    lemma_mul_mod_noop_left(x * p, inverse as int, m);
    lemma_mul_mod_noop_left(y * p, inverse as int, m);
    assert(((x * p) * inverse) % m == ((y * p) * inverse) % m);
    assert((x * p) * inverse == m * (x * k) + x) by (nonlinear_arith)
        requires
            p * inverse == 1 + k * m,
    ;
    assert((y * p) * inverse == m * (y * k) + y) by (nonlinear_arith)
        requires
            p * inverse == 1 + k * m,
    ;
    lemma_mod_multiples_vanish(x * k, x as int, m);
    lemma_mod_multiples_vanish(y * k, y as int, m);
}

/// Folding in loses neither the word nor what is folded into it.
proof fn lemma_folded_injective(g: u64, h: u64, x: u64, y: u64)
    requires
        digest::folded(g, x) == digest::folded(h, y),
    ensures
        g == h <==> x == y,
{
    assert(0x0000_0100_0000_01b3 * 0xce96_5057_aff6_957b == 1 + 887285111055
        * 0x1_0000_0000_0000_0000);
    lemma_product_injective(
        g ^ x,
        h ^ y,
        digest::FNV_PRIME,
        0xce96_5057_aff6_957b,
        887285111055,
    );
    assert(g ^ x == h ^ y ==> (g == h <==> x == y)) by (bit_vector);
}

/// Two different states mix to different words.
pub proof fn law_mixing_loses_nothing(x: u64, y: u64)
    requires
        digest::mixed(x) == digest::mixed(y),
    ensures
        x == y,
{
    let x1 = (x ^ (x >> 30)).wrapping_mul(digest::MIX_FIRST);
    let y1 = (y ^ (y >> 30)).wrapping_mul(digest::MIX_FIRST);
    let x2 = (x1 ^ (x1 >> 27)).wrapping_mul(digest::MIX_SECOND);
    let y2 = (y1 ^ (y1 >> 27)).wrapping_mul(digest::MIX_SECOND);
    assert(x2 ^ (x2 >> 31) == y2 ^ (y2 >> 31) ==> x2 == y2) by (bit_vector);
    assert(0x94D0_49BB_1331_11EB * 0x3196_42b2_d24d_8ec3 == 1 + 2077064247507883091
        * 0x1_0000_0000_0000_0000);
    lemma_product_injective(
        x1 ^ (x1 >> 27),
        y1 ^ (y1 >> 27),
        digest::MIX_SECOND,
        0x3196_42b2_d24d_8ec3,
        2077064247507883091,
    );
    assert(x1 ^ (x1 >> 27) == y1 ^ (y1 >> 27) ==> x1 == y1) by (bit_vector);
    assert(0xBF58_476D_1CE4_E5B9 * 0x96de_1b17_3f11_9089 == 1 + 8125545580553827436
        * 0x1_0000_0000_0000_0000);
    lemma_product_injective(
        x ^ (x >> 30),
        y ^ (y >> 30),
        digest::MIX_FIRST,
        0x96de_1b17_3f11_9089,
        8125545580553827436,
    );
    assert(x ^ (x >> 30) == y ^ (y >> 30) ==> x == y) by (bit_vector);
}

/// Two runs have one digest exactly when they fold into one word: the expansion to thirty-two bytes loses
/// nothing.
pub proof fn law_expansion_loses_nothing(r: Seq<u8>, s: Seq<u8>)
    ensures
        digest::digest(r) == digest::digest(s) <==> digest::seed(r) == digest::seed(s),
{
    reveal(digest::digest);
    let (a, b) = (digest::seed(r), digest::seed(s));
    if digest::digest(r) == digest::digest(s) {
        law_digest_is_four_mixed_words(r, 0);
        law_digest_is_four_mixed_words(s, 0);
        lemma_states(a);
        lemma_states(b);
        law_mixing_loses_nothing(digest::stepped(a), digest::stepped(b));
    }
}

proof fn lemma_one_byte_counts(r: Seq<u8>, s: Seq<u8>, i: int)
    requires
        r.len() == s.len(),
        0 <= i < r.len(),
        r[i] != s[i],
        forall|j: int| 0 <= j < r.len() && j != i ==> r[j] == s[j],
    ensures
        digest::folded_run(r) != digest::folded_run(s),
    decreases r.len(),
{
    let (rf, sf) = (r.drop_last(), s.drop_last());
    let (g, h) = (digest::folded_run(rf), digest::folded_run(sf));
    if i == r.len() - 1 {
        assert(rf =~= sf);
    } else {
        lemma_one_byte_counts(rf, sf, i);
    }
    if digest::folded_run(r) == digest::folded_run(s) {
        lemma_folded_injective(g, h, r.last() as u64, s.last() as u64);
    }
}

/// Every byte of a run reaches its digest: runs of one length that differ in one place, wherever it is, have
/// different digests.
pub proof fn law_every_byte_counts(r: Seq<u8>, s: Seq<u8>, i: int)
    requires
        r.len() == s.len(),
        0 <= i < r.len(),
        r[i] != s[i],
        forall|j: int| 0 <= j < r.len() && j != i ==> r[j] == s[j],
    ensures
        digest::digest(r) != digest::digest(s),
{
    lemma_one_byte_counts(r, s, i);
    if digest::seed(r) == digest::seed(s) {
        lemma_folded_injective(
            digest::folded_run(r),
            digest::folded_run(s),
            r.len() as u64,
            s.len() as u64,
        );
    }
    law_expansion_loses_nothing(r, s);
}

proof fn lemma_common_tail(r: Seq<u8>, s: Seq<u8>, tail: Seq<u8>)
    ensures
        digest::folded_run(r + tail) == digest::folded_run(s + tail) <==> digest::folded_run(r)
            == digest::folded_run(s),
    decreases tail.len(),
{
    if tail.len() == 0 {
        assert(r + tail =~= r);
        assert(s + tail =~= s);
    } else {
        let front = tail.drop_last();
        lemma_common_tail(r, s, front);
        assert((r + tail).drop_last() =~= r + front);
        assert((s + tail).drop_last() =~= s + front);
        assert((r + tail).last() == (s + tail).last());
        if digest::folded_run(r + tail) == digest::folded_run(s + tail) {
            lemma_folded_injective(
                digest::folded_run(r + front),
                digest::folded_run(s + front),
                tail.last() as u64,
                tail.last() as u64,
            );
        }
    }
}

/// What follows never hides a difference: runs of one length and different digests still have different
/// digests when the same bytes are put behind both.
pub proof fn law_a_common_tail_hides_nothing(r: Seq<u8>, s: Seq<u8>, tail: Seq<u8>)
    requires
        r.len() == s.len(),
    ensures
        digest::digest(r + tail) == digest::digest(s + tail) <==> digest::digest(r)
            == digest::digest(s),
{
    lemma_common_tail(r, s, tail);
    law_expansion_loses_nothing(r, s);
    law_expansion_loses_nothing(r + tail, s + tail);
    let (n, m) = (r.len() as u64, (r + tail).len() as u64);
    if digest::seed(r) == digest::seed(s) {
        lemma_folded_injective(digest::folded_run(r), digest::folded_run(s), n, n);
    }
    if digest::seed(r + tail) == digest::seed(s + tail) {
        lemma_folded_injective(
            digest::folded_run(r + tail),
            digest::folded_run(s + tail),
            m,
            m,
        );
    }
}

} // verus!
