//! Byte runs: fixed-width integers, length frames and concatenation.
//!
//! A *frame* is a run of bytes behind its own length, written as eight bytes with the most significant
//! byte first. A frame says where it ends, so whatever follows it cannot be taken for a part of it.

use vstd::prelude::*;
use vstd::utf8::*;

verus! {

/// The byte `k` of `x`, counted from the most significant one.
pub open spec fn be_byte(x: u64, k: int) -> u8 {
    if k == 0 {
        (x / 0x100_0000_0000_0000 % 0x100) as u8
    } else if k == 1 {
        (x / 0x1_0000_0000_0000 % 0x100) as u8
    } else if k == 2 {
        (x / 0x100_0000_0000 % 0x100) as u8
    } else if k == 3 {
        (x / 0x1_0000_0000 % 0x100) as u8
    } else if k == 4 {
        (x / 0x100_0000 % 0x100) as u8
    } else if k == 5 {
        (x / 0x1_0000 % 0x100) as u8
    } else if k == 6 {
        (x / 0x100 % 0x100) as u8
    } else {
        (x % 0x100) as u8
    }
}

/// The eight bytes of `x`, most significant first.
pub open spec fn be_bytes(x: u64) -> Seq<u8> {
    Seq::new(8, |k: int| be_byte(x, k))
}

/// The eight bytes of `x`, least significant first.
pub open spec fn le_bytes(x: u64) -> Seq<u8> {
    be_bytes(x).reverse()
}

/// The unsigned number that has the same 64 bits as `i`.
pub open spec fn twos_complement(i: i64) -> u64 {
    if i >= 0 {
        i as u64
    } else {
        (i + 0x1_0000_0000_0000_0000) as u64
    }
}

/// A length or a count that eight bytes can hold.
pub open spec fn fits(n: nat) -> bool {
    n <= u64::MAX
}

/// A text whose UTF-8 form has a length that eight bytes can hold.
pub open spec fn text_fits(text: Seq<char>) -> bool {
    fits(encode_utf8(text).len())
}

/// Every text of the list, and the number of texts in it, fits.
pub open spec fn texts_fit(texts: Seq<Seq<char>>) -> bool {
    &&& fits(texts.len())
    &&& forall|i: int| 0 <= i < texts.len() ==> text_fits(#[trigger] texts[i])
}

/// A count, as eight bytes.
pub open spec fn count_bytes(n: nat) -> Seq<u8> {
    be_bytes(n as u64)
}

/// A run of bytes behind its length.
pub open spec fn frame(run: Seq<u8>) -> Seq<u8> {
    count_bytes(run.len()) + run
}

/// The frame of a text's UTF-8 form.
pub open spec fn text_frame(text: Seq<char>) -> Seq<u8> {
    frame(encode_utf8(text))
}

/// An optional text: `0` when there is none, else `1` and the text's frame.
pub open spec fn opt_text_bytes(text: Option<Seq<char>>) -> Seq<u8> {
    match text {
        None => seq![0u8],
        Some(t) => seq![1u8] + text_frame(t),
    }
}

/// A truth value as one byte.
pub open spec fn bool_byte(x: bool) -> u8 {
    if x {
        1
    } else {
        0
    }
}

/// The parts one behind the other, with nothing between them.
pub open spec fn concat(parts: Seq<Seq<u8>>) -> Seq<u8>
    decreases parts.len(),
{
    if parts.len() == 0 {
        seq![]
    } else {
        concat(parts.drop_last()) + parts.last()
    }
}

/// A list of texts: their number, then the frame of each.
pub open spec fn texts_bytes(texts: Seq<Seq<char>>) -> Seq<u8> {
    count_bytes(texts.len()) + concat(texts.map_values(|t: Seq<char>| text_frame(t)))
}

/// The texts that a list of strings holds.
pub open spec fn texts(list: Seq<String>) -> Seq<Seq<char>> {
    list.map_values(|s: String| s@)
}

/// The text that an optional string holds.
pub open spec fn opt_text(s: Option<String>) -> Option<Seq<char>> {
    match s {
        None => None,
        Some(t) => Some(t@),
    }
}

/// The texts that an optional list of strings holds.
pub open spec fn opt_texts(list: Option<Vec<String>>) -> Option<Seq<Seq<char>>> {
    match list {
        None => None,
        Some(l) => Some(texts(l@)),
    }
}

/// One more part is written behind the others.
pub(crate) proof fn lemma_concat_step(start: Seq<u8>, parts: Seq<Seq<u8>>, i: int)
    requires
        0 <= i < parts.len(),
    ensures
        (start + concat(parts.take(i))) + parts[i] == start + concat(parts.take(i + 1)),
{
    assert(parts.take(i + 1).drop_last() =~= parts.take(i));
    assert((start + concat(parts.take(i))) + parts[i] =~= start + (concat(parts.take(i))
        + parts[i]));
}

/// No part is written at the start, and all of them at the end.
pub(crate) proof fn lemma_concat_ends(start: Seq<u8>, parts: Seq<Seq<u8>>)
    ensures
        start + concat(parts.take(0)) == start,
        parts.take(parts.len() as int) == parts,
{
    assert(start + concat(parts.take(0)) =~= start);
    assert(parts.take(parts.len() as int) =~= parts);
}

// ---- executable writers ----

/// Appends one byte.
pub(crate) fn append_byte(b: &mut Vec<u8>, x: u8)
    ensures
        final(b)@ == old(b)@ + seq![x],
{
    let ghost before = b@;
    b.push(x);
    assert(b@ =~= before + seq![x]);
}

/// Appends `run` to `b`.
pub(crate) fn append_bytes(b: &mut Vec<u8>, run: &[u8])
    ensures
        final(b)@ == old(b)@ + run@,
{
    let ghost before = b@;
    b.extend_from_slice(run);
    assert(b@ =~= before + run@);
}

/// Appends the eight bytes of `x`, most significant first.
pub(crate) fn append_be(b: &mut Vec<u8>, x: u64)
    ensures
        final(b)@ == old(b)@ + be_bytes(x),
{
    let ghost before = b@;
    b.push((x / 0x100_0000_0000_0000 % 0x100) as u8);
    b.push((x / 0x1_0000_0000_0000 % 0x100) as u8);
    b.push((x / 0x100_0000_0000 % 0x100) as u8);
    b.push((x / 0x1_0000_0000 % 0x100) as u8);
    b.push((x / 0x100_0000 % 0x100) as u8);
    b.push((x / 0x1_0000 % 0x100) as u8);
    b.push((x / 0x100 % 0x100) as u8);
    b.push((x % 0x100) as u8);
    assert(b@ =~= before + be_bytes(x));
}

/// Appends the eight bytes of a signed number, most significant first.
pub(crate) fn append_int(b: &mut Vec<u8>, i: i64)
    ensures
        final(b)@ == old(b)@ + be_bytes(twos_complement(i)),
{
    if i >= 0 {
        append_be(b, i as u64);
    } else {
        append_be(b, u64::MAX - (-(i + 1)) as u64);
    }
}

/// Appends a count.
pub(crate) fn append_count(b: &mut Vec<u8>, n: usize)
    ensures
        final(b)@ == old(b)@ + count_bytes(n as nat),
        fits(n as nat),
{
    append_be(b, n as u64);
}

/// Appends the frame of a run of bytes.
pub(crate) fn framed(b: &mut Vec<u8>, s: &[u8])
    ensures
        final(b)@ == old(b)@ + frame(s@),
        fits(s@.len()),
{
    let ghost before = b@;
    append_count(b, s.len());
    append_bytes(b, s);
    assert(b@ =~= before + frame(s@));
}

/// Appends the frame of a text.
pub(crate) fn framed_text(b: &mut Vec<u8>, s: &str)
    ensures
        final(b)@ == old(b)@ + text_frame(s@),
        text_fits(s@),
{
    framed(b, s.as_bytes());
}

/// Appends an optional text: `0` when there is none, else `1` and the text's frame.
pub(crate) fn framed_opt(b: &mut Vec<u8>, s: &Option<String>)
    ensures
        final(b)@ == old(b)@ + opt_text_bytes(opt_text(*s)),
        s matches Some(t) ==> text_fits(t@),
{
    let ghost before = b@;
    match s {
        None => {
            b.push(0);
            assert(b@ =~= before + seq![0u8]);
        },
        Some(v) => {
            b.push(1);
            framed_text(b, v.as_str());
            assert(b@ =~= before + (seq![1u8] + text_frame(v@)));
        },
    }
}

/// Appends a list of texts: their number, then the frame of each.
pub(crate) fn framed_list(b: &mut Vec<u8>, items: &[String])
    ensures
        final(b)@ == old(b)@ + texts_bytes(texts(items@)),
        texts_fit(texts(items@)),
{
    let ghost b0 = b@;
    let ghost parts = texts(items@).map_values(|t: Seq<char>| text_frame(t));
    let n: usize = items.len();
    append_count(b, n);
    let ghost b1 = b@;
    proof {
        lemma_concat_ends(b1, parts);
    }
    for i in 0..n
        invariant
            n == items@.len(),
            parts == texts(items@).map_values(|t: Seq<char>| text_frame(t)),
            b@ == b1 + concat(parts.take(i as int)),
            forall|j: int| 0 <= j < i ==> text_fits(#[trigger] texts(items@)[j]),
    {
        framed_text(b, items[i].as_str());
        proof {
            assert(parts[i as int] == text_frame(items@[i as int]@));
            lemma_concat_step(b1, parts, i as int);
        }
    }
    proof {
        lemma_join(b0, count_bytes(n as nat), concat(parts));
    }
}

/// The byte of a truth value.
pub(crate) fn byte_of(x: bool) -> (r: u8)
    ensures
        r == bool_byte(x),
{
    if x {
        1
    } else {
        0
    }
}

// ---- what the written bytes determine ----

/// Concatenation is associative.
pub(crate) broadcast proof fn lemma_join(a: Seq<u8>, b: Seq<u8>, c: Seq<u8>)
    ensures
        #[trigger] (a + (b + c)) == (a + b) + c,
{
    assert(a + (b + c) =~= (a + b) + c);
}

/// Two equal byte strings that start with runs of one length start with the same run and go on alike.
pub(crate) proof fn lemma_same_split(a: Seq<u8>, b: Seq<u8>, x: Seq<u8>, y: Seq<u8>)
    requires
        a.len() == b.len(),
        a + x == b + y,
    ensures
        a == b,
        x == y,
{
    assert(a =~= (a + x).take(a.len() as int));
    assert(b =~= (b + y).take(b.len() as int));
    assert(x =~= (a + x).skip(a.len() as int));
    assert(y =~= (b + y).skip(b.len() as int));
}

/// A number is what it is without its last digit, and its last digit.
pub(crate) proof fn lemma_digit(x: u64, unit: u64)
    requires
        0 < unit <= 0x1_0000_0000_0000,
    ensures
        x / unit == x / ((unit * 0x100) as u64) * 0x100 + x / unit % 0x100,
{
    vstd::arithmetic::div_mod::lemma_div_denominator(x as int, unit as int, 0x100);
}

/// The eight bytes of a number determine it.
pub(crate) proof fn lemma_be_bytes_injective(x: u64, y: u64)
    requires
        be_bytes(x) == be_bytes(y),
    ensures
        x == y,
{
    let p = be_bytes(x);
    let q = be_bytes(y);
    assert(p[0] == q[0] && p[1] == q[1] && p[2] == q[2] && p[3] == q[3] && p[4] == q[4] && p[5]
        == q[5] && p[6] == q[6] && p[7] == q[7]);
    assert(x / 0x100_0000_0000_0000 == y / 0x100_0000_0000_0000);
    lemma_digit(x, 0x1_0000_0000_0000);
    lemma_digit(y, 0x1_0000_0000_0000);
    assert(x / 0x1_0000_0000_0000 == y / 0x1_0000_0000_0000);
    lemma_digit(x, 0x100_0000_0000);
    lemma_digit(y, 0x100_0000_0000);
    assert(x / 0x100_0000_0000 == y / 0x100_0000_0000);
    lemma_digit(x, 0x1_0000_0000);
    lemma_digit(y, 0x1_0000_0000);
    assert(x / 0x1_0000_0000 == y / 0x1_0000_0000);
    lemma_digit(x, 0x100_0000);
    lemma_digit(y, 0x100_0000);
    assert(x / 0x100_0000 == y / 0x100_0000);
    lemma_digit(x, 0x1_0000);
    lemma_digit(y, 0x1_0000);
    assert(x / 0x1_0000 == y / 0x1_0000);
    lemma_digit(x, 0x100);
    lemma_digit(y, 0x100);
    assert(x / 0x100 == y / 0x100);
}

/// A count is read back from the front of a byte string.
pub(crate) proof fn lemma_count_delimits(m: nat, n: nat, x: Seq<u8>, y: Seq<u8>)
    requires
        fits(m),
        fits(n),
        count_bytes(m) + x == count_bytes(n) + y,
    ensures
        m == n,
        x == y,
{
    lemma_same_split(count_bytes(m), count_bytes(n), x, y);
    lemma_be_bytes_injective(m as u64, n as u64);
}

/// A byte is read back from the front of a byte string.
pub(crate) proof fn lemma_byte_delimits(p: u8, q: u8, x: Seq<u8>, y: Seq<u8>)
    requires
        seq![p] + x == seq![q] + y,
    ensures
        p == q,
        x == y,
{
    lemma_same_split(seq![p], seq![q], x, y);
    assert(seq![p][0] == seq![q][0]);
}

/// A frame is read back from the front of a byte string, whatever follows it.
pub(crate) proof fn lemma_frame_delimits(r: Seq<u8>, s: Seq<u8>, x: Seq<u8>, y: Seq<u8>)
    requires
        fits(r.len()),
        fits(s.len()),
        frame(r) + x == frame(s) + y,
    ensures
        r == s,
        x == y,
{
    assert(frame(r) + x =~= count_bytes(r.len()) + (r + x));
    assert(frame(s) + y =~= count_bytes(s.len()) + (s + y));
    lemma_count_delimits(r.len(), s.len(), r + x, s + y);
    lemma_same_split(r, s, x, y);
}

/// The UTF-8 form of a text determines it.
pub(crate) proof fn lemma_utf8_injective(s: Seq<char>, t: Seq<char>)
    requires
        encode_utf8(s) == encode_utf8(t),
    ensures
        s == t,
{
    vstd::utf8::encode_utf8_decode_utf8(s);
    vstd::utf8::encode_utf8_decode_utf8(t);
}

/// A framed text is read back from the front of a byte string, whatever follows it.
pub(crate) proof fn lemma_text_delimits(s: Seq<char>, t: Seq<char>, x: Seq<u8>, y: Seq<u8>)
    requires
        text_fits(s),
        text_fits(t),
        text_frame(s) + x == text_frame(t) + y,
    ensures
        s == t,
        x == y,
{
    lemma_frame_delimits(encode_utf8(s), encode_utf8(t), x, y);
    lemma_utf8_injective(s, t);
}

/// An optional text is read back from the front of a byte string.
pub(crate) proof fn lemma_opt_text_delimits(
    s: Option<Seq<char>>,
    t: Option<Seq<char>>,
    x: Seq<u8>,
    y: Seq<u8>,
)
    requires
        s matches Some(u) ==> text_fits(u),
        t matches Some(u) ==> text_fits(u),
        opt_text_bytes(s) + x == opt_text_bytes(t) + y,
    ensures
        s == t,
        x == y,
{
    let p = opt_text_bytes(s) + x;
    let q = opt_text_bytes(t) + y;
    assert(p[0] == q[0]);
    if s is Some && t is Some {
        assert(p =~= seq![1u8] + (text_frame(s->0) + x));
        assert(q =~= seq![1u8] + (text_frame(t->0) + y));
        lemma_byte_delimits(1u8, 1u8, text_frame(s->0) + x, text_frame(t->0) + y);
        lemma_text_delimits(s->0, t->0, x, y);
    } else {
        lemma_byte_delimits(0u8, 0u8, x, y);
    }
}

/// `p` and `q` cannot be told apart from the front of a byte string unless they are equal: neither is a
/// proper prefix of the other.
pub open spec fn delimited(p: Seq<u8>, q: Seq<u8>) -> bool {
    forall|x: Seq<u8>, y: Seq<u8>| #[trigger] (p + x) == #[trigger] (q + y) ==> p == q
}

/// As many parts on either side, each delimited against its counterpart: the concatenations are read
/// back part by part.
pub(crate) proof fn lemma_concat_delimits(
    ps: Seq<Seq<u8>>,
    qs: Seq<Seq<u8>>,
    x: Seq<u8>,
    y: Seq<u8>,
)
    requires
        ps.len() == qs.len(),
        forall|i: int| 0 <= i < ps.len() ==> delimited(#[trigger] ps[i], qs[i]),
        concat(ps) + x == concat(qs) + y,
    ensures
        ps == qs,
        x == y,
    decreases ps.len(),
{
    if ps.len() == 0 {
        assert(concat(ps) + x =~= x);
        assert(concat(qs) + y =~= y);
        assert(ps =~= qs);
    } else {
        let n = ps.len() - 1;
        assert(concat(ps) + x =~= concat(ps.drop_last()) + (ps.last() + x));
        assert(concat(qs) + y =~= concat(qs.drop_last()) + (qs.last() + y));
        assert forall|i: int| 0 <= i < n implies delimited(
            #[trigger] ps.drop_last()[i],
            qs.drop_last()[i],
        ) by {
            assert(delimited(ps[i], qs[i]));
        }
        lemma_concat_delimits(ps.drop_last(), qs.drop_last(), ps.last() + x, qs.last() + y);
        assert(delimited(ps[n], qs[n]));
        assert(ps.last() + x == qs.last() + y);
        assert(ps.last() == qs.last());
        lemma_same_split(ps.last(), qs.last(), x, y);
        assert(ps =~= ps.drop_last().push(ps.last()));
        assert(qs =~= qs.drop_last().push(qs.last()));
    }
}

/// A run of parts behind their number is read back part by part.
pub(crate) proof fn lemma_counted_delimits(
    ps: Seq<Seq<u8>>,
    qs: Seq<Seq<u8>>,
    x: Seq<u8>,
    y: Seq<u8>,
)
    requires
        fits(ps.len()),
        fits(qs.len()),
        forall|i: int|
            0 <= i < ps.len() && i < qs.len() ==> delimited(#[trigger] ps[i], qs[i]),
        (count_bytes(ps.len()) + concat(ps)) + x == (count_bytes(qs.len()) + concat(qs)) + y,
    ensures
        ps == qs,
        x == y,
{
    lemma_join(count_bytes(ps.len()), concat(ps), x);
    lemma_join(count_bytes(qs.len()), concat(qs), y);
    lemma_count_delimits(ps.len(), qs.len(), concat(ps) + x, concat(qs) + y);
    lemma_concat_delimits(ps, qs, x, y);
}

/// Two framed texts are delimited against each other.
pub(crate) proof fn lemma_text_frames_delimited(s: Seq<char>, t: Seq<char>)
    requires
        text_fits(s),
        text_fits(t),
    ensures
        delimited(text_frame(s), text_frame(t)),
{
    assert forall|x: Seq<u8>, y: Seq<u8>| #[trigger]
        (text_frame(s) + x) == #[trigger] (text_frame(t) + y) implies text_frame(s) == text_frame(
        t,
    ) by {
        lemma_text_delimits(s, t, x, y);
    }
}

/// A list of texts is read back from the front of a byte string.
pub(crate) proof fn lemma_texts_delimit(
    ss: Seq<Seq<char>>,
    ts: Seq<Seq<char>>,
    x: Seq<u8>,
    y: Seq<u8>,
)
    requires
        texts_fit(ss),
        texts_fit(ts),
        texts_bytes(ss) + x == texts_bytes(ts) + y,
    ensures
        ss == ts,
        x == y,
{
    let ps = ss.map_values(|t: Seq<char>| text_frame(t));
    let qs = ts.map_values(|t: Seq<char>| text_frame(t));
    assert forall|i: int| 0 <= i < ps.len() && i < qs.len() implies delimited(
        #[trigger] ps[i],
        qs[i],
    ) by {
        lemma_text_frames_delimited(ss[i], ts[i]);
    }
    lemma_counted_delimits(ps, qs, x, y);
    assert forall|i: int| 0 <= i < ss.len() implies ss[i] == ts[i] by {
        assert(ps[i] == qs[i]);
        lemma_text_delimits(ss[i], ts[i], seq![], seq![]);
    }
    assert(ss =~= ts);
}

} // verus!
