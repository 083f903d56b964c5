//! What holds of byte runs: numbers are read back from their bytes, frames from what they frame, and a
//! concatenation holds each of its parts, whole and in its place.

use vstd::prelude::*;
use vstd::utf8::*;
use crate::bytes;

verus! {

// ---- numbers ----

/// The number that eight bytes are, most significant first.
spec fn be_value(b: Seq<u8>) -> int {
    b[0] * 0x100_0000_0000_0000 + b[1] * 0x1_0000_0000_0000 + b[2] * 0x100_0000_0000 + b[3]
        * 0x1_0000_0000 + b[4] * 0x100_0000 + b[5] * 0x1_0000 + b[6] * 0x100 + b[7]
}

/// A number is read back from its eight digits.
proof fn lemma_digits(x: u64)
    ensures
        x == be_value(bytes::be_bytes(x)),
        bytes::be_bytes(x).len() == 8,
{
    let b = bytes::be_bytes(x);
    assert(b[0] == bytes::be_byte(x, 0) && b[1] == bytes::be_byte(x, 1) && b[2] == bytes::be_byte(
        x,
        2,
    ) && b[3] == bytes::be_byte(x, 3) && b[4] == bytes::be_byte(x, 4) && b[5] == bytes::be_byte(
        x,
        5,
    ) && b[6] == bytes::be_byte(x, 6) && b[7] == bytes::be_byte(x, 7));
    bytes::lemma_digit(x, 1);
    bytes::lemma_digit(x, 0x100);
    bytes::lemma_digit(x, 0x1_0000);
    bytes::lemma_digit(x, 0x100_0000);
    bytes::lemma_digit(x, 0x1_0000_0000);
    bytes::lemma_digit(x, 0x100_0000_0000);
    bytes::lemma_digit(x, 0x1_0000_0000_0000);
}

/// The eight bytes of a number add up to it, each counted two hundred and fifty-six times as much as the
/// one behind it.
pub proof fn law_number_is_read_back(x: u64)
    ensures
        bytes::be_bytes(x).len() == 8,
        x == bytes::be_bytes(x)[0] * 0x100_0000_0000_0000 + bytes::be_bytes(x)[1]
            * 0x1_0000_0000_0000 + bytes::be_bytes(x)[2] * 0x100_0000_0000 + bytes::be_bytes(x)[3]
            * 0x1_0000_0000 + bytes::be_bytes(x)[4] * 0x100_0000 + bytes::be_bytes(x)[5] * 0x1_0000
            + bytes::be_bytes(x)[6] * 0x100 + bytes::be_bytes(x)[7],
{
    lemma_digits(x);
}

/// The same eight bytes from the other end.
pub proof fn law_reversed_number_is_read_back(x: u64)
    ensures
        bytes::le_bytes(x).len() == 8,
        x == bytes::le_bytes(x)[0] + bytes::le_bytes(x)[1] * 0x100 + bytes::le_bytes(x)[2] * 0x1_0000
            + bytes::le_bytes(x)[3] * 0x100_0000 + bytes::le_bytes(x)[4] * 0x1_0000_0000
            + bytes::le_bytes(x)[5] * 0x100_0000_0000 + bytes::le_bytes(x)[6] * 0x1_0000_0000_0000
            + bytes::le_bytes(x)[7] * 0x100_0000_0000_0000,
{
    lemma_digits(x);
    let b = bytes::be_bytes(x);
    let l = bytes::le_bytes(x);
    assert(l[0] == b[7] && l[1] == b[6] && l[2] == b[5] && l[3] == b[4] && l[4] == b[3] && l[5]
        == b[2] && l[6] == b[1] && l[7] == b[0]);
}

/// A signed number and the unsigned one that stands for it differ by a multiple of two to the power of
/// sixty-four.
pub proof fn law_signed_numbers_wrap(i: i64)
    ensures
        (bytes::twos_complement(i) - i) % 0x1_0000_0000_0000_0000 == 0,
{
}

/// A count takes eight bytes, and is read back from them.
pub proof fn law_count_is_read_back(n: nat)
    requires
        n <= u64::MAX,
    ensures
        bytes::count_bytes(n).len() == 8,
        n == bytes::count_bytes(n)[0] * 0x100_0000_0000_0000 + bytes::count_bytes(n)[1]
            * 0x1_0000_0000_0000 + bytes::count_bytes(n)[2] * 0x100_0000_0000 + bytes::count_bytes(
            n,
        )[3] * 0x1_0000_0000 + bytes::count_bytes(n)[4] * 0x100_0000 + bytes::count_bytes(n)[5]
            * 0x1_0000 + bytes::count_bytes(n)[6] * 0x100 + bytes::count_bytes(n)[7],
{
    lemma_digits(n as u64);
}

/// A truth value is one or zero.
pub proof fn law_truth_values(x: bool)
    ensures
        bytes::bool_byte(x) == 1 <==> x,
        bytes::bool_byte(x) == 0 <==> !x,
{
}

// ---- frames ----

/// A frame is the length of the run and the run itself, every byte of it.
pub proof fn law_frame_holds_the_run(run: Seq<u8>)
    ensures
        bytes::frame(run).len() == 8 + run.len(),
        bytes::frame(run).take(8) == bytes::count_bytes(run.len()),
        bytes::frame(run).skip(8) == run,
{
    assert(bytes::frame(run).take(8) =~= bytes::count_bytes(run.len()));
    assert(bytes::frame(run).skip(8) =~= run);
}

/// The frame of a text holds its UTF-8 form, every byte of it, behind the number of those bytes.
pub proof fn law_text_frame_holds_the_text(text: Seq<char>)
    ensures
        bytes::text_frame(text).len() == 8 + encode_utf8(text).len(),
        bytes::text_frame(text).take(8) == bytes::count_bytes(encode_utf8(text).len()),
        bytes::text_frame(text).skip(8) == encode_utf8(text),
        decode_utf8(bytes::text_frame(text).skip(8)) == text,
{
    law_frame_holds_the_run(encode_utf8(text));
    encode_utf8_decode_utf8(text);
}

/// An optional text begins with a mark that tells whether there is one, and its frame follows.
pub proof fn law_optional_text_is_marked(text: Seq<char>)
    ensures
        bytes::opt_text_bytes(None) == seq![0u8],
        bytes::opt_text_bytes(Some(text))[0] == 1,
        bytes::opt_text_bytes(Some(text)).skip(1) == bytes::text_frame(text),
{
    assert(bytes::opt_text_bytes(Some(text)).skip(1) =~= bytes::text_frame(text));
}

// ---- concatenation ----

proof fn lemma_concat_sum(a: Seq<Seq<u8>>, b: Seq<Seq<u8>>)
    ensures
        bytes::concat(a + b) == bytes::concat(a) + bytes::concat(b),
    decreases b.len(),
{
    if b.len() == 0 {
        assert(a + b =~= a);
        assert(bytes::concat(a) + bytes::concat(b) =~= bytes::concat(a));
    } else {
        lemma_concat_sum(a, b.drop_last());
        assert((a + b).drop_last() =~= a + b.drop_last());
        assert((a + b).last() == b.last());
        bytes::lemma_join(bytes::concat(a), bytes::concat(b.drop_last()), b.last());
    }
}

/// One part by itself is its own concatenation, and two runs of parts are concatenated by joining what each
/// gives.
pub proof fn law_concatenation_joins(a: Seq<Seq<u8>>, b: Seq<Seq<u8>>, part: Seq<u8>)
    ensures
        bytes::concat(seq![]) == Seq::<u8>::empty(),
        bytes::concat(seq![part]) == part,
        bytes::concat(a.push(part)) == bytes::concat(a) + part,
        bytes::concat(a + b) == bytes::concat(a) + bytes::concat(b),
{
    lemma_concat_sum(a, b);
    assert(a.push(part).drop_last() =~= a);
    assert(seq![part].drop_last() =~= Seq::<Seq<u8>>::empty());
    reveal_with_fuel(bytes::concat, 2);
    assert(bytes::concat(seq![part]) =~= part);
}

/// Each part stands in a concatenation whole, behind the parts before it and in front of those after it.
pub proof fn law_concatenation_holds_each_part(parts: Seq<Seq<u8>>, i: int)
    requires
        0 <= i < parts.len(),
    ensures
        bytes::concat(parts) == bytes::concat(parts.take(i)) + parts[i] + bytes::concat(
            parts.skip(i + 1),
        ),
{
    let front = parts.take(i).push(parts[i]);
    assert(parts =~= front + parts.skip(i + 1));
    assert(front.drop_last() =~= parts.take(i));
    lemma_concat_sum(front, parts.skip(i + 1));
}

/// A list of texts is its number of texts, and one more text at the end of the list adds its frame at the
/// end of the bytes.
pub proof fn law_text_lists_grow_by_frames(texts: Seq<Seq<char>>, text: Seq<char>)
    ensures
        bytes::texts_bytes(seq![]) == bytes::count_bytes(0),
        bytes::texts_bytes(texts).len() >= 8,
        bytes::texts_bytes(texts).take(8) == bytes::count_bytes(texts.len()),
        bytes::texts_bytes(texts.push(text)).skip(8) == bytes::texts_bytes(texts).skip(8)
            + bytes::text_frame(text),
{
    let f = |t: Seq<char>| bytes::text_frame(t);
    let none = Seq::<Seq<char>>::empty();
    assert(none.map_values(f) =~= Seq::<Seq<u8>>::empty());
    assert(bytes::texts_bytes(none) =~= bytes::count_bytes(0));
    assert(bytes::texts_bytes(texts).take(8) =~= bytes::count_bytes(texts.len()));
    assert(texts.push(text).map_values(f).drop_last() =~= texts.map_values(f));
    assert(texts.push(text).map_values(f).last() == bytes::text_frame(text));
    assert(bytes::texts_bytes(texts.push(text)).skip(8) =~= bytes::concat(
        texts.push(text).map_values(f),
    ));
    assert(bytes::texts_bytes(texts).skip(8) =~= bytes::concat(texts.map_values(f)));
}

// ---- strings ----

/// The texts of a list of strings are those of the strings, one by one.
pub proof fn law_texts_are_the_strings(list: Seq<String>)
    ensures
        bytes::texts(list).len() == list.len(),
        forall|i: int| 0 <= i < list.len() ==> #[trigger] bytes::texts(list)[i] == list[i]@,
{
}

/// An optional string holds a text exactly when there is a string, and an optional list holds the texts of
/// its strings, one by one.
pub proof fn law_optional_texts_are_the_strings(s: Option<String>, list: Option<Vec<String>>)
    ensures
        bytes::opt_text(s) is Some <==> s is Some,
        s matches Some(t) ==> bytes::opt_text(s) == Some(t@),
        bytes::opt_texts(list) is Some <==> list is Some,
        list matches Some(l) ==> bytes::opt_texts(list)->0.len() == l@.len() && forall|i: int|
            0 <= i < l@.len() ==> #[trigger] bytes::opt_texts(list)->0[i] == l@[i]@,
{
}

} // verus!
