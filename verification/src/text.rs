//! Questions about texts: equality, suffixes and substrings.

use vstd::prelude::*;

verus! {

/// `part` stands at the end of `text`.
pub open spec fn is_suffix(part: Seq<char>, text: Seq<char>) -> bool {
    &&& part.len() <= text.len()
    &&& text.skip(text.len() - part.len()) == part
}

/// `part` stands in `text`, `at` characters in.
pub open spec fn stands_at(part: Seq<char>, text: Seq<char>, at: int) -> bool {
    &&& 0 <= at <= text.len() - part.len()
    &&& text.subrange(at, at + part.len()) == part
}

/// `part` stands somewhere in `text`.
pub open spec fn is_part(part: Seq<char>, text: Seq<char>) -> bool {
    exists|at: int| stands_at(part, text, at)
}

/// A text ends with `part` exactly when it is some text with `part` behind it.
pub proof fn law_suffix_stands_at_the_end(part: Seq<char>, text: Seq<char>)
    ensures
        is_suffix(part, text) <==> exists|front: Seq<char>| text == #[trigger] (front + part),
{
    if is_suffix(part, text) {
        let front = text.take(text.len() - part.len());
        assert(text =~= front + part);
    }
    if exists|front: Seq<char>| text == #[trigger] (front + part) {
        let front = choose|front: Seq<char>| text == #[trigger] (front + part);
        assert(text.skip(text.len() - part.len()) =~= part);
    }
}

/// A text holds `part` exactly when it is `part` with some text in front of it and some text behind it.
pub proof fn law_part_stands_between_two_texts(part: Seq<char>, text: Seq<char>)
    ensures
        is_part(part, text) <==> exists|front: Seq<char>, back: Seq<char>|
            text == #[trigger] (front + part + back),
{
    if is_part(part, text) {
        let at = choose|at: int| stands_at(part, text, at);
        let front = text.take(at);
        let back = text.skip(at + part.len());
        assert(text =~= front + part + back);
    }
    if exists|front: Seq<char>, back: Seq<char>| text == #[trigger] (front + part + back) {
        let (front, back) = choose|front: Seq<char>, back: Seq<char>|
            text == #[trigger] (front + part + back);
        let at = front.len() as int;
        assert(text.subrange(at, at + part.len()) =~= part);
        assert(stands_at(part, text, at));
    }
}

/// Whether two texts are equal.
pub(crate) fn same_text(a: &str, b: &str) -> (r: bool)
    ensures
        r == (a@ == b@),
{
    let p: &[u8] = a.as_bytes();
    let q: &[u8] = b.as_bytes();
    let n: usize = p.len();
    if n != q.len() {
        return false;
    }
    for i in 0..n
        invariant
            n == p@.len(),
            n == q@.len(),
            p@ == vstd::utf8::encode_utf8(a@),
            q@ == vstd::utf8::encode_utf8(b@),
            forall|j: int| 0 <= j < i ==> p@[j] == q@[j],
    {
        if p[i] != q[i] {
            return false;
        }
    }
    proof {
        assert(p@ =~= q@);
        crate::bytes::lemma_utf8_injective(a@, b@);
    }
    true
}

/// Whether `text` ends with `part`.
pub(crate) fn ends_with(text: &str, part: &str) -> (r: bool)
    ensures
        r == is_suffix(part@, text@),
{
    let n: usize = text.unicode_len();
    let m: usize = part.unicode_len();
    if m > n {
        return false;
    }
    assert(text@.subrange(n - m, n as int) =~= text@.skip(n - m));
    same_text(text.substring_char(n - m, n), part)
}

/// Whether `part` stands somewhere in `text`.
pub(crate) fn contains_text(text: &str, part: &str) -> (r: bool)
    ensures
        r == is_part(part@, text@),
{
    let n: usize = text.unicode_len();
    let m: usize = part.unicode_len();
    if m > n {
        return false;
    }
    let last: usize = n - m;
    let mut at: usize = 0;
    while at < last
        invariant
            n == text@.len(),
            m == part@.len(),
            m <= n,
            last == n - m,
            at <= last,
            forall|j: int| 0 <= j < at ==> !stands_at(part@, text@, j),
        decreases last - at,
    {
        if same_text(text.substring_char(at, at + m), part) {
            assert(stands_at(part@, text@, at as int));
            return true;
        }
        at = at + 1;
    }
    if same_text(text.substring_char(last, n), part) {
        assert(stands_at(part@, text@, last as int));
        true
    } else {
        assert(!stands_at(part@, text@, last as int));
        false
    }
}

} // verus!
