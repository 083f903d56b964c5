//! Byte order and stable sorting.
//!
//! Names are ordered by the bytes of their UTF-8 form. Items that are sorted by a key keep their given
//! order where their keys are equal.

use vstd::prelude::*;
use vstd::utf8::*;

verus! {

// ---- the order of byte strings ----

/// `a` comes before `b`: it is a proper prefix of `b`, or smaller at the first byte where they differ.
pub open spec fn bytes_before(a: Seq<u8>, b: Seq<u8>) -> bool
    decreases a.len(),
{
    if b.len() == 0 {
        false
    } else if a.len() == 0 {
        true
    } else if a[0] != b[0] {
        a[0] < b[0]
    } else {
        bytes_before(a.drop_first(), b.drop_first())
    }
}

/// A sort key: byte strings, the first of which counts most.
pub type Key = Seq<Seq<u8>>;

/// `a` comes before `b`: it is a proper prefix of `b`, or earlier at the first part where they differ.
pub open spec fn key_before(a: Key, b: Key) -> bool
    decreases a.len(),
{
    if b.len() == 0 {
        false
    } else if a.len() == 0 {
        true
    } else if a[0] != b[0] {
        bytes_before(a[0], b[0])
    } else {
        key_before(a.drop_first(), b.drop_first())
    }
}

/// The key of a text: the bytes of its UTF-8 form.
pub open spec fn text_key(text: Seq<char>) -> Key {
    seq![encode_utf8(text)]
}

pub(crate) proof fn lemma_bytes_before_irreflexive(a: Seq<u8>)
    ensures
        !bytes_before(a, a),
    decreases a.len(),
{
    if a.len() > 0 {
        lemma_bytes_before_irreflexive(a.drop_first());
    }
}

pub(crate) proof fn lemma_bytes_before_transitive(a: Seq<u8>, b: Seq<u8>, c: Seq<u8>)
    requires
        bytes_before(a, b),
        bytes_before(b, c),
    ensures
        bytes_before(a, c),
    decreases a.len(),
{
    if a.len() > 0 && a[0] == b[0] && b[0] == c[0] {
        lemma_bytes_before_transitive(a.drop_first(), b.drop_first(), c.drop_first());
    }
}

pub(crate) proof fn lemma_bytes_before_total(a: Seq<u8>, b: Seq<u8>)
    ensures
        bytes_before(a, b) || bytes_before(b, a) || a == b,
    decreases a.len(),
{
    if a.len() == 0 && b.len() == 0 {
        assert(a =~= b);
    } else if a.len() > 0 && b.len() > 0 && a[0] == b[0] {
        lemma_bytes_before_total(a.drop_first(), b.drop_first());
        assert(a =~= seq![a[0]] + a.drop_first());
        assert(b =~= seq![b[0]] + b.drop_first());
    }
}

pub(crate) proof fn lemma_key_before_irreflexive(a: Key)
    ensures
        !key_before(a, a),
    decreases a.len(),
{
    if a.len() > 0 {
        lemma_key_before_irreflexive(a.drop_first());
    }
}

pub(crate) proof fn lemma_key_before_transitive(a: Key, b: Key, c: Key)
    requires
        key_before(a, b),
        key_before(b, c),
    ensures
        key_before(a, c),
    decreases a.len(),
{
    if a.len() > 0 {
        if a[0] == b[0] && b[0] == c[0] {
            lemma_key_before_transitive(a.drop_first(), b.drop_first(), c.drop_first());
        } else if a[0] != b[0] && b[0] != c[0] {
            lemma_bytes_before_transitive(a[0], b[0], c[0]);
            lemma_bytes_before_irreflexive(a[0]);
        }
    }
}

pub(crate) proof fn lemma_key_before_total(a: Key, b: Key)
    ensures
        key_before(a, b) || key_before(b, a) || a == b,
    decreases a.len(),
{
    if a.len() == 0 && b.len() == 0 {
        assert(a =~= b);
    } else if a.len() > 0 && b.len() > 0 {
        if a[0] == b[0] {
            lemma_key_before_total(a.drop_first(), b.drop_first());
            assert(a =~= seq![a[0]] + a.drop_first());
            assert(b =~= seq![b[0]] + b.drop_first());
        } else {
            lemma_bytes_before_total(a[0], b[0]);
        }
    }
}

/// Keys are in a strict total order: no key comes before itself, the order carries over, and of two
/// different keys one comes before the other.
pub proof fn law_keys_are_totally_ordered(a: Key, b: Key, c: Key)
    ensures
        !key_before(a, a),
        key_before(a, b) && key_before(b, c) ==> key_before(a, c),
        key_before(a, b) || key_before(b, a) || a == b,
        !(key_before(a, b) && key_before(b, a)),
{
    lemma_key_before_irreflexive(a);
    if key_before(a, b) && key_before(b, c) {
        lemma_key_before_transitive(a, b, c);
    }
    lemma_key_before_total(a, b);
    if key_before(a, b) && key_before(b, a) {
        lemma_key_before_transitive(a, b, a);
    }
}

/// One byte string comes before another where the first byte in which they differ is smaller, or where it
/// ends and the other goes on.
pub proof fn law_byte_order_is_decided_by_the_first_difference(a: Seq<u8>, b: Seq<u8>)
    ensures
        bytes_before(a, b) <==> {
            ||| exists|i: int|
                0 <= i < a.len() && i < b.len() && (#[trigger] a[i]) < b[i] && a.take(i) == b.take(i)
            ||| a.len() < b.len() && b.take(a.len() as int) == a
        },
    decreases a.len(),
{
    if a.len() > 0 && b.len() > 0 && a[0] == b[0] {
        let (p, q) = (a.drop_first(), b.drop_first());
        law_byte_order_is_decided_by_the_first_difference(p, q);
        if exists|i: int|
            0 <= i < p.len() && i < q.len() && (#[trigger] p[i]) < q[i] && p.take(i) == q.take(i) {
            let i = choose|i: int|
                0 <= i < p.len() && i < q.len() && (#[trigger] p[i]) < q[i] && p.take(i) == q.take(
                    i,
                );
            assert(a[i + 1] < b[i + 1]);
            assert forall|j: int| 0 <= j < i + 1 implies #[trigger] a.take(i + 1)[j] == b.take(i + 1)[j] by {
                if j > 0 {
                    assert(p.take(i)[j - 1] == q.take(i)[j - 1]);
                }
            }
            assert(a.take(i + 1) =~= b.take(i + 1));
        }
        if exists|i: int|
            0 <= i < a.len() && i < b.len() && (#[trigger] a[i]) < b[i] && a.take(i) == b.take(i) {
            let i = choose|i: int|
                0 <= i < a.len() && i < b.len() && (#[trigger] a[i]) < b[i] && a.take(i) == b.take(
                    i,
                );
            assert(p[i - 1] < q[i - 1]);
            assert forall|j: int| 0 <= j < i - 1 implies #[trigger] p.take(i - 1)[j] == q.take(i - 1)[j] by {
                assert(a.take(i)[j + 1] == b.take(i)[j + 1]);
            }
            assert(p.take(i - 1) =~= q.take(i - 1));
        }
        if p.len() < q.len() && q.take(p.len() as int) == p {
            assert forall|j: int| 0 <= j < a.len() implies #[trigger] b.take(a.len() as int)[j] == a[j] by {
                if j > 0 {
                    assert(q.take(p.len() as int)[j - 1] == p[j - 1]);
                }
            }
            assert(b.take(a.len() as int) =~= a);
        }
        if a.len() < b.len() && b.take(a.len() as int) == a {
            assert forall|j: int| 0 <= j < p.len() implies #[trigger] q.take(p.len() as int)[j] == p[j] by {
                assert(b.take(a.len() as int)[j + 1] == a[j + 1]);
            }
            assert(q.take(p.len() as int) =~= p);
        }
    } else {
        if a.len() > 0 && b.len() > 0 {
            assert(a.take(0) =~= b.take(0));
            assert forall|i: int|
                0 < i < a.len() && i < b.len() implies #[trigger] a.take(i) != b.take(i) by {
                assert(a.take(i)[0] != b.take(i)[0]);
            }
            if a.len() < b.len() {
                assert(b.take(a.len() as int)[0] != a[0]);
            }
        } else if b.len() > 0 {
            assert(b.take(0) =~= a);
        }
    }
}

/// The key of a text is its UTF-8 form, and nothing else: texts are in the order of those bytes.
pub proof fn law_texts_are_in_byte_order(a: Seq<char>, b: Seq<char>)
    ensures
        text_key(a) == seq![encode_utf8(a)],
        key_before(text_key(a), text_key(b)) <==> bytes_before(encode_utf8(a), encode_utf8(b)),
{
    lemma_text_key_before(a, b);
}

/// Keys are compared part by part: where the first parts differ they decide, and where they are equal the
/// rest decides.
pub proof fn law_keys_are_compared_part_by_part(p: Seq<u8>, q: Seq<u8>, a: Key, b: Key)
    ensures
        p != q ==> (key_before(seq![p] + a, seq![q] + b) <==> bytes_before(p, q)),
        p == q ==> (key_before(seq![p] + a, seq![q] + b) <==> key_before(a, b)),
        key_before(seq![], seq![q] + b),
        !key_before(a, seq![]),
{
    assert((seq![p] + a).drop_first() =~= a);
    assert((seq![q] + b).drop_first() =~= b);
}

// ---- stable sorting ----

/// `x` put into `s` behind every item that it does not come before, counted from the end.
pub open spec fn insert_by<A>(s: Seq<A>, x: A, key: spec_fn(A) -> Key) -> Seq<A>
    decreases s.len(),
{
    if s.len() == 0 || !key_before(key(x), key(s.last())) {
        s.push(x)
    } else {
        insert_by(s.drop_last(), x, key).push(s.last())
    }
}

/// The items in the order of their keys; items with equal keys keep the order that they have in `s`.
pub open spec fn sorted_by<A>(s: Seq<A>, key: spec_fn(A) -> Key) -> Seq<A>
    decreases s.len(),
{
    if s.len() == 0 {
        s
    } else {
        insert_by(sorted_by(s.drop_last(), key), s.last(), key)
    }
}

/// No item comes before one that stands in front of it.
pub open spec fn ordered_by<A>(s: Seq<A>, key: spec_fn(A) -> Key) -> bool {
    forall|i: int, j: int|
        0 <= i < j < s.len() ==> !key_before(key(#[trigger] s[j]), key(#[trigger] s[i]))
}

pub(crate) proof fn lemma_insert_by<A>(s: Seq<A>, x: A, key: spec_fn(A) -> Key)
    requires
        ordered_by(s, key),
    ensures
        ordered_by(insert_by(s, x, key), key),
        insert_by(s, x, key).len() == s.len() + 1,
        insert_by(s, x, key).to_multiset() == s.to_multiset().insert(x),
        forall|i: int|
            0 <= i < s.len() + 1 ==> #[trigger] insert_by(s, x, key)[i] == x || s.contains(
                insert_by(s, x, key)[i],
            ),
    decreases s.len(),
{
    broadcast use vstd::seq_lib::group_to_multiset_ensures;

    let r = insert_by(s, x, key);
    if s.len() == 0 || !key_before(key(x), key(s.last())) {
        assert forall|i: int, j: int| 0 <= i < j < r.len() implies !key_before(
            key(#[trigger] r[j]),
            key(#[trigger] r[i]),
        ) by {
            if j == s.len() && i < s.len() - 1 {
                // x is not before the last item, which is not before item i
                let last = s.last();
                assert(!key_before(key(last), key(s[i])));
                if key_before(key(x), key(s[i])) {
                    lemma_key_before_total(key(s[i]), key(last));
                    if key_before(key(s[i]), key(last)) {
                        lemma_key_before_transitive(key(x), key(s[i]), key(last));
                    }
                }
            }
        }
        assert forall|i: int| 0 <= i < s.len() + 1 implies #[trigger] r[i] == x || s.contains(
            r[i],
        ) by {
            if i < s.len() {
                assert(s[i] == r[i]);
            }
        }
        s.to_multiset_ensures();
    } else {
        let front = s.drop_last();
        let rf = insert_by(front, x, key);
        assert(ordered_by(front, key));
        lemma_insert_by(front, x, key);
        assert forall|i: int, j: int| 0 <= i < j < r.len() implies !key_before(
            key(#[trigger] r[j]),
            key(#[trigger] r[i]),
        ) by {
            if j < rf.len() {
                assert(!key_before(key(rf[j]), key(rf[i])));
            } else {
                assert(r[i] == rf[i]);
                if rf[i] == x {
                    if key_before(key(s.last()), key(x)) {
                        lemma_key_before_transitive(key(x), key(s.last()), key(x));
                        lemma_key_before_irreflexive(key(x));
                    }
                } else {
                    assert(front.contains(rf[i]));
                    let k = choose|k: int| 0 <= k < front.len() && front[k] == rf[i];
                    assert(s[k] == rf[i]);
                    assert(!key_before(key(s[s.len() - 1]), key(s[k])));
                }
            }
        }
        assert forall|i: int| 0 <= i < s.len() + 1 implies #[trigger] r[i] == x || s.contains(
            r[i],
        ) by {
            if i < rf.len() {
                assert(r[i] == rf[i]);
                if rf[i] != x {
                    let k = choose|k: int| 0 <= k < front.len() && front[k] == rf[i];
                    assert(s[k] == r[i]);
                }
            } else {
                assert(s[s.len() - 1] == r[i]);
            }
        }
        rf.to_multiset_ensures();
        front.to_multiset_ensures();
        assert(s =~= front.push(s.last()));
        assert(r.to_multiset() =~= rf.to_multiset().insert(s.last()));
        assert(s.to_multiset() =~= front.to_multiset().insert(s.last()));
        assert(r.to_multiset() =~= s.to_multiset().insert(x));
    }
}

/// Sorting puts items in the order of their keys, and neither adds nor loses one.
pub proof fn law_sorting_orders_and_keeps_items<A>(s: Seq<A>, key: spec_fn(A) -> Key)
    ensures
        ordered_by(sorted_by(s, key), key),
        sorted_by(s, key).to_multiset() == s.to_multiset(),
        sorted_by(s, key).len() == s.len(),
    decreases s.len(),
{
    if s.len() > 0 {
        let front = s.drop_last();
        law_sorting_orders_and_keeps_items(front, key);
        lemma_insert_by(sorted_by(front, key), s.last(), key);
        front.to_multiset_ensures();
        assert(s =~= front.push(s.last()));
    }
}

/// Whether an item has the key `k`.
pub open spec fn has_key<A>(key: spec_fn(A) -> Key, k: Key) -> spec_fn(A) -> bool {
    |x: A| key(x) == k
}

/// The items with one key, in the order that they have in `s`.
pub open spec fn with_key<A>(s: Seq<A>, key: spec_fn(A) -> Key, k: Key) -> Seq<A> {
    s.filter(has_key(key, k))
}

proof fn lemma_filter_push<A>(s: Seq<A>, x: A, p: spec_fn(A) -> bool)
    ensures
        s.push(x).filter(p) == if p(x) {
            s.filter(p).push(x)
        } else {
            s.filter(p)
        },
{
    reveal(Seq::filter);
    assert(s.push(x).drop_last() =~= s);
}

proof fn lemma_insert_by_stable<A>(s: Seq<A>, x: A, key: spec_fn(A) -> Key, k: Key)
    requires
        ordered_by(s, key),
    ensures
        with_key(insert_by(s, x, key), key, k) == with_key(s.push(x), key, k),
    decreases s.len(),
{
    let p = has_key(key, k);
    if s.len() == 0 || !key_before(key(x), key(s.last())) {
    } else {
        let front = s.drop_last();
        let last = s.last();
        assert(ordered_by(front, key));
        lemma_insert_by_stable(front, x, key, k);
        lemma_filter_push(insert_by(front, x, key), last, p);
        lemma_filter_push(front, x, p);
        lemma_filter_push(s, x, p);
        lemma_filter_push(front, last, p);
        assert(s =~= front.push(last));
        lemma_key_before_irreflexive(key(x));
    }
}

/// Sorting is stable: the items of one key come out in the order in which they went in.
pub proof fn law_sorting_is_stable<A>(s: Seq<A>, key: spec_fn(A) -> Key, k: Key)
    ensures
        with_key(sorted_by(s, key), key, k) == with_key(s, key, k),
    decreases s.len(),
{
    if s.len() > 0 {
        let p = has_key(key, k);
        let front = s.drop_last();
        law_sorting_is_stable(front, key, k);
        law_sorting_orders_and_keeps_items(front, key);
        lemma_insert_by_stable(sorted_by(front, key), s.last(), key, k);
        lemma_filter_push(sorted_by(front, key), s.last(), p);
        lemma_filter_push(front, s.last(), p);
        assert(s =~= front.push(s.last()));
    }
}

/// What sorting gives: no item stands behind one that it comes before, every item is there as often as it
/// was given, and items of one key are in the order in which they were given.
pub proof fn law_sorting_is_a_stable_rearrangement<A>(s: Seq<A>, key: spec_fn(A) -> Key, k: Key)
    ensures
        forall|i: int, j: int|
            0 <= i < j < s.len() ==> !key_before(
                key(#[trigger] sorted_by(s, key)[j]),
                key(#[trigger] sorted_by(s, key)[i]),
            ),
        sorted_by(s, key).len() == s.len(),
        sorted_by(s, key).to_multiset() == s.to_multiset(),
        sorted_by(s, key).filter(|x: A| key(x) == k) == s.filter(|x: A| key(x) == k),
{
    law_sorting_orders_and_keeps_items(s, key);
    law_sorting_is_stable(s, key, k);
    assert(has_key(key, k) =~= |x: A| key(x) == k);
}

/// Sorting leaves alone what is sorted.
pub(crate) proof fn lemma_sorting_the_sorted<A>(s: Seq<A>, key: spec_fn(A) -> Key)
    requires
        ordered_by(s, key),
    ensures
        sorted_by(s, key) == s,
    decreases s.len(),
{
    if s.len() > 0 {
        let front = s.drop_last();
        assert(ordered_by(front, key));
        lemma_sorting_the_sorted(front, key);
        if front.len() > 0 {
            assert(front.last() == s[s.len() - 2]);
            assert(!key_before(key(s[s.len() - 1]), key(s[s.len() - 2])));
        }
        assert(front.push(s.last()) =~= s);
    } else {
        assert(sorted_by(s, key) =~= s);
    }
}

/// No two different items of `s` share a key.
pub open spec fn keys_identify<A>(s: Seq<A>, key: spec_fn(A) -> Key) -> bool {
    forall|i: int, j: int|
        0 <= i < s.len() && 0 <= j < s.len() && key(#[trigger] s[i]) == key(#[trigger] s[j])
            ==> s[i] == s[j]
}

proof fn lemma_ordered_unique<A>(s: Seq<A>, t: Seq<A>, key: spec_fn(A) -> Key)
    requires
        ordered_by(s, key),
        ordered_by(t, key),
        keys_identify(s, key),
        s.to_multiset() == t.to_multiset(),
    ensures
        s == t,
    decreases s.len(),
{
    s.to_multiset_ensures();
    t.to_multiset_ensures();
    assert(s.len() == t.len());
    if s.len() == 0 {
        assert(s =~= t);
    } else {
        let a = s.last();
        let b = t.last();
        assert(s[s.len() - 1] == a && t[t.len() - 1] == b);
        assert(s.to_multiset().count(a) > 0);
        assert(t.to_multiset().count(b) > 0);
        assert(t.contains(a));
        assert(s.contains(b));
        let i = choose|i: int| 0 <= i < t.len() && t[i] == a;
        let j = choose|j: int| 0 <= j < s.len() && s[j] == b;
        assert(!key_before(key(b), key(a))) by {
            if i == t.len() - 1 {
                lemma_key_before_irreflexive(key(a));
            }
        }
        assert(!key_before(key(a), key(b))) by {
            if j == s.len() - 1 {
                lemma_key_before_irreflexive(key(a));
            }
        }
        lemma_key_before_total(key(a), key(b));
        assert(s[s.len() - 1] == s[j]);
        assert(a == b);
        let sf = s.drop_last();
        let tf = t.drop_last();
        assert(s =~= sf.push(a));
        assert(t =~= tf.push(a));
        sf.to_multiset_ensures();
        tf.to_multiset_ensures();
        assert(sf.to_multiset() =~= s.to_multiset().remove(a));
        assert(tf.to_multiset() =~= t.to_multiset().remove(a));
        lemma_ordered_unique(sf, tf, key);
    }
}

/// Where no two different items share a key, the sorted items do not depend on the order in which they
/// were given.
pub proof fn law_sorting_ignores_the_given_order<A>(s: Seq<A>, t: Seq<A>, key: spec_fn(A) -> Key)
    requires
        s.to_multiset() == t.to_multiset(),
        keys_identify(s, key),
    ensures
        sorted_by(s, key) == sorted_by(t, key),
{
    law_sorting_orders_and_keeps_items(s, key);
    law_sorting_orders_and_keeps_items(t, key);
    let p = sorted_by(s, key);
    s.to_multiset_ensures();
    p.to_multiset_ensures();
    assert forall|i: int, j: int|
        0 <= i < p.len() && 0 <= j < p.len() && key(#[trigger] p[i]) == key(
            #[trigger] p[j],
        ) implies p[i] == p[j] by {
        assert(p.to_multiset().count(p[i]) > 0);
        assert(p.to_multiset().count(p[j]) > 0);
        assert(s.contains(p[i]) && s.contains(p[j]));
    }
    lemma_ordered_unique(p, sorted_by(t, key), key);
}

proof fn lemma_insert_by_map<A, B>(
    s: Seq<A>,
    x: A,
    f: spec_fn(A) -> B,
    ka: spec_fn(A) -> Key,
    kb: spec_fn(B) -> Key,
)
    requires
        forall|a: A| kb(#[trigger] f(a)) == ka(a),
    ensures
        insert_by(s.map_values(f), f(x), kb) == insert_by(s, x, ka).map_values(f),
    decreases s.len(),
{
    let m = s.map_values(f);
    if s.len() == 0 || !key_before(ka(x), ka(s.last())) {
        assert(m.push(f(x)) =~= s.push(x).map_values(f));
    } else {
        lemma_insert_by_map(s.drop_last(), x, f, ka, kb);
        assert(m.drop_last() =~= s.drop_last().map_values(f));
        assert(insert_by(s.drop_last(), x, ka).map_values(f).push(f(s.last())) =~= insert_by(
            s.drop_last(),
            x,
            ka,
        ).push(s.last()).map_values(f));
    }
}

/// Sorting goes through a map that keeps the keys.
pub(crate) proof fn lemma_sorted_by_map<A, B>(
    s: Seq<A>,
    f: spec_fn(A) -> B,
    ka: spec_fn(A) -> Key,
    kb: spec_fn(B) -> Key,
)
    requires
        forall|a: A| kb(#[trigger] f(a)) == ka(a),
    ensures
        sorted_by(s.map_values(f), kb) == sorted_by(s, ka).map_values(f),
    decreases s.len(),
{
    if s.len() > 0 {
        lemma_sorted_by_map(s.drop_last(), f, ka, kb);
        assert(s.map_values(f).drop_last() =~= s.drop_last().map_values(f));
        lemma_insert_by_map(sorted_by(s.drop_last(), ka), s.last(), f, ka, kb);
    }
}

/// Not to come before is transitive.
pub(crate) proof fn lemma_not_before_transitive(a: Key, b: Key, c: Key)
    requires
        !key_before(b, a),
        !key_before(c, b),
    ensures
        !key_before(c, a),
{
    lemma_key_before_total(a, b);
    lemma_key_before_total(b, c);
    if key_before(c, a) {
        if key_before(a, b) {
            lemma_key_before_transitive(c, a, b);
        }
    }
}

/// The items that stand at the given positions.
pub open spec fn picked<T>(items: Seq<T>, positions: Seq<usize>) -> Seq<T> {
    positions.map_values(|i: usize| items[i as int])
}

// ---- executable comparison and sorting ----

/// Whether `a` comes before `b` in byte order.
pub(crate) fn bytes_come_before(a: &[u8], b: &[u8]) -> (r: bool)
    ensures
        r == bytes_before(a@, b@),
{
    let mut i: usize = 0;
    assert(a@.skip(0) =~= a@);
    assert(b@.skip(0) =~= b@);
    while i < a.len() && i < b.len() && a[i] == b[i]
        invariant
            i <= a@.len(),
            i <= b@.len(),
            bytes_before(a@, b@) == bytes_before(a@.skip(i as int), b@.skip(i as int)),
        decreases a@.len() - i,
    {
        assert(a@.skip(i as int).drop_first() =~= a@.skip(i + 1));
        assert(b@.skip(i as int).drop_first() =~= b@.skip(i + 1));
        i = i + 1;
    }
    if i == b.len() {
        false
    } else if i == a.len() {
        true
    } else {
        a[i] < b[i]
    }
}

/// Whether the text `a` comes before `b` in the byte order of their UTF-8 forms.
pub(crate) fn text_comes_before(a: &str, b: &str) -> (r: bool)
    ensures
        r == key_before(text_key(a@), text_key(b@)),
{
    proof {
        lemma_text_key_before(a@, b@);
    }
    bytes_come_before(a.as_bytes(), b.as_bytes())
}

/// Text keys are in the order of the UTF-8 forms.
pub(crate) proof fn lemma_text_key_before(a: Seq<char>, b: Seq<char>)
    ensures
        key_before(text_key(a), text_key(b)) == bytes_before(encode_utf8(a), encode_utf8(b)),
{
    lemma_bytes_before_irreflexive(encode_utf8(a));
    reveal_with_fuel(key_before, 2);
}

/// An item with a sort key.
pub trait Keyed: Sized {
    /// The item's sort key.
    spec fn key(&self) -> Key;

    /// Whether this item's key comes before that of `other`.
    fn comes_before(&self, other: &Self) -> (r: bool)
        ensures
            r == key_before(self.key(), other.key()),
    ;
}

/// The key of an item, as a function.
pub open spec fn key_of<T: Keyed>() -> spec_fn(T) -> Key {
    |item: T| item.key()
}

impl Keyed for String {
    open spec fn key(&self) -> Key {
        text_key(self@)
    }

    fn comes_before(&self, other: &Self) -> (r: bool) {
        text_comes_before(self.as_str(), other.as_str())
    }
}

impl<V> Keyed for (String, V) {
    open spec fn key(&self) -> Key {
        text_key(self.0@)
    }

    fn comes_before(&self, other: &Self) -> (r: bool) {
        text_comes_before(self.0.as_str(), other.0.as_str())
    }
}

/// The positions of the items in sorted order; items with equal keys stay in the given order.
///
/// Each item is taken in turn and moved forward past the items that it comes before, so items that are
/// sorted already cost one comparison each.
pub(crate) fn sorted_positions<T: Keyed>(items: &[T]) -> (positions: Vec<usize>)
    ensures
        positions@.len() == items@.len(),
        forall|i: int| 0 <= i < positions@.len() ==> #[trigger] positions@[i] < items@.len(),
        forall|p: usize| p < items@.len() ==> #[trigger] positions@.contains(p),
        picked(items@, positions@) == sorted_by(items@, key_of::<T>()),
{
    let n: usize = items.len();
    let ghost key = key_of::<T>();
    let mut positions: Vec<usize> = Vec::new();
    assert(picked(items@, positions@) =~= sorted_by(items@.take(0), key));
    for k in 0..n
        invariant
            n == items@.len(),
            key == key_of::<T>(),
            positions@.len() == k,
            forall|i: int| 0 <= i < positions@.len() ==> #[trigger] positions@[i] < k,
            forall|p: usize| p < k ==> #[trigger] positions@.contains(p),
            picked(items@, positions@) == sorted_by(items@.take(k as int), key),
    {
        let ghost x = items@[k as int];
        let ghost done = picked(items@, positions@);
        let mut j: usize = k;
        assert(done.take(j as int) =~= done);
        assert(done.skip(j as int) =~= Seq::<T>::empty());
        assert(insert_by(done, x, key) =~= insert_by(done.take(j as int), x, key) + done.skip(
            j as int,
        ));
        while j > 0 && items[k].comes_before(&items[positions[j - 1]])
            invariant
                k < n,
                n == items@.len(),
                j <= k,
                key == key_of::<T>(),
                x == items@[k as int],
                positions@.len() == k,
                forall|i: int| 0 <= i < positions@.len() ==> #[trigger] positions@[i] < k,
                done == picked(items@, positions@),
                insert_by(done, x, key) == insert_by(done.take(j as int), x, key) + done.skip(
                    j as int,
                ),
            decreases j,
        {
            proof {
                let head = done.take(j as int);
                assert(head.last() == items@[positions@[j - 1] as int]);
                assert(head.drop_last() =~= done.take(j - 1));
                assert(insert_by(done.take(j - 1), x, key).push(head.last()) + done.skip(j as int)
                    =~= insert_by(done.take(j - 1), x, key) + done.skip(j - 1));
            }
            j = j - 1;
        }
        proof {
            if j > 0 {
                assert(done.take(j as int).last() == items@[positions@[j - 1] as int]);
            }
            assert(insert_by(done.take(j as int), x, key) == done.take(j as int).push(x));
            assert(items@.take(k + 1).drop_last() =~= items@.take(k as int));
        }
        let ghost before = positions@;
        positions.insert(j, k);
        proof {
            assert(picked(items@, positions@) =~= done.take(j as int).push(x) + done.skip(j as int));
            assert forall|p: usize| p < k + 1 implies #[trigger] positions@.contains(p) by {
                if p == k {
                    assert(positions@[j as int] == p);
                } else {
                    assert(before.contains(p));
                    let i = choose|i: int| 0 <= i < before.len() && before[i] == p;
                    if i < j {
                        assert(positions@[i] == p);
                    } else {
                        assert(positions@[i + 1] == p);
                    }
                }
            }
        }
    }
    assert(items@.take(n as int) =~= items@);
    positions
}

} // verus!
