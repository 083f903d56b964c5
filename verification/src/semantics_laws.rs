//! What holds of the fingerprint of a configuration: it tells apart exactly the configurations that differ
//! in a flag, and takes the allowlist as a set.

use vstd::prelude::*;
use crate::bytes;
use crate::digest;
use crate::encoding;
use crate::model::RegistryModel;
use crate::order;
use crate::semantics;
use crate::semantics::{TypeOptions, Utf8Enforcement};

verus! {

// ---- the allowlist as a set ----

/// Each text comes before all that follow it, so none occurs twice.
pub open spec fn strictly_ordered(s: Seq<Seq<char>>) -> bool {
    forall|i: int, j: int|
        0 <= i < j < s.len() ==> order::key_before(
            order::text_key(#[trigger] s[i]),
            order::text_key(#[trigger] s[j]),
        )
}

proof fn lemma_text_total(a: Seq<char>, b: Seq<char>)
    ensures
        order::key_before(order::text_key(a), order::text_key(b)) || order::key_before(
            order::text_key(b),
            order::text_key(a),
        ) || a == b,
{
    order::lemma_key_before_total(order::text_key(a), order::text_key(b));
    if order::text_key(a) == order::text_key(b) {
        assert(order::text_key(a)[0] == order::text_key(b)[0]);
        bytes::lemma_utf8_injective(a, b);
    }
}

proof fn lemma_without_repeats(s: Seq<Seq<char>>)
    requires
        order::ordered_by(s, semantics::by_text()),
    ensures
        strictly_ordered(semantics::without_repeats(s)),
        forall|t: Seq<char>| #[trigger]
            semantics::without_repeats(s).contains(t) <==> s.contains(t),
        s.len() > 0 ==> semantics::without_repeats(s).len() > 0
            && semantics::without_repeats(s).last() == s.last(),
    decreases s.len(),
{
    if s.len() >= 2 {
        let front = s.drop_last();
        let w = semantics::without_repeats(front);
        let (p, q) = (s[s.len() - 2], s.last());
        assert(front.last() == p);
        lemma_without_repeats(front);
        assert(s =~= front.push(q));
        if p == q {
            assert forall|t: Seq<char>| #[trigger] w.contains(t) <==> s.contains(t) by {
                if s.contains(t) {
                    let i = choose|i: int| 0 <= i < s.len() && s[i] == t;
                    if i == s.len() - 1 {
                        assert(front[s.len() - 2] == t);
                    } else {
                        assert(front[i] == t);
                    }
                } else if front.contains(t) {
                    let i = choose|i: int| 0 <= i < front.len() && front[i] == t;
                    assert(s[i] == t);
                }
            }
        } else {
            let key = semantics::by_text();
            assert(!order::key_before(key(s[s.len() - 1]), key(s[s.len() - 2])));
            lemma_text_total(p, q);
            assert forall|i: int, j: int| 0 <= i < j < w.push(q).len() implies order::key_before(
                order::text_key(#[trigger] w.push(q)[i]),
                order::text_key(#[trigger] w.push(q)[j]),
            ) by {
                if j == w.len() && i < w.len() - 1 {
                    assert(w[w.len() - 1] == p);
                    order::lemma_key_before_transitive(
                        order::text_key(w[i]),
                        order::text_key(p),
                        order::text_key(q),
                    );
                }
            }
            assert forall|t: Seq<char>| #[trigger] w.push(q).contains(t) <==> s.contains(t) by {
                if w.push(q).contains(t) {
                    let i = choose|i: int| 0 <= i < w.push(q).len() && w.push(q)[i] == t;
                    if i < w.len() {
                        assert(w[i] == t);
                        assert(w.contains(t));
                        let j = choose|j: int| 0 <= j < front.len() && front[j] == t;
                        assert(s[j] == t);
                    } else {
                        assert(s[s.len() - 1] == t);
                    }
                } else if s.contains(t) {
                    let i = choose|i: int| 0 <= i < s.len() && s[i] == t;
                    if i < front.len() {
                        assert(front[i] == t);
                        assert(w.contains(t));
                        let j = choose|j: int| 0 <= j < w.len() && w[j] == t;
                        assert(w.push(q)[j] == t);
                    } else {
                        assert(w.push(q)[w.len() as int] == t);
                    }
                }
            }
        }
    }
}

/// The texts of a list as a set are in order, none occurs twice, and they are the texts of the list.
pub proof fn law_text_set_is_a_sorted_set(list: Seq<Seq<char>>)
    ensures
        strictly_ordered(semantics::text_set(list)),
        semantics::text_set(list).to_set() == list.to_set(),
{
    let sorted = order::sorted_by(list, semantics::by_text());
    order::law_sorting_orders_and_keeps_items(list, semantics::by_text());
    lemma_without_repeats(sorted);
    sorted.to_multiset_ensures();
    list.to_multiset_ensures();
    assert forall|t: Seq<char>|
        semantics::text_set(list).to_set().contains(t) <==> list.to_set().contains(t) by {
        assert(semantics::text_set(list).contains(t) <==> sorted.contains(t));
        assert(sorted.contains(t) <==> sorted.to_multiset().count(t) > 0);
        assert(list.contains(t) <==> list.to_multiset().count(t) > 0);
    }
    assert(semantics::text_set(list).to_set() =~= list.to_set());
}

/// A set of texts has one strictly ordered list.
proof fn lemma_strictly_ordered_unique(s: Seq<Seq<char>>, t: Seq<Seq<char>>)
    requires
        strictly_ordered(s),
        strictly_ordered(t),
        forall|x: Seq<char>| #[trigger] s.contains(x) <==> t.contains(x),
    ensures
        s == t,
    decreases s.len(),
{
    if s.len() == 0 {
        if t.len() > 0 {
            assert(t.contains(t[0]));
            assert(s.contains(t[0]));
        }
        assert(s =~= t);
    } else {
        let a = s.last();
        assert(s[s.len() - 1] == a);
        assert(s.contains(a));
        assert(t.contains(a));
        let b = t.last();
        assert(t[t.len() - 1] == b);
        assert(t.contains(b));
        assert(s.contains(b));
        let i = choose|i: int| 0 <= i < t.len() && t[i] == a;
        let j = choose|j: int| 0 <= j < s.len() && s[j] == b;
        assert(a == b) by {
            if i < t.len() - 1 && j < s.len() - 1 {
                assert(order::key_before(order::text_key(t[i]), order::text_key(t[t.len() - 1])));
                assert(order::key_before(order::text_key(s[j]), order::text_key(s[s.len() - 1])));
                order::lemma_key_before_transitive(
                    order::text_key(a),
                    order::text_key(b),
                    order::text_key(a),
                );
                order::lemma_key_before_irreflexive(order::text_key(a));
            }
        }
        let (sf, tf) = (s.drop_last(), t.drop_last());
        assert forall|x: Seq<char>| #[trigger] sf.contains(x) <==> tf.contains(x) by {
            lemma_drop_last_contains(s, x);
            lemma_drop_last_contains(t, x);
            assert(s.contains(x) <==> t.contains(x));
        }
        lemma_strictly_ordered_unique(sf, tf);
        assert(s =~= sf.push(a));
        assert(t =~= tf.push(a));
    }
}

proof fn lemma_drop_last_contains(s: Seq<Seq<char>>, x: Seq<char>)
    requires
        strictly_ordered(s),
        s.len() > 0,
    ensures
        s.drop_last().contains(x) <==> s.contains(x) && x != s.last(),
{
    if s.drop_last().contains(x) {
        let i = choose|i: int| 0 <= i < s.drop_last().len() && s.drop_last()[i] == x;
        assert(s[i] == x);
        if x == s.last() {
            assert(order::key_before(order::text_key(s[i]), order::text_key(s[s.len() - 1])));
            order::lemma_key_before_irreflexive(order::text_key(x));
        }
    }
    if s.contains(x) && x != s.last() {
        let i = choose|i: int| 0 <= i < s.len() && s[i] == x;
        assert(s.drop_last()[i] == x);
    }
}

/// Lists of the same texts, in whatever order and however often, are one set.
pub proof fn law_text_set_ignores_order_and_repeats(list: Seq<Seq<char>>, other: Seq<Seq<char>>)
    ensures
        semantics::text_set(list) == semantics::text_set(other) <==> list.to_set()
            == other.to_set(),
{
    law_text_set_is_a_sorted_set(list);
    law_text_set_is_a_sorted_set(other);
    if list.to_set() == other.to_set() {
        let (s, t) = (semantics::text_set(list), semantics::text_set(other));
        assert forall|x: Seq<char>| #[trigger] s.contains(x) <==> t.contains(x) by {
            assert(s.to_set().contains(x) <==> t.to_set().contains(x));
        }
        lemma_strictly_ordered_unique(s, t);
    }
}

// ---- the fingerprint ----

proof fn lemma_in_sum<A>(a: Seq<A>, b: Seq<A>, x: A)
    ensures
        (a + b).contains(x) <==> a.contains(x) || b.contains(x),
{
    if (a + b).contains(x) {
        let i = choose|i: int| 0 <= i < (a + b).len() && (a + b)[i] == x;
        if i < a.len() {
            assert(a[i] == x);
        } else {
            assert(b[i - a.len()] == x);
        }
    }
    if a.contains(x) {
        let i = choose|i: int| 0 <= i < a.len() && a[i] == x;
        assert((a + b)[i] == x);
    }
    if b.contains(x) {
        let i = choose|i: int| 0 <= i < b.len() && b[i] == x;
        assert((a + b)[a.len() + i] == x);
    }
}

proof fn lemma_in_flag_if(
    set: bool,
    name: Seq<char>,
    value: Seq<u8>,
    x: (Seq<char>, Seq<u8>),
)
    ensures
        semantics::flag_if(set, name, value).contains(x) <==> set && x == (name, value),
{
    if set {
        assert(semantics::flag_if(set, name, value)[0] == (name, value));
    }
}

/// The flags of a configuration, one by one.
proof fn lemma_in_set_flags(r: RegistryModel, x: (Seq<char>, Seq<u8>))
    ensures
        semantics::set_flags(r).contains(x) <==> {
            ||| r.scl_enabled && x == ("scl_enabled"@, seq![bytes::bool_byte(r.scl_enabled)])
            ||| !r.bzl_visibility_enabled && x == (
                "bzl_visibility_enabled"@,
                seq![bytes::bool_byte(r.bzl_visibility_enabled)],
            )
            ||| !r.check_bzl_visibility && x == (
                "check_bzl_visibility"@,
                seq![bytes::bool_byte(r.check_bzl_visibility)],
            )
            ||| r.utf8_enforcement != Utf8Enforcement::Error && x == (
                "utf8_enforcement"@,
                seq![semantics::enforcement_code(r.utf8_enforcement)],
            )
            ||| r.type_options != semantics::no_type_options() && x == (
                "type_options"@,
                semantics::type_options_bytes(r.type_options),
            )
            ||| r.type_syntax_allowlist.len() > 0 && x == (
                "type_syntax_allowlist"@,
                bytes::texts_bytes(semantics::text_set(r.type_syntax_allowlist)),
            )
        },
{
    let f1 = semantics::flag_if(
        r.scl_enabled,
        "scl_enabled"@,
        seq![bytes::bool_byte(r.scl_enabled)],
    );
    let f2 = semantics::flag_if(
        !r.bzl_visibility_enabled,
        "bzl_visibility_enabled"@,
        seq![bytes::bool_byte(r.bzl_visibility_enabled)],
    );
    let f3 = semantics::flag_if(
        !r.check_bzl_visibility,
        "check_bzl_visibility"@,
        seq![bytes::bool_byte(r.check_bzl_visibility)],
    );
    let f4 = semantics::flag_if(
        r.utf8_enforcement != Utf8Enforcement::Error,
        "utf8_enforcement"@,
        seq![semantics::enforcement_code(r.utf8_enforcement)],
    );
    let f5 = semantics::flag_if(
        r.type_options != semantics::no_type_options(),
        "type_options"@,
        semantics::type_options_bytes(r.type_options),
    );
    let f6 = semantics::flag_if(
        r.type_syntax_allowlist.len() > 0,
        "type_syntax_allowlist"@,
        bytes::texts_bytes(semantics::text_set(r.type_syntax_allowlist)),
    );
    assert(semantics::set_flags(r) == f1 + f2 + f3 + f4 + f5 + f6);
    lemma_in_sum(f1, f2, x);
    lemma_in_sum(f1 + f2, f3, x);
    lemma_in_sum(f1 + f2 + f3, f4, x);
    lemma_in_sum(f1 + f2 + f3 + f4, f5, x);
    lemma_in_sum(f1 + f2 + f3 + f4 + f5, f6, x);
    lemma_in_flag_if(
        r.scl_enabled,
        "scl_enabled"@,
        seq![bytes::bool_byte(r.scl_enabled)],
        x,
    );
    lemma_in_flag_if(
        !r.bzl_visibility_enabled,
        "bzl_visibility_enabled"@,
        seq![bytes::bool_byte(r.bzl_visibility_enabled)],
        x,
    );
    lemma_in_flag_if(
        !r.check_bzl_visibility,
        "check_bzl_visibility"@,
        seq![bytes::bool_byte(r.check_bzl_visibility)],
        x,
    );
    lemma_in_flag_if(
        r.utf8_enforcement != Utf8Enforcement::Error,
        "utf8_enforcement"@,
        seq![semantics::enforcement_code(r.utf8_enforcement)],
        x,
    );
    lemma_in_flag_if(
        r.type_options != semantics::no_type_options(),
        "type_options"@,
        semantics::type_options_bytes(r.type_options),
        x,
    );
    lemma_in_flag_if(
        r.type_syntax_allowlist.len() > 0,
        "type_syntax_allowlist"@,
        bytes::texts_bytes(semantics::text_set(r.type_syntax_allowlist)),
        x,
    );
}

/// The names of the flags are short, and no two of them are equal.
proof fn lemma_flag_names()
    ensures
        "scl_enabled"@.len() == 11,
        "bzl_visibility_enabled"@.len() == 22,
        "check_bzl_visibility"@.len() == 20,
        "utf8_enforcement"@.len() == 16,
        "type_options"@.len() == 12,
        "type_syntax_allowlist"@.len() == 21,
        bytes::text_fits("scl_enabled"@),
        bytes::text_fits("bzl_visibility_enabled"@),
        bytes::text_fits("check_bzl_visibility"@),
        bytes::text_fits("utf8_enforcement"@),
        bytes::text_fits("type_options"@),
        bytes::text_fits("type_syntax_allowlist"@),
{
    reveal_strlit("scl_enabled");
    reveal_strlit("bzl_visibility_enabled");
    reveal_strlit("check_bzl_visibility");
    reveal_strlit("utf8_enforcement");
    reveal_strlit("type_options");
    reveal_strlit("type_syntax_allowlist");
    vstd::utf8::is_ascii_chars_encode_utf8("scl_enabled"@);
    vstd::utf8::is_ascii_chars_encode_utf8("bzl_visibility_enabled"@);
    vstd::utf8::is_ascii_chars_encode_utf8("check_bzl_visibility"@);
    vstd::utf8::is_ascii_chars_encode_utf8("utf8_enforcement"@);
    vstd::utf8::is_ascii_chars_encode_utf8("type_options"@);
    vstd::utf8::is_ascii_chars_encode_utf8("type_syntax_allowlist"@);
}

/// The flags that the fingerprint is taken of, in sorted order.
spec fn sorted_flags(r: RegistryModel) -> Seq<(Seq<char>, Seq<u8>)> {
    order::sorted_by(semantics::set_flags(r), encoding::by_name())
}

proof fn lemma_sorted_flags(r: RegistryModel)
    requires
        semantics::flags_fit(r),
    ensures
        forall|x: (Seq<char>, Seq<u8>)| #[trigger]
            sorted_flags(r).contains(x) <==> semantics::set_flags(r).contains(x),
        sorted_flags(r).len() <= 6,
        forall|i: int|
            0 <= i < sorted_flags(r).len() ==> bytes::text_fits((#[trigger] sorted_flags(r)[i]).0)
                && bytes::fits(sorted_flags(r)[i].1.len()),
{
    let flags = semantics::set_flags(r);
    let sorted = sorted_flags(r);
    order::law_sorting_orders_and_keeps_items(flags, encoding::by_name());
    sorted.to_multiset_ensures();
    flags.to_multiset_ensures();
    assert forall|x: (Seq<char>, Seq<u8>)| #[trigger] sorted.contains(x) <==> flags.contains(x) by {
        assert(sorted.contains(x) <==> sorted.to_multiset().count(x) > 0);
        assert(flags.contains(x) <==> flags.to_multiset().count(x) > 0);
    }
    assert forall|i: int| 0 <= i < sorted.len() implies bytes::text_fits((#[trigger] sorted[i]).0)
        && bytes::fits(sorted[i].1.len()) by {
        assert(sorted.contains(sorted[i]));
        lemma_in_set_flags(r, sorted[i]);
        lemma_flag_names();
    }
}

/// Flags behind their number are read back one by one.
proof fn lemma_flag_run_delimits(f: Seq<(Seq<char>, Seq<u8>)>, g: Seq<(Seq<char>, Seq<u8>)>)
    requires
        bytes::fits(f.len()),
        bytes::fits(g.len()),
        forall|i: int|
            0 <= i < f.len() ==> bytes::text_fits((#[trigger] f[i]).0) && bytes::fits(f[i].1.len()),
        forall|i: int|
            0 <= i < g.len() ==> bytes::text_fits((#[trigger] g[i]).0) && bytes::fits(g[i].1.len()),
        bytes::count_bytes(f.len()) + bytes::concat(f.map_values(semantics::flag_bytes()))
            == bytes::count_bytes(g.len()) + bytes::concat(g.map_values(semantics::flag_bytes())),
    ensures
        f == g,
{
    let (p, q) = (f.map_values(semantics::flag_bytes()), g.map_values(semantics::flag_bytes()));
    bytes::lemma_count_delimits(f.len(), g.len(), bytes::concat(p), bytes::concat(q));
    assert forall|i: int, u: Seq<u8>, w: Seq<u8>|
        0 <= i < p.len() && #[trigger] (p[i] + u) == #[trigger] (q[i] + w) implies f[i] == g[i]
        && p[i] == q[i] by {
        let (a, b) = (bytes::frame(f[i].1) + u, bytes::frame(g[i].1) + w);
        assert(p[i] + u =~= bytes::text_frame(f[i].0) + a);
        assert(q[i] + w =~= bytes::text_frame(g[i].0) + b);
        bytes::lemma_text_delimits(f[i].0, g[i].0, a, b);
        bytes::lemma_frame_delimits(f[i].1, g[i].1, u, w);
    }
    assert forall|i: int| 0 <= i < p.len() implies bytes::delimited(#[trigger] p[i], q[i]) by {
        assert forall|u: Seq<u8>, w: Seq<u8>| #[trigger]
            (p[i] + u) == #[trigger] (q[i] + w) implies p[i] == q[i] by {}
    }
    let none = Seq::<u8>::empty();
    assert(bytes::concat(p) + none == bytes::concat(q) + none);
    bytes::lemma_concat_delimits(p, q, none, none);
    assert forall|i: int| 0 <= i < f.len() implies f[i] == g[i] by {
        assert(p[i] + none == q[i] + none);
    }
    assert(f =~= g);
}

proof fn lemma_flags_delimit(r: RegistryModel, s: RegistryModel)
    requires
        semantics::flags_fit(r),
        semantics::flags_fit(s),
        semantics::flags_preimage(r) == semantics::flags_preimage(s),
    ensures
        sorted_flags(r) == sorted_flags(s),
{
    let (f, g) = (sorted_flags(r), sorted_flags(s));
    lemma_sorted_flags(r);
    lemma_sorted_flags(s);
    bytes::lemma_same_split(
        semantics::semantics_domain(),
        semantics::semantics_domain(),
        bytes::count_bytes(f.len()) + bytes::concat(f.map_values(semantics::flag_bytes())),
        bytes::count_bytes(g.len()) + bytes::concat(g.map_values(semantics::flag_bytes())),
    );
    lemma_flag_run_delimits(f, g);
}

/// Two configurations mean the same: no flag differs, and the allowlists are one set.
pub open spec fn same_meaning(r: RegistryModel, s: RegistryModel) -> bool {
    &&& r.scl_enabled == s.scl_enabled
    &&& r.bzl_visibility_enabled == s.bzl_visibility_enabled
    &&& r.check_bzl_visibility == s.check_bzl_visibility
    &&& r.utf8_enforcement == s.utf8_enforcement
    &&& r.type_options == s.type_options
    &&& r.type_syntax_allowlist.to_set() == s.type_syntax_allowlist.to_set()
}

/// If every flag of `r` that is not at its default is a flag of `s`, with the same value, then the two agree
/// in each of them.
proof fn lemma_flags_carry_over(r: RegistryModel, s: RegistryModel)
    requires
        semantics::flags_fit(r),
        semantics::flags_fit(s),
        forall|x: (Seq<char>, Seq<u8>)| #[trigger]
            semantics::set_flags(r).contains(x) ==> semantics::set_flags(s).contains(x),
    ensures
        r.scl_enabled ==> s.scl_enabled,
        !r.bzl_visibility_enabled ==> !s.bzl_visibility_enabled,
        !r.check_bzl_visibility ==> !s.check_bzl_visibility,
        r.utf8_enforcement != Utf8Enforcement::Error ==> s.utf8_enforcement == r.utf8_enforcement,
        r.type_options != semantics::no_type_options() ==> s.type_options == r.type_options,
        r.type_syntax_allowlist.len() > 0 ==> s.type_syntax_allowlist.len() > 0
            && semantics::text_set(r.type_syntax_allowlist) == semantics::text_set(
            s.type_syntax_allowlist,
        ),
{
    lemma_flag_names();
    let x1 = ("scl_enabled"@, seq![bytes::bool_byte(r.scl_enabled)]);
    let x2 = ("bzl_visibility_enabled"@, seq![bytes::bool_byte(r.bzl_visibility_enabled)]);
    let x3 = ("check_bzl_visibility"@, seq![bytes::bool_byte(r.check_bzl_visibility)]);
    let x4 = ("utf8_enforcement"@, seq![semantics::enforcement_code(r.utf8_enforcement)]);
    let x5 = ("type_options"@, semantics::type_options_bytes(r.type_options));
    let x6 = (
        "type_syntax_allowlist"@,
        bytes::texts_bytes(semantics::text_set(r.type_syntax_allowlist)),
    );
    lemma_in_set_flags(r, x1);
    lemma_in_set_flags(s, x1);
    lemma_in_set_flags(r, x2);
    lemma_in_set_flags(s, x2);
    lemma_in_set_flags(r, x3);
    lemma_in_set_flags(s, x3);
    lemma_in_set_flags(r, x4);
    lemma_in_set_flags(s, x4);
    lemma_in_set_flags(r, x5);
    lemma_in_set_flags(s, x5);
    lemma_in_set_flags(r, x6);
    lemma_in_set_flags(s, x6);
    assert(semantics::set_flags(r).contains(x1) ==> semantics::set_flags(s).contains(x1));
    assert(semantics::set_flags(r).contains(x2) ==> semantics::set_flags(s).contains(x2));
    assert(semantics::set_flags(r).contains(x3) ==> semantics::set_flags(s).contains(x3));
    if r.utf8_enforcement != Utf8Enforcement::Error {
        assert(semantics::set_flags(s).contains(x4));
        assert(seq![semantics::enforcement_code(r.utf8_enforcement)][0]
            == seq![semantics::enforcement_code(s.utf8_enforcement)][0]);
    }
    if r.type_options != semantics::no_type_options() {
        assert(semantics::set_flags(s).contains(x5));
        semantics::law_type_options_are_told_apart(r.type_options, s.type_options);
    }
    if r.type_syntax_allowlist.len() > 0 {
        assert(semantics::set_flags(s).contains(x6));
        let (a, b) = (
            semantics::text_set(r.type_syntax_allowlist),
            semantics::text_set(s.type_syntax_allowlist),
        );
        let none = Seq::<u8>::empty();
        assert(bytes::texts_bytes(a) + none == bytes::texts_bytes(b) + none);
        bytes::lemma_texts_delimit(a, b, none, none);
    }
}

/// Configurations of one meaning have the same flags off their defaults, with the same values.
proof fn lemma_same_meaning_same_flags(r: RegistryModel, s: RegistryModel)
    requires
        same_meaning(r, s),
    ensures
        semantics::set_flags(r) == semantics::set_flags(s),
{
    let (a, b) = (r.type_syntax_allowlist, s.type_syntax_allowlist);
    law_text_set_ignores_order_and_repeats(a, b);
    assert(a.len() > 0 <==> b.len() > 0) by {
        if a.len() > 0 {
            assert(a.to_set().contains(a[0]));
            assert(b.to_set().contains(a[0]));
        }
        if b.len() > 0 {
            assert(b.to_set().contains(b[0]));
            assert(a.to_set().contains(b[0]));
        }
    }
}

/// The bytes that a fingerprint is taken of tell apart exactly the configurations that differ in meaning:
/// no order, no repeat and no flag at its default shows in them, and every other difference does.
pub proof fn law_fingerprint_is_taken_of_the_meaning(r: RegistryModel, s: RegistryModel)
    requires
        semantics::flags_fit(r),
        semantics::flags_fit(s),
    ensures
        semantics::flags_preimage(r) == semantics::flags_preimage(s) <==> same_meaning(r, s),
{
    let (a, b) = (r.type_syntax_allowlist, s.type_syntax_allowlist);
    law_text_set_ignores_order_and_repeats(a, b);
    if semantics::flags_preimage(r) == semantics::flags_preimage(s) {
        lemma_flags_delimit(r, s);
        lemma_sorted_flags(r);
        lemma_sorted_flags(s);
        assert forall|x: (Seq<char>, Seq<u8>)| #[trigger]
            semantics::set_flags(r).contains(x) <==> semantics::set_flags(s).contains(x) by {
            assert(sorted_flags(r).contains(x) <==> sorted_flags(s).contains(x));
        }
        lemma_flags_carry_over(r, s);
        lemma_flags_carry_over(s, r);
        if a.len() == 0 {
            assert(a =~= b);
        }
    }
    if same_meaning(r, s) {
        lemma_same_meaning_same_flags(r, s);
    }
}

/// The bytes that a fingerprint is taken of are the same exactly when every flag is, and the allowlists hold
/// the same texts.
pub proof fn law_fingerprint_tells_every_flag_apart(r: RegistryModel, s: RegistryModel)
    requires
        semantics::flags_fit(r),
        semantics::flags_fit(s),
    ensures
        semantics::flags_preimage(r) == semantics::flags_preimage(s) <==> {
            &&& r.scl_enabled == s.scl_enabled
            &&& r.bzl_visibility_enabled == s.bzl_visibility_enabled
            &&& r.check_bzl_visibility == s.check_bzl_visibility
            &&& r.utf8_enforcement == s.utf8_enforcement
            &&& r.type_options == s.type_options
            &&& r.type_syntax_allowlist.to_set() == s.type_syntax_allowlist.to_set()
        },
{
    law_fingerprint_is_taken_of_the_meaning(r, s);
}

/// The defaults of the flags.
pub proof fn law_default_flags()
    ensures
        !semantics::default_flags().scl_enabled,
        semantics::default_flags().bzl_visibility_enabled,
        semantics::default_flags().check_bzl_visibility,
        semantics::default_flags().utf8_enforcement == Utf8Enforcement::Error,
        !semantics::default_flags().type_options.use_type_syntax,
        !semantics::default_flags().type_options.static_checks,
        !semantics::default_flags().type_options.dynamic_checks,
        semantics::default_flags().type_syntax_allowlist.len() == 0,
        semantics::no_type_options() == semantics::default_flags().type_options,
{
}

/// The code of each enforcement mode, and the three bytes of type options.
pub proof fn law_flag_codes(o: TypeOptions)
    ensures
        semantics::enforcement_code(Utf8Enforcement::Off) == 0,
        semantics::enforcement_code(Utf8Enforcement::Warning) == 1,
        semantics::enforcement_code(Utf8Enforcement::Error) == 2,
        semantics::type_options_bytes(o).len() == 3,
        semantics::type_options_bytes(o)[0] == if o.use_type_syntax {
            1u8
        } else {
            0u8
        },
        semantics::type_options_bytes(o)[1] == if o.static_checks {
            1u8
        } else {
            0u8
        },
        semantics::type_options_bytes(o)[2] == if o.dynamic_checks {
            1u8
        } else {
            0u8
        },
{
}

/// The flags that are not at their defaults, each once and with its value in bytes.
pub proof fn law_flags_off_their_defaults(r: RegistryModel, x: (Seq<char>, Seq<u8>))
    ensures
        semantics::set_flags(r).contains(x) <==> {
            ||| r.scl_enabled && x == ("scl_enabled"@, seq![1u8])
            ||| !r.bzl_visibility_enabled && x == ("bzl_visibility_enabled"@, seq![0u8])
            ||| !r.check_bzl_visibility && x == ("check_bzl_visibility"@, seq![0u8])
            ||| r.utf8_enforcement == Utf8Enforcement::Off && x == ("utf8_enforcement"@, seq![0u8])
            ||| r.utf8_enforcement == Utf8Enforcement::Warning && x == (
                "utf8_enforcement"@,
                seq![1u8],
            )
            ||| (r.type_options.use_type_syntax || r.type_options.static_checks
                || r.type_options.dynamic_checks) && x == (
                "type_options"@,
                semantics::type_options_bytes(r.type_options),
            )
            ||| r.type_syntax_allowlist.len() > 0 && x == (
                "type_syntax_allowlist"@,
                bytes::texts_bytes(semantics::text_set(r.type_syntax_allowlist)),
            )
        },
        semantics::set_flags(r).no_duplicates(),
{
    lemma_in_set_flags(r, x);
    lemma_flag_names();
}

/// What a fingerprint is taken of, byte by byte: the domain, the number of the flags that are not at their
/// defaults, and of each, sorted by name, the frames of its name and of its value.
pub proof fn law_fingerprint_is_taken_of_these_bytes(r: RegistryModel, f: (Seq<char>, Seq<u8>))
    ensures
        semantics::flags_fingerprint(r) == digest::digest(semantics::flags_preimage(r)),
        semantics::flags_preimage(r) == vstd::utf8::encode_utf8("razel:starlark-semantics:v1"@)
            + bytes::count_bytes(semantics::set_flags(r).len()) + bytes::concat(
            order::sorted_by(semantics::set_flags(r), encoding::by_name()).map_values(
                |f: (Seq<char>, Seq<u8>)| bytes::text_frame(f.0) + bytes::frame(f.1),
            ),
        ),
        encoding::by_name()(f) == seq![vstd::utf8::encode_utf8(f.0)],
{
    broadcast use bytes::lemma_join;

    let sorted = sorted_flags(r);
    order::law_sorting_orders_and_keeps_items(
        semantics::set_flags(r),
        encoding::by_name::<Seq<u8>>(),
    );
    assert(sorted.map_values(semantics::flag_bytes()) =~= sorted.map_values(
        |f: (Seq<char>, Seq<u8>)| bytes::text_frame(f.0) + bytes::frame(f.1),
    ));
}

/// The first semantics is the digest of the domain and a count of no flags.
pub proof fn law_first_semantics_is_that_of_no_flags()
    ensures
        semantics::first_semantics() == digest::digest(
            vstd::utf8::encode_utf8("razel:starlark-semantics:v1"@) + bytes::count_bytes(0),
        ),
{
    let d = semantics::default_flags();
    let none = Seq::<(Seq<char>, Seq<u8>)>::empty();
    assert(semantics::set_flags(d) =~= none);
    assert(order::sorted_by(none, encoding::by_name::<Seq<u8>>()) == none);
    assert(none.map_values(semantics::flag_bytes()) =~= Seq::<Seq<u8>>::empty());
    assert(semantics::flags_preimage(d) =~= semantics::semantics_domain() + bytes::count_bytes(0));
}

/// The allowlist is taken as a set: its texts, each once, in the byte order of their UTF-8 forms.
pub proof fn law_allowlist_is_in_byte_order(list: Seq<Seq<char>>, i: int, j: int)
    requires
        0 <= i < j < semantics::text_set(list).len(),
    ensures
        order::bytes_before(
            vstd::utf8::encode_utf8(semantics::text_set(list)[i]),
            vstd::utf8::encode_utf8(semantics::text_set(list)[j]),
        ),
        semantics::text_set(list)[i] != semantics::text_set(list)[j],
{
    law_text_set_is_a_sorted_set(list);
    let (a, b) = (semantics::text_set(list)[i], semantics::text_set(list)[j]);
    assert(order::key_before(order::text_key(a), order::text_key(b)));
    order::law_texts_are_in_byte_order(a, b);
    order::lemma_bytes_before_irreflexive(vstd::utf8::encode_utf8(a));
}

/// Configurations of one meaning have one fingerprint.
pub proof fn law_fingerprint_ignores_all_but_the_meaning(r: RegistryModel, s: RegistryModel)
    requires
        same_meaning(r, s),
    ensures
        semantics::flags_fingerprint(r) == semantics::flags_fingerprint(s),
{
    lemma_same_meaning_same_flags(r, s);
}

} // verus!
