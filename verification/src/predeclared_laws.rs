//! What holds of the identity of an environment, and of the injection of definitions into one.

use vstd::prelude::*;
use crate::bytes;
use crate::digest;
use crate::digest_laws;
use crate::encoding;
use crate::env;
use crate::env::EnvTag;
use crate::model::{EntryModel, RegistryModel};
use crate::order;
use crate::predeclared;
use crate::predeclared::EnvEntry;
use crate::semantics;

verus! {

// ---- the identity ----

/// The sort key of an entry determines it.
proof fn lemma_entry_key_injective(a: EntryModel, b: EntryModel)
    requires
        predeclared::entry_key(a) == predeclared::entry_key(b),
    ensures
        a == b,
{
    let (p, q) = (predeclared::entry_key(a), predeclared::entry_key(b));
    assert(p[0] == q[0] && p[1] == q[1] && p[2] == q[2]);
    bytes::lemma_utf8_injective(a.name, b.name);
    bytes::lemma_utf8_injective(a.identity, b.identity);
    bytes::lemma_utf8_injective(a.version, b.version);
}

/// The order in which the entries of an environment are given does not count: the identity is taken of the
/// same bytes.
pub proof fn law_entry_order_is_no_content(
    tag: EnvTag,
    entries: Seq<EntryModel>,
    others: Seq<EntryModel>,
    injected: Option<Seq<u8>>,
)
    requires
        entries.to_multiset() == others.to_multiset(),
    ensures
        predeclared::env_preimage(tag, entries, injected) == predeclared::env_preimage(
            tag,
            others,
            injected,
        ),
{
    let key = predeclared::by_entry();
    assert forall|i: int, j: int|
        0 <= i < entries.len() && 0 <= j < entries.len() && key(#[trigger] entries[i]) == key(
            #[trigger] entries[j],
        ) implies entries[i] == entries[j] by {
        lemma_entry_key_injective(entries[i], entries[j]);
    }
    order::law_sorting_ignores_the_given_order(entries, others, key);
}

/// Only the environment of `.bzl` files that are loaded for a BUILD file takes in the injected definitions:
/// a change of them leaves every other identity as it is.
pub proof fn law_other_environments_ignore_injected_definitions(
    tag: EnvTag,
    entries: Seq<EntryModel>,
    injected: Option<Seq<u8>>,
    changed: Option<Seq<u8>>,
)
    requires
        tag != EnvTag::EnvBuildBzl,
    ensures
        predeclared::env_preimage(tag, entries, injected) == predeclared::env_preimage(
            tag,
            entries,
            changed,
        ),
{
}

/// What the identity of an environment is taken of, byte by byte: the domain, the environment's code, the
/// number of all the entries, of each entry in sorted order the frames of its name, its identity and its
/// version, and, in the environment of `.bzl` files that are loaded for a BUILD file alone, a mark and the
/// digest of the injected definitions.
pub proof fn law_identity_is_taken_of_these_bytes(
    tag: EnvTag,
    entries: Seq<EntryModel>,
    injected: Option<Seq<u8>>,
)
    ensures
        predeclared::env_preimage(tag, entries, injected) == vstd::utf8::encode_utf8(
            "razel:predeclared-env:v1"@,
        ).push(env::tag_code(tag)) + bytes::count_bytes(entries.len()) + bytes::concat(
            order::sorted_by(entries, predeclared::by_entry()).map_values(
                |e: EntryModel|
                    bytes::text_frame(e.name) + bytes::text_frame(e.identity) + bytes::text_frame(
                        e.version,
                    ),
            ),
        ) + (match (tag, injected) {
            (EnvTag::EnvBuildBzl, None) => seq![0u8],
            (EnvTag::EnvBuildBzl, Some(d)) => seq![1u8] + d,
            _ => seq![],
        }),
{
    broadcast use bytes::lemma_join;

    let sorted = order::sorted_by(entries, predeclared::by_entry());
    let f = |e: EntryModel|
        bytes::text_frame(e.name) + bytes::text_frame(e.identity) + bytes::text_frame(e.version);
    order::law_sorting_orders_and_keeps_items(entries, predeclared::by_entry());
    assert forall|i: int| 0 <= i < sorted.len() implies #[trigger] sorted.map_values(
        predeclared::entry_bytes(),
    )[i] == sorted.map_values(f)[i] by {}
    assert(sorted.map_values(predeclared::entry_bytes()) =~= sorted.map_values(f));
    let d = predeclared::env_domain();
    assert(d.push(env::tag_code(tag)) =~= d + seq![env::tag_code(tag)]);
}

/// Entries are sorted by name, then by identity, then by version, each in the byte order of its UTF-8 form.
pub proof fn law_entries_are_sorted_by_their_members(e: EntryModel)
    ensures
        predeclared::by_entry()(e) == seq![
            vstd::utf8::encode_utf8(e.name),
            vstd::utf8::encode_utf8(e.identity),
            vstd::utf8::encode_utf8(e.version),
        ],
{
}

/// The entries that a list of entries is are those of the list, one by one and with all their members.
pub proof fn law_entries_are_the_list(list: Seq<EnvEntry>)
    ensures
        predeclared::entries_of(list).len() == list.len(),
        forall|i: int|
            0 <= i < list.len() ==> (#[trigger] predeclared::entries_of(list)[i]).name
                == list[i].name@ && predeclared::entries_of(list)[i].identity == list[i].identity@
                && predeclared::entries_of(list)[i].version == list[i].version@,
{
}

/// A byte that changes in the digest of the injected definitions changes the identity of the environment that
/// takes them in.
pub proof fn law_injected_definitions_show_in_the_identity(
    entries: Seq<EntryModel>,
    injected: Seq<u8>,
    changed: Seq<u8>,
    i: int,
)
    requires
        injected.len() == changed.len(),
        0 <= i < injected.len(),
        injected[i] != changed[i],
        forall|j: int| 0 <= j < injected.len() && j != i ==> injected[j] == changed[j],
    ensures
        digest::digest(
            predeclared::env_preimage(EnvTag::EnvBuildBzl, entries, Some(injected)),
        ) != digest::digest(
            predeclared::env_preimage(EnvTag::EnvBuildBzl, entries, Some(changed)),
        ),
{
    let p = predeclared::env_preimage(EnvTag::EnvBuildBzl, entries, Some(injected));
    let q = predeclared::env_preimage(EnvTag::EnvBuildBzl, entries, Some(changed));
    let at = p.len() - injected.len();
    law_identity_is_taken_of_these_bytes(EnvTag::EnvBuildBzl, entries, Some(injected));
    law_identity_is_taken_of_these_bytes(EnvTag::EnvBuildBzl, entries, Some(changed));
    let front = p.take(at);
    assert(p =~= front + injected);
    assert(q =~= front + changed);
    digest_laws::law_every_byte_counts(p, q, at + i);
}

/// Which environment it is shows in the identity: the same entries in different environments, with the same
/// injected definitions or none, have different identities, unless one of the two takes the definitions in.
pub proof fn law_environments_show_in_the_identity(
    tag: EnvTag,
    other: EnvTag,
    entries: Seq<EntryModel>,
    injected: Option<Seq<u8>>,
)
    requires
        tag != other,
        tag != EnvTag::EnvBuildBzl,
        other != EnvTag::EnvBuildBzl,
    ensures
        digest::digest(predeclared::env_preimage(tag, entries, injected)) != digest::digest(
            predeclared::env_preimage(other, entries, injected),
        ),
{
    let p = predeclared::env_preimage(tag, entries, injected);
    let q = predeclared::env_preimage(other, entries, injected);
    let d = predeclared::env_domain();
    let at = d.len() as int;
    env::law_tag_codes_round_trip(tag, env::tag_code(tag));
    env::law_tag_codes_round_trip(other, env::tag_code(other));
    law_identity_is_taken_of_these_bytes(tag, entries, injected);
    law_identity_is_taken_of_these_bytes(other, entries, injected);
    let back = p.skip(at + 1);
    assert(p =~= d.push(env::tag_code(tag)) + back);
    assert(q =~= d.push(env::tag_code(other)) + back);
    digest_laws::law_every_byte_counts(p, q, at);
}

proof fn lemma_entry_run_delimits(
    a: Seq<EntryModel>,
    b: Seq<EntryModel>,
    x: Seq<u8>,
    y: Seq<u8>,
)
    requires
        predeclared::entries_fit(a),
        predeclared::entries_fit(b),
        bytes::count_bytes(a.len()) + (bytes::concat(a.map_values(predeclared::entry_bytes())) + x)
            == bytes::count_bytes(b.len()) + (bytes::concat(
            b.map_values(predeclared::entry_bytes()),
        ) + y),
    ensures
        a == b,
        x == y,
{
    let (p, q) = (
        a.map_values(predeclared::entry_bytes()),
        b.map_values(predeclared::entry_bytes()),
    );
    bytes::lemma_count_delimits(a.len(), b.len(), bytes::concat(p) + x, bytes::concat(q) + y);
    assert forall|i: int, u: Seq<u8>, w: Seq<u8>|
        0 <= i < p.len() && #[trigger] (p[i] + u) == #[trigger] (q[i] + w) implies a[i] == b[i]
        && p[i] == q[i] by {
        let (c, d) = (a[i], b[i]);
        assert(predeclared::entry_fits(c) && predeclared::entry_fits(d));
        broadcast use bytes::lemma_join;

        let (c2, d2) = (bytes::text_frame(c.version) + u, bytes::text_frame(d.version) + w);
        let (c1, d1) = (bytes::text_frame(c.identity) + c2, bytes::text_frame(d.identity) + d2);
        assert(p[i] + u == bytes::text_frame(c.name) + c1);
        assert(q[i] + w == bytes::text_frame(d.name) + d1);
        bytes::lemma_text_delimits(c.name, d.name, c1, d1);
        bytes::lemma_text_delimits(c.identity, d.identity, c2, d2);
        bytes::lemma_text_delimits(c.version, d.version, u, w);
    }
    assert forall|i: int| 0 <= i < p.len() implies bytes::delimited(#[trigger] p[i], q[i]) by {
        assert forall|u: Seq<u8>, w: Seq<u8>| #[trigger]
            (p[i] + u) == #[trigger] (q[i] + w) implies p[i] == q[i] by {}
    }
    bytes::lemma_concat_delimits(p, q, x, y);
    let none = Seq::<u8>::empty();
    assert forall|i: int| 0 <= i < a.len() implies a[i] == b[i] by {
        assert(p[i] + none == q[i] + none);
    }
    assert(a =~= b);
}

proof fn lemma_sorted_entries_fit(entries: Seq<EntryModel>)
    requires
        predeclared::entries_fit(entries),
    ensures
        predeclared::entries_fit(order::sorted_by(entries, predeclared::by_entry())),
{
    let sorted = order::sorted_by(entries, predeclared::by_entry());
    order::law_sorting_orders_and_keeps_items(entries, predeclared::by_entry());
    sorted.to_multiset_ensures();
    entries.to_multiset_ensures();
    assert forall|i: int| 0 <= i < sorted.len() implies predeclared::entry_fits(
        #[trigger] sorted[i],
    ) by {
        assert(sorted.to_multiset().count(sorted[i]) > 0);
        assert(entries.contains(sorted[i]));
        let j = choose|j: int| 0 <= j < entries.len() && entries[j] == sorted[i];
        assert(predeclared::entry_fits(entries[j]));
    }
}

/// The bytes that the identity of an environment is taken of tell apart exactly what makes it: which
/// environment it is, its entries in any order, and, where they are taken in, the injected definitions.
pub proof fn law_identity_is_taken_of_the_environment(
    tag: EnvTag,
    entries: Seq<EntryModel>,
    injected: Option<Seq<u8>>,
    tag2: EnvTag,
    entries2: Seq<EntryModel>,
    injected2: Option<Seq<u8>>,
)
    requires
        predeclared::entries_fit(entries),
        predeclared::entries_fit(entries2),
    ensures
        predeclared::env_preimage(tag, entries, injected) == predeclared::env_preimage(
            tag2,
            entries2,
            injected2,
        ) <==> {
            &&& tag == tag2
            &&& entries.to_multiset() == entries2.to_multiset()
            &&& tag == EnvTag::EnvBuildBzl ==> injected == injected2
        },
{
    let key = predeclared::by_entry();
    let (s, t) = (order::sorted_by(entries, key), order::sorted_by(entries2, key));
    let (x, y) = (
        predeclared::builtins_slot(tag, injected),
        predeclared::builtins_slot(tag2, injected2),
    );
    let p = predeclared::env_preimage(tag, entries, injected);
    let q = predeclared::env_preimage(tag2, entries2, injected2);
    if p == q {
        let d = predeclared::env_domain();
        let p2 = bytes::count_bytes(s.len()) + (bytes::concat(
            s.map_values(predeclared::entry_bytes()),
        ) + x);
        let q2 = bytes::count_bytes(t.len()) + (bytes::concat(
            t.map_values(predeclared::entry_bytes()),
        ) + y);
        let p1 = seq![env::tag_code(tag)] + p2;
        let q1 = seq![env::tag_code(tag2)] + q2;
        assert(p == d + p1 && q == d + q1);
        bytes::lemma_same_split(d, d, p1, q1);
        bytes::lemma_byte_delimits(env::tag_code(tag), env::tag_code(tag2), p2, q2);
        env::law_tag_codes_round_trip(tag, env::tag_code(tag));
        env::law_tag_codes_round_trip(tag2, env::tag_code(tag2));
        lemma_sorted_entries_fit(entries);
        lemma_sorted_entries_fit(entries2);
        lemma_entry_run_delimits(s, t, x, y);
        order::law_sorting_orders_and_keeps_items(entries, key);
        order::law_sorting_orders_and_keeps_items(entries2, key);
        if tag == EnvTag::EnvBuildBzl {
            assert(x[0] == y[0]);
            if injected is Some && injected2 is Some {
                bytes::lemma_byte_delimits(1, 1, injected->0, injected2->0);
            }
        }
    }
    if tag == tag2 && entries.to_multiset() == entries2.to_multiset() && (tag
        == EnvTag::EnvBuildBzl ==> injected == injected2) {
        law_entry_order_is_no_content(tag, entries, entries2, injected);
        if tag != EnvTag::EnvBuildBzl {
            law_other_environments_ignore_injected_definitions(
                tag,
                entries2,
                injected,
                injected2,
            );
        }
    }
}

proof fn lemma_env_domain()
    ensures
        predeclared::env_domain().len() == 24,
        predeclared::env_domain()[6] == 'p' as u8,
{
    reveal_strlit("razel:predeclared-env:v1");
    vstd::utf8::is_ascii_chars_encode_utf8("razel:predeclared-env:v1"@);
}

proof fn lemma_semantics_domain()
    ensures
        semantics::semantics_domain().len() == 27,
        semantics::semantics_domain()[6] == 's' as u8,
{
    reveal_strlit("razel:starlark-semantics:v1");
    vstd::utf8::is_ascii_chars_encode_utf8("razel:starlark-semantics:v1"@);
}

proof fn lemma_apart(a: Seq<u8>, b: Seq<u8>, x: Seq<u8>, y: Seq<u8>)
    requires
        a.len() > 6,
        b.len() > 6,
        a[6] != b[6],
    ensures
        a + x != b + y,
{
    assert((a + x)[6] == a[6]);
    assert((b + y)[6] == b[6]);
}

/// The bytes that identities of environments and fingerprints of configurations are taken of are never the
/// same.
pub proof fn law_domains_are_apart(
    tag: EnvTag,
    entries: Seq<EntryModel>,
    injected: Option<Seq<u8>>,
    flags: RegistryModel,
)
    ensures
        predeclared::env_preimage(tag, entries, injected) != semantics::flags_preimage(flags),
{
    lemma_env_domain();
    lemma_semantics_domain();
    let (d, e) = (predeclared::env_domain(), semantics::semantics_domain());
    let p = predeclared::env_preimage(tag, entries, injected);
    let q = semantics::flags_preimage(flags);
    let sorted = order::sorted_by(entries, predeclared::by_entry());
    let set = order::sorted_by(semantics::set_flags(flags), encoding::by_name());
    let x = seq![env::tag_code(tag)] + (bytes::count_bytes(sorted.len()) + (bytes::concat(
        sorted.map_values(predeclared::entry_bytes()),
    ) + predeclared::builtins_slot(tag, injected)));
    let y = bytes::count_bytes(set.len()) + bytes::concat(
        set.map_values(semantics::flag_bytes()),
    );
    lemma_apart(d, e, x, y);
}

// ---- injection ----

/// The names of a list of entries, in order.
pub open spec fn names(entries: Seq<EntryModel>) -> Seq<Seq<char>> {
    entries.map_values(|e: EntryModel| e.name)
}

/// A name is registered exactly when some entry has it: the name of every entry is.
pub proof fn law_registered_names_are_those_of_the_entries(
    entries: Seq<EntryModel>,
    name: Seq<char>,
    i: int,
)
    ensures
        0 <= i < entries.len() ==> predeclared::registers(entries, entries[i].name),
        predeclared::registers(entries, name) ==> exists|j: int|
            0 <= j < entries.len() && (#[trigger] entries[j]).name == name,
{
}

/// An override takes the place of the first entry of its name, if no later override has the name.
pub proof fn law_last_override_takes_the_first_place(
    registered: Seq<EntryModel>,
    overrides: Seq<EntryModel>,
    i: int,
    j: int,
)
    requires
        0 <= i < registered.len(),
        0 <= j < overrides.len(),
        registered[i].name == overrides[j].name,
        forall|k: int| 0 <= k < i ==> (#[trigger] registered[k]).name != registered[i].name,
        forall|k: int|
            j < k < overrides.len() ==> (#[trigger] overrides[k]).name != overrides[j].name,
    ensures
        predeclared::overridden(registered, overrides)[i] == overrides[j],
{
    lemma_last_named_at(overrides, overrides[j].name, j);
}

/// An entry stays as it is where no override has its name, or an entry in front of it has the name already;
/// and there are as many entries as before.
pub proof fn law_other_entries_stay(
    registered: Seq<EntryModel>,
    overrides: Seq<EntryModel>,
    i: int,
    k: int,
)
    requires
        0 <= i < registered.len(),
        0 <= k < i && registered[k].name == registered[i].name || forall|j: int|
            0 <= j < overrides.len() ==> (#[trigger] overrides[j]).name != registered[i].name,
    ensures
        predeclared::overridden(registered, overrides).len() == registered.len(),
        predeclared::overridden(registered, overrides)[i] == registered[i],
{
    predeclared::lemma_last_named(overrides, registered[i].name);
}

proof fn lemma_last_named_at(entries: Seq<EntryModel>, name: Seq<char>, j: int)
    requires
        0 <= j < entries.len(),
        entries[j].name == name,
        forall|k: int| j < k < entries.len() ==> (#[trigger] entries[k]).name != name,
    ensures
        predeclared::last_named(entries, name) == Some(entries[j]),
    decreases entries.len(),
{
    if j < entries.len() - 1 {
        let front = entries.drop_last();
        assert(entries[entries.len() - 1].name != name);
        assert forall|k: int| j < k < front.len() implies (#[trigger] front[k]).name != name by {
            assert(entries[k].name != name);
        }
        lemma_last_named_at(front, name, j);
    }
}

/// The override that is refused is the first one whose name no entry has: no entry has its name, and every
/// override in front of it has the name of some entry.
pub proof fn law_first_unregistered_override_is_refused(
    registered: Seq<EntryModel>,
    overrides: Seq<EntryModel>,
    j: int,
    i: int,
    k: int,
)
    requires
        predeclared::first_unregistered(registered, overrides, j),
    ensures
        0 <= j < overrides.len(),
        0 <= i < registered.len() ==> registered[i].name != overrides[j].name,
        0 <= k < j ==> exists|at: int|
            0 <= at < registered.len() && (#[trigger] registered[at]).name == overrides[k].name,
{
    if 0 <= k < j {
        assert(predeclared::registers(registered, overrides[k].name));
    }
}

/// No override is refused where each has the name of some entry.
pub proof fn law_overrides_of_registered_names_are_accepted(
    registered: Seq<EntryModel>,
    overrides: Seq<EntryModel>,
    places: Seq<int>,
    j: int,
)
    requires
        places.len() == overrides.len(),
        forall|k: int|
            0 <= k < overrides.len() ==> 0 <= #[trigger] places[k] < registered.len()
                && registered[places[k]].name == overrides[k].name,
    ensures
        !predeclared::first_unregistered(registered, overrides, j),
{
    if 0 <= j < overrides.len() {
        law_registered_names_are_those_of_the_entries(registered, overrides[j].name, places[j]);
    }
}

/// A refusal says which name is refused.
pub proof fn law_refusal_names_the_override(name: Seq<char>)
    ensures
        predeclared::refusal(name) == "cannot inject '"@ + name
            + "': builtins injection may only override a registered name, never add one"@,
{
}

/// An injection neither adds nor removes a name, and moves none.
pub proof fn law_injection_keeps_the_names(registered: Seq<EntryModel>, overrides: Seq<EntryModel>)
    ensures
        names(predeclared::overridden(registered, overrides)) == names(registered),
{
    let out = predeclared::overridden(registered, overrides);
    assert forall|i: int| 0 <= i < registered.len() implies (#[trigger] out[i]).name
        == registered[i].name by {
        predeclared::lemma_last_named(overrides, registered[i].name);
    }
    assert(names(out) =~= names(registered));
}

/// Injecting nothing changes nothing.
pub proof fn law_empty_injection_changes_nothing(registered: Seq<EntryModel>)
    ensures
        predeclared::overridden(registered, seq![]) == registered,
{
    assert(predeclared::overridden(registered, seq![]) =~= registered);
}

proof fn lemma_last_named_in_sum(a: Seq<EntryModel>, b: Seq<EntryModel>, name: Seq<char>)
    ensures
        predeclared::last_named(a + b, name) == match predeclared::last_named(b, name) {
            Some(e) => Some(e),
            None => predeclared::last_named(a, name),
        },
    decreases b.len(),
{
    if b.len() == 0 {
        assert(a + b =~= a);
    } else {
        assert((a + b).drop_last() =~= a + b.drop_last());
        assert((a + b).last() == b.last());
        lemma_last_named_in_sum(a, b.drop_last(), name);
    }
}

/// Injecting one list and then another comes to the same as injecting the two as one list.
pub proof fn law_injections_add_up(
    registered: Seq<EntryModel>,
    first: Seq<EntryModel>,
    second: Seq<EntryModel>,
)
    ensures
        predeclared::overridden(predeclared::overridden(registered, first), second)
            == predeclared::overridden(registered, first + second),
{
    let mid = predeclared::overridden(registered, first);
    law_injection_keeps_the_names(registered, first);
    assert forall|i: int| 0 <= i < registered.len() implies (#[trigger] mid[i]).name
        == registered[i].name by {
        assert(names(mid)[i] == names(registered)[i]);
    }
    assert forall|i: int| 0 <= i < registered.len() implies #[trigger] predeclared::overridden(
        mid,
        second,
    )[i] == predeclared::overridden(registered, first + second)[i] by {
        lemma_last_named_in_sum(first, second, registered[i].name);
        assert(predeclared::is_first(mid, i) == predeclared::is_first(registered, i)) by {
            if predeclared::is_first(mid, i) {
                assert forall|j: int| 0 <= j < i implies (#[trigger] registered[j]).name
                    != registered[i].name by {
                    assert(mid[j].name != mid[i].name);
                }
            }
            if predeclared::is_first(registered, i) {
                assert forall|j: int| 0 <= j < i implies (#[trigger] mid[j]).name
                    != mid[i].name by {
                    assert(registered[j].name != registered[i].name);
                }
            }
        }
    }
    assert(predeclared::overridden(mid, second) =~= predeclared::overridden(
        registered,
        first + second,
    ));
}

/// Two lists that agree on where `x` stands hold it equally often.
proof fn lemma_count_agrees(s: Seq<EntryModel>, t: Seq<EntryModel>, x: EntryModel)
    requires
        s.len() == t.len(),
        forall|j: int| 0 <= j < s.len() ==> ((#[trigger] s[j]) == x <==> t[j] == x),
    ensures
        s.to_multiset().count(x) == t.to_multiset().count(x),
    decreases s.len(),
{
    if s.len() == 0 {
        assert(s =~= t);
    } else {
        let (sf, tf) = (s.drop_last(), t.drop_last());
        assert forall|j: int| 0 <= j < sf.len() implies ((#[trigger] sf[j]) == x <==> tf[j]
            == x) by {
            assert(s[j] == x <==> t[j] == x);
        }
        lemma_count_agrees(sf, tf, x);
        assert(s =~= sf.push(s.last()));
        assert(t =~= tf.push(t.last()));
        assert(s[s.len() - 1] == x <==> t[s.len() - 1] == x);
        sf.to_multiset_ensures();
        tf.to_multiset_ensures();
    }
}

/// Two lists that agree on where `x` stands but for one place hold it unequally often.
proof fn lemma_count_differs(s: Seq<EntryModel>, t: Seq<EntryModel>, x: EntryModel, i: int)
    requires
        s.len() == t.len(),
        0 <= i < s.len(),
        s[i] == x,
        t[i] != x,
        forall|j: int| 0 <= j < s.len() && j != i ==> ((#[trigger] s[j]) == x <==> t[j] == x),
    ensures
        s.to_multiset().count(x) != t.to_multiset().count(x),
    decreases s.len(),
{
    let (sf, tf) = (s.drop_last(), t.drop_last());
    assert(s =~= sf.push(s.last()));
    assert(t =~= tf.push(t.last()));
    sf.to_multiset_ensures();
    tf.to_multiset_ensures();
    assert forall|j: int| 0 <= j < sf.len() && j != i implies ((#[trigger] sf[j]) == x <==> tf[j]
        == x) by {
        assert(s[j] == x <==> t[j] == x);
    }
    if i == s.len() - 1 {
        lemma_count_agrees(sf, tf, x);
    } else {
        assert(s[s.len() - 1] == x <==> t[s.len() - 1] == x);
        lemma_count_differs(sf, tf, x, i);
    }
}

/// An injection that changes an entry changes the identity of the environment: the identity is taken of
/// other bytes.
pub proof fn law_injection_shows_in_the_identity(
    tag: EnvTag,
    registered: Seq<EntryModel>,
    overrides: Seq<EntryModel>,
    injected: Option<Seq<u8>>,
)
    requires
        predeclared::entries_fit(registered),
        predeclared::entries_fit(overrides),
    ensures
        predeclared::env_preimage(tag, predeclared::overridden(registered, overrides), injected)
            == predeclared::env_preimage(tag, registered, injected) <==> predeclared::overridden(
            registered,
            overrides,
        ) == registered,
{
    let out = predeclared::overridden(registered, overrides);
    lemma_overridden_fit(registered, overrides);
    law_identity_is_taken_of_the_environment(tag, out, injected, tag, registered, injected);
    if out != registered {
        assert(!(out =~= registered));
        let i = choose|i: int| 0 <= i < registered.len() && out[i] != #[trigger] registered[i];
        let x = registered[i];
        assert(predeclared::is_first(registered, i));
        assert forall|j: int| 0 <= j < registered.len() && j != i implies (
        (#[trigger] registered[j]) == x <==> out[j] == x) by {
            predeclared::lemma_last_named(overrides, registered[j].name);
            if registered[j].name == x.name {
                if j < i {
                    assert(registered[j].name != registered[i].name);
                } else {
                    assert(!predeclared::is_first(registered, j)) by {
                        assert(registered[i].name == registered[j].name);
                    }
                }
            }
        }
        lemma_count_differs(registered, out, x, i);
    }
}

proof fn lemma_last_named_fits(entries: Seq<EntryModel>, name: Seq<char>)
    requires
        predeclared::entries_fit(entries),
    ensures
        predeclared::last_named(entries, name) matches Some(e) ==> predeclared::entry_fits(e),
    decreases entries.len(),
{
    if entries.len() > 0 {
        assert(predeclared::entry_fits(entries[entries.len() - 1]));
        lemma_last_named_fits(entries.drop_last(), name);
    }
}

proof fn lemma_overridden_fit(registered: Seq<EntryModel>, overrides: Seq<EntryModel>)
    requires
        predeclared::entries_fit(registered),
        predeclared::entries_fit(overrides),
    ensures
        predeclared::entries_fit(predeclared::overridden(registered, overrides)),
{
    let out = predeclared::overridden(registered, overrides);
    assert forall|i: int| 0 <= i < out.len() implies predeclared::entry_fits(#[trigger] out[i]) by {
        lemma_last_named_fits(overrides, registered[i].name);
        assert(predeclared::entry_fits(registered[i]));
    }
}

} // verus!
