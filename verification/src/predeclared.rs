//! The identity of a predeclared environment, and the injection of built-in definitions into one.

use vstd::prelude::*;
use crate::bytes;
use crate::bytes::{append_byte, append_bytes, append_count, framed_text};
use crate::digest;
use crate::digest::digest32;
use crate::env;
use crate::env::EnvTag;
use crate::model;
use crate::model::{EntryModel, ErrorModel};
use crate::order;
use crate::order::{sorted_positions, text_comes_before, Keyed};
use crate::seam::BzlError;
use crate::text::same_text;

verus! {

/// A name that an environment declares: the name, what serves it, and the version of what serves it. The
/// version changes when the behaviour does.
#[derive(PartialEq, Eq, Hash, PartialOrd, Ord, Debug)]
pub struct EnvEntry {
    pub name: String,
    pub identity: String,
    pub version: String,
}

impl View for EnvEntry {
    type V = EntryModel;

    open spec fn view(&self) -> EntryModel {
        EntryModel { name: self.name@, identity: self.identity@, version: self.version@ }
    }
}

impl Clone for EnvEntry {
    fn clone(&self) -> (r: Self)
        ensures
            r@ == self@,
    {
        EnvEntry {
            name: self.name.clone(),
            identity: self.identity.clone(),
            version: self.version.clone(),
        }
    }
}

/// The entries that a list of entries is.
pub open spec fn entries_of(list: Seq<EnvEntry>) -> Seq<EntryModel> {
    list.map_values(|e: EnvEntry| e@)
}

/// The sort key of an entry: the name counts most, and the version least.
pub open spec fn entry_key(e: EntryModel) -> order::Key {
    seq![
        vstd::utf8::encode_utf8(e.name),
        vstd::utf8::encode_utf8(e.identity),
        vstd::utf8::encode_utf8(e.version),
    ]
}

/// The sort key of an entry, as a function.
pub open spec fn by_entry() -> spec_fn(EntryModel) -> order::Key {
    |e: EntryModel| entry_key(e)
}

impl Keyed for EnvEntry {
    open spec fn key(&self) -> order::Key {
        entry_key(self@)
    }

    fn comes_before(&self, other: &Self) -> (r: bool) {
        proof {
            lemma_entry_order(self@, other@);
        }
        if !same_text(self.name.as_str(), other.name.as_str()) {
            text_comes_before(self.name.as_str(), other.name.as_str())
        } else if !same_text(self.identity.as_str(), other.identity.as_str()) {
            text_comes_before(self.identity.as_str(), other.identity.as_str())
        } else {
            text_comes_before(self.version.as_str(), other.version.as_str())
        }
    }
}

/// Entries are in the order of their first members that differ.
proof fn lemma_entry_order(a: EntryModel, b: EntryModel)
    ensures
        order::key_before(entry_key(a), entry_key(b)) == if a.name != b.name {
            order::key_before(order::text_key(a.name), order::text_key(b.name))
        } else if a.identity != b.identity {
            order::key_before(order::text_key(a.identity), order::text_key(b.identity))
        } else {
            order::key_before(order::text_key(a.version), order::text_key(b.version))
        },
{
    let (p, q) = (entry_key(a), entry_key(b));
    let (p1, q1) = (p.drop_first(), q.drop_first());
    let (p2, q2) = (p1.drop_first(), q1.drop_first());
    assert(p2.drop_first() =~= q2.drop_first());
    order::lemma_key_before_irreflexive(p2.drop_first());
    order::lemma_text_key_before(a.name, b.name);
    order::lemma_text_key_before(a.identity, b.identity);
    order::lemma_text_key_before(a.version, b.version);
    order::lemma_bytes_before_irreflexive(p[2]);
    if p[0] == q[0] {
        bytes::lemma_utf8_injective(a.name, b.name);
    }
    if p[1] == q[1] {
        bytes::lemma_utf8_injective(a.identity, b.identity);
    }
    assert(order::key_before(p, q) == if p[0] != q[0] {
        order::bytes_before(p[0], q[0])
    } else {
        order::key_before(p1, q1)
    });
    assert(order::key_before(p1, q1) == if p[1] != q[1] {
        order::bytes_before(p[1], q[1])
    } else {
        order::key_before(p2, q2)
    });
    assert(order::key_before(p2, q2) == if p[2] != q[2] {
        order::bytes_before(p[2], q[2])
    } else {
        order::key_before(p2.drop_first(), q2.drop_first())
    });
}

/// The digest of the built-in definitions that are injected into an environment.
#[derive(Clone, Copy, PartialEq, Eq, Hash, PartialOrd, Ord, Debug)]
pub struct BuiltinsDigest(pub [u8; 32]);

impl View for BuiltinsDigest {
    type V = Seq<u8>;

    open spec fn view(&self) -> Seq<u8> {
        self.0@
    }
}

/// The identity of a predeclared environment.
#[derive(Clone, Copy, PartialEq, Eq, Hash, PartialOrd, Ord, Debug)]
pub struct PredeclaredEnvId(pub [u8; 32]);

impl View for PredeclaredEnvId {
    type V = Seq<u8>;

    open spec fn view(&self) -> Seq<u8> {
        self.0@
    }
}

// ---- the identity of an environment ----

/// What sets the digests of environments apart from all others.
pub open spec fn env_domain() -> Seq<u8> {
    vstd::utf8::encode_utf8("razel:predeclared-env:v1"@)
}

/// The bytes of an entry: its three members, each in a frame.
pub open spec fn entry_bytes() -> spec_fn(EntryModel) -> Seq<u8> {
    |e: EntryModel|
        bytes::text_frame(e.name) + (bytes::text_frame(e.identity) + bytes::text_frame(e.version))
}

/// What the injected definitions contribute: only the environment of `.bzl` files that are loaded for a
/// BUILD file takes them in, as `0` when there are none, else as `1` and their digest.
pub open spec fn builtins_slot(tag: EnvTag, injected: Option<Seq<u8>>) -> Seq<u8> {
    if tag == EnvTag::EnvBuildBzl {
        match injected {
            None => seq![0u8],
            Some(d) => seq![1u8] + d,
        }
    } else {
        seq![]
    }
}

/// What the identity of an environment is taken of: the environment's code, its entries in sorted order, and
/// the injected definitions.
pub open spec fn env_preimage(
    tag: EnvTag,
    entries: Seq<EntryModel>,
    injected: Option<Seq<u8>>,
) -> Seq<u8> {
    let sorted = order::sorted_by(entries, by_entry());
    env_domain() + (seq![env::tag_code(tag)] + (bytes::count_bytes(sorted.len()) + (bytes::concat(
        sorted.map_values(entry_bytes()),
    ) + builtins_slot(tag, injected))))
}

/// Every member of the entry fits into a frame.
pub open spec fn entry_fits(e: EntryModel) -> bool {
    &&& bytes::text_fits(e.name)
    &&& bytes::text_fits(e.identity)
    &&& bytes::text_fits(e.version)
}

/// Entries that memory can hold.
pub open spec fn entries_fit(entries: Seq<EntryModel>) -> bool {
    &&& bytes::fits(entries.len())
    &&& forall|i: int| 0 <= i < entries.len() ==> entry_fits(#[trigger] entries[i])
}

/// Writes an entry: its three members, each in a frame.
fn encode_entry(e: &EnvEntry, b: &mut Vec<u8>)
    ensures
        final(b)@ == old(b)@ + entry_bytes()(e@),
        entry_fits(e@),
{
    broadcast use bytes::lemma_join;

    framed_text(b, e.name.as_str());
    framed_text(b, e.identity.as_str());
    framed_text(b, e.version.as_str());
}

/// Writes entries in sorted order.
fn encode_sorted_entries(entries: &[EnvEntry], b: &mut Vec<u8>)
    ensures
        final(b)@ == old(b)@ + bytes::concat(
            order::sorted_by(entries_of(entries@), by_entry()).map_values(entry_bytes()),
        ),
        entries_fit(entries_of(entries@)),
{
    let n: usize = entries.len();
    let positions = sorted_positions(entries);
    let ghost b0 = b@;
    let ghost models = entries_of(entries@);
    let ghost sorted = order::sorted_by(models, by_entry());
    let ghost parts = sorted.map_values(entry_bytes());
    proof {
        let f = |e: EnvEntry| e@;
        order::lemma_sorted_by_map(entries@, f, order::key_of::<EnvEntry>(), by_entry());
        assert(sorted == order::picked(entries@, positions@).map_values(f));
        bytes::lemma_concat_ends(b0, parts);
    }
    for k in 0..n
        invariant
            n == entries@.len(),
            positions@.len() == n,
            sorted.len() == n,
            models == entries_of(entries@),
            parts == sorted.map_values(entry_bytes()),
            forall|i: int| 0 <= i < n ==> #[trigger] positions@[i] < n,
            forall|i: int| 0 <= i < n ==> #[trigger] sorted[i] == entries@[positions@[i] as int]@,
            b@ == b0 + bytes::concat(parts.take(k as int)),
            forall|i: int| 0 <= i < k ==> entry_fits(models[#[trigger] positions@[i] as int]),
    {
        let at: usize = positions[k];
        encode_entry(&entries[at], b);
        proof {
            assert(models[at as int] == entries@[at as int]@);
            assert(parts[k as int] == entry_bytes()(sorted[k as int]));
            bytes::lemma_concat_step(b0, parts, k as int);
        }
    }
    proof {
        assert forall|i: int| 0 <= i < models.len() implies entry_fits(#[trigger] models[i]) by {
            assert(positions@.contains(i as usize));
            let j = choose|j: int| 0 <= j < positions@.len() && positions@[j] == i as usize;
            assert(models[positions@[j] as int] == models[i]);
        }
    }
}

/// Writes what the injected definitions contribute.
fn encode_builtins(tag: EnvTag, injected: Option<&BuiltinsDigest>, b: &mut Vec<u8>)
    ensures
        final(b)@ == old(b)@ + builtins_slot(tag, model::found(injected)),
{
    broadcast use bytes::lemma_join;

    let ghost b0 = b@;
    if tag == EnvTag::EnvBuildBzl {
        match injected {
            None => {
                append_byte(b, 0);
            },
            Some(d) => {
                append_byte(b, 1);
                append_bytes(b, d.0.as_slice());
            },
        }
    } else {
        assert(b0 + Seq::<u8>::empty() =~= b0);
    }
}

/// The identity of an environment: the digest of its code, its entries in sorted order, and, for `.bzl`
/// files that are loaded for a BUILD file, the injected definitions. The order in which the entries are
/// given makes no difference.
pub fn derive_predeclared_env_id(
    tag: EnvTag,
    entries: &[EnvEntry],
    injected_builtins: Option<&BuiltinsDigest>,
) -> (id: PredeclaredEnvId)
    ensures
        id@ == digest::digest(
            env_preimage(tag, entries_of(entries@), model::found(injected_builtins)),
        ),
        entries_fit(entries_of(entries@)),
{
    broadcast use bytes::lemma_join;

    let mut b: Vec<u8> = Vec::new();
    append_bytes(&mut b, "razel:predeclared-env:v1".as_bytes());
    assert(b@ =~= env_domain());
    append_byte(&mut b, tag.code());
    append_count(&mut b, entries.len());
    encode_sorted_entries(entries, &mut b);
    encode_builtins(tag, injected_builtins, &mut b);
    proof {
        order::law_sorting_orders_and_keeps_items(entries_of(entries@), by_entry());
        assert(b@ == env_preimage(tag, entries_of(entries@), model::found(injected_builtins)));
    }
    PredeclaredEnvId(digest32(b.as_slice()))
}

// ---- injection ----

/// Some entry has the given name.
pub open spec fn registers(entries: Seq<EntryModel>, name: Seq<char>) -> bool {
    exists|i: int| 0 <= i < entries.len() && (#[trigger] entries[i]).name == name
}

/// No entry before the one at `i` has its name.
pub open spec fn is_first(entries: Seq<EntryModel>, i: int) -> bool {
    forall|j: int| 0 <= j < i ==> (#[trigger] entries[j]).name != entries[i].name
}

/// The last entry of the given name.
pub open spec fn last_named(entries: Seq<EntryModel>, name: Seq<char>) -> Option<EntryModel>
    decreases entries.len(),
{
    if entries.len() == 0 {
        None
    } else if entries.last().name == name {
        Some(entries.last())
    } else {
        last_named(entries.drop_last(), name)
    }
}

/// What stands at `i` after the overrides: the last override of the name that stands there, if this is the
/// first entry of the name; else what stood there before.
pub open spec fn overridden_at(
    registered: Seq<EntryModel>,
    overrides: Seq<EntryModel>,
    i: int,
) -> EntryModel {
    match last_named(overrides, registered[i].name) {
        Some(o) if is_first(registered, i) => o,
        _ => registered[i],
    }
}

/// The entries after the overrides.
pub open spec fn overridden(registered: Seq<EntryModel>, overrides: Seq<EntryModel>) -> Seq<
    EntryModel,
> {
    Seq::new(registered.len(), |i: int| overridden_at(registered, overrides, i))
}

/// The override at `j` is the first of a name that is not registered.
pub open spec fn first_unregistered(
    registered: Seq<EntryModel>,
    overrides: Seq<EntryModel>,
    j: int,
) -> bool {
    &&& 0 <= j < overrides.len()
    &&& !registers(registered, overrides[j].name)
    &&& forall|k: int| 0 <= k < j ==> registers(registered, (#[trigger] overrides[k]).name)
}

/// Why an override of a name that is not registered is refused.
pub open spec fn refusal(name: Seq<char>) -> Seq<char> {
    "cannot inject '"@ + name
        + "': builtins injection may only override a registered name, never add one"@
}

/// The text that refuses an override of the given name.
fn refusal_text(name: &str) -> (r: String)
    ensures
        r@ == refusal(name@),
{
    let mut r: String = "cannot inject '".to_string();
    r.append(name);
    r.append("': builtins injection may only override a registered name, never add one");
    r
}

/// The position of the first entry of the given name.
fn position_of(entries: &Vec<EnvEntry>, name: &str) -> (r: Option<usize>)
    ensures
        match r {
            Some(i) => i < entries@.len() && entries_of(entries@)[i as int].name == name@
                && is_first(entries_of(entries@), i as int),
            None => !registers(entries_of(entries@), name@),
        },
{
    let n: usize = entries.len();
    let ghost models = entries_of(entries@);
    for i in 0..n
        invariant
            n == entries@.len(),
            models == entries_of(entries@),
            forall|j: int| 0 <= j < i ==> (#[trigger] models[j]).name != name@,
    {
        assert(models[i as int].name == entries@[i as int].name@);
        if same_text(entries[i].name.as_str(), name) {
            return Some(i);
        }
    }
    None
}

/// Injects definitions into an environment. Each override takes the place of the first entry of its name,
/// and the last override of a name is the one that stays. A name that the environment does not have is
/// refused, so the names of an environment are the same whatever is injected.
pub fn apply_builtins_injection(registered: &[EnvEntry], overrides: &[EnvEntry]) -> (r: Result<
    Vec<EnvEntry>,
    BzlError,
>)
    ensures
        match r {
            Ok(out) => {
                &&& forall|j: int|
                    0 <= j < overrides@.len() ==> registers(
                        entries_of(registered@),
                        (#[trigger] entries_of(overrides@)[j]).name,
                    )
                &&& entries_of(out@) == overridden(entries_of(registered@), entries_of(overrides@))
            },
            Err(e) => exists|j: int|
                {
                    &&& #[trigger] first_unregistered(
                        entries_of(registered@),
                        entries_of(overrides@),
                        j,
                    )
                    &&& e@ == (ErrorModel::Eval {
                        detail: refusal(entries_of(overrides@)[j].name),
                    })
                },
        },
{
    let ghost reg = entries_of(registered@);
    let ghost ovr = entries_of(overrides@);
    let mut out: Vec<EnvEntry> = copy_entries(registered);
    let n: usize = overrides.len();
    assert(entries_of(out@) =~= overridden(reg, ovr.take(0)));
    for k in 0..n
        invariant
            n == overrides@.len(),
            reg == entries_of(registered@),
            ovr == entries_of(overrides@),
            entries_of(out@) == overridden(reg, ovr.take(k as int)),
            forall|j: int| 0 <= j < k ==> registers(reg, (#[trigger] ovr[j]).name),
    {
        let ghost before = entries_of(out@);
        let ghost o = ovr[k as int];
        assert(o == overrides@[k as int]@);
        proof {
            assert(before.len() == reg.len());
            assert forall|i: int| 0 <= i < reg.len() implies (#[trigger] before[i]).name
                == reg[i].name by {
                lemma_last_named(ovr.take(k as int), reg[i].name);
            }
            assert forall|i: int| 0 <= i < reg.len() && is_first(before, i) implies is_first(
                reg,
                i,
            ) by {
                assert forall|j: int| 0 <= j < i implies (#[trigger] reg[j]).name
                    != reg[i].name by {
                    assert(before[j].name != before[i].name);
                }
            }
        }
        match position_of(&out, overrides[k].name.as_str()) {
            Some(at) => {
                out.set(at, overrides[k].clone());
                proof {
                    assert(before[at as int].name == reg[at as int].name);
                    assert(registers(reg, o.name));
                    assert(entries_of(out@) =~= before.update(at as int, o));
                    lemma_override_step(reg, ovr, k as int, at as int);
                }
            },
            None => {
                proof {
                    assert(!registers(reg, o.name)) by {
                        if registers(reg, o.name) {
                            let i = choose|i: int|
                                0 <= i < reg.len() && (#[trigger] reg[i]).name == o.name;
                            assert(before[i].name == o.name);
                        }
                    }
                    assert(first_unregistered(reg, ovr, k as int));
                }
                return Err(
                    BzlError::Eval { detail: refusal_text(overrides[k].name.as_str()) },
                );
            },
        }
    }
    assert(ovr.take(n as int) =~= ovr);
    Ok(out)
}

/// A copy of a list of entries.
fn copy_entries(list: &[EnvEntry]) -> (r: Vec<EnvEntry>)
    ensures
        entries_of(r@) == entries_of(list@),
{
    let n: usize = list.len();
    let mut r: Vec<EnvEntry> = Vec::new();
    for i in 0..n
        invariant
            n == list@.len(),
            r@.len() == i,
            forall|j: int| 0 <= j < i ==> (#[trigger] r@[j])@ == list@[j]@,
    {
        r.push(list[i].clone());
    }
    assert(entries_of(r@) =~= entries_of(list@));
    r
}

/// The last entry of a name has that name, and there is one exactly when the name occurs.
pub(crate) proof fn lemma_last_named(entries: Seq<EntryModel>, name: Seq<char>)
    ensures
        last_named(entries, name) matches Some(e) ==> e.name == name,
        last_named(entries, name) is Some <==> registers(entries, name),
    decreases entries.len(),
{
    if entries.len() > 0 {
        let front = entries.drop_last();
        lemma_last_named(front, name);
        if entries.last().name == name {
            assert(entries[entries.len() - 1].name == name);
        } else {
            if registers(front, name) {
                let i = choose|i: int| 0 <= i < front.len() && (#[trigger] front[i]).name == name;
                assert(entries[i].name == name);
            }
            if registers(entries, name) {
                let i = choose|i: int|
                    0 <= i < entries.len() && (#[trigger] entries[i]).name == name;
                assert(front[i].name == name);
            }
        }
    }
}

/// One more override changes the first entry of its name, and nothing else.
proof fn lemma_override_step(reg: Seq<EntryModel>, ovr: Seq<EntryModel>, k: int, at: int)
    requires
        0 <= k < ovr.len(),
        0 <= at < reg.len(),
        reg[at].name == ovr[k].name,
        is_first(reg, at),
    ensures
        overridden(reg, ovr.take(k + 1)) == overridden(reg, ovr.take(k)).update(at, ovr[k]),
{
    let o = ovr[k];
    let next = ovr.take(k + 1);
    assert(next.drop_last() =~= ovr.take(k));
    assert(next.last() == o);
    assert forall|i: int| 0 <= i < reg.len() implies #[trigger] overridden(reg, next)[i]
        == overridden(reg, ovr.take(k)).update(at, o)[i] by {
        if i == at {
            assert(last_named(next, reg[i].name) == Some(o));
        } else if reg[i].name == o.name {
            if i < at {
                assert(reg[i].name != reg[at].name);
            } else {
                assert(!is_first(reg, i)) by {
                    assert(reg[at].name == reg[i].name);
                }
            }
        } else {
            assert(last_named(next, reg[i].name) == last_named(ovr.take(k), reg[i].name));
        }
    }
    assert(overridden(reg, next) =~= overridden(reg, ovr.take(k)).update(at, o));
}

} // verus!
