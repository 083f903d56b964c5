//! The flags that change what a module means, and the fingerprint of a configuration of them.

use vstd::prelude::*;
use crate::bytes;
use crate::bytes::{append_bytes, append_count, byte_of, framed, framed_list, framed_text};
use crate::copy::copy_texts;
use crate::digest;
use crate::digest::digest32;
use crate::encoding;
use crate::model::RegistryModel;
use crate::order;
use crate::order::sorted_positions;
use crate::text::same_text;

verus! {

/// What is done about source bytes that are no UTF-8.
#[derive(Clone, Copy, PartialEq, Eq, Hash, PartialOrd, Ord, Debug, Structural)]
pub enum Utf8Enforcement {
    Off,
    Warning,
    Error,
}

/// The code of an enforcement mode. A code never changes once it is given.
pub open spec fn enforcement_code(m: Utf8Enforcement) -> u8 {
    match m {
        Utf8Enforcement::Off => 0,
        Utf8Enforcement::Warning => 1,
        Utf8Enforcement::Error => 2,
    }
}

impl Utf8Enforcement {
    fn code(self) -> (c: u8)
        ensures
            c == enforcement_code(self),
    {
        match self {
            Utf8Enforcement::Off => 0,
            Utf8Enforcement::Warning => 1,
            Utf8Enforcement::Error => 2,
        }
    }
}

/// What a module may do with types, and what is checked of them. A module declares its options when it is
/// compiled, and they are enforced when it is loaded.
#[derive(Clone, Copy, PartialEq, Eq, Hash, PartialOrd, Ord, Debug, Structural)]
pub struct TypeOptions {
    pub use_type_syntax: bool,
    pub static_checks: bool,
    pub dynamic_checks: bool,
}

/// No option on.
pub open spec fn no_type_options() -> TypeOptions {
    TypeOptions { use_type_syntax: false, static_checks: false, dynamic_checks: false }
}

/// The bytes of type options: one per option, in the order of their declaration.
pub open spec fn type_options_bytes(o: TypeOptions) -> Seq<u8> {
    seq![
        bytes::bool_byte(o.use_type_syntax),
        bytes::bool_byte(o.static_checks),
        bytes::bool_byte(o.dynamic_checks),
    ]
}

/// The bytes of type options determine them.
pub proof fn law_type_options_are_told_apart(o: TypeOptions, p: TypeOptions)
    ensures
        type_options_bytes(o) == type_options_bytes(p) <==> o == p,
{
    let (x, y) = (type_options_bytes(o), type_options_bytes(p));
    if x == y {
        assert(x[0] == y[0] && x[1] == y[1] && x[2] == y[2]);
    }
}

impl Default for TypeOptions {
    /// No option on.
    fn default() -> (o: TypeOptions)
        ensures
            o == no_type_options(),
    {
        TypeOptions { use_type_syntax: false, static_checks: false, dynamic_checks: false }
    }
}

impl TypeOptions {
    /// Appends one byte per option, in the order of their declaration.
    pub fn encode_into(&self, b: &mut Vec<u8>)
        ensures
            final(b)@ == old(b)@ + type_options_bytes(*self),
    {
        let ghost before = b@;
        b.push(byte_of(self.use_type_syntax));
        b.push(byte_of(self.static_checks));
        b.push(byte_of(self.dynamic_checks));
        assert(b@ =~= before + type_options_bytes(*self));
    }
}

/// The flags that change what a module means. The set is closed, and a new flag comes in at its default, so
/// that it changes no fingerprint.
#[derive(PartialEq, Eq, Debug)]
pub struct StarlarkFlagRegistry {
    /// Whether there is a `.scl` dialect. Default: no.
    pub scl_enabled: bool,
    /// Whether a `.bzl` can restrict who loads it. Default: yes.
    pub bzl_visibility_enabled: bool,
    /// Whether such a restriction is enforced where the file is loaded. Default: yes.
    pub check_bzl_visibility: bool,
    /// Default: [`Utf8Enforcement::Error`].
    pub utf8_enforcement: Utf8Enforcement,
    /// Default: none on.
    pub type_options: TypeOptions,
    /// The label prefixes under which type syntax is allowed: a set, in any order. Default: none.
    pub type_syntax_allowlist: Vec<String>,
}

impl View for StarlarkFlagRegistry {
    type V = RegistryModel;

    open spec fn view(&self) -> RegistryModel {
        RegistryModel {
            scl_enabled: self.scl_enabled,
            bzl_visibility_enabled: self.bzl_visibility_enabled,
            check_bzl_visibility: self.check_bzl_visibility,
            utf8_enforcement: self.utf8_enforcement,
            type_options: self.type_options,
            type_syntax_allowlist: bytes::texts(self.type_syntax_allowlist@),
        }
    }
}

impl Clone for StarlarkFlagRegistry {
    fn clone(&self) -> (r: Self)
        ensures
            r@ == self@,
    {
        StarlarkFlagRegistry {
            scl_enabled: self.scl_enabled,
            bzl_visibility_enabled: self.bzl_visibility_enabled,
            check_bzl_visibility: self.check_bzl_visibility,
            utf8_enforcement: self.utf8_enforcement,
            type_options: self.type_options,
            type_syntax_allowlist: copy_texts(&self.type_syntax_allowlist),
        }
    }
}

/// Every flag at its default.
pub open spec fn default_flags() -> RegistryModel {
    RegistryModel {
        scl_enabled: false,
        bzl_visibility_enabled: true,
        check_bzl_visibility: true,
        utf8_enforcement: Utf8Enforcement::Error,
        type_options: no_type_options(),
        type_syntax_allowlist: seq![],
    }
}

impl Default for StarlarkFlagRegistry {
    /// Every flag at its default.
    fn default() -> (r: StarlarkFlagRegistry)
        ensures
            r@ == default_flags(),
    {
        let r = StarlarkFlagRegistry {
            scl_enabled: false,
            bzl_visibility_enabled: true,
            check_bzl_visibility: true,
            utf8_enforcement: Utf8Enforcement::Error,
            type_options: TypeOptions::default(),
            type_syntax_allowlist: Vec::new(),
        };
        assert(r@.type_syntax_allowlist =~= Seq::<Seq<char>>::empty());
        r
    }
}

// ---- the allowlist as a set ----

/// The sort key of a text.
pub open spec fn by_text() -> spec_fn(Seq<char>) -> order::Key {
    |t: Seq<char>| order::text_key(t)
}

/// The list without the entries that repeat the one before them.
pub open spec fn without_repeats(list: Seq<Seq<char>>) -> Seq<Seq<char>>
    decreases list.len(),
{
    if list.len() < 2 {
        list
    } else if list[list.len() - 2] == list.last() {
        without_repeats(list.drop_last())
    } else {
        without_repeats(list.drop_last()).push(list.last())
    }
}

/// The texts of a list as a set: sorted, and each of them once.
pub open spec fn text_set(list: Seq<Seq<char>>) -> Seq<Seq<char>> {
    without_repeats(order::sorted_by(list, by_text()))
}

// ---- the fingerprint ----

/// A flag with its value in bytes, if it is not at its default.
pub open spec fn flag_if(set: bool, name: Seq<char>, value: Seq<u8>) -> Seq<(Seq<char>, Seq<u8>)> {
    if set {
        seq![(name, value)]
    } else {
        seq![]
    }
}

/// The flags that are not at their defaults, with their values in bytes.
pub open spec fn set_flags(r: RegistryModel) -> Seq<(Seq<char>, Seq<u8>)> {
    let d = default_flags();
    flag_if(
        r.scl_enabled != d.scl_enabled,
        "scl_enabled"@,
        seq![bytes::bool_byte(r.scl_enabled)],
    ) + flag_if(
        r.bzl_visibility_enabled != d.bzl_visibility_enabled,
        "bzl_visibility_enabled"@,
        seq![bytes::bool_byte(r.bzl_visibility_enabled)],
    ) + flag_if(
        r.check_bzl_visibility != d.check_bzl_visibility,
        "check_bzl_visibility"@,
        seq![bytes::bool_byte(r.check_bzl_visibility)],
    ) + flag_if(
        r.utf8_enforcement != d.utf8_enforcement,
        "utf8_enforcement"@,
        seq![enforcement_code(r.utf8_enforcement)],
    ) + flag_if(
        r.type_options != d.type_options,
        "type_options"@,
        type_options_bytes(r.type_options),
    ) + flag_if(
        r.type_syntax_allowlist.len() > 0,
        "type_syntax_allowlist"@,
        bytes::texts_bytes(text_set(r.type_syntax_allowlist)),
    )
}

/// A flag in bytes: its name and its value, each in a frame.
pub open spec fn flag_bytes() -> spec_fn((Seq<char>, Seq<u8>)) -> Seq<u8> {
    |f: (Seq<char>, Seq<u8>)| bytes::text_frame(f.0) + bytes::frame(f.1)
}

/// What sets the digests of configurations apart from all others.
pub open spec fn semantics_domain() -> Seq<u8> {
    vstd::utf8::encode_utf8("razel:starlark-semantics:v1"@)
}

/// What the fingerprint of a configuration is taken of: the flags that are not at their defaults, sorted by
/// name.
pub open spec fn flags_preimage(r: RegistryModel) -> Seq<u8> {
    let flags = order::sorted_by(set_flags(r), encoding::by_name());
    semantics_domain() + (bytes::count_bytes(flags.len()) + bytes::concat(
        flags.map_values(flag_bytes()),
    ))
}

/// The fingerprint of a configuration.
pub open spec fn flags_fingerprint(r: RegistryModel) -> Seq<u8> {
    digest::digest(flags_preimage(r))
}

/// The first semantics: the fingerprint of the default configuration.
pub open spec fn first_semantics() -> Seq<u8> {
    flags_fingerprint(default_flags())
}

/// The flags of a configuration that memory can hold: every length in them fits into eight bytes.
pub open spec fn flags_fit(r: RegistryModel) -> bool {
    &&& bytes::texts_fit(text_set(r.type_syntax_allowlist))
    &&& bytes::fits(bytes::texts_bytes(text_set(r.type_syntax_allowlist)).len())
}

/// The fingerprint of a configuration of the flags.
#[derive(Clone, Copy, PartialEq, Eq, Hash, PartialOrd, Ord, Debug)]
pub struct StarlarkSemanticsId(pub [u8; 32]);

impl View for StarlarkSemanticsId {
    type V = Seq<u8>;

    open spec fn view(&self) -> Seq<u8> {
        self.0@
    }
}

/// The flags that a list of named values in bytes is.
pub open spec fn flags_of(flags: Seq<(String, Vec<u8>)>) -> Seq<(Seq<char>, Seq<u8>)> {
    flags.map_values(|f: (String, Vec<u8>)| (f.0@, f.1@))
}

/// One byte.
fn one(x: u8) -> (r: Vec<u8>)
    ensures
        r@ == seq![x],
{
    let mut r: Vec<u8> = Vec::new();
    r.push(x);
    assert(r@ =~= seq![x]);
    r
}

/// Appends a flag, if it is not at its default.
fn push_flag(flags: &mut Vec<(String, Vec<u8>)>, set: bool, name: &str, value: Vec<u8>)
    ensures
        flags_of(final(flags)@) == flags_of(old(flags)@) + flag_if(set, name@, value@),
{
    let ghost before = flags@;
    let ghost v = value@;
    if set {
        flags.push((name.to_string(), value));
    }
    assert(flags_of(flags@) =~= flags_of(before) + flag_if(set, name@, v));
}

/// The texts of a list, sorted, each of them once.
fn sorted_set(list: &[String]) -> (r: Vec<String>)
    ensures
        bytes::texts(r@) == text_set(bytes::texts(list@)),
{
    let n: usize = list.len();
    let positions = sorted_positions(list);
    let ghost sorted = order::sorted_by(bytes::texts(list@), by_text());
    proof {
        let f = |s: String| s@;
        order::lemma_sorted_by_map(list@, f, order::key_of::<String>(), by_text());
        assert(sorted == order::picked(list@, positions@).map_values(f));
        assert(sorted.take(0) =~= Seq::<Seq<char>>::empty());
    }
    let mut r: Vec<String> = Vec::new();
    assert(bytes::texts(r@) =~= without_repeats(sorted.take(0)));
    for k in 0..n
        invariant
            n == list@.len(),
            positions@.len() == n,
            sorted.len() == n,
            forall|i: int| 0 <= i < n ==> #[trigger] positions@[i] < n,
            forall|i: int| 0 <= i < n ==> #[trigger] sorted[i] == list@[positions@[i] as int]@,
            bytes::texts(r@) == without_repeats(sorted.take(k as int)),
    {
        let ghost done = r@;
        proof {
            assert(sorted.take(k + 1).drop_last() =~= sorted.take(k as int));
            assert(sorted.take(k + 1).last() == sorted[k as int]);
            if k > 0 {
                assert(sorted.take(k + 1)[k - 1] == sorted[k - 1]);
            }
        }
        if k == 0 || !same_text(
            list[positions[k - 1]].as_str(),
            list[positions[k]].as_str(),
        ) {
            r.push(list[positions[k]].clone());
            proof {
                assert(bytes::texts(r@) =~= bytes::texts(done).push(sorted[k as int]));
                if k == 0 {
                    assert(sorted.take(1) =~= bytes::texts(done).push(sorted[0]));
                }
            }
        }
    }
    assert(sorted.take(n as int) =~= sorted);
    r
}

impl StarlarkFlagRegistry {
    /// The fingerprint of the configuration: that of the flags that are not at their defaults, sorted by
    /// name. A flag that is set to its default and one that is left out make no difference.
    pub fn fingerprint(&self) -> (id: StarlarkSemanticsId)
        ensures
            id@ == flags_fingerprint(self@),
            flags_fit(self@),
    {
        let d = StarlarkFlagRegistry::default();
        let mut flags: Vec<(String, Vec<u8>)> = Vec::new();
        assert(flags_of(flags@) =~= Seq::<(Seq<char>, Seq<u8>)>::empty());
        push_flag(
            &mut flags,
            self.scl_enabled != d.scl_enabled,
            "scl_enabled",
            one(byte_of(self.scl_enabled)),
        );
        assert(flags_of(flags@) =~= flag_if(
            self.scl_enabled,
            "scl_enabled"@,
            seq![bytes::bool_byte(self.scl_enabled)],
        ));
        push_flag(
            &mut flags,
            self.bzl_visibility_enabled != d.bzl_visibility_enabled,
            "bzl_visibility_enabled",
            one(byte_of(self.bzl_visibility_enabled)),
        );
        push_flag(
            &mut flags,
            self.check_bzl_visibility != d.check_bzl_visibility,
            "check_bzl_visibility",
            one(byte_of(self.check_bzl_visibility)),
        );
        push_flag(
            &mut flags,
            self.utf8_enforcement != d.utf8_enforcement,
            "utf8_enforcement",
            one(self.utf8_enforcement.code()),
        );
        let mut options: Vec<u8> = Vec::new();
        self.type_options.encode_into(&mut options);
        assert(options@ =~= type_options_bytes(self.type_options));
        push_flag(&mut flags, self.type_options != d.type_options, "type_options", options);
        let allow = sorted_set(self.type_syntax_allowlist.as_slice());
        let mut allowed: Vec<u8> = Vec::new();
        framed_list(&mut allowed, allow.as_slice());
        assert(allowed@ =~= bytes::texts_bytes(text_set(self@.type_syntax_allowlist)));
        assert(bytes::fits(allowed.len() as nat));
        push_flag(
            &mut flags,
            self.type_syntax_allowlist.len() > 0,
            "type_syntax_allowlist",
            allowed,
        );
        assert(flags_of(flags@) == set_flags(self@));
        let mut b: Vec<u8> = Vec::new();
        encode_flags(flags.as_slice(), &mut b);
        assert(b@ =~= flags_preimage(self@));
        StarlarkSemanticsId(digest32(b.as_slice()))
    }
}

/// Writes what the fingerprint of the given flags is taken of.
fn encode_flags(flags: &[(String, Vec<u8>)], b: &mut Vec<u8>)
    ensures
        ({
            let sorted = order::sorted_by(flags_of(flags@), encoding::by_name());
            final(b)@ == old(b)@ + (semantics_domain() + (bytes::count_bytes(sorted.len())
                + bytes::concat(sorted.map_values(flag_bytes()))))
        }),
{
    broadcast use bytes::lemma_join;

    append_bytes(b, "razel:starlark-semantics:v1".as_bytes());
    let n: usize = flags.len();
    let positions = sorted_positions(flags);
    let ghost sorted = order::sorted_by(flags_of(flags@), encoding::by_name());
    let ghost parts = sorted.map_values(flag_bytes());
    proof {
        let f = |x: (String, Vec<u8>)| (x.0@, x.1@);
        order::lemma_sorted_by_map(
            flags@,
            f,
            order::key_of::<(String, Vec<u8>)>(),
            encoding::by_name(),
        );
        assert(sorted == order::picked(flags@, positions@).map_values(f));
    }
    append_count(b, n);
    let ghost b1 = b@;
    proof {
        bytes::lemma_concat_ends(b1, parts);
    }
    for k in 0..n
        invariant
            n == flags@.len(),
            positions@.len() == n,
            sorted.len() == n,
            parts == sorted.map_values(flag_bytes()),
            forall|i: int| 0 <= i < n ==> #[trigger] positions@[i] < n,
            forall|i: int|
                0 <= i < n ==> #[trigger] sorted[i] == (
                    flags@[positions@[i] as int].0@,
                    flags@[positions@[i] as int].1@,
                ),
            b@ == b1 + bytes::concat(parts.take(k as int)),
    {
        let at: usize = positions[k];
        framed_text(b, flags[at].0.as_str());
        framed(b, flags[at].1.as_slice());
        proof {
            assert(sorted[k as int].0 == flags@[at as int].0@);
            assert(parts[k as int] == flag_bytes()(sorted[k as int]));
            bytes::lemma_concat_step(b1, parts, k as int);
        }
    }
}

impl StarlarkSemanticsId {
    /// The first semantics: the fingerprint of the default configuration.
    pub fn v1() -> (id: StarlarkSemanticsId)
        ensures
            id@ == first_semantics(),
    {
        StarlarkFlagRegistry::default().fingerprint()
    }
}

} // verus!
