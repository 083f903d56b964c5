//! The environments that a file is evaluated in: the kind of the load, the dialect, and what they select.

use vstd::prelude::*;
use crate::model::EnvModel;
use crate::semantics;
use crate::semantics::{StarlarkSemanticsId, TypeOptions};
use crate::text;
use crate::text::ends_with;

verus! {

/// On whose behalf a file is loaded. The set is closed: which environment a file gets is a function of the
/// kind, so a new kind is a decision, and never a string.
#[derive(Clone, Copy, PartialEq, Eq, Hash, PartialOrd, Ord, Debug, Structural)]
pub enum LoadKind {
    /// On behalf of a BUILD file. The prelude is marked as such, and has the same environment.
    Build { is_prelude: bool },
    /// From the repository of built-in definitions.
    Builtins,
    /// On behalf of a repository rule or a module extension.
    Bzlmod,
    /// On behalf of the tools that module resolution itself needs.
    BzlmodBootstrap,
}

/// The code of a load kind. A code never changes once it is given; the prelude has its own.
pub open spec fn kind_code(k: LoadKind) -> u8 {
    match k {
        LoadKind::Build { is_prelude: false } => 0,
        LoadKind::Build { is_prelude: true } => 1,
        LoadKind::Builtins => 2,
        LoadKind::Bzlmod => 3,
        LoadKind::BzlmodBootstrap => 4,
    }
}

/// The load kind that has the code `c`.
pub open spec fn kind_of_code(c: u8) -> Option<LoadKind> {
    match c {
        0 => Some(LoadKind::Build { is_prelude: false }),
        1 => Some(LoadKind::Build { is_prelude: true }),
        2 => Some(LoadKind::Builtins),
        3 => Some(LoadKind::Bzlmod),
        4 => Some(LoadKind::BzlmodBootstrap),
        _ => None,
    }
}

/// The kind under which a file of kind `k` loads others.
pub open spec fn kind_for_load(k: LoadKind) -> LoadKind {
    match k {
        LoadKind::Build { .. } => LoadKind::Build { is_prelude: false },
        other => other,
    }
}

/// The environment that a load kind and a dialect select.
pub open spec fn env_of(k: LoadKind, d: Dialect) -> EnvTag {
    if d == Dialect::Scl {
        EnvTag::EnvScl
    } else {
        match k {
            LoadKind::Build { .. } => EnvTag::EnvBuildBzl,
            LoadKind::Builtins => EnvTag::EnvBuiltinsBzl,
            LoadKind::Bzlmod => EnvTag::EnvBzlmodBzl,
            LoadKind::BzlmodBootstrap => EnvTag::EnvBzlmodBootstrapBzl,
        }
    }
}

/// Load kinds and their codes determine each other.
pub proof fn law_kind_codes_round_trip(k: LoadKind, c: u8)
    ensures
        kind_of_code(kind_code(k)) == Some(k),
        kind_of_code(c) == Some(k) ==> kind_code(k) == c,
        kind_of_code(c) is None <==> c > 4,
{
}

/// The code of each load kind, of each dialect and of each environment.
pub proof fn law_codes()
    ensures
        kind_code(LoadKind::Build { is_prelude: false }) == 0,
        kind_code(LoadKind::Build { is_prelude: true }) == 1,
        kind_code(LoadKind::Builtins) == 2,
        kind_code(LoadKind::Bzlmod) == 3,
        kind_code(LoadKind::BzlmodBootstrap) == 4,
        dialect_code(Dialect::Bzl) == 0,
        dialect_code(Dialect::Scl) == 1,
        tag_code(EnvTag::EnvBuildBzl) == 1,
        tag_code(EnvTag::EnvBuiltinsBzl) == 2,
        tag_code(EnvTag::EnvBzlmodBzl) == 3,
        tag_code(EnvTag::EnvBzlmodBootstrapBzl) == 4,
        tag_code(EnvTag::EnvScl) == 5,
        tag_code(EnvTag::EnvBuildFile) == 6,
{
}

/// Which environment each load kind selects, and under which kind its loads go: the prelude is the one kind
/// that does not pass itself on.
pub proof fn law_each_kind_has_its_environment(k: LoadKind, is_prelude: bool)
    ensures
        env_of(LoadKind::Build { is_prelude }, Dialect::Bzl) == EnvTag::EnvBuildBzl,
        env_of(LoadKind::Builtins, Dialect::Bzl) == EnvTag::EnvBuiltinsBzl,
        env_of(LoadKind::Bzlmod, Dialect::Bzl) == EnvTag::EnvBzlmodBzl,
        env_of(LoadKind::BzlmodBootstrap, Dialect::Bzl) == EnvTag::EnvBzlmodBootstrapBzl,
        env_of(k, Dialect::Scl) == EnvTag::EnvScl,
        kind_for_load(LoadKind::Build { is_prelude }) == (LoadKind::Build { is_prelude: false }),
        kind_for_load(k) == k <==> k != (LoadKind::Build { is_prelude: true }),
{
}

/// The kind that loads pass on is passed on unchanged, it is never that of a prelude, and what a file loads
/// gets the file's own environment.
pub proof fn law_loads_stay_in_their_environment(k: LoadKind, d: Dialect)
    ensures
        kind_for_load(kind_for_load(k)) == kind_for_load(k),
        kind_for_load(k) != (LoadKind::Build { is_prelude: true }),
        env_of(kind_for_load(k), d) == env_of(k, d),
{
}

/// Among `.bzl` files two kinds share an environment exactly when their loads have one kind: a prelude
/// shares that of other files loaded for a BUILD file, and no other two kinds share one.
pub proof fn law_kinds_select_environments(j: LoadKind, k: LoadKind)
    ensures
        env_of(j, Dialect::Bzl) == env_of(k, Dialect::Bzl) <==> kind_for_load(j) == kind_for_load(k),
{
}

/// A `.scl` file has one environment, whatever its kind, and it shares it with no `.bzl` file. The
/// environment of BUILD files is selected by no kind.
pub proof fn law_scl_environment_ignores_the_kind(j: LoadKind, k: LoadKind, d: Dialect)
    ensures
        env_of(j, Dialect::Scl) == env_of(k, Dialect::Scl),
        env_of(j, Dialect::Scl) != env_of(k, Dialect::Bzl),
        env_of(j, d) != EnvTag::EnvBuildFile,
{
}

impl LoadKind {
    /// The stable code of the kind.
    pub fn code(self) -> (c: u8)
        ensures
            c == kind_code(self),
    {
        match self {
            LoadKind::Build { is_prelude: false } => 0,
            LoadKind::Build { is_prelude: true } => 1,
            LoadKind::Builtins => 2,
            LoadKind::Bzlmod => 3,
            LoadKind::BzlmodBootstrap => 4,
        }
    }

    /// The kind with the given code; `None` for a code that no kind has.
    pub fn from_code(c: u8) -> (r: Option<LoadKind>)
        ensures
            r == kind_of_code(c),
    {
        match c {
            0 => Some(LoadKind::Build { is_prelude: false }),
            1 => Some(LoadKind::Build { is_prelude: true }),
            2 => Some(LoadKind::Builtins),
            3 => Some(LoadKind::Bzlmod),
            4 => Some(LoadKind::BzlmodBootstrap),
            _ => None,
        }
    }

    /// The kind under which a file of this kind loads others: what a prelude loads is an ordinary load for a
    /// BUILD file, and every other kind passes itself on.
    pub fn key_for_load(self) -> (k: LoadKind)
        ensures
            k == kind_for_load(self),
    {
        match self {
            LoadKind::Build { .. } => LoadKind::Build { is_prelude: false },
            other => other,
        }
    }

    /// The environment that the kind selects. A `.scl` file has its own, whatever the kind.
    pub fn env_tag(self, dialect: Dialect) -> (tag: EnvTag)
        ensures
            tag == env_of(self, dialect),
    {
        if dialect == Dialect::Scl {
            return EnvTag::EnvScl;
        }
        match self {
            LoadKind::Build { .. } => EnvTag::EnvBuildBzl,
            LoadKind::Builtins => EnvTag::EnvBuiltinsBzl,
            LoadKind::Bzlmod => EnvTag::EnvBzlmodBzl,
            LoadKind::BzlmodBootstrap => EnvTag::EnvBzlmodBootstrapBzl,
        }
    }
}

/// The dialect of a file, which the end of its label tells.
#[derive(Clone, Copy, PartialEq, Eq, Hash, PartialOrd, Ord, Debug, Structural)]
pub enum Dialect {
    Bzl,
    Scl,
}

/// The code of a dialect. A code never changes once it is given.
pub open spec fn dialect_code(d: Dialect) -> u8 {
    match d {
        Dialect::Bzl => 0,
        Dialect::Scl => 1,
    }
}

/// The dialect that has the code `c`.
pub open spec fn dialect_of_code(c: u8) -> Option<Dialect> {
    match c {
        0 => Some(Dialect::Bzl),
        1 => Some(Dialect::Scl),
        _ => None,
    }
}

/// The dialect that a label tells: no other suffix stands for one.
pub open spec fn dialect_of_label(label: Seq<char>) -> Option<Dialect> {
    if text::is_suffix(".bzl"@, label) {
        Some(Dialect::Bzl)
    } else if text::is_suffix(".scl"@, label) {
        Some(Dialect::Scl)
    } else {
        None
    }
}

/// Dialects and their codes determine each other.
pub proof fn law_dialect_codes_round_trip(d: Dialect, c: u8)
    ensures
        dialect_of_code(dialect_code(d)) == Some(d),
        dialect_of_code(c) == Some(d) ==> dialect_code(d) == c,
        dialect_of_code(c) is None <==> c > 1,
{
}

/// A text with `.bzl` behind it is a label of the one dialect, and with `.scl` behind it a label of the
/// other, whatever the text is.
pub proof fn law_suffix_tells_the_dialect(stem: Seq<char>)
    ensures
        dialect_of_label(stem + ".bzl"@) == Some(Dialect::Bzl),
        dialect_of_label(stem + ".scl"@) == Some(Dialect::Scl),
{
    reveal_strlit(".bzl");
    reveal_strlit(".scl");
    let b = stem + ".bzl"@;
    let s = stem + ".scl"@;
    assert(b.skip(b.len() - 4) =~= ".bzl"@);
    assert(s.skip(s.len() - 4) =~= ".scl"@);
    assert(".bzl"@[1] != ".scl"@[1]);
}

/// A label has a dialect exactly when it is some text with that dialect's suffix behind it.
pub proof fn law_only_the_two_suffixes_tell_a_dialect(label: Seq<char>)
    ensures
        dialect_of_label(label) == Some(Dialect::Bzl) <==> exists|stem: Seq<char>|
            label == #[trigger] (stem + ".bzl"@),
        dialect_of_label(label) == Some(Dialect::Scl) <==> exists|stem: Seq<char>|
            label == #[trigger] (stem + ".scl"@),
{
    text::law_suffix_stands_at_the_end(".bzl"@, label);
    text::law_suffix_stands_at_the_end(".scl"@, label);
    if text::is_suffix(".bzl"@, label) && text::is_suffix(".scl"@, label) {
        reveal_strlit(".bzl");
        reveal_strlit(".scl");
        assert(".bzl"@[1] != ".scl"@[1]);
    }
}

impl Dialect {
    /// The stable code of the dialect.
    pub fn code(self) -> (c: u8)
        ensures
            c == dialect_code(self),
    {
        match self {
            Dialect::Bzl => 0,
            Dialect::Scl => 1,
        }
    }

    /// The dialect with the given code; `None` for a code that no dialect has.
    pub fn from_code(c: u8) -> (r: Option<Dialect>)
        ensures
            r == dialect_of_code(c),
    {
        match c {
            0 => Some(Dialect::Bzl),
            1 => Some(Dialect::Scl),
            _ => None,
        }
    }

    /// The dialect that the end of a label or a path tells; `None`, never a default, for any other end.
    pub fn from_label_suffix(label: &str) -> (r: Option<Dialect>)
        ensures
            r == dialect_of_label(label@),
    {
        if ends_with(label, ".bzl") {
            Some(Dialect::Bzl)
        } else if ends_with(label, ".scl") {
            Some(Dialect::Scl)
        } else {
            None
        }
    }
}

/// The environments. That of BUILD files is among them, and belongs to no load kind.
/// The code of an environment is what `code` gives: it counts from one, the place in this list from zero.
#[derive(Clone, Copy, PartialEq, Eq, Hash, PartialOrd, Ord, Debug, Structural)]
pub enum EnvTag {
    EnvBuildBzl,
    EnvBuiltinsBzl,
    EnvBzlmodBzl,
    EnvBzlmodBootstrapBzl,
    EnvScl,
    EnvBuildFile,
}

/// The code of an environment. A code never changes once it is given.
pub open spec fn tag_code(t: EnvTag) -> u8 {
    match t {
        EnvTag::EnvBuildBzl => 1,
        EnvTag::EnvBuiltinsBzl => 2,
        EnvTag::EnvBzlmodBzl => 3,
        EnvTag::EnvBzlmodBootstrapBzl => 4,
        EnvTag::EnvScl => 5,
        EnvTag::EnvBuildFile => 6,
    }
}

/// The environment that has the code `c`.
pub open spec fn tag_of_code(c: u8) -> Option<EnvTag> {
    match c {
        1 => Some(EnvTag::EnvBuildBzl),
        2 => Some(EnvTag::EnvBuiltinsBzl),
        3 => Some(EnvTag::EnvBzlmodBzl),
        4 => Some(EnvTag::EnvBzlmodBootstrapBzl),
        5 => Some(EnvTag::EnvScl),
        6 => Some(EnvTag::EnvBuildFile),
        _ => None,
    }
}

/// Environments and their codes determine each other.
pub proof fn law_tag_codes_round_trip(t: EnvTag, c: u8)
    ensures
        tag_of_code(tag_code(t)) == Some(t),
        tag_of_code(c) == Some(t) ==> tag_code(t) == c,
        tag_of_code(c) is None <==> c == 0 || c > 6,
{
}

impl EnvTag {
    /// The stable code of the environment.
    pub fn code(self) -> (c: u8)
        ensures
            c == tag_code(self),
    {
        match self {
            EnvTag::EnvBuildBzl => 1,
            EnvTag::EnvBuiltinsBzl => 2,
            EnvTag::EnvBzlmodBzl => 3,
            EnvTag::EnvBzlmodBootstrapBzl => 4,
            EnvTag::EnvScl => 5,
            EnvTag::EnvBuildFile => 6,
        }
    }

    /// The environment with the given code; `None` for a code that no environment has.
    pub fn from_code(c: u8) -> (r: Option<EnvTag>)
        ensures
            r == tag_of_code(c),
    {
        match c {
            1 => Some(EnvTag::EnvBuildBzl),
            2 => Some(EnvTag::EnvBuiltinsBzl),
            3 => Some(EnvTag::EnvBzlmodBzl),
            4 => Some(EnvTag::EnvBzlmodBootstrapBzl),
            5 => Some(EnvTag::EnvScl),
            6 => Some(EnvTag::EnvBuildFile),
            _ => None,
        }
    }
}

/// What an evaluation is told of its environment. The evaluation of a BUILD file is told nothing: it has one
/// environment of its own.
#[derive(Clone, Copy, PartialEq, Eq, Debug)]
pub struct EvalEnv {
    pub load_kind: LoadKind,
    pub dialect: Dialect,
    pub semantics: StarlarkSemanticsId,
    pub type_options: TypeOptions,
}

impl View for EvalEnv {
    type V = EnvModel;

    open spec fn view(&self) -> EnvModel {
        EnvModel {
            load_kind: self.load_kind,
            dialect: self.dialect,
            semantics: self.semantics@,
            type_options: self.type_options,
        }
    }
}

/// The environment of a `.bzl` that is loaded for a BUILD file, under the first semantics and with no type
/// option on.
pub open spec fn build_bzl_env() -> EnvModel {
    EnvModel {
        load_kind: LoadKind::Build { is_prelude: false },
        dialect: Dialect::Bzl,
        semantics: semantics::first_semantics(),
        type_options: semantics::no_type_options(),
    }
}

/// What an evaluation is told when nothing else is said: a `.bzl` that is loaded for a BUILD file and is no
/// prelude, the fingerprint of the default configuration, and no type option on.
pub proof fn law_default_environment()
    ensures
        build_bzl_env().load_kind == (LoadKind::Build { is_prelude: false }),
        build_bzl_env().dialect == Dialect::Bzl,
        build_bzl_env().semantics == semantics::first_semantics(),
        !build_bzl_env().type_options.use_type_syntax,
        !build_bzl_env().type_options.static_checks,
        !build_bzl_env().type_options.dynamic_checks,
{
}

impl EvalEnv {
    /// The environment of a `.bzl` that is loaded for a BUILD file, under the first semantics and with no
    /// type option on.
    pub fn build_bzl_v1() -> (env: EvalEnv)
        ensures
            env@ == build_bzl_env(),
    {
        EvalEnv {
            load_kind: LoadKind::Build { is_prelude: false },
            dialect: Dialect::Bzl,
            semantics: StarlarkSemanticsId::v1(),
            type_options: TypeOptions::default(),
        }
    }
}

impl Default for EvalEnv {
    /// The environment of [`EvalEnv::build_bzl_v1`].
    fn default() -> (env: EvalEnv)
        ensures
            env@ == build_bzl_env(),
    {
        EvalEnv::build_bzl_v1()
    }
}

} // verus!
