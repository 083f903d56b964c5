//! The mathematical values behind the library's types: texts are sequences of characters, lists are
//! sequences, digests are sequences of bytes. The contracts of the library speak of these.

use vstd::prelude::*;
use crate::env::{Dialect, LoadKind};
use crate::provider::DepsetOrder;
use crate::semantics::{TypeOptions, Utf8Enforcement};
use crate::values::AttrType;

verus! {

/// A named value.
pub type FieldModel = (Seq<char>, ValueModel);

/// What a [`BzlValue`](crate::values::BzlValue) is.
pub enum ValueModel {
    Nil,
    Bool(bool),
    Int(i64),
    Str(Seq<char>),
    List(Seq<ValueModel>),
    Rule(RuleModel),
    Provider(ProviderModel),
    Depset(DepsetModel),
    File(Seq<char>),
    Struct(Seq<(Seq<char>, ValueModel)>),
    FunctionRef(FunctionModel),
    Label(Seq<char>),
    Dict(Seq<(ValueModel, ValueModel)>),
    AttrDecl(AttrDeclModel),
    Tuple(Seq<ValueModel>),
    Select(Seq<ArmModel>),
}

/// What a [`SelectArm`](crate::values::SelectArm) is.
pub enum ArmModel {
    Concrete(ValueModel),
    Branch { conditions: Seq<(Seq<char>, ValueModel)>, no_match_error: Seq<char> },
}

/// What a [`Depset`](crate::provider::Depset) is.
pub struct DepsetModel {
    pub order: DepsetOrder,
    pub elem: Option<Seq<char>>,
    pub direct: Seq<ValueModel>,
    pub transitive: Seq<DepsetModel>,
}

/// What a [`RuleDef`](crate::values::RuleDef) is.
pub struct RuleModel {
    pub bzl: Seq<char>,
    pub name: Seq<char>,
    pub attrs: Seq<(Seq<char>, AttrType)>,
    pub toolchains: Seq<Seq<char>>,
}

/// What a [`ProviderId`](crate::provider::ProviderId) is.
pub struct IdModel {
    pub name: Seq<char>,
    pub bzl: Option<Seq<char>>,
}

/// What a [`ProviderDef`](crate::provider::ProviderDef) is.
pub struct ProviderModel {
    pub id: IdModel,
    pub fields: Seq<Seq<char>>,
}

/// What an [`AttrDecl`](crate::values::AttrDecl) is.
pub struct AttrDeclModel {
    pub code: u8,
    pub allow_files: Option<Seq<Seq<char>>>,
    pub providers: Seq<Seq<char>>,
    pub mandatory: bool,
    pub default: Option<Seq<char>>,
}

/// What a [`FunctionRef`](crate::values::FunctionRef) is.
pub struct FunctionModel {
    pub module: Seq<char>,
    pub name: Seq<char>,
    pub defining_digest: Seq<u8>,
}

/// What a [`BzlModule`](crate::values::BzlModule) is.
pub struct ModuleModel {
    pub bindings: Seq<(Seq<char>, ValueModel)>,
}

/// What a [`RuleOrigin`](crate::values::RuleOrigin) is.
pub struct OriginModel {
    pub bzl: Seq<char>,
    pub name: Seq<char>,
}

/// What a [`TargetDecl`](crate::values::TargetDecl) is.
pub struct TargetModel {
    pub kind: Seq<char>,
    pub name: Seq<char>,
    pub attrs: Seq<(Seq<char>, ValueModel)>,
    pub origin: Option<OriginModel>,
}

/// What a [`ProviderInstance`](crate::provider::ProviderInstance) is.
pub struct InstanceModel {
    pub provider: IdModel,
    pub fields: Seq<(Seq<char>, ValueModel)>,
}

/// What a [`DepProviders`](crate::provider::DepProviders) is.
pub struct DepModel {
    pub label: Seq<char>,
    pub providers: Seq<InstanceModel>,
}

/// What a [`ResolvedToolchain`](crate::provider::ResolvedToolchain) is.
pub struct ToolchainModel {
    pub toolchain_type: Seq<char>,
    pub info: InstanceModel,
}

/// What an [`ActionTemplate`](crate::provider::ActionTemplate) is.
pub struct ActionModel {
    pub mnemonic: Seq<char>,
    pub argv: Seq<Seq<char>>,
    pub env: Seq<(Seq<char>, Seq<char>)>,
    pub inputs: Seq<Seq<char>>,
    pub outputs: Seq<Seq<char>>,
}

/// What a [`RuleResult`](crate::provider::RuleResult) is.
pub struct ResultModel {
    pub providers: Seq<InstanceModel>,
    pub actions: Seq<ActionModel>,
}

/// What a [`RepoDecl`](crate::provider::RepoDecl) is.
pub struct RepoModel {
    pub name: Seq<char>,
    pub path: Seq<char>,
    pub build_file: Option<Seq<char>>,
}

/// What a [`ModuleFileValue`](crate::provider::ModuleFileValue) is.
pub struct ModuleFileModel {
    pub module_name: Seq<char>,
    pub registered_toolchains: Seq<Seq<char>>,
    pub repos: Seq<RepoModel>,
}

/// What an [`EnvEntry`](crate::predeclared::EnvEntry) is.
pub struct EntryModel {
    pub name: Seq<char>,
    pub identity: Seq<char>,
    pub version: Seq<char>,
}

/// What an [`EvalEnv`](crate::env::EvalEnv) is.
pub struct EnvModel {
    pub load_kind: LoadKind,
    pub dialect: Dialect,
    pub semantics: Seq<u8>,
    pub type_options: TypeOptions,
}

/// What a [`StarlarkFlagRegistry`](crate::semantics::StarlarkFlagRegistry) is.
pub struct RegistryModel {
    pub scl_enabled: bool,
    pub bzl_visibility_enabled: bool,
    pub check_bzl_visibility: bool,
    pub utf8_enforcement: Utf8Enforcement,
    pub type_options: TypeOptions,
    pub type_syntax_allowlist: Seq<Seq<char>>,
}

/// What a [`BzlError`](crate::seam::BzlError) is.
pub enum ErrorModel {
    Parse { detail: Seq<char> },
    Eval { detail: Seq<char> },
    Unsupported { what: Seq<char> },
}

/// The value bound to the first field of the given name.
pub open spec fn lookup(fields: Seq<(Seq<char>, ValueModel)>, name: Seq<char>) -> Option<ValueModel>
    decreases fields.len(),
{
    if fields.len() == 0 {
        None
    } else if fields[0].0 == name {
        Some(fields[0].1)
    } else {
        lookup(fields.drop_first(), name)
    }
}

/// A lookup finds the first field of the name, wherever it stands, and nothing exactly where no field has the
/// name.
pub proof fn law_lookup_finds_the_first(
    fields: Seq<(Seq<char>, ValueModel)>,
    name: Seq<char>,
    i: int,
)
    ensures
        0 <= i < fields.len() && fields[i].0 == name && (forall|j: int|
            0 <= j < i ==> (#[trigger] fields[j]).0 != name) ==> lookup(fields, name) == Some(
            fields[i].1,
        ),
        lookup(fields, name) is None <==> forall|j: int|
            0 <= j < fields.len() ==> (#[trigger] fields[j]).0 != name,
    decreases fields.len(),
{
    if fields.len() > 0 {
        let rest = fields.drop_first();
        law_lookup_finds_the_first(rest, name, i - 1);
        if fields[0].0 != name {
            if 0 <= i < fields.len() && fields[i].0 == name && (forall|j: int|
                0 <= j < i ==> (#[trigger] fields[j]).0 != name) {
                assert(rest[i - 1] == fields[i]);
                assert forall|j: int| 0 <= j < i - 1 implies (#[trigger] rest[j]).0 != name by {
                    assert(rest[j] == fields[j + 1]);
                }
            }
            assert((forall|j: int| 0 <= j < rest.len() ==> (#[trigger] rest[j]).0 != name) <==> (
            forall|j: int| 0 <= j < fields.len() ==> (#[trigger] fields[j]).0 != name)) by {
                if forall|j: int| 0 <= j < rest.len() ==> (#[trigger] rest[j]).0 != name {
                    assert forall|j: int| 0 <= j < fields.len() implies (#[trigger] fields[j]).0
                        != name by {
                        if j > 0 {
                            assert(rest[j - 1] == fields[j]);
                        }
                    }
                }
                if forall|j: int| 0 <= j < fields.len() ==> (#[trigger] fields[j]).0 != name {
                    assert forall|j: int| 0 <= j < rest.len() implies (#[trigger] rest[j]).0
                        != name by {
                        assert(rest[j] == fields[j + 1]);
                    }
                }
            }
        }
    }
}

/// What an optional borrowed value is.
pub open spec fn found<T: View + ?Sized>(v: Option<&T>) -> Option<T::V> {
    match v {
        None => None,
        Some(x) => Some(x@),
    }
}

/// What the outcome of a fallible operation is.
pub open spec fn outcome<T: View, F: View>(r: Result<T, F>) -> Result<T::V, F::V> {
    match r {
        Ok(x) => Ok(x@),
        Err(e) => Err(e@),
    }
}

} // verus!
