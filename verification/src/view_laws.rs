//! What the mathematical values of the library's types hold: each member of a value, each item of a list and
//! each character of a text, in its place.

use vstd::prelude::*;
use crate::bytes;
use crate::env::EvalEnv;
use crate::model;
use crate::model::{ArmModel, ErrorModel, ValueModel};
use crate::predeclared::{BuiltinsDigest, EnvEntry, PredeclaredEnvId};
use crate::provider;
use crate::provider::{
    ActionTemplate, DepProviders, Depset, ModuleFileValue, ProviderDef, ProviderId, ProviderInstance,
    RepoDecl, ResolvedToolchain, RuleResult,
};
use crate::seam;
use crate::seam::BzlError;
use crate::semantics::{StarlarkFlagRegistry, StarlarkSemanticsId};
use crate::values;
use crate::values::{
    AttrDecl, AttrType, BzlModule, BzlValue, FunctionRef, RuleDef, RuleOrigin, SelectArm, TargetDecl,
};

verus! {

// ---- values ----

/// A value is of the kind of its variant and holds what the variant holds, item by item.
pub proof fn law_value_view(v: BzlValue)
    ensures
        match v {
            BzlValue::Nil => v@ == ValueModel::Nil,
            BzlValue::Bool(x) => v@ == ValueModel::Bool(x),
            BzlValue::Int(i) => v@ == ValueModel::Int(i),
            BzlValue::Str(s) => v@ == ValueModel::Str(s@),
            BzlValue::List(items) => v@ == ValueModel::List(
                items@.map_values(|x: BzlValue| x@),
            ),
            BzlValue::Rule(r) => v@ == ValueModel::Rule(r@),
            BzlValue::Provider(p) => v@ == ValueModel::Provider(p@),
            BzlValue::Depset(d) => v@ == ValueModel::Depset(d@),
            BzlValue::File(p) => v@ == ValueModel::File(p@),
            BzlValue::Struct(fields) => v@ == ValueModel::Struct(
                fields@.map_values(|f: (String, BzlValue)| (f.0@, f.1@)),
            ),
            BzlValue::FunctionRef(f) => v@ == ValueModel::FunctionRef(f@),
            BzlValue::Label(s) => v@ == ValueModel::Label(s@),
            BzlValue::Dict(pairs) => v@ == ValueModel::Dict(
                pairs@.map_values(|p: (BzlValue, BzlValue)| (p.0@, p.1@)),
            ),
            BzlValue::AttrDecl(a) => v@ == ValueModel::AttrDecl(a@),
            BzlValue::Tuple(items) => v@ == ValueModel::Tuple(
                items@.map_values(|x: BzlValue| x@),
            ),
            BzlValue::Select(arms) => v@ == ValueModel::Select(
                arms@.map_values(|a: SelectArm| a@),
            ),
        },
{
    values::lemma_value_view(v);
}

/// An arm is of the kind of its variant and holds what the variant holds.
pub proof fn law_arm_view(arm: SelectArm)
    ensures
        match arm {
            SelectArm::Concrete(v) => arm@ == ArmModel::Concrete(v@),
            SelectArm::Branch { conditions, no_match_error } => arm@ == (ArmModel::Branch {
                conditions: conditions@.map_values(|f: (String, BzlValue)| (f.0@, f.1@)),
                no_match_error: no_match_error@,
            }),
        },
{
    values::lemma_arm_view(arm);
}

/// A depset holds its order, the type of its elements, its own values and the depsets below it.
pub proof fn law_depset_view(d: Depset)
    ensures
        d@.order == d.order,
        d@.elem == bytes::opt_text(d.elem),
        d@.direct == d.direct@.map_values(|v: BzlValue| v@),
        d@.transitive == d.transitive@.map_values(|t: Depset| t@),
{
    provider::lemma_depset_view(d);
}

/// A rule holds its module, its name, its attributes and its toolchain types.
pub proof fn law_rule_view(r: RuleDef)
    ensures
        r@.bzl == r.bzl@,
        r@.name == r.name@,
        r@.attrs == r.attrs@.map_values(|a: (String, AttrType)| (a.0@, a.1)),
        r@.toolchains == bytes::texts(r.toolchains@),
{
}

/// An attribute declaration, a function and the origin of a rule hold each of their members.
pub proof fn law_declaration_views(a: AttrDecl, f: FunctionRef, o: RuleOrigin)
    ensures
        a@.code == a.code,
        a@.allow_files == bytes::opt_texts(a.allow_files),
        a@.providers == bytes::texts(a.providers@),
        a@.mandatory == a.mandatory,
        a@.default == bytes::opt_text(a.default),
        f@.module == f.module@,
        f@.name == f.name@,
        f@.defining_digest == f.defining_digest@,
        o@.bzl == o.bzl@,
        o@.name == o.name@,
{
}

/// A module holds its bindings, and a target its kind, its name, its attributes and the origin of its rule.
pub proof fn law_module_and_target_views(m: BzlModule, t: TargetDecl)
    ensures
        m@.bindings == m.bindings@.map_values(|f: (String, BzlValue)| (f.0@, f.1@)),
        t@.kind == t.kind@,
        t@.name == t.name@,
        t@.attrs == t.attrs@.map_values(|f: (String, BzlValue)| (f.0@, f.1@)),
        t.origin is None ==> t@.origin is None,
        t.origin matches Some(o) ==> t@.origin == Some(o@),
{
}

// ---- providers and what analysis hands on ----

/// An identity holds the name and the defining module, a provider type its identity and its fields, and an
/// instance its provider and its named values.
pub proof fn law_provider_views(id: ProviderId, d: ProviderDef, p: ProviderInstance)
    ensures
        id@.name == id.name@,
        id@.bzl == bytes::opt_text(id.bzl),
        d@.id == d.id@,
        d@.fields == bytes::texts(d.fields@),
        p@.provider == p.provider@,
        p@.fields == p.fields@.map_values(|f: (String, BzlValue)| (f.0@, f.1@)),
{
}

/// A dependency holds its label and what it publishes, and a toolchain its type and what it carries.
pub proof fn law_dependency_views(d: DepProviders, t: ResolvedToolchain)
    ensures
        d@.label == d.label@,
        d@.providers == d.providers@.map_values(|p: ProviderInstance| p@),
        t@.toolchain_type == t.toolchain_type@,
        t@.info == t.info@,
{
}

/// An action holds its mnemonic, its command line, its settings, its inputs and its outputs, and a result its
/// providers and its actions.
pub proof fn law_result_views(a: ActionTemplate, r: RuleResult)
    ensures
        a@.mnemonic == a.mnemonic@,
        a@.argv == bytes::texts(a.argv@),
        a@.env == a.env@.map_values(|e: (String, String)| (e.0@, e.1@)),
        a@.inputs == bytes::texts(a.inputs@),
        a@.outputs == bytes::texts(a.outputs@),
        r@.providers == r.providers@.map_values(|p: ProviderInstance| p@),
        r@.actions == r.actions@.map_values(|x: ActionTemplate| x@),
{
}

/// A repository holds its name, its path and its BUILD file, and a module file its name, its toolchains and
/// its repositories.
pub proof fn law_module_file_views(r: RepoDecl, m: ModuleFileValue)
    ensures
        r@.name == r.name@,
        r@.path == r.path@,
        r@.build_file == bytes::opt_text(r.build_file),
        m@.module_name == m.module_name@,
        m@.registered_toolchains == bytes::texts(m.registered_toolchains@),
        m@.repos == m.repos@.map_values(|x: RepoDecl| x@),
{
}

// ---- environments ----

/// An entry holds its three members, an environment its four and a configuration its six, and the digests
/// hold their bytes.
pub proof fn law_environment_views(
    entry: EnvEntry,
    env: EvalEnv,
    flags: StarlarkFlagRegistry,
    builtins: BuiltinsDigest,
    id: PredeclaredEnvId,
    semantics: StarlarkSemanticsId,
)
    ensures
        entry@.name == entry.name@,
        entry@.identity == entry.identity@,
        entry@.version == entry.version@,
        env@.load_kind == env.load_kind,
        env@.dialect == env.dialect,
        env@.semantics == env.semantics@,
        env@.type_options == env.type_options,
        flags@.scl_enabled == flags.scl_enabled,
        flags@.bzl_visibility_enabled == flags.bzl_visibility_enabled,
        flags@.check_bzl_visibility == flags.check_bzl_visibility,
        flags@.utf8_enforcement == flags.utf8_enforcement,
        flags@.type_options == flags.type_options,
        flags@.type_syntax_allowlist == bytes::texts(flags.type_syntax_allowlist@),
        builtins@ == builtins.0@,
        id@ == id.0@,
        semantics@ == semantics.0@,
{
}

// ---- what goes to an evaluator and comes back ----

/// An error is of the kind of its variant, and holds its text.
pub proof fn law_error_view(e: BzlError)
    ensures
        e matches BzlError::Parse { detail } ==> e@ == (ErrorModel::Parse { detail: detail@ }),
        e matches BzlError::Eval { detail } ==> e@ == (ErrorModel::Eval { detail: detail@ }),
        e matches BzlError::Unsupported { what } ==> e@ == (ErrorModel::Unsupported {
            what: what@,
        }),
{
}

/// What is found and what comes out is what is there: nothing for nothing, and an error for an error.
pub proof fn law_outcomes<T: View, F: View>(v: T, e: F)
    ensures
        model::found::<T>(None) is None,
        model::found(Some(&v)) == Some(v@),
        model::outcome::<T, F>(Ok(v)) == Ok::<T::V, F::V>(v@),
        model::outcome::<T, F>(Err(e)) == Err::<T::V, F::V>(e@),
{
}

/// Load targets come back text by text, and the targets of a BUILD file target by target.
pub proof fn law_list_outcomes(texts: Vec<String>, targets: Vec<TargetDecl>, e: BzlError)
    ensures
        seam::texts_outcome(Ok(texts)) == Ok::<Seq<Seq<char>>, ErrorModel>(
            texts@.map_values(|s: String| s@),
        ),
        seam::texts_outcome(Err(e)) == Err::<Seq<Seq<char>>, ErrorModel>(e@),
        seam::targets_outcome(Ok(targets)) == Ok::<Seq<model::TargetModel>, ErrorModel>(
            targets@.map_values(|t: TargetDecl| t@),
        ),
        seam::targets_outcome(Err(e)) == Err::<Seq<model::TargetModel>, ErrorModel>(e@),
{
}

/// An evaluator is handed every module, every named value, every dependency and every toolchain, in the given
/// order.
pub proof fn law_lists_are_handed_over_whole(
    loaded: Seq<(String, BzlModule)>,
    fields: Seq<(String, BzlValue)>,
    deps: Seq<DepProviders>,
    toolchains: Seq<ResolvedToolchain>,
)
    ensures
        seam::loaded_of(loaded) == loaded.map_values(|l: (String, BzlModule)| (l.0@, l.1@)),
        values::fields_of(fields) == fields.map_values(|f: (String, BzlValue)| (f.0@, f.1@)),
        seam::deps_of(deps) == deps.map_values(|d: DepProviders| d@),
        seam::toolchains_of(toolchains) == toolchains.map_values(|t: ResolvedToolchain| t@),
{
}

} // verus!
