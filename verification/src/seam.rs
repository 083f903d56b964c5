//! The seam between the engine and whatever evaluates Starlark.

use vstd::prelude::*;
use crate::bytes;
use crate::env::{Dialect, EvalEnv, LoadKind};
use crate::model;
use crate::model::{
    DepModel, EnvModel, ErrorModel, ModuleModel, ResultModel, TargetModel, ToolchainModel, ValueModel,
};
use crate::predeclared::PredeclaredEnvId;
use crate::provider::{DepProviders, ResolvedToolchain, RuleResult};
use crate::values;
use crate::values::{BzlModule, BzlValue, TargetDecl};

verus! {

/// Why an evaluation failed. An evaluator fails with one of these; it neither panics nor falls back on a
/// default.
#[derive(PartialEq, Eq, Debug)]
#[non_exhaustive]
pub enum BzlError {
    /// The source does not parse.
    Parse { detail: String },
    /// The source parses, and its evaluation fails.
    Eval { detail: String },
    /// The value model has no counterpart for what the source does.
    Unsupported { what: String },
}

impl View for BzlError {
    type V = ErrorModel;

    open spec fn view(&self) -> ErrorModel {
        match self {
            BzlError::Parse { detail } => ErrorModel::Parse { detail: detail@ },
            BzlError::Eval { detail } => ErrorModel::Eval { detail: detail@ },
            BzlError::Unsupported { what } => ErrorModel::Unsupported { what: what@ },
        }
    }
}

impl Clone for BzlError {
    fn clone(&self) -> (r: Self)
        ensures
            r@ == self@,
    {
        match self {
            BzlError::Parse { detail } => BzlError::Parse { detail: detail.clone() },
            BzlError::Eval { detail } => BzlError::Eval { detail: detail.clone() },
            BzlError::Unsupported { what } => BzlError::Unsupported { what: what.clone() },
        }
    }
}

/// The modules that a list of load targets and modules is.
pub open spec fn loaded_of(loaded: Seq<(String, BzlModule)>) -> Seq<(Seq<char>, ModuleModel)> {
    loaded.map_values(|l: (String, BzlModule)| (l.0@, l.1@))
}

/// What the dependencies of a target publish.
pub open spec fn deps_of(deps: Seq<DepProviders>) -> Seq<DepModel> {
    deps.map_values(|d: DepProviders| d@)
}

/// The toolchains that a list of resolved toolchains is.
pub open spec fn toolchains_of(list: Seq<ResolvedToolchain>) -> Seq<ToolchainModel> {
    list.map_values(|t: ResolvedToolchain| t@)
}

/// What the load targets of a source are, or why there are none.
pub open spec fn texts_outcome(r: Result<Vec<String>, BzlError>) -> Result<
    Seq<Seq<char>>,
    ErrorModel,
> {
    match r {
        Ok(list) => Ok(bytes::texts(list@)),
        Err(e) => Err(e@),
    }
}

/// What the targets of a BUILD file are, or why there are none.
pub open spec fn targets_outcome(r: Result<Vec<TargetDecl>, BzlError>) -> Result<
    Seq<TargetModel>,
    ErrorModel,
> {
    match r {
        Ok(list) => Ok(list@.map_values(|t: TargetDecl| t@)),
        Err(e) => Err(e@),
    }
}

/// An evaluator of Starlark. It reads no file: the caller hands it the source, and the modules that the
/// source loads, so that the engine owns the graph of dependencies.
///
/// An evaluator is a function of what it is handed: the same evaluator answers the same question alike, every
/// time. The specification functions are those answers, and each method gives the answer that stands for it.
/// An evaluator promises nothing more: which answers it gives is what the
/// [`conformance`](crate::conformance) suite looks at. An evaluator that is verified itself says what its
/// answers are; by default they are a function of the evaluator and the question, of which nothing is known.
pub trait BzlEvaluator: Send + Sync {
    /// The load targets of a source.
    open spec fn loads(&self, source: Seq<char>) -> Result<Seq<Seq<char>>, ErrorModel> {
        arbitrary::<spec_fn(&Self, Seq<char>) -> Result<Seq<Seq<char>>, ErrorModel>>()(
            self,
            source,
        )
    }

    /// The identity of the environment of a load kind and a dialect.
    open spec fn env_id(&self, kind: LoadKind, dialect: Dialect) -> Result<Seq<u8>, ErrorModel> {
        arbitrary::<spec_fn(&Self, LoadKind, Dialect) -> Result<Seq<u8>, ErrorModel>>()(
            self,
            kind,
            dialect,
        )
    }

    /// The module that a source evaluates to.
    open spec fn module(
        &self,
        env: EnvModel,
        module_name: Seq<char>,
        source: Seq<char>,
        loaded: Seq<(Seq<char>, ModuleModel)>,
    ) -> Result<ModuleModel, ErrorModel> {
        arbitrary::<
            spec_fn(&Self, EnvModel, Seq<char>, Seq<char>, Seq<(Seq<char>, ModuleModel)>) -> Result<
                ModuleModel,
                ErrorModel,
            >,
        >()(self, env, module_name, source, loaded)
    }

    /// The targets that a BUILD file instantiates.
    open spec fn targets(
        &self,
        package_name: Seq<char>,
        source: Seq<char>,
        loaded: Seq<(Seq<char>, ModuleModel)>,
    ) -> Result<Seq<TargetModel>, ErrorModel> {
        arbitrary::<
            spec_fn(&Self, Seq<char>, Seq<char>, Seq<(Seq<char>, ModuleModel)>) -> Result<
                Seq<TargetModel>,
                ErrorModel,
            >,
        >()(self, package_name, source, loaded)
    }

    /// What a rule's implementation publishes and declares.
    open spec fn rule_result(
        &self,
        env: EnvModel,
        rule_source: Seq<char>,
        rule_module_name: Seq<char>,
        rule_name: Seq<char>,
        loaded: Seq<(Seq<char>, ModuleModel)>,
        label: Seq<char>,
        attrs: Seq<(Seq<char>, ValueModel)>,
        deps: Seq<DepModel>,
        toolchains: Seq<ToolchainModel>,
    ) -> Result<ResultModel, ErrorModel> {
        arbitrary::<
            spec_fn(
                &Self,
                EnvModel,
                Seq<char>,
                Seq<char>,
                Seq<char>,
                Seq<(Seq<char>, ModuleModel)>,
                Seq<char>,
                Seq<(Seq<char>, ValueModel)>,
                Seq<DepModel>,
                Seq<ToolchainModel>,
            ) -> Result<ResultModel, ErrorModel>,
        >()(
            self,
            env,
            rule_source,
            rule_module_name,
            rule_name,
            loaded,
            label,
            attrs,
            deps,
            toolchains,
        )
    }

    /// The load targets of a source, in the order of their declaration: of each `load(...)`, the first
    /// argument. The source is parsed and not evaluated.
    fn load_targets(&self, source: &str) -> (r: Result<Vec<String>, BzlError>)
        ensures
            texts_outcome(r) == self.loads(source@),
    ;

    /// The identity of the environment that this evaluator has for a load kind and a dialect. An environment
    /// that it has not built is an error, never a default.
    fn predeclared_env_id(&self, kind: &LoadKind, dialect: Dialect) -> (r: Result<
        PredeclaredEnvId,
        BzlError,
    >)
        ensures
            model::outcome(r) == self.env_id(*kind, dialect),
    ;

    /// Evaluates a source to its exports in the environment `env`. `loaded` holds, for each load target, the
    /// module that it evaluated to.
    fn evaluate(
        &self,
        env: &EvalEnv,
        module_name: &str,
        source: &str,
        loaded: &[(String, BzlModule)],
    ) -> (r: Result<BzlModule, BzlError>)
        ensures
            model::outcome(r) == self.module(env@, module_name@, source@, loaded_of(loaded@)),
    ;

    /// Evaluates a BUILD file to the targets that it instantiates, in the order of their declaration. No rule
    /// is run. Two targets of one name are an error.
    fn evaluate_build(
        &self,
        package_name: &str,
        source: &str,
        loaded: &[(String, BzlModule)],
    ) -> (r: Result<Vec<TargetDecl>, BzlError>)
        ensures
            targets_outcome(r) == self.targets(package_name@, source@, loaded_of(loaded@)),
    ;

    /// Runs the implementation of the rule `rule_name`, which `rule_source` defines, for the target `label`.
    /// `attrs` are the target's attribute values; `deps` holds, by label, what each dependency publishes, and
    /// `toolchains` the toolchains that were resolved.
    fn evaluate_rule(
        &self,
        env: &EvalEnv,
        rule_source: &str,
        rule_module_name: &str,
        rule_name: &str,
        loaded: &[(String, BzlModule)],
        label: &str,
        attrs: &[(String, BzlValue)],
        deps: &[DepProviders],
        toolchains: &[ResolvedToolchain],
    ) -> (r: Result<RuleResult, BzlError>)
        ensures
            model::outcome(r) == self.rule_result(
                env@,
                rule_source@,
                rule_module_name@,
                rule_name@,
                loaded_of(loaded@),
                label@,
                values::fields_of(attrs@),
                deps_of(deps@),
                toolchains_of(toolchains@),
            ),
    ;
}

} // verus!
