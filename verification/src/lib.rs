//! The seam between a build engine and the evaluation of Starlark.
//!
//! A `.bzl` file is evaluated by a [`BzlEvaluator`], and what comes out is a [`BzlModule`]: its exported
//! bindings, in a value model that no evaluator owns. The engine depends on this crate alone, never on the
//! evaluator that stands behind it.
//!
//! * [`values`] and [`provider`] hold the value model, and [`model`] the mathematical values behind it.
//! * [`codec`] encodes values, and [`encoding`] says what the bytes are. [`layout_laws`] holds the bytes of
//!   each kind of value, [`content_laws`] which parts of a value are content, and [`encoding_laws`] what the
//!   encoding as a whole tells apart.
//! * [`bytes`], [`digest`] and [`order`] hold what the encodings are made of; what holds of it stands in
//!   [`bytes_laws`], in [`digest_laws`] and in [`order`] itself.
//! * [`env`], [`semantics`] and [`predeclared`] hold the environments that files are evaluated in, and their
//!   identities; what holds of the identities stands in [`semantics_laws`] and [`predeclared_laws`].
//! * [`seam`] holds the evaluator's side, and [`conformance`] the questions that every evaluator has to
//!   answer in one way; [`verdicts`] holds the answers up to that, and [`verdict_laws`] says which answers
//!   pass.
//! * [`view_laws`] says what the mathematical value of each type holds.
//!
//! The set of values is closed: a new kind of value has to be handled wherever values are matched. Kinds of
//! errors may be added.

pub mod bytes;
pub mod bytes_laws;
pub mod codec;
pub mod conformance;
pub mod content_laws;
mod copy;
pub mod digest;
pub mod digest_laws;
pub mod encoding;
pub mod encoding_laws;
pub mod env;
pub mod layout_laws;
pub mod model;
pub mod order;
pub mod predeclared;
pub mod predeclared_laws;
pub mod provider;
pub mod seam;
pub mod semantics;
pub mod semantics_laws;
pub mod text;
pub mod values;
pub mod verdict_laws;
pub mod verdicts;
pub mod view_laws;

pub use codec::{encode_bzl_value, encode_provider_instance};
pub use env::{Dialect, EnvTag, EvalEnv, LoadKind};
pub use predeclared::{
    apply_builtins_injection, derive_predeclared_env_id, BuiltinsDigest, EnvEntry, PredeclaredEnvId,
};
pub use provider::{
    ActionTemplate, DepProviders, Depset, DepsetOrder, ModuleFileValue, ProviderDef, ProviderId,
    ProviderInstance, RepoDecl, ResolvedToolchain, RuleResult,
};
pub use seam::{BzlError, BzlEvaluator};
pub use semantics::{StarlarkFlagRegistry, StarlarkSemanticsId, TypeOptions, Utf8Enforcement};
pub use values::{
    AttrDecl, AttrType, BzlModule, BzlValue, FunctionRef, RuleDef, RuleOrigin, SelectArm, TargetDecl,
};
pub use verdicts::Verdict;
