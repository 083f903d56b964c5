//! The conformance suite: what every evaluator must do.
//!
//! Each function puts a question to an evaluator and gives its verdict on the answer. Where there is more
//! than one question, the next is put only when the answer to the last was right.

use vstd::prelude::*;
use crate::bytes;
use crate::env;
use crate::env::EvalEnv;
use crate::model;
use crate::model::{
    DepModel, ErrorModel, IdModel, InstanceModel, ModuleModel, ResultModel, RuleModel, ValueModel,
};
use crate::provider;
use crate::provider::{DepProviders, ProviderId, ProviderInstance, ResolvedToolchain, RuleResult};
use crate::seam;
use crate::seam::{BzlError, BzlEvaluator};
use crate::values;
use crate::values::{AttrType, BzlModule, BzlValue, RuleDef};
use crate::verdicts;
use crate::verdicts::{
    check_action_declaration, check_aliased_declaration, check_basic_bindings, check_build_fails,
    check_declared_twice_for_rule, check_declared_twice_in_module, check_duplicate_name,
    check_duplicate_result, check_function_reference, check_load_targets, check_loaded_constant,
    check_loaded_symbol, check_module_fails, check_no_reexport, check_parse_error, check_rule_call,
    check_rule_definition, check_rule_evaluation, check_rule_fails, check_target_instantiation,
    check_unsupported_value, Verdict,
};

verus! {

// ---- what the questions are made of ----

/// No loaded module.
pub open spec fn nothing_loaded() -> Seq<(Seq<char>, ModuleModel)> {
    seq![]
}

/// One loaded module with one binding.
pub open spec fn loaded_binding(
    target: Seq<char>,
    name: Seq<char>,
    value: ValueModel,
) -> Seq<(Seq<char>, ModuleModel)> {
    seq![(target, ModuleModel { bindings: seq![(name, value)] })]
}

/// The rule `my_rule` of `pkg/rules.bzl` with the given attributes.
pub open spec fn my_rule(attrs: Seq<(Seq<char>, AttrType)>) -> ValueModel {
    ValueModel::Rule(
        RuleModel { bzl: "pkg/rules.bzl"@, name: "my_rule"@, attrs, toolchains: seq![] },
    )
}

/// A dependency that publishes one `NumberInfo` with the given total.
pub open spec fn number_dep(label: Seq<char>, bzl: Option<Seq<char>>, total: i64) -> DepModel {
    DepModel {
        label,
        providers: seq![
            InstanceModel {
                provider: IdModel { name: "NumberInfo"@, bzl },
                fields: seq![("total"@, ValueModel::Int(total))],
            },
        ],
    }
}

fn load_nothing() -> (r: Vec<(String, BzlModule)>)
    ensures
        seam::loaded_of(r@) == nothing_loaded(),
{
    let r: Vec<(String, BzlModule)> = Vec::new();
    assert(seam::loaded_of(r@) =~= nothing_loaded());
    r
}

fn load_binding(target: &str, name: &str, value: BzlValue) -> (r: Vec<(String, BzlModule)>)
    ensures
        seam::loaded_of(r@) == loaded_binding(target@, name@, value@),
{
    let ghost v = value@;
    let mut bindings: Vec<(String, BzlValue)> = Vec::new();
    bindings.push((name.to_string(), value));
    assert(values::fields_of(bindings@) =~= seq![(name@, v)]);
    let mut r: Vec<(String, BzlModule)> = Vec::new();
    r.push((target.to_string(), BzlModule { bindings }));
    assert(seam::loaded_of(r@) =~= loaded_binding(target@, name@, v));
    r
}

fn one_text(s: &str) -> (v: BzlValue)
    ensures
        v@ == verdicts::text_list(s@),
{
    let mut items: Vec<BzlValue> = Vec::new();
    items.push(BzlValue::Str(s.to_string()));
    let v = BzlValue::List(items);
    proof {
        values::lemma_value_view(v);
        assert(values::values_of(items@) =~= seq![ValueModel::Str(s@)]);
    }
    v
}

fn two_texts(s: &str, t: &str) -> (v: BzlValue)
    ensures
        v@ == ValueModel::List(seq![ValueModel::Str(s@), ValueModel::Str(t@)]),
{
    let mut items: Vec<BzlValue> = Vec::new();
    items.push(BzlValue::Str(s.to_string()));
    items.push(BzlValue::Str(t.to_string()));
    let v = BzlValue::List(items);
    proof {
        values::lemma_value_view(v);
        assert(values::values_of(items@) =~= seq![ValueModel::Str(s@), ValueModel::Str(t@)]);
    }
    v
}

fn make_my_rule(attrs: Vec<(String, AttrType)>) -> (v: BzlValue)
    ensures
        v@ == my_rule(values::schema_of(attrs@)),
{
    let toolchains: Vec<String> = Vec::new();
    assert(bytes::texts(toolchains@) =~= Seq::<Seq<char>>::empty());
    BzlValue::Rule(
        RuleDef {
            bzl: "pkg/rules.bzl".to_string(),
            name: "my_rule".to_string(),
            attrs,
            toolchains,
        },
    )
}

fn one_attr_schema(name: &str, t: AttrType) -> (attrs: Vec<(String, AttrType)>)
    ensures
        values::schema_of(attrs@) == seq![(name@, t)],
{
    let mut attrs: Vec<(String, AttrType)> = Vec::new();
    attrs.push((name.to_string(), t));
    assert(values::schema_of(attrs@) =~= seq![(name@, t)]);
    attrs
}

fn number_info(id: ProviderId, total: i64) -> (p: ProviderInstance)
    ensures
        p@ == (InstanceModel {
            provider: id@,
            fields: seq![("total"@, ValueModel::Int(total))],
        }),
{
    let mut fields: Vec<(String, BzlValue)> = Vec::new();
    fields.push(("total".to_string(), BzlValue::Int(total)));
    assert(values::fields_of(fields@) =~= seq![("total"@, ValueModel::Int(total))]);
    ProviderInstance { provider: id, fields }
}

fn make_dep(label: &str, p: ProviderInstance) -> (d: DepProviders)
    ensures
        d@ == (DepModel { label: label@, providers: seq![p@] }),
{
    let mut providers: Vec<ProviderInstance> = Vec::new();
    let ghost q = p@;
    providers.push(p);
    assert(provider::instances_of(providers@) =~= seq![q]);
    DepProviders { label: label.to_string(), providers }
}

fn one_dep(d: DepProviders) -> (r: Vec<DepProviders>)
    ensures
        seam::deps_of(r@) == seq![d@],
{
    let mut r: Vec<DepProviders> = Vec::new();
    r.push(d);
    assert(seam::deps_of(r@) =~= seq![d@]);
    r
}

fn one_field(name: &str, value: BzlValue) -> (r: Vec<(String, BzlValue)>)
    ensures
        values::fields_of(r@) == seq![(name@, value@)],
{
    let mut r: Vec<(String, BzlValue)> = Vec::new();
    let ghost v = value@;
    r.push((name.to_string(), value));
    assert(values::fields_of(r@) =~= seq![(name@, v)]);
    r
}

/// Runs `my_rule` of `pkg/rules.bzl` for the target `//pkg:t`, with nothing loaded and no toolchain.
fn run_my_rule<E: BzlEvaluator>(
    e: &E,
    source: &str,
    attrs: &[(String, BzlValue)],
    deps: &[DepProviders],
) -> (r: Result<RuleResult, BzlError>)
    ensures
        model::outcome(r) == my_rule_run(
            e,
            source@,
            values::fields_of(attrs@),
            seam::deps_of(deps@),
        ),
{
    let toolchains: Vec<ResolvedToolchain> = Vec::new();
    assert(seam::toolchains_of(toolchains@) =~= Seq::empty());
    e.evaluate_rule(
        &EvalEnv::default(),
        source,
        "pkg/rules.bzl",
        "my_rule",
        load_nothing().as_slice(),
        "//pkg:t",
        attrs,
        deps,
        toolchains.as_slice(),
    )
}

/// The evaluator's answer for `my_rule` of `pkg/rules.bzl` and the target `//pkg:t`, with nothing loaded and
/// no toolchain.
pub open spec fn my_rule_run<E: BzlEvaluator>(
    e: &E,
    source: Seq<char>,
    attrs: Seq<(Seq<char>, ValueModel)>,
    deps: Seq<DepModel>,
) -> Result<ResultModel, ErrorModel> {
    e.rule_result(
        env::build_bzl_env(),
        source,
        "pkg/rules.bzl"@,
        "my_rule"@,
        nothing_loaded(),
        "//pkg:t"@,
        attrs,
        deps,
        seq![],
    )
}

// ---- modules ----

/// Plain bindings, in no order.
pub const BINDINGS: &'static str =
    "b = 2 + 3\na = \"hi\"\nc = True\nd = [1, 2]\ne = 5000000000\n";

/// A module of plain bindings evaluates to those bindings, arithmetic folds, and the result is sorted by
/// name.
pub fn supports_basic_bindings<E: BzlEvaluator>(e: &E) -> (v: Verdict)
    ensures
        verdicts::verdict_of(v) == verdicts::basic_bindings(
            e.module(env::build_bzl_env(), "m"@, BINDINGS@, nothing_loaded()),
        ),
{
    check_basic_bindings(
        &e.evaluate(&EvalEnv::default(), "m", BINDINGS, load_nothing().as_slice()),
    )
}

/// A syntax error is a parse error.
pub fn parse_error_is_fail_closed<E: BzlEvaluator>(e: &E) -> (v: Verdict)
    ensures
        verdicts::verdict_of(v) == verdicts::parse_error(
            e.module(env::build_bzl_env(), "m"@, "x = = 1\n"@, nothing_loaded()),
        ),
{
    check_parse_error(
        &e.evaluate(&EvalEnv::default(), "m", "x = = 1\n", load_nothing().as_slice()),
    )
}

/// A source that uses a loaded symbol.
pub const LOADS: &'static str = "load(\"dep\", \"y\")\nx = y + 1\n";

/// The load target of a source is reported, and a symbol that is loaded is usable.
pub fn supports_load<E: BzlEvaluator>(e: &E) -> (v: Verdict)
    ensures
        verdicts::verdict_of(v) == verdicts::both(
            verdicts::load_targets(e.loads(LOADS@)),
            verdicts::loaded_symbol(
                e.module(
                    env::build_bzl_env(),
                    "m"@,
                    LOADS@,
                    loaded_binding("dep"@, "y"@, ValueModel::Int(10)),
                ),
            ),
        ),
{
    let reported = check_load_targets(&e.load_targets(LOADS));
    if reported.is_err() {
        return reported;
    }
    let dep = load_binding("dep", "y", BzlValue::Int(10));
    check_loaded_symbol(&e.evaluate(&EvalEnv::default(), "m", LOADS, dep.as_slice()))
}

/// A source that binds a loaded symbol to another name.
pub const REBINDS: &'static str = "load(\"dep\", \"y\")\nx = y\n";

/// A loaded symbol is usable in the loader, and not exported by it: else a third file could load it from
/// there.
pub fn loaded_symbols_not_reexported<E: BzlEvaluator>(e: &E) -> (v: Verdict)
    ensures
        verdicts::verdict_of(v) == verdicts::no_reexport(
            e.module(
                env::build_bzl_env(),
                "m"@,
                REBINDS@,
                loaded_binding("dep"@, "y"@, ValueModel::Int(7)),
            ),
        ),
{
    let dep = load_binding("dep", "y", BzlValue::Int(7));
    check_no_reexport(&e.evaluate(&EvalEnv::default(), "m", REBINDS, dep.as_slice()))
}

/// A function is exported as a reference to it, and a value that has no counterpart in the model is an
/// error.
pub fn rejects_unsupported_types<E: BzlEvaluator>(e: &E) -> (v: Verdict)
    ensures
        verdicts::verdict_of(v) == verdicts::both(
            verdicts::function_reference(
                e.module(env::build_bzl_env(), "m"@, "def f():\n    pass\n"@, nothing_loaded()),
            ),
            verdicts::unsupported_value(
                e.module(env::build_bzl_env(), "m"@, "x = range(3)\n"@, nothing_loaded()),
            ),
        ),
{
    let env = EvalEnv::default();
    let none = load_nothing();
    let function = check_function_reference(
        &e.evaluate(&env, "m", "def f():\n    pass\n", none.as_slice()),
    );
    if function.is_err() {
        return function;
    }
    check_unsupported_value(&e.evaluate(&env, "m", "x = range(3)\n", none.as_slice()))
}

/// The environments of BUILD files and of `.bzl` files are apart: neither sees what only the other declares.
pub fn phase_envs_not_conflated<E: BzlEvaluator>(e: &E) -> (v: Verdict)
    ensures
        verdicts::verdict_of(v) == verdicts::both(
            verdicts::must_fail(
                e.targets("pkg"@, "p = provider(\"P\", fields = [])\n"@, nothing_loaded()),
                "a BUILD file must not see provider"@,
            ),
            verdicts::both(
                verdicts::must_fail(
                    e.targets("pkg"@, "r = rule\n"@, nothing_loaded()),
                    "a BUILD file must not see rule"@,
                ),
                verdicts::must_fail(
                    e.module(
                        env::build_bzl_env(),
                        "m.bzl"@,
                        "_t = [target]\n"@,
                        nothing_loaded(),
                    ),
                    "a .bzl file must not see target"@,
                ),
            ),
        ),
{
    let none = load_nothing();
    let provider = check_build_fails(
        &e.evaluate_build("pkg", "p = provider(\"P\", fields = [])\n", none.as_slice()),
        "a BUILD file must not see provider",
    );
    if provider.is_err() {
        return provider;
    }
    let rule = check_build_fails(
        &e.evaluate_build("pkg", "r = rule\n", none.as_slice()),
        "a BUILD file must not see rule",
    );
    if rule.is_err() {
        return rule;
    }
    check_module_fails(
        &e.evaluate(&EvalEnv::default(), "m.bzl", "_t = [target]\n", none.as_slice()),
        "a .bzl file must not see target",
    )
}

// ---- BUILD files ----

/// Two targets, of which the second has its attributes out of order.
pub const TWO_TARGETS: &'static str =
    "target(kind = \"my_rule\", name = \"a\", srcs = [\"x.txt\"])\ntarget(kind = \"my_rule\", name = \"b\", zzz = 1, aaa = 2)\n";

/// Each target call of a BUILD file gives a target with its kind, its name, and its attributes sorted by
/// name.
pub fn supports_target_instantiation<E: BzlEvaluator>(e: &E) -> (v: Verdict)
    ensures
        verdicts::verdict_of(v) == verdicts::target_instantiation(
            e.targets("pkg"@, TWO_TARGETS@, nothing_loaded()),
        ),
{
    check_target_instantiation(
        &e.evaluate_build("pkg", TWO_TARGETS, load_nothing().as_slice()),
    )
}

/// Two targets of one name.
pub const SAME_NAME: &'static str =
    "target(kind = \"r\", name = \"dup\")\ntarget(kind = \"r\", name = \"dup\")\n";

/// Two targets of one name are an error: the last one does not win.
pub fn build_dup_name_is_fail_closed<E: BzlEvaluator>(e: &E) -> (v: Verdict)
    ensures
        verdicts::verdict_of(v) == verdicts::duplicate_name(
            e.targets("pkg"@, SAME_NAME@, nothing_loaded()),
        ),
{
    check_duplicate_name(&e.evaluate_build("pkg", SAME_NAME, load_nothing().as_slice()))
}

/// A target with a loaded constant.
pub const USES_CONSTANT: &'static str =
    "load(\"consts\", \"SRCS\")\ntarget(kind = \"r\", name = \"a\", srcs = SRCS)\n";

/// A loaded constant is usable as an attribute value.
pub fn build_uses_loaded_constant<E: BzlEvaluator>(e: &E) -> (v: Verdict)
    ensures
        verdicts::verdict_of(v) == verdicts::loaded_constant(
            e.targets(
                "pkg"@,
                USES_CONSTANT@,
                loaded_binding("consts"@, "SRCS"@, verdicts::text_list("g.txt"@)),
            ),
        ),
{
    let consts = load_binding("consts", "SRCS", one_text("g.txt"));
    check_loaded_constant(&e.evaluate_build("pkg", USES_CONSTANT, consts.as_slice()))
}

/// A target with a function for an attribute.
pub const FUNCTION_ATTR: &'static str =
    "def f():\n    pass\ntarget(kind = \"r\", name = \"a\", bad = f)\n";

/// An attribute value that an attribute cannot have is an error.
pub fn build_rejects_unsupported_attr<E: BzlEvaluator>(e: &E) -> (v: Verdict)
    ensures
        verdicts::verdict_of(v) == verdicts::must_fail(
            e.targets("pkg"@, FUNCTION_ATTR@, nothing_loaded()),
            "an attribute value of an unsupported kind must fail"@,
        ),
{
    check_build_fails(
        &e.evaluate_build("pkg", FUNCTION_ATTR, load_nothing().as_slice()),
        "an attribute value of an unsupported kind must fail",
    )
}

// ---- rules ----

/// A module that defines a rule.
pub const DEFINES_RULE: &'static str =
    "def _impl(ctx):\n    pass\nmy_rule = rule(implementation = _impl, attrs = {\"deps\": attr.label_list(), \"value\": attr.int()})\n";

/// A rule is exported with its attribute schema, its symbol and its defining module, and without its
/// implementation.
pub fn supports_rule_definition<E: BzlEvaluator>(e: &E) -> (v: Verdict)
    ensures
        verdicts::verdict_of(v) == verdicts::rule_definition(
            e.module(env::build_bzl_env(), "rules.bzl"@, DEFINES_RULE@, nothing_loaded()),
        ),
{
    check_rule_definition(
        &e.evaluate(&EvalEnv::default(), "rules.bzl", DEFINES_RULE, load_nothing().as_slice()),
    )
}

/// A call of a loaded rule.
pub const CALLS_RULE: &'static str =
    "load(\"rules\", \"my_rule\")\nmy_rule(name = \"a\", value = 5, deps = [\":b\"])\n";

/// A call of a loaded rule gives a target whose kind is the rule's symbol, and which records where the rule
/// is defined.
pub fn build_rule_call_records_origin<E: BzlEvaluator>(e: &E) -> (v: Verdict)
    ensures
        verdicts::verdict_of(v) == verdicts::rule_call(
            e.targets(
                "pkg"@,
                CALLS_RULE@,
                loaded_binding("rules"@, "my_rule"@, my_rule(verdicts::deps_and_value())),
            ),
        ),
{
    let mut attrs: Vec<(String, AttrType)> = Vec::new();
    attrs.push(("deps".to_string(), AttrType::LabelList));
    attrs.push(("value".to_string(), AttrType::Int));
    assert(values::schema_of(attrs@) =~= verdicts::deps_and_value());
    let rules = load_binding("rules", "my_rule", make_my_rule(attrs));
    check_rule_call(&e.evaluate_build("pkg", CALLS_RULE, rules.as_slice()))
}

/// A call of a loaded rule with an attribute that the rule does not have.
pub const BOGUS_ATTR: &'static str =
    "load(\"rules\", \"my_rule\")\nmy_rule(name = \"a\", bogus = 1)\n";

/// An attribute that the rule does not have is an error.
pub fn build_rule_rejects_unknown_attr<E: BzlEvaluator>(e: &E) -> (v: Verdict)
    ensures
        verdicts::verdict_of(v) == verdicts::must_fail(
            e.targets(
                "pkg"@,
                BOGUS_ATTR@,
                loaded_binding("rules"@, "my_rule"@, my_rule(seq![("value"@, AttrType::Int)])),
            ),
            "an attribute that is not in the rule's schema must fail"@,
        ),
{
    let rule = make_my_rule(one_attr_schema("value", AttrType::Int));
    let rules = load_binding("rules", "my_rule", rule);
    check_build_fails(
        &e.evaluate_build("pkg", BOGUS_ATTR, rules.as_slice()),
        "an attribute that is not in the rule's schema must fail",
    )
}

/// A call of a loaded rule with a text for a list of labels.
pub const WRONG_TYPE: &'static str =
    "load(\"rules\", \"my_rule\")\nmy_rule(name = \"a\", deps = \"not a list\")\n";

/// An attribute value of another type than the schema says is an error.
pub fn build_rule_rejects_wrong_attr_type<E: BzlEvaluator>(e: &E) -> (v: Verdict)
    ensures
        verdicts::verdict_of(v) == verdicts::must_fail(
            e.targets(
                "pkg"@,
                WRONG_TYPE@,
                loaded_binding("rules"@, "my_rule"@, my_rule(seq![("deps"@, AttrType::LabelList)])),
            ),
            "an attribute value that does not match the schema must fail"@,
        ),
{
    let rule = make_my_rule(one_attr_schema("deps", AttrType::LabelList));
    let rules = load_binding("rules", "my_rule", rule);
    check_build_fails(
        &e.evaluate_build("pkg", WRONG_TYPE, rules.as_slice()),
        "an attribute value that does not match the schema must fail",
    )
}

/// A call of a loaded rule with nothing but a name.
pub const BARE_CALL: &'static str = "load(\"rules\", \"my_rule\")\nmy_rule(name = \"a\")\n";

/// Rules are called in BUILD files: a call in a `.bzl` file is an error.
pub fn rule_call_outside_build_is_fail_closed<E: BzlEvaluator>(e: &E) -> (v: Verdict)
    ensures
        verdicts::verdict_of(v) == verdicts::must_fail(
            e.module(
                env::build_bzl_env(),
                "m.bzl"@,
                BARE_CALL@,
                loaded_binding("rules"@, "my_rule"@, my_rule(seq![])),
            ),
            "a call of a rule in a .bzl file must fail"@,
        ),
{
    let attrs: Vec<(String, AttrType)> = Vec::new();
    assert(values::schema_of(attrs@) =~= Seq::<(Seq<char>, AttrType)>::empty());
    let rules = load_binding("rules", "my_rule", make_my_rule(attrs));
    check_module_fails(
        &e.evaluate(&EvalEnv::default(), "m.bzl", BARE_CALL, rules.as_slice()),
        "a call of a rule in a .bzl file must fail",
    )
}

// ---- analysis ----

/// A rule that adds up an attribute and what its dependencies publish.
pub const ADDS_UP: &'static str = "\
NumberInfo = provider(\"NumberInfo\", fields = [\"total\"])

def _impl(ctx):
    t = ctx.attr.value
    for d in ctx.attr.deps:
        t += d[NumberInfo].total
    return [NumberInfo(total = t)]

my_rule = rule(implementation = _impl, attrs = {\"value\": attr.int(), \"deps\": attr.label_list()})
";

/// The attributes `value = 2` and `deps = [":a", ":b"]`.
pub open spec fn adds_up_attrs() -> Seq<(Seq<char>, ValueModel)> {
    seq![
        ("value"@, ValueModel::Int(2)),
        ("deps"@, ValueModel::List(seq![ValueModel::Str(":a"@), ValueModel::Str(":b"@)])),
    ]
}

/// An implementation reads an attribute and the providers of its dependencies, and publishes a provider.
pub fn supports_rule_evaluation<E: BzlEvaluator>(e: &E) -> (v: Verdict)
    ensures
        verdicts::verdict_of(v) == verdicts::rule_evaluation(
            my_rule_run(
                e,
                ADDS_UP@,
                adds_up_attrs(),
                seq![number_dep(":a"@, None, 10), number_dep(":b"@, None, 20)],
            ),
        ),
{
    let mut attrs: Vec<(String, BzlValue)> = Vec::new();
    attrs.push(("value".to_string(), BzlValue::Int(2)));
    attrs.push(("deps".to_string(), two_texts(":a", ":b")));
    assert(values::fields_of(attrs@) =~= adds_up_attrs());
    let mut deps: Vec<DepProviders> = Vec::new();
    deps.push(make_dep(":a", number_info(ProviderId::from_name("NumberInfo"), 10)));
    deps.push(make_dep(":b", number_info(ProviderId::from_name("NumberInfo"), 20)));
    assert(seam::deps_of(deps@) =~= seq![
        number_dep(":a"@, None, 10),
        number_dep(":b"@, None, 20),
    ]);
    check_rule_evaluation(&run_my_rule(e, ADDS_UP, attrs.as_slice(), deps.as_slice()))
}

/// A rule that asks a dependency for a provider that it does not publish.
pub const ASKS_FOR_OTHER: &'static str = "\
NumberInfo = provider(\"NumberInfo\", fields = [\"total\"])
OtherInfo = provider(\"OtherInfo\", fields = [\"x\"])

def _impl(ctx):
    return [NumberInfo(total = ctx.attr.deps[0][OtherInfo].x)]

my_rule = rule(implementation = _impl, attrs = {\"deps\": attr.label_list()})
";

/// A provider that a dependency does not publish is an error, never an empty one.
pub fn rule_eval_missing_provider_is_fail_closed<E: BzlEvaluator>(e: &E) -> (v: Verdict)
    ensures
        verdicts::verdict_of(v) == verdicts::must_fail(
            my_rule_run(
                e,
                ASKS_FOR_OTHER@,
                seq![("deps"@, verdicts::text_list(":a"@))],
                seq![number_dep(":a"@, None, 1)],
            ),
            "a provider that a dependency does not publish must fail"@,
        ),
{
    let attrs = one_field("deps", one_text(":a"));
    let info = number_info(ProviderId::from_name("NumberInfo"), 1);
    let deps = one_dep(make_dep(":a", info));
    check_rule_fails(
        &run_my_rule(e, ASKS_FOR_OTHER, attrs.as_slice(), deps.as_slice()),
        "a provider that a dependency does not publish must fail",
    )
}

/// A rule that publishes a provider with a field that it does not have.
pub const BOGUS_FIELD: &'static str = "\
NumberInfo = provider(\"NumberInfo\", fields = [\"total\"])

def _impl(ctx):
    return [NumberInfo(bogus = 1)]

my_rule = rule(implementation = _impl, attrs = {})
";

/// Runs `my_rule` without attributes and dependencies.
fn run_bare<E: BzlEvaluator>(e: &E, source: &str) -> (r: Result<RuleResult, BzlError>)
    ensures
        model::outcome(r) == my_rule_run(e, source@, seq![], seq![]),
{
    let attrs: Vec<(String, BzlValue)> = Vec::new();
    let deps: Vec<DepProviders> = Vec::new();
    assert(values::fields_of(attrs@) =~= Seq::empty());
    assert(seam::deps_of(deps@) =~= Seq::empty());
    run_my_rule(e, source, attrs.as_slice(), deps.as_slice())
}

/// A field that a provider does not declare is an error.
pub fn provider_rejects_unknown_field<E: BzlEvaluator>(e: &E) -> (v: Verdict)
    ensures
        verdicts::verdict_of(v) == verdicts::must_fail(
            my_rule_run(e, BOGUS_FIELD@, seq![], seq![]),
            "a field that a provider does not declare must fail"@,
        ),
{
    check_rule_fails(
        &run_bare(e, BOGUS_FIELD),
        "a field that a provider does not declare must fail",
    )
}

/// A rule that asks a dependency for the module's own provider.
pub const ASKS_FOR_OWN: &'static str = "\
NumberInfo = provider(\"NumberInfo\", fields = [\"total\"])

def _impl(ctx):
    return [NumberInfo(total = ctx.attr.deps[0][NumberInfo].total)]

my_rule = rule(implementation = _impl, attrs = {\"deps\": attr.label_list()})
";

/// Providers are compared by identity, not by name: one of the same name from another module is another
/// provider.
pub fn provider_identity_opaque_comparison<E: BzlEvaluator>(e: &E) -> (v: Verdict)
    ensures
        verdicts::verdict_of(v) == verdicts::must_fail(
            my_rule_run(
                e,
                ASKS_FOR_OWN@,
                seq![("deps"@, verdicts::text_list(":a"@))],
                seq![number_dep(":a"@, Some("other/defs.bzl"@), 1)],
            ),
            "a provider of the same name from another module must not be taken for the module's own"@,
        ),
{
    let attrs = one_field("deps", one_text(":a"));
    let own: String = "NumberInfo".to_string();
    let id = ProviderId { bzl: Some("other/defs.bzl".to_string()), ..ProviderId::from_name(own) };
    let deps = one_dep(make_dep(":a", number_info(id, 1)));
    check_rule_fails(
        &run_my_rule(e, ASKS_FOR_OWN, attrs.as_slice(), deps.as_slice()),
        "a provider of the same name from another module must not be taken for the module's own",
    )
}

/// A rule whose module declares one provider twice.
pub const DECLARED_TWICE: &'static str = "\
NumberInfo = provider(\"NumberInfo\", fields = [\"total\"])
Other = provider(\"NumberInfo\", fields = [\"x\"])

def _impl(ctx):
    return [NumberInfo(total = 1)]

my_rule = rule(implementation = _impl, attrs = {})
";

/// A module that declares one provider twice.
pub const SAME_PROVIDER: &'static str =
    "A = provider(\"P\", fields = [])\nB = provider(\"P\", fields = [])\n";

/// A module that binds one provider to two names.
pub const ALIASED: &'static str = "P = provider(\"P\", fields = [\"x\"])\nAlias = P\n";

/// A second declaration of a provider is an error that names it: the last one does not win. One declaration
/// under two names is none.
pub fn provider_dup_declaration_fail_closed<E: BzlEvaluator>(e: &E) -> (v: Verdict)
    ensures
        verdicts::verdict_of(v) == verdicts::both(
            verdicts::declared_twice_for_rule(my_rule_run(e, DECLARED_TWICE@, seq![], seq![])),
            verdicts::both(
                verdicts::declared_twice_in_module(
                    e.module(env::build_bzl_env(), "m.bzl"@, SAME_PROVIDER@, nothing_loaded()),
                ),
                verdicts::aliased_declaration(
                    e.module(env::build_bzl_env(), "m.bzl"@, ALIASED@, nothing_loaded()),
                ),
            ),
        ),
{
    let for_rule = check_declared_twice_for_rule(&run_bare(e, DECLARED_TWICE));
    if for_rule.is_err() {
        return for_rule;
    }
    let env = EvalEnv::default();
    let none = load_nothing();
    let in_module = check_declared_twice_in_module(
        &e.evaluate(&env, "m.bzl", SAME_PROVIDER, none.as_slice()),
    );
    if in_module.is_err() {
        return in_module;
    }
    check_aliased_declaration(&e.evaluate(&env, "m.bzl", ALIASED, none.as_slice()))
}

/// A rule that returns one provider twice.
pub const RETURNED_TWICE: &'static str = "\
NumberInfo = provider(\"NumberInfo\", fields = [\"total\"])

def _impl(ctx):
    return [NumberInfo(total = 1), NumberInfo(total = 2)]

my_rule = rule(implementation = _impl, attrs = {})
";

/// Two returned instances of one provider are an error that names it.
pub fn rule_result_dup_provider_fail_closed<E: BzlEvaluator>(e: &E) -> (v: Verdict)
    ensures
        verdicts::verdict_of(v) == verdicts::duplicate_result(
            my_rule_run(e, RETURNED_TWICE@, seq![], seq![]),
        ),
{
    check_duplicate_result(&run_bare(e, RETURNED_TWICE))
}

/// A rule that does not look at its dependencies.
pub const IGNORES_DEPS: &'static str = "\
NumberInfo = provider(\"NumberInfo\", fields = [\"total\"])

def _impl(ctx):
    return [NumberInfo(total = 0)]

my_rule = rule(implementation = _impl, attrs = {\"deps\": attr.label_list()})
";

/// A dependency that an attribute names and that is not handed over is an error, even where the
/// implementation does not look at it.
pub fn rule_eval_missing_dep_label_is_fail_closed<E: BzlEvaluator>(e: &E) -> (v: Verdict)
    ensures
        verdicts::verdict_of(v) == verdicts::must_fail(
            my_rule_run(
                e,
                IGNORES_DEPS@,
                seq![("deps"@, verdicts::text_list(":a"@))],
                seq![],
            ),
            "a declared dependency that is not handed over must fail"@,
        ),
{
    let attrs = one_field("deps", one_text(":a"));
    let deps: Vec<DepProviders> = Vec::new();
    assert(seam::deps_of(deps@) =~= Seq::empty());
    check_rule_fails(
        &run_my_rule(e, IGNORES_DEPS, attrs.as_slice(), deps.as_slice()),
        "a declared dependency that is not handed over must fail",
    )
}

/// A rule that declares an action.
pub const DECLARES_ACTION: &'static str = "\
NumberInfo = provider(\"NumberInfo\", fields = [\"x\"])

def _impl(ctx):
    ctx.actions.run(mnemonic = \"Touch\", executable = \"touch\", arguments = [\"out\"], outputs = [\"out\"])
    return [NumberInfo(x = 1)]

my_rule = rule(implementation = _impl, attrs = {})
";

/// A declared action is in the result, beside the providers: its command line is the executable and the
/// arguments.
pub fn supports_action_declaration<E: BzlEvaluator>(e: &E) -> (v: Verdict)
    ensures
        verdicts::verdict_of(v) == verdicts::action_declaration(
            my_rule_run(e, DECLARES_ACTION@, seq![], seq![]),
        ),
{
    check_action_declaration(&run_bare(e, DECLARES_ACTION))
}

} // verus!
