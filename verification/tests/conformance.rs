use razel_bzl_api::{
    conformance, derive_predeclared_env_id, verdicts, ActionTemplate, AttrType, BzlError,
    BzlEvaluator, BzlModule, BzlValue, DepProviders, Dialect, EvalEnv, FunctionRef, LoadKind,
    PredeclaredEnvId, ProviderId, ProviderInstance, ResolvedToolchain, RuleDef, RuleOrigin,
    RuleResult, TargetDecl, Verdict,
};

use std::sync::atomic::{AtomicUsize, Ordering};

/// Answers every question of the suite as it should be answered.
struct Scripted;

/// Evaluates everything, to nothing.
struct Lax;

/// Evaluates nothing.
struct Broken;

fn text(x: &str) -> BzlValue {
    BzlValue::Str(x.into())
}

fn parse() -> BzlError {
    BzlError::Parse { detail: "unexpected token".into() }
}

fn eval(detail: &str) -> BzlError {
    BzlError::Eval { detail: detail.into() }
}

fn module(bindings: Vec<(&str, BzlValue)>) -> BzlModule {
    BzlModule { bindings: bindings.into_iter().map(|(n, v)| (n.to_string(), v)).collect() }
}

fn target(kind: &str, name: &str, attrs: Vec<(&str, BzlValue)>) -> TargetDecl {
    TargetDecl {
        kind: kind.into(),
        name: name.into(),
        attrs: attrs.into_iter().map(|(n, v)| (n.to_string(), v)).collect(),
        origin: None,
    }
}

fn number_info(field: &str, n: i64) -> ProviderInstance {
    ProviderInstance {
        provider: ProviderId::from_name("NumberInfo"),
        fields: vec![(field.into(), BzlValue::Int(n))],
    }
}

fn bindings() -> BzlModule {
    module(vec![
        ("a", text("hi")),
        ("b", BzlValue::Int(5)),
        ("c", BzlValue::Bool(true)),
        ("d", BzlValue::List(vec![BzlValue::Int(1), BzlValue::Int(2)])),
        ("e", BzlValue::Int(5_000_000_000)),
    ])
}

fn function(module_name: &str, name: &str) -> BzlModule {
    module(vec![(
        "f",
        BzlValue::FunctionRef(FunctionRef {
            module: module_name.into(),
            name: name.into(),
            defining_digest: [0; 32],
        }),
    )])
}

fn schema() -> Vec<(String, AttrType)> {
    vec![("deps".into(), AttrType::LabelList), ("value".into(), AttrType::Int)]
}

fn defined_rule(attrs: Vec<(String, AttrType)>) -> BzlModule {
    module(vec![(
        "my_rule",
        BzlValue::Rule(RuleDef {
            bzl: "rules.bzl".into(),
            name: "my_rule".into(),
            attrs,
            toolchains: vec![],
        }),
    )])
}

fn two_targets() -> Vec<TargetDecl> {
    vec![
        target("my_rule", "a", vec![("srcs", BzlValue::List(vec![text("x.txt")]))]),
        target("my_rule", "b", vec![("aaa", BzlValue::Int(2)), ("zzz", BzlValue::Int(1))]),
    ]
}

fn called_rule() -> TargetDecl {
    TargetDecl {
        origin: Some(RuleOrigin { bzl: "pkg/rules.bzl".into(), name: "my_rule".into() }),
        ..target(
            "my_rule",
            "a",
            vec![("deps", BzlValue::List(vec![text(":b")])), ("value", BzlValue::Int(5))],
        )
    }
}

fn action() -> ActionTemplate {
    ActionTemplate {
        mnemonic: "Touch".into(),
        argv: vec!["touch".into(), "out".into()],
        env: vec![],
        inputs: vec![],
        outputs: vec!["out".into()],
    }
}

fn loaded_int(loaded: &[(String, BzlModule)], target: &str, name: &str) -> i64 {
    let m = &loaded.iter().find(|(t, _)| t == target).expect("the module is handed over").1;
    match m.get(name) {
        Some(BzlValue::Int(i)) => *i,
        other => panic!("no integer: {other:?}"),
    }
}

impl BzlEvaluator for Scripted {
    fn load_targets(&self, source: &str) -> Result<Vec<String>, BzlError> {
        assert_eq!(source, conformance::LOADS);
        Ok(vec!["dep".into()])
    }

    fn predeclared_env_id(
        &self,
        kind: &LoadKind,
        dialect: Dialect,
    ) -> Result<PredeclaredEnvId, BzlError> {
        Ok(derive_predeclared_env_id(kind.env_tag(dialect), &[], None))
    }

    fn evaluate(
        &self,
        env: &EvalEnv,
        module_name: &str,
        source: &str,
        loaded: &[(String, BzlModule)],
    ) -> Result<BzlModule, BzlError> {
        assert_eq!(*env, EvalEnv::build_bzl_v1());
        match (module_name, source) {
            ("m", conformance::BINDINGS) => Ok(bindings()),
            ("m", "x = = 1\n") => Err(parse()),
            ("m", conformance::LOADS) => Ok(module(vec![(
                "x",
                BzlValue::Int(loaded_int(loaded, "dep", "y") + 1),
            )])),
            ("m", conformance::REBINDS) => {
                Ok(module(vec![("x", BzlValue::Int(loaded_int(loaded, "dep", "y")))]))
            }
            ("m", "def f():\n    pass\n") => Ok(function("m", "f")),
            ("m", "x = range(3)\n") => Err(BzlError::Unsupported { what: "range".into() }),
            ("rules.bzl", conformance::DEFINES_RULE) => Ok(defined_rule(schema())),
            ("m.bzl", conformance::SAME_PROVIDER) => Err(eval("provider 'P' is declared twice")),
            ("m.bzl", conformance::ALIASED) => Ok(module(vec![])),
            ("m.bzl", "_t = [target]\n") => Err(eval("no target here")),
            ("m.bzl", conformance::BARE_CALL) => Err(eval("no call here")),
            other => panic!("not a question of the suite: {other:?}"),
        }
    }

    fn evaluate_build(
        &self,
        package_name: &str,
        source: &str,
        loaded: &[(String, BzlModule)],
    ) -> Result<Vec<TargetDecl>, BzlError> {
        assert_eq!(package_name, "pkg");
        match source {
            conformance::TWO_TARGETS => Ok(two_targets()),
            conformance::SAME_NAME => Err(eval("two targets named dup")),
            conformance::USES_CONSTANT => {
                let srcs = loaded[0].1.get("SRCS").expect("the constant is handed over").clone();
                Ok(vec![target("r", "a", vec![("srcs", srcs)])])
            }
            conformance::CALLS_RULE => match loaded[0].1.get("my_rule") {
                Some(BzlValue::Rule(r)) => {
                    assert_eq!(r.attrs, schema());
                    assert_eq!(r.bzl, "pkg/rules.bzl");
                    Ok(vec![called_rule()])
                }
                other => panic!("no rule: {other:?}"),
            },
            _ => Err(eval("refused")),
        }
    }

    fn evaluate_rule(
        &self,
        env: &EvalEnv,
        rule_source: &str,
        rule_module_name: &str,
        rule_name: &str,
        loaded: &[(String, BzlModule)],
        label: &str,
        attrs: &[(String, BzlValue)],
        deps: &[DepProviders],
        toolchains: &[ResolvedToolchain],
    ) -> Result<RuleResult, BzlError> {
        assert_eq!(*env, EvalEnv::default());
        assert_eq!((rule_module_name, rule_name, label), ("pkg/rules.bzl", "my_rule", "//pkg:t"));
        assert!(loaded.is_empty() && toolchains.is_empty());
        match rule_source {
            conformance::ADDS_UP => {
                assert_eq!(attrs[1].0, "deps");
                assert_eq!(attrs[1].1, BzlValue::List(vec![text(":a"), text(":b")]));
                let mut total = match attrs[0] {
                    (_, BzlValue::Int(i)) => i,
                    _ => panic!("value is an integer"),
                };
                for d in deps {
                    assert_eq!(d.providers[0].provider, ProviderId::from_name("NumberInfo"));
                    match d.providers[0].get("total") {
                        Some(BzlValue::Int(i)) => total += i,
                        _ => panic!("total is an integer"),
                    }
                }
                Ok(RuleResult { providers: vec![number_info("total", total)], actions: vec![] })
            }
            conformance::ASKS_FOR_OWN => {
                let id = &deps[0].providers[0].provider;
                assert_eq!((id.name(), id.bzl()), ("NumberInfo", Some("other/defs.bzl")));
                Err(eval("not this module's NumberInfo"))
            }
            conformance::DECLARED_TWICE => Err(eval("NumberInfo is declared twice")),
            conformance::RETURNED_TWICE => {
                Err(eval("Multiple conflicting returned providers with key NumberInfo"))
            }
            conformance::DECLARES_ACTION => Ok(RuleResult {
                providers: vec![number_info("x", 1)],
                actions: vec![action()],
            }),
            _ => Err(eval("refused")),
        }
    }
}

impl BzlEvaluator for Lax {
    fn load_targets(&self, _: &str) -> Result<Vec<String>, BzlError> {
        Ok(vec![])
    }

    fn predeclared_env_id(&self, _: &LoadKind, _: Dialect) -> Result<PredeclaredEnvId, BzlError> {
        Ok(PredeclaredEnvId([0; 32]))
    }

    fn evaluate(
        &self,
        _: &EvalEnv,
        _: &str,
        _: &str,
        _: &[(String, BzlModule)],
    ) -> Result<BzlModule, BzlError> {
        Ok(BzlModule::default())
    }

    fn evaluate_build(
        &self,
        _: &str,
        _: &str,
        _: &[(String, BzlModule)],
    ) -> Result<Vec<TargetDecl>, BzlError> {
        Ok(vec![])
    }

    fn evaluate_rule(
        &self,
        _: &EvalEnv,
        _: &str,
        _: &str,
        _: &str,
        _: &[(String, BzlModule)],
        _: &str,
        _: &[(String, BzlValue)],
        _: &[DepProviders],
        _: &[ResolvedToolchain],
    ) -> Result<RuleResult, BzlError> {
        Ok(RuleResult::default())
    }
}

impl BzlEvaluator for Broken {
    fn load_targets(&self, _: &str) -> Result<Vec<String>, BzlError> {
        Err(parse())
    }

    fn predeclared_env_id(&self, _: &LoadKind, _: Dialect) -> Result<PredeclaredEnvId, BzlError> {
        Err(parse())
    }

    fn evaluate(
        &self,
        _: &EvalEnv,
        _: &str,
        _: &str,
        _: &[(String, BzlModule)],
    ) -> Result<BzlModule, BzlError> {
        Err(parse())
    }

    fn evaluate_build(
        &self,
        _: &str,
        _: &str,
        _: &[(String, BzlModule)],
    ) -> Result<Vec<TargetDecl>, BzlError> {
        Err(parse())
    }

    fn evaluate_rule(
        &self,
        _: &EvalEnv,
        _: &str,
        _: &str,
        _: &str,
        _: &[(String, BzlModule)],
        _: &str,
        _: &[(String, BzlValue)],
        _: &[DepProviders],
        _: &[ResolvedToolchain],
    ) -> Result<RuleResult, BzlError> {
        Err(parse())
    }
}

fn verdicts_on<E: BzlEvaluator>(e: &E) -> Vec<Verdict> {
    vec![
        conformance::supports_basic_bindings(e),
        conformance::parse_error_is_fail_closed(e),
        conformance::supports_load(e),
        conformance::loaded_symbols_not_reexported(e),
        conformance::rejects_unsupported_types(e),
        conformance::phase_envs_not_conflated(e),
        conformance::supports_target_instantiation(e),
        conformance::build_dup_name_is_fail_closed(e),
        conformance::build_uses_loaded_constant(e),
        conformance::build_rejects_unsupported_attr(e),
        conformance::supports_rule_definition(e),
        conformance::build_rule_call_records_origin(e),
        conformance::build_rule_rejects_unknown_attr(e),
        conformance::build_rule_rejects_wrong_attr_type(e),
        conformance::rule_call_outside_build_is_fail_closed(e),
        conformance::supports_rule_evaluation(e),
        conformance::rule_eval_missing_provider_is_fail_closed(e),
        conformance::provider_rejects_unknown_field(e),
        conformance::provider_identity_opaque_comparison(e),
        conformance::provider_dup_declaration_fail_closed(e),
        conformance::rule_result_dup_provider_fail_closed(e),
        conformance::rule_eval_missing_dep_label_is_fail_closed(e),
        conformance::supports_action_declaration(e),
    ]
}

#[test]
fn an_evaluator_that_does_what_it_should_conforms() {
    for (i, v) in verdicts_on(&Scripted).into_iter().enumerate() {
        assert_eq!(v, Ok(()), "question {i}");
    }
}

#[test]
fn an_evaluator_that_refuses_nothing_conforms_nowhere() {
    for (i, v) in verdicts_on(&Lax).into_iter().enumerate() {
        assert!(v.is_err(), "question {i}");
    }
}

#[test]
fn an_evaluator_that_refuses_everything_conforms_where_it_must_refuse() {
    let right: Vec<usize> = verdicts_on(&Broken)
        .into_iter()
        .enumerate()
        .filter(|(_, v)| v.is_ok())
        .map(|(i, _)| i)
        .collect();
    assert_eq!(right, vec![1, 5, 9, 12, 13, 14, 16, 17, 18, 21]);
    assert_eq!(
        conformance::supports_basic_bindings(&Broken),
        Err("a module of literal and arithmetic bindings must evaluate")
    );
    assert_eq!(
        conformance::build_dup_name_is_fail_closed(&Broken),
        Err("two targets of one name must be an evaluation error")
    );
}

#[test]
fn bindings_are_held_up_one_by_one() {
    let without = |name: &str| {
        let mut m = bindings();
        m.bindings.retain(|(n, _)| n != name);
        verdicts::check_basic_bindings(&Ok(m))
    };
    assert_eq!(verdicts::check_basic_bindings(&Ok(bindings())), Ok(()));
    assert_eq!(without("a"), Err("a string binding must be exported"));
    assert_eq!(without("b"), Err("arithmetic must fold"));
    assert_eq!(without("c"), Err("a truth value must be exported"));
    assert_eq!(without("d"), Err("a list must be exported"));
    assert_eq!(without("e"), Err("integers beyond 32 bits must be exported"));
    let mut unsorted = bindings();
    unsorted.bindings.swap(0, 4);
    assert_eq!(
        verdicts::check_basic_bindings(&Ok(unsorted)),
        Err("exported bindings must be sorted by name")
    );
    let mut longer = bindings();
    longer.bindings[3].1 =
        BzlValue::List(vec![BzlValue::Int(1), BzlValue::Int(2), BzlValue::Int(3)]);
    assert_eq!(verdicts::check_basic_bindings(&Ok(longer)), Err("a list must be exported"));
}

#[test]
fn loads_are_held_up_one_by_one() {
    let x = |i: i64| Ok(module(vec![("x", BzlValue::Int(i))]));
    assert_eq!(verdicts::check_load_targets(&Ok(vec!["dep".into()])), Ok(()));
    assert_eq!(
        verdicts::check_load_targets(&Ok(vec!["dep".into(), "dep".into()])),
        Err("the load target must be reported")
    );
    assert_eq!(
        verdicts::check_load_targets(&Err(parse())),
        Err("the load targets of a source must be read")
    );
    assert_eq!(verdicts::check_loaded_symbol(&x(11)), Ok(()));
    assert_eq!(verdicts::check_loaded_symbol(&x(10)), Err("a loaded symbol must be usable"));
    assert_eq!(
        verdicts::check_loaded_symbol(&Err(parse())),
        Err("evaluation with a loaded module must succeed")
    );
    let both = module(vec![("x", BzlValue::Int(7)), ("y", BzlValue::Int(7))]);
    assert_eq!(
        verdicts::check_no_reexport(&Ok(both)),
        Err("a loaded symbol must not be exported by the loader")
    );
}

#[test]
fn function_references_are_held_up_one_by_one() {
    let check = |m: BzlModule| verdicts::check_function_reference(&Ok(m));
    assert_eq!(check(function("m", "f")), Ok(()));
    assert_eq!(
        check(function("m", "g")),
        Err("a function reference must carry the function's name")
    );
    assert_eq!(
        check(function("n", "f")),
        Err("a function reference must carry the defining module")
    );
    assert_eq!(
        check(module(vec![("f", text("f"))])),
        Err("an exported function must be a function reference")
    );
    assert_eq!(
        verdicts::check_function_reference(&Err(parse())),
        Err("a module with an exported function must evaluate")
    );
    let refused = Err(BzlError::Unsupported { what: "range".into() });
    assert_eq!(verdicts::check_unsupported_value(&refused), Ok(()));
    assert_eq!(
        verdicts::check_unsupported_value(&Err(eval("range"))),
        Err("a value without a counterpart must be an unsupported error")
    );
}

#[test]
fn targets_are_held_up_one_by_one() {
    let spoilt = |spoil: fn(&mut Vec<TargetDecl>)| {
        let mut ts = two_targets();
        spoil(&mut ts);
        verdicts::check_target_instantiation(&Ok(ts))
    };
    assert_eq!(spoilt(|_| ()), Ok(()));
    assert_eq!(
        spoilt(|ts| ts.truncate(1)),
        Err("two target calls must instantiate two targets")
    );
    assert_eq!(spoilt(|ts| ts[0].kind = "r".into()), Err("a target must carry its kind"));
    assert_eq!(spoilt(|ts| ts[1].name = "c".into()), Err("a target must carry its name"));
    assert_eq!(spoilt(|ts| ts[0].attrs.clear()), Err("a target must carry its attributes"));
    assert_eq!(
        spoilt(|ts| ts[1].attrs.reverse()),
        Err("attributes must be sorted by name, whatever the order of the call")
    );
}

#[test]
fn rules_are_held_up_one_by_one() {
    let mut reversed = schema();
    reversed.reverse();
    assert_eq!(
        verdicts::check_rule_definition(&Ok(defined_rule(reversed))),
        Err("a rule must carry its attribute schema, sorted by name")
    );
    let mut leaks = defined_rule(schema());
    leaks.bindings.insert(0, ("_impl".into(), text("private")));
    assert_eq!(
        verdicts::check_rule_definition(&Ok(leaks)),
        Err("a private implementation must not be exported")
    );
    let stray = TargetDecl {
        origin: Some(RuleOrigin { bzl: "rules.bzl".into(), name: "my_rule".into() }),
        ..called_rule()
    };
    assert_eq!(
        verdicts::check_rule_call(&Ok(vec![stray])),
        Err("a target must record where its rule is defined")
    );
    assert_eq!(
        verdicts::check_rule_call(&Ok(vec![TargetDecl { origin: None, ..called_rule() }])),
        Err("a target must record where its rule is defined")
    );
}

#[test]
fn published_providers_are_held_up_one_by_one() {
    let check = |providers: Vec<ProviderInstance>| {
        verdicts::check_rule_evaluation(&Ok(RuleResult { providers, actions: vec![] }))
    };
    assert_eq!(check(vec![number_info("total", 32)]), Ok(()));
    assert_eq!(check(vec![]), Err("the implementation returns exactly one provider"));
    assert_eq!(
        check(vec![number_info("total", 30)]),
        Err("attributes and the providers of dependencies must reach the implementation")
    );
    let mut stray = number_info("total", 32);
    stray.provider.bzl = Some("other.bzl".into());
    assert_eq!(
        check(vec![stray]),
        Err("a published provider must have the identity of its declaration")
    );
}

#[test]
fn errors_must_name_what_they_are_about() {
    assert_eq!(
        verdicts::check_duplicate_result(&Err(eval("twice"))),
        Err("the error must say which provider was returned twice")
    );
    assert_eq!(
        verdicts::check_duplicate_result(&Err(parse())),
        Err("two returned instances of one provider must be an evaluation error")
    );
    assert_eq!(
        verdicts::check_duplicate_result(&Err(eval(
            "in //p:t: Multiple conflicting returned providers with key NumberInfo."
        ))),
        Ok(())
    );
    assert_eq!(verdicts::check_declared_twice_for_rule(&Err(eval("NumberInfo"))), Ok(()));
    assert_eq!(
        verdicts::check_declared_twice_for_rule(&Ok(RuleResult::default())),
        Err("a second declaration of a provider must be an evaluation error")
    );
    assert_eq!(
        verdicts::check_declared_twice_in_module(&Err(eval("P"))),
        Err("the error must name the provider")
    );
    assert_eq!(verdicts::check_declared_twice_in_module(&Err(eval("'P'"))), Ok(()));
    assert_eq!(verdicts::check_aliased_declaration(&Ok(module(vec![]))), Ok(()));
    assert_eq!(
        verdicts::check_aliased_declaration(&Err(parse())),
        Err("one declaration under two names must evaluate")
    );
}

/// Answers as `Scripted` does for the first `right` questions, as `Lax` does from there on, and counts them.
struct Counting {
    right: usize,
    questions: AtomicUsize,
}

impl Counting {
    fn is_right(&self) -> bool {
        self.questions.fetch_add(1, Ordering::SeqCst) < self.right
    }
}

impl BzlEvaluator for Counting {
    fn load_targets(&self, source: &str) -> Result<Vec<String>, BzlError> {
        if self.is_right() {
            Scripted.load_targets(source)
        } else {
            Lax.load_targets(source)
        }
    }

    fn predeclared_env_id(&self, k: &LoadKind, d: Dialect) -> Result<PredeclaredEnvId, BzlError> {
        if self.is_right() {
            Scripted.predeclared_env_id(k, d)
        } else {
            Lax.predeclared_env_id(k, d)
        }
    }

    fn evaluate(
        &self,
        env: &EvalEnv,
        module_name: &str,
        source: &str,
        loaded: &[(String, BzlModule)],
    ) -> Result<BzlModule, BzlError> {
        if self.is_right() {
            Scripted.evaluate(env, module_name, source, loaded)
        } else {
            Lax.evaluate(env, module_name, source, loaded)
        }
    }

    fn evaluate_build(
        &self,
        package_name: &str,
        source: &str,
        loaded: &[(String, BzlModule)],
    ) -> Result<Vec<TargetDecl>, BzlError> {
        if self.is_right() {
            Scripted.evaluate_build(package_name, source, loaded)
        } else {
            Lax.evaluate_build(package_name, source, loaded)
        }
    }

    fn evaluate_rule(
        &self,
        env: &EvalEnv,
        source: &str,
        module: &str,
        name: &str,
        loaded: &[(String, BzlModule)],
        label: &str,
        attrs: &[(String, BzlValue)],
        deps: &[DepProviders],
        toolchains: &[ResolvedToolchain],
    ) -> Result<RuleResult, BzlError> {
        if self.is_right() {
            Scripted.evaluate_rule(
                env, source, module, name, loaded, label, attrs, deps, toolchains,
            )
        } else {
            Lax.evaluate_rule(env, source, module, name, loaded, label, attrs, deps, toolchains)
        }
    }
}

/// How many questions are put when the first `right` answers are right and the next is `Lax`'s.
fn questions(right: usize, ask: fn(&Counting) -> Verdict) -> usize {
    let e = Counting { right, questions: AtomicUsize::new(0) };
    let _ = ask(&e);
    e.questions.load(Ordering::SeqCst)
}

#[test]
fn a_wrong_answer_ends_the_questions() {
    for right in 0..4 {
        let first_wrong = right + 1;
        assert_eq!(questions(right, conformance::supports_load), first_wrong.min(2));
        assert_eq!(questions(right, conformance::rejects_unsupported_types), first_wrong.min(2));
        assert_eq!(questions(right, conformance::phase_envs_not_conflated), first_wrong.min(3));
        assert_eq!(
            questions(right, conformance::provider_dup_declaration_fail_closed),
            first_wrong.min(3)
        );
    }
}

#[test]
fn actions_are_held_up_one_by_one() {
    let check = |a: ActionTemplate| {
        verdicts::check_action_declaration(&Ok(RuleResult {
            providers: vec![number_info("x", 1)],
            actions: vec![a],
        }))
    };
    assert_eq!(check(action()), Ok(()));
    assert_eq!(
        check(ActionTemplate { mnemonic: "T".into(), ..action() }),
        Err("an action must carry its mnemonic")
    );
    assert_eq!(
        check(ActionTemplate { argv: vec!["touch".into()], ..action() }),
        Err("the command line is the executable and the arguments")
    );
    assert_eq!(
        check(ActionTemplate { outputs: vec![], ..action() }),
        Err("an action must carry its outputs")
    );
    assert_eq!(
        verdicts::check_action_declaration(&Ok(RuleResult::default())),
        Err("the provider must still be published")
    );
}
