//! Which answers the conformance suite lets through: for each question, what the answer has to be, and that
//! nothing else is asked of it.

use vstd::prelude::*;
use crate::conformance;
use crate::encoding;
use crate::env;
use crate::model;
use crate::model::{
    DepModel, ErrorModel, InstanceModel, ModuleModel, OriginModel, ResultModel, TargetModel,
    ValueModel,
};
use crate::order;
use crate::seam::BzlEvaluator;
use crate::text;
use crate::values::AttrType;
use crate::verdicts;
use crate::verdicts::Verdict;

verus! {

// ---- verdicts ----

/// A verdict is right exactly when what it is about holds, and two verdicts together are right exactly when
/// both are; of two complaints the first one stays.
pub proof fn law_verdicts_add_up(
    v: Verdict,
    condition: bool,
    complaint: Seq<char>,
    first: Result<(), Seq<char>>,
    second: Result<(), Seq<char>>,
)
    ensures
        verdicts::verdict_of(v) is Ok <==> v is Ok,
        v matches Err(c) ==> verdicts::verdict_of(v) == Err::<(), Seq<char>>(c@),
        verdicts::held(condition, complaint) is Ok <==> condition,
        !condition ==> verdicts::held(condition, complaint) == Err::<(), Seq<char>>(complaint),
        verdicts::both(first, second) is Ok <==> first is Ok && second is Ok,
        first is Err ==> verdicts::both(first, second) == first,
        first is Ok ==> verdicts::both(first, second) == second,
{
}

// ---- modules ----

/// Plain bindings are right exactly when the module evaluates, binds `a`, `b`, `c`, `d` and `e` to what the
/// source says, and has its bindings in the byte order of their names.
pub proof fn law_basic_bindings(answer: Result<ModuleModel, ErrorModel>)
    ensures
        verdicts::basic_bindings(answer) is Ok <==> {
            &&& answer matches Ok(m)
            &&& model::lookup(m.bindings, "a"@) == Some(ValueModel::Str("hi"@))
            &&& model::lookup(m.bindings, "b"@) == Some(ValueModel::Int(5))
            &&& model::lookup(m.bindings, "c"@) == Some(ValueModel::Bool(true))
            &&& model::lookup(m.bindings, "d"@) == Some(
                ValueModel::List(seq![ValueModel::Int(1), ValueModel::Int(2)]),
            )
            &&& model::lookup(m.bindings, "e"@) == Some(ValueModel::Int(5_000_000_000))
            &&& forall|i: int, j: int|
                0 <= i < j < m.bindings.len() ==> !order::bytes_before(
                    vstd::utf8::encode_utf8((#[trigger] m.bindings[j]).0),
                    vstd::utf8::encode_utf8((#[trigger] m.bindings[i]).0),
                )
        },
{
    if let Ok(m) = answer {
        let key = encoding::by_name::<ValueModel>();
        assert forall|i: int, j: int|
            #![trigger m.bindings[i], m.bindings[j]]
            0 <= i < j < m.bindings.len() implies order::key_before(
            key(m.bindings[j]),
            key(m.bindings[i]),
        ) == order::bytes_before(
            vstd::utf8::encode_utf8(m.bindings[j].0),
            vstd::utf8::encode_utf8(m.bindings[i].0),
        ) by {
            order::law_texts_are_in_byte_order(m.bindings[j].0, m.bindings[i].0);
        }
    }
}

/// A source that does not parse is answered rightly by a parse error, and by nothing else.
pub proof fn law_parse_error(answer: Result<ModuleModel, ErrorModel>)
    ensures
        verdicts::parse_error(answer) is Ok <==> answer matches Err(ErrorModel::Parse { .. }),
{
}

/// The load targets are right exactly when they are `dep`, once.
pub proof fn law_load_targets(targets: Result<Seq<Seq<char>>, ErrorModel>)
    ensures
        verdicts::load_targets(targets) is Ok <==> {
            &&& targets matches Ok(list)
            &&& list.len() == 1
            &&& list[0] == "dep"@
        },
{
    if let Ok(list) = targets {
        if list.len() == 1 && list[0] == "dep"@ {
            assert(list =~= seq!["dep"@]);
        }
    }
}

/// A loaded symbol is used rightly exactly when the module evaluates and binds `x` to 11.
pub proof fn law_loaded_symbol(answer: Result<ModuleModel, ErrorModel>)
    ensures
        verdicts::loaded_symbol(answer) is Ok <==> {
            &&& answer matches Ok(m)
            &&& model::lookup(m.bindings, "x"@) == Some(ValueModel::Int(11))
        },
{
}

/// Loaded symbols are kept back rightly exactly when the module evaluates, binds `x` to 7, and does not bind
/// `y`.
pub proof fn law_no_reexport(answer: Result<ModuleModel, ErrorModel>)
    ensures
        verdicts::no_reexport(answer) is Ok <==> {
            &&& answer matches Ok(m)
            &&& model::lookup(m.bindings, "x"@) == Some(ValueModel::Int(7))
            &&& model::lookup(m.bindings, "y"@) is None
        },
{
}

/// A function is exported rightly exactly when the module evaluates and binds `f` to a function of that name
/// from the module `m`.
pub proof fn law_function_reference(answer: Result<ModuleModel, ErrorModel>)
    ensures
        verdicts::function_reference(answer) is Ok <==> {
            &&& answer matches Ok(m)
            &&& model::lookup(m.bindings, "f"@) matches Some(ValueModel::FunctionRef(f))
            &&& f.name == "f"@
            &&& f.module == "m"@
        },
{
}

/// A value without a counterpart is answered rightly by an unsupported error, and by nothing else.
pub proof fn law_unsupported_value(answer: Result<ModuleModel, ErrorModel>)
    ensures
        verdicts::unsupported_value(answer) is Ok <==> answer matches Err(
            ErrorModel::Unsupported { .. },
        ),
{
}

/// What must fail is answered rightly by an error, of whatever kind, and by nothing else.
pub proof fn law_must_fail<T>(answer: Result<T, ErrorModel>, complaint: Seq<char>)
    ensures
        verdicts::must_fail(answer, complaint) is Ok <==> answer is Err,
        answer is Ok ==> verdicts::must_fail(answer, complaint) == Err::<(), Seq<char>>(complaint),
{
}

// ---- targets ----

/// Targets are instantiated rightly exactly when there are two: `a` of the kind `my_rule` with the one
/// attribute `srcs`, and `b` with the attributes `aaa` and `zzz` in this order.
pub proof fn law_target_instantiation(answer: Result<Seq<TargetModel>, ErrorModel>)
    ensures
        verdicts::target_instantiation(answer) is Ok <==> {
            &&& answer matches Ok(ts)
            &&& ts.len() == 2
            &&& ts[0].kind == "my_rule"@
            &&& ts[0].name == "a"@
            &&& ts[0].attrs == seq![
                ("srcs"@, ValueModel::List(seq![ValueModel::Str("x.txt"@)])),
            ]
            &&& ts[1].name == "b"@
            &&& ts[1].attrs == seq![("aaa"@, ValueModel::Int(2)), ("zzz"@, ValueModel::Int(1))]
        },
{
}

/// Two targets of one name are answered rightly by an evaluation error, and by nothing else.
pub proof fn law_duplicate_name(answer: Result<Seq<TargetModel>, ErrorModel>)
    ensures
        verdicts::duplicate_name(answer) is Ok <==> answer matches Err(ErrorModel::Eval { .. }),
{
}

/// A loaded constant is used rightly exactly when there is one target, and `srcs` with the constant's value
/// is its one attribute.
pub proof fn law_loaded_constant(answer: Result<Seq<TargetModel>, ErrorModel>)
    ensures
        verdicts::loaded_constant(answer) is Ok <==> {
            &&& answer matches Ok(ts)
            &&& ts.len() == 1
            &&& ts[0].attrs == seq![
                ("srcs"@, ValueModel::List(seq![ValueModel::Str("g.txt"@)])),
            ]
        },
{
}

// ---- rules ----

/// A rule is defined rightly exactly when the module evaluates, binds `my_rule` to a rule of that name from
/// `rules.bzl` with the attributes `deps` and `value` in this order, and does not bind `_impl`.
pub proof fn law_rule_definition(answer: Result<ModuleModel, ErrorModel>)
    ensures
        verdicts::rule_definition(answer) is Ok <==> {
            &&& answer matches Ok(m)
            &&& model::lookup(m.bindings, "my_rule"@) matches Some(ValueModel::Rule(r))
            &&& r.name == "my_rule"@
            &&& r.bzl == "rules.bzl"@
            &&& r.attrs == seq![("deps"@, AttrType::LabelList), ("value"@, AttrType::Int)]
            &&& model::lookup(m.bindings, "_impl"@) is None
        },
{
}

/// A rule is called rightly exactly when there is one target, of the kind `my_rule`, which records that
/// `pkg/rules.bzl` defines the rule, with the attributes `deps` and `value` in this order.
pub proof fn law_rule_call(answer: Result<Seq<TargetModel>, ErrorModel>)
    ensures
        verdicts::rule_call(answer) is Ok <==> {
            &&& answer matches Ok(ts)
            &&& ts.len() == 1
            &&& ts[0].kind == "my_rule"@
            &&& ts[0].origin == Some(OriginModel { bzl: "pkg/rules.bzl"@, name: "my_rule"@ })
            &&& ts[0].attrs == seq![
                ("deps"@, ValueModel::List(seq![ValueModel::Str(":b"@)])),
                ("value"@, ValueModel::Int(5)),
            ]
        },
{
}

// ---- analysis ----

/// A rule is run rightly exactly when it publishes one provider, `NumberInfo` without a defining module, with
/// the total 32.
pub proof fn law_rule_evaluation(answer: Result<ResultModel, ErrorModel>)
    ensures
        verdicts::rule_evaluation(answer) is Ok <==> {
            &&& answer matches Ok(r)
            &&& r.providers.len() == 1
            &&& r.providers[0].provider.name == "NumberInfo"@
            &&& r.providers[0].provider.bzl is None
            &&& model::lookup(r.providers[0].fields, "total"@) == Some(ValueModel::Int(32))
        },
{
}

/// An error that has to name something is right exactly when it is an evaluation error whose text holds it.
pub proof fn law_named_error<T>(
    answer: Result<T, ErrorModel>,
    part: Seq<char>,
    not_refused: Seq<char>,
    not_named: Seq<char>,
)
    ensures
        verdicts::named_error(answer, part, not_refused, not_named) is Ok <==> {
            &&& answer matches Err(ErrorModel::Eval { detail })
            &&& exists|front: Seq<char>, back: Seq<char>|
                detail == #[trigger] (front + part + back)
        },
{
    if let Err(ErrorModel::Eval { detail }) = answer {
        text::law_part_stands_between_two_texts(part, detail);
    }
}

/// A second declaration of a provider is answered rightly by an evaluation error that names it: `NumberInfo`
/// where a rule is run, and `P` in quotes where a module is evaluated. One declaration under two names is
/// answered rightly by any module, and by no error.
pub proof fn law_declarations(
    for_rule: Result<ResultModel, ErrorModel>,
    in_module: Result<ModuleModel, ErrorModel>,
)
    ensures
        verdicts::declared_twice_for_rule(for_rule) is Ok <==> {
            &&& for_rule matches Err(ErrorModel::Eval { detail })
            &&& text::is_part("NumberInfo"@, detail)
        },
        verdicts::declared_twice_in_module(in_module) is Ok <==> {
            &&& in_module matches Err(ErrorModel::Eval { detail })
            &&& text::is_part("'P'"@, detail)
        },
        verdicts::aliased_declaration(in_module) is Ok <==> in_module is Ok,
{
}

/// Two instances of one provider are answered rightly by an evaluation error that says which one conflicts.
pub proof fn law_duplicate_result(answer: Result<ResultModel, ErrorModel>)
    ensures
        verdicts::duplicate_result(answer) is Ok <==> {
            &&& answer matches Err(ErrorModel::Eval { detail })
            &&& text::is_part(
                "Multiple conflicting returned providers with key NumberInfo"@,
                detail,
            )
        },
{
}

/// An action is declared rightly exactly when the result has one provider and one action, `Touch`, whose
/// command line is `touch out` and whose one output is `out`.
pub proof fn law_action_declaration(answer: Result<ResultModel, ErrorModel>)
    ensures
        verdicts::action_declaration(answer) is Ok <==> {
            &&& answer matches Ok(r)
            &&& r.providers.len() == 1
            &&& r.actions.len() == 1
            &&& r.actions[0].mnemonic == "Touch"@
            &&& r.actions[0].argv == seq!["touch"@, "out"@]
            &&& r.actions[0].outputs == seq!["out"@]
        },
{
}

// ---- what the questions are made of ----

/// What a question hands over: no module or one with one binding, a rule without toolchains, and a dependency
/// with one instance of one field.
pub proof fn law_what_is_handed_over(
    target: Seq<char>,
    name: Seq<char>,
    value: ValueModel,
    attrs: Seq<(Seq<char>, AttrType)>,
    label: Seq<char>,
    bzl: Option<Seq<char>>,
    total: i64,
)
    ensures
        conformance::nothing_loaded().len() == 0,
        conformance::loaded_binding(target, name, value).len() == 1,
        conformance::loaded_binding(target, name, value)[0].0 == target,
        conformance::loaded_binding(target, name, value)[0].1.bindings == seq![(name, value)],
        conformance::my_rule(attrs) matches ValueModel::Rule(r) && r.bzl == "pkg/rules.bzl"@ && r.name
            == "my_rule"@ && r.attrs == attrs && r.toolchains.len() == 0,
        conformance::number_dep(label, bzl, total).label == label,
        conformance::number_dep(label, bzl, total).providers.len() == 1,
        ({
            let p: InstanceModel = conformance::number_dep(label, bzl, total).providers[0];
            &&& p.provider.name == "NumberInfo"@
            &&& p.provider.bzl == bzl
            &&& p.fields == seq![("total"@, ValueModel::Int(total))]
        }),
        verdicts::text_list(name) == ValueModel::List(seq![ValueModel::Str(name)]),
        verdicts::deps_and_value() == seq![("deps"@, AttrType::LabelList), ("value"@, AttrType::Int)],
        conformance::adds_up_attrs() == seq![
            ("value"@, ValueModel::Int(2)),
            ("deps"@, ValueModel::List(seq![ValueModel::Str(":a"@), ValueModel::Str(":b"@)])),
        ],
{
}

/// The sources that are put to an evaluator.
pub proof fn law_sources()
    ensures
        conformance::BINDINGS@ == "b = 2 + 3\na = \"hi\"\nc = True\nd = [1, 2]\ne = 5000000000\n"@,
        conformance::LOADS@ == "load(\"dep\", \"y\")\nx = y + 1\n"@,
        conformance::REBINDS@ == "load(\"dep\", \"y\")\nx = y\n"@,
        conformance::TWO_TARGETS@ == "target(kind = \"my_rule\", name = \"a\", srcs = [\"x.txt\"])\ntarget(kind = \"my_rule\", name = \"b\", zzz = 1, aaa = 2)\n"@,
        conformance::SAME_NAME@ == "target(kind = \"r\", name = \"dup\")\ntarget(kind = \"r\", name = \"dup\")\n"@,
        conformance::USES_CONSTANT@ == "load(\"consts\", \"SRCS\")\ntarget(kind = \"r\", name = \"a\", srcs = SRCS)\n"@,
        conformance::FUNCTION_ATTR@ == "def f():\n    pass\ntarget(kind = \"r\", name = \"a\", bad = f)\n"@,
        conformance::DEFINES_RULE@ == "def _impl(ctx):\n    pass\nmy_rule = rule(implementation = _impl, attrs = {\"deps\": attr.label_list(), \"value\": attr.int()})\n"@,
        conformance::CALLS_RULE@ == "load(\"rules\", \"my_rule\")\nmy_rule(name = \"a\", value = 5, deps = [\":b\"])\n"@,
        conformance::BOGUS_ATTR@ == "load(\"rules\", \"my_rule\")\nmy_rule(name = \"a\", bogus = 1)\n"@,
        conformance::WRONG_TYPE@ == "load(\"rules\", \"my_rule\")\nmy_rule(name = \"a\", deps = \"not a list\")\n"@,
        conformance::BARE_CALL@ == "load(\"rules\", \"my_rule\")\nmy_rule(name = \"a\")\n"@,
        conformance::ADDS_UP@ == "\
NumberInfo = provider(\"NumberInfo\", fields = [\"total\"])

def _impl(ctx):
    t = ctx.attr.value
    for d in ctx.attr.deps:
        t += d[NumberInfo].total
    return [NumberInfo(total = t)]

my_rule = rule(implementation = _impl, attrs = {\"value\": attr.int(), \"deps\": attr.label_list()})
"@,
        conformance::ASKS_FOR_OTHER@ == "\
NumberInfo = provider(\"NumberInfo\", fields = [\"total\"])
OtherInfo = provider(\"OtherInfo\", fields = [\"x\"])

def _impl(ctx):
    return [NumberInfo(total = ctx.attr.deps[0][OtherInfo].x)]

my_rule = rule(implementation = _impl, attrs = {\"deps\": attr.label_list()})
"@,
        conformance::BOGUS_FIELD@ == "\
NumberInfo = provider(\"NumberInfo\", fields = [\"total\"])

def _impl(ctx):
    return [NumberInfo(bogus = 1)]

my_rule = rule(implementation = _impl, attrs = {})
"@,
        conformance::ASKS_FOR_OWN@ == "\
NumberInfo = provider(\"NumberInfo\", fields = [\"total\"])

def _impl(ctx):
    return [NumberInfo(total = ctx.attr.deps[0][NumberInfo].total)]

my_rule = rule(implementation = _impl, attrs = {\"deps\": attr.label_list()})
"@,
        conformance::DECLARED_TWICE@ == "\
NumberInfo = provider(\"NumberInfo\", fields = [\"total\"])
Other = provider(\"NumberInfo\", fields = [\"x\"])

def _impl(ctx):
    return [NumberInfo(total = 1)]

my_rule = rule(implementation = _impl, attrs = {})
"@,
        conformance::SAME_PROVIDER@ == "A = provider(\"P\", fields = [])\nB = provider(\"P\", fields = [])\n"@,
        conformance::ALIASED@ == "P = provider(\"P\", fields = [\"x\"])\nAlias = P\n"@,
        conformance::RETURNED_TWICE@ == "\
NumberInfo = provider(\"NumberInfo\", fields = [\"total\"])

def _impl(ctx):
    return [NumberInfo(total = 1), NumberInfo(total = 2)]

my_rule = rule(implementation = _impl, attrs = {})
"@,
        conformance::IGNORES_DEPS@ == "\
NumberInfo = provider(\"NumberInfo\", fields = [\"total\"])

def _impl(ctx):
    return [NumberInfo(total = 0)]

my_rule = rule(implementation = _impl, attrs = {\"deps\": attr.label_list()})
"@,
        conformance::DECLARES_ACTION@ == "\
NumberInfo = provider(\"NumberInfo\", fields = [\"x\"])

def _impl(ctx):
    ctx.actions.run(mnemonic = \"Touch\", executable = \"touch\", arguments = [\"out\"], outputs = [\"out\"])
    return [NumberInfo(x = 1)]

my_rule = rule(implementation = _impl, attrs = {})
"@,
{
}

/// A rule is run in the default environment as `my_rule` of `pkg/rules.bzl` for `//pkg:t`, with the given
/// source, attributes and dependencies, with nothing loaded and no toolchain.
pub proof fn law_rules_are_run_for_one_target<E: BzlEvaluator>(
    e: &E,
    source: Seq<char>,
    attrs: Seq<(Seq<char>, ValueModel)>,
    deps: Seq<DepModel>,
)
    ensures
        conformance::my_rule_run(e, source, attrs, deps) == e.rule_result(
            env::build_bzl_env(),
            source,
            "pkg/rules.bzl"@,
            "my_rule"@,
            seq![],
            "//pkg:t"@,
            attrs,
            deps,
            seq![],
        ),
{
}

} // verus!
