//! What the conformance suite makes of an evaluator's answers.
//!
//! Each check takes answers and says whether they are as they should be, or else what is wrong with them.

use vstd::prelude::*;
use crate::bytes;
use crate::encoding;
use crate::model;
use crate::model::{
    ErrorModel, FieldModel, IdModel, ModuleModel, OriginModel, ResultModel, TargetModel, ValueModel,
};
use crate::order;
use crate::order::text_comes_before;
use crate::provider::{ActionTemplate, RuleResult};
use crate::seam;
use crate::seam::BzlError;
use crate::text;
use crate::text::{contains_text, same_text};
use crate::values;
use crate::values::{AttrType, BzlModule, BzlValue, TargetDecl};

verus! {

/// `Ok` where an evaluator does what it should, else what is wrong.
pub type Verdict = Result<(), &'static str>;

/// What a verdict says.
pub open spec fn verdict_of(v: Verdict) -> Result<(), Seq<char>> {
    match v {
        Ok(()) => Ok(()),
        Err(complaint) => Err(complaint@),
    }
}

/// Right if the condition holds, else the complaint.
pub open spec fn held(condition: bool, complaint: Seq<char>) -> Result<(), Seq<char>> {
    if condition {
        Ok(())
    } else {
        Err(complaint)
    }
}

/// The first verdict if it is a complaint, else the second.
pub open spec fn both(
    first: Result<(), Seq<char>>,
    second: Result<(), Seq<char>>,
) -> Result<(), Seq<char>> {
    match first {
        Ok(()) => second,
        Err(complaint) => Err(complaint),
    }
}

/// Right if the condition holds, else the complaint.
pub(crate) fn hold(condition: bool, complaint: &'static str) -> (v: Verdict)
    ensures
        verdict_of(v) == held(condition, complaint@),
{
    if condition {
        Ok(())
    } else {
        Err(complaint)
    }
}

/// The first verdict if it is a complaint, else the second.
pub(crate) fn and_also(first: Verdict, second: Verdict) -> (v: Verdict)
    ensures
        verdict_of(v) == both(verdict_of(first), verdict_of(second)),
{
    match first {
        Ok(()) => second,
        Err(complaint) => Err(complaint),
    }
}

// ---- comparing values ----

fn is_int(v: &BzlValue, i: i64) -> (r: bool)
    ensures
        r == (v@ == ValueModel::Int(i)),
{
    match v {
        BzlValue::Int(j) => *j == i,
        _ => false,
    }
}

fn is_bool(v: &BzlValue, x: bool) -> (r: bool)
    ensures
        r == (v@ == ValueModel::Bool(x)),
{
    match v {
        BzlValue::Bool(y) => *y == x,
        _ => false,
    }
}

fn is_text(v: &BzlValue, s: &str) -> (r: bool)
    ensures
        r == (v@ == ValueModel::Str(s@)),
{
    match v {
        BzlValue::Str(t) => same_text(t.as_str(), s),
        _ => false,
    }
}

/// A list of one text.
pub open spec fn text_list(s: Seq<char>) -> ValueModel {
    ValueModel::List(seq![ValueModel::Str(s)])
}

fn is_text_list(v: &BzlValue, s: &str) -> (r: bool)
    ensures
        r == (v@ == text_list(s@)),
{
    proof {
        values::lemma_value_view(*v);
    }
    match v {
        BzlValue::List(items) => {
            let r = items.len() == 1 && is_text(&items[0], s);
            proof {
                let models = values::values_of(items@);
                let expected = seq![ValueModel::Str(s@)];
                if r {
                    assert(models =~= expected);
                } else if models == expected {
                    assert(models.len() == 1);
                    assert(models[0] == expected[0]);
                }
            }
            r
        },
        _ => false,
    }
}

/// A list of two integers.
pub open spec fn int_pair(i: i64, j: i64) -> ValueModel {
    ValueModel::List(seq![ValueModel::Int(i), ValueModel::Int(j)])
}

fn is_int_pair(v: &BzlValue, i: i64, j: i64) -> (r: bool)
    ensures
        r == (v@ == int_pair(i, j)),
{
    proof {
        values::lemma_value_view(*v);
    }
    match v {
        BzlValue::List(items) => {
            let r = items.len() == 2 && is_int(&items[0], i) && is_int(&items[1], j);
            proof {
                let models = values::values_of(items@);
                let expected = seq![ValueModel::Int(i), ValueModel::Int(j)];
                if r {
                    assert(models =~= expected);
                } else if models == expected {
                    assert(models.len() == 2);
                    assert(models[0] == expected[0] && models[1] == expected[1]);
                }
            }
            r
        },
        _ => false,
    }
}

fn binds_int(m: &BzlModule, name: &str, i: i64) -> (r: bool)
    ensures
        r == (model::lookup(m@.bindings, name@) == Some(ValueModel::Int(i))),
{
    match m.get(name) {
        Some(v) => is_int(v, i),
        None => false,
    }
}

fn binds_nothing(m: &BzlModule, name: &str) -> (r: bool)
    ensures
        r == (model::lookup(m@.bindings, name@) is None),
{
    match m.get(name) {
        Some(_) => false,
        None => true,
    }
}

/// Whether named values are sorted by name.
fn is_sorted(fields: &[(String, BzlValue)]) -> (r: bool)
    ensures
        r == order::ordered_by(values::fields_of(fields@), encoding::by_name()),
{
    let n: usize = fields.len();
    let ghost models = values::fields_of(fields@);
    let ghost key = encoding::by_name::<ValueModel>();
    if n == 0 {
        return true;
    }
    for i in 1..n
        invariant
            n == fields@.len(),
            models == values::fields_of(fields@),
            key == encoding::by_name::<ValueModel>(),
            order::ordered_by(models.take(i as int), key),
    {
        let out_of_order = text_comes_before(fields[i].0.as_str(), fields[i - 1].0.as_str());
        if out_of_order {
            assert(order::key_before(key(models[i as int]), key(models[i - 1])));
            return false;
        }
        proof {
            let next = models.take(i + 1);
            assert forall|a: int, b: int| 0 <= a < b < next.len() implies !order::key_before(
                key(#[trigger] next[b]),
                key(#[trigger] next[a]),
            ) by {
                if b < i {
                    assert(models.take(i as int)[a] == next[a]);
                    assert(models.take(i as int)[b] == next[b]);
                } else if a < i - 1 {
                    assert(next[i - 1] == models.take(i as int)[i - 1]);
                    assert(next[a] == models.take(i as int)[a]);
                    order::lemma_not_before_transitive(
                        key(next[a]),
                        key(next[i - 1]),
                        key(next[b]),
                    );
                }
            }
        }
    }
    assert(models.take(n as int) =~= models);
    true
}

// ---- bindings and loads ----

/// The verdict on `b = 2 + 3`, `a = "hi"`, `c = True`, `d = [1, 2]` and `e = 5000000000`.
pub open spec fn basic_bindings(answer: Result<ModuleModel, ErrorModel>) -> Result<(), Seq<char>> {
    match answer {
        Err(_) => Err("a module of literal and arithmetic bindings must evaluate"@),
        Ok(m) => both(
            held(
                model::lookup(m.bindings, "a"@) == Some(ValueModel::Str("hi"@)),
                "a string binding must be exported"@,
            ),
            both(
                held(
                    model::lookup(m.bindings, "b"@) == Some(ValueModel::Int(5)),
                    "arithmetic must fold"@,
                ),
                both(
                    held(
                        model::lookup(m.bindings, "c"@) == Some(ValueModel::Bool(true)),
                        "a truth value must be exported"@,
                    ),
                    both(
                        held(
                            model::lookup(m.bindings, "d"@) == Some(int_pair(1, 2)),
                            "a list must be exported"@,
                        ),
                        both(
                            held(
                                model::lookup(m.bindings, "e"@) == Some(
                                    ValueModel::Int(5_000_000_000),
                                ),
                                "integers beyond 32 bits must be exported"@,
                            ),
                            held(
                                order::ordered_by(m.bindings, encoding::by_name()),
                                "exported bindings must be sorted by name"@,
                            ),
                        ),
                    ),
                ),
            ),
        ),
    }
}

pub fn check_basic_bindings(answer: &Result<BzlModule, BzlError>) -> (v: Verdict)
    ensures
        verdict_of(v) == basic_bindings(model::outcome(*answer)),
{
    match answer {
        Err(_) => Err("a module of literal and arithmetic bindings must evaluate"),
        Ok(m) => {
            let a = match m.get("a") {
                Some(x) => is_text(x, "hi"),
                None => false,
            };
            let c = match m.get("c") {
                Some(x) => is_bool(x, true),
                None => false,
            };
            let d = match m.get("d") {
                Some(x) => is_int_pair(x, 1, 2),
                None => false,
            };
            and_also(
                hold(a, "a string binding must be exported"),
                and_also(
                    hold(binds_int(m, "b", 5), "arithmetic must fold"),
                    and_also(
                        hold(c, "a truth value must be exported"),
                        and_also(
                            hold(d, "a list must be exported"),
                            and_also(
                                hold(
                                    binds_int(m, "e", 5_000_000_000),
                                    "integers beyond 32 bits must be exported",
                                ),
                                hold(
                                    is_sorted(m.bindings.as_slice()),
                                    "exported bindings must be sorted by name",
                                ),
                            ),
                        ),
                    ),
                ),
            )
        },
    }
}

/// The verdict on a source that does not parse.
pub open spec fn parse_error<T>(answer: Result<T, ErrorModel>) -> Result<(), Seq<char>> {
    held(
        answer matches Err(ErrorModel::Parse { .. }),
        "a syntax error must be a parse error"@,
    )
}

pub fn check_parse_error(answer: &Result<BzlModule, BzlError>) -> (v: Verdict)
    ensures
        verdict_of(v) == parse_error(model::outcome(*answer)),
{
    let parse = match answer {
        Err(BzlError::Parse { .. }) => true,
        _ => false,
    };
    hold(parse, "a syntax error must be a parse error")
}

/// The verdict on the load targets of a source that loads from `dep`.
pub open spec fn load_targets(targets: Result<Seq<Seq<char>>, ErrorModel>) -> Result<
    (),
    Seq<char>,
> {
    match targets {
        Err(_) => Err("the load targets of a source must be read"@),
        Ok(list) => held(list == seq!["dep"@], "the load target must be reported"@),
    }
}

pub fn check_load_targets(targets: &Result<Vec<String>, BzlError>) -> (v: Verdict)
    ensures
        verdict_of(v) == load_targets(seam::texts_outcome(*targets)),
{
    match targets {
        Err(_) => Err("the load targets of a source must be read"),
        Ok(list) => {
            let reported = list.len() == 1 && same_text(list[0].as_str(), "dep");
            proof {
                let texts = bytes::texts(list@);
                if reported {
                    assert(texts =~= seq!["dep"@]);
                } else if texts == seq!["dep"@] {
                    assert(texts.len() == 1 && texts[0] == "dep"@);
                }
            }
            hold(reported, "the load target must be reported")
        },
    }
}

/// The verdict on a source that loads `y` from `dep` and binds `x = y + 1`, where `y` is 10.
pub open spec fn loaded_symbol(answer: Result<ModuleModel, ErrorModel>) -> Result<(), Seq<char>> {
    match answer {
        Err(_) => Err("evaluation with a loaded module must succeed"@),
        Ok(m) => held(
            model::lookup(m.bindings, "x"@) == Some(ValueModel::Int(11)),
            "a loaded symbol must be usable"@,
        ),
    }
}

pub fn check_loaded_symbol(answer: &Result<BzlModule, BzlError>) -> (v: Verdict)
    ensures
        verdict_of(v) == loaded_symbol(model::outcome(*answer)),
{
    match answer {
        Err(_) => Err("evaluation with a loaded module must succeed"),
        Ok(m) => hold(binds_int(m, "x", 11), "a loaded symbol must be usable"),
    }
}

/// The verdict on a source that loads `y` from `dep` and binds `x = y`, where `y` is 7.
pub open spec fn no_reexport(answer: Result<ModuleModel, ErrorModel>) -> Result<(), Seq<char>> {
    match answer {
        Err(_) => Err("evaluation with a loaded module must succeed"@),
        Ok(m) => both(
            held(
                model::lookup(m.bindings, "x"@) == Some(ValueModel::Int(7)),
                "a loaded symbol must be usable"@,
            ),
            held(
                model::lookup(m.bindings, "y"@) is None,
                "a loaded symbol must not be exported by the loader"@,
            ),
        ),
    }
}

pub fn check_no_reexport(answer: &Result<BzlModule, BzlError>) -> (v: Verdict)
    ensures
        verdict_of(v) == no_reexport(model::outcome(*answer)),
{
    match answer {
        Err(_) => Err("evaluation with a loaded module must succeed"),
        Ok(m) => and_also(
            hold(binds_int(m, "x", 7), "a loaded symbol must be usable"),
            hold(
                binds_nothing(m, "y"),
                "a loaded symbol must not be exported by the loader",
            ),
        ),
    }
}

/// The verdict on the function `f` of the module `m`.
pub open spec fn function_reference(answer: Result<ModuleModel, ErrorModel>) -> Result<
    (),
    Seq<char>,
> {
    match answer {
        Err(_) => Err("a module with an exported function must evaluate"@),
        Ok(m) => match model::lookup(m.bindings, "f"@) {
            Some(ValueModel::FunctionRef(f)) => both(
                held(f.name == "f"@, "a function reference must carry the function's name"@),
                held(f.module == "m"@, "a function reference must carry the defining module"@),
            ),
            _ => Err("an exported function must be a function reference"@),
        },
    }
}

pub fn check_function_reference(answer: &Result<BzlModule, BzlError>) -> (v: Verdict)
    ensures
        verdict_of(v) == function_reference(model::outcome(*answer)),
{
    match answer {
        Err(_) => Err("a module with an exported function must evaluate"),
        Ok(m) => match m.get("f") {
            Some(BzlValue::FunctionRef(f)) => and_also(
                hold(
                    same_text(f.name.as_str(), "f"),
                    "a function reference must carry the function's name",
                ),
                hold(
                    same_text(f.module.as_str(), "m"),
                    "a function reference must carry the defining module",
                ),
            ),
            _ => Err("an exported function must be a function reference"),
        },
    }
}

/// The verdict on a value that has no counterpart in the model.
pub open spec fn unsupported_value(answer: Result<ModuleModel, ErrorModel>) -> Result<
    (),
    Seq<char>,
> {
    held(
        answer matches Err(ErrorModel::Unsupported { .. }),
        "a value without a counterpart must be an unsupported error"@,
    )
}

pub fn check_unsupported_value(answer: &Result<BzlModule, BzlError>) -> (v: Verdict)
    ensures
        verdict_of(v) == unsupported_value(model::outcome(*answer)),
{
    let refused = match answer {
        Err(BzlError::Unsupported { .. }) => true,
        _ => false,
    };
    hold(refused, "a value without a counterpart must be an unsupported error")
}

/// The verdict on what must fail, in whatever way.
pub open spec fn must_fail<T>(
    answer: Result<T, ErrorModel>,
    complaint: Seq<char>,
) -> Result<(), Seq<char>> {
    held(answer is Err, complaint)
}

pub fn check_module_fails(
    answer: &Result<BzlModule, BzlError>,
    complaint: &'static str,
) -> (v: Verdict)
    ensures
        verdict_of(v) == must_fail(model::outcome(*answer), complaint@),
{
    hold(answer.is_err(), complaint)
}

pub fn check_build_fails(
    answer: &Result<Vec<TargetDecl>, BzlError>,
    complaint: &'static str,
) -> (v: Verdict)
    ensures
        verdict_of(v) == must_fail(seam::targets_outcome(*answer), complaint@),
{
    hold(answer.is_err(), complaint)
}

pub fn check_rule_fails(
    answer: &Result<RuleResult, BzlError>,
    complaint: &'static str,
) -> (v: Verdict)
    ensures
        verdict_of(v) == must_fail(model::outcome(*answer), complaint@),
{
    hold(answer.is_err(), complaint)
}

// ---- targets ----

fn is_single_text_attr(attrs: &[(String, BzlValue)], name: &str, s: &str) -> (r: bool)
    ensures
        r == (values::fields_of(attrs@) == seq![(name@, text_list(s@))]),
{
    let r = attrs.len() == 1 && same_text(attrs[0].0.as_str(), name) && is_text_list(
        &attrs[0].1,
        s,
    );
    proof {
        let models = values::fields_of(attrs@);
        let expected = seq![(name@, text_list(s@))];
        if r {
            assert(models =~= expected);
        } else if models == expected {
            assert(models.len() == 1);
            assert(models[0] == expected[0]);
        }
    }
    r
}

fn is_int_attr(attr: &(String, BzlValue), name: &str, i: i64) -> (r: bool)
    ensures
        r == ((attr.0@, attr.1@) == (name@, ValueModel::Int(i))),
{
    same_text(attr.0.as_str(), name) && is_int(&attr.1, i)
}

fn is_text_list_attr(attr: &(String, BzlValue), name: &str, s: &str) -> (r: bool)
    ensures
        r == ((attr.0@, attr.1@) == (name@, text_list(s@))),
{
    same_text(attr.0.as_str(), name) && is_text_list(&attr.1, s)
}

/// The attributes `aaa = 2` and `zzz = 1`, sorted by name.
pub open spec fn sorted_ints() -> Seq<FieldModel> {
    seq![("aaa"@, ValueModel::Int(2)), ("zzz"@, ValueModel::Int(1))]
}

fn is_sorted_ints(attrs: &[(String, BzlValue)]) -> (r: bool)
    ensures
        r == (values::fields_of(attrs@) == sorted_ints()),
{
    let r = attrs.len() == 2 && is_int_attr(&attrs[0], "aaa", 2) && is_int_attr(
        &attrs[1],
        "zzz",
        1,
    );
    proof {
        let models = values::fields_of(attrs@);
        if r {
            assert(models =~= sorted_ints());
        } else if models == sorted_ints() {
            assert(models.len() == 2);
            assert(models[0] == sorted_ints()[0] && models[1] == sorted_ints()[1]);
        }
    }
    r
}

/// The attributes `deps = [":b"]` and `value = 5`, sorted by name.
pub open spec fn rule_call_attrs() -> Seq<FieldModel> {
    seq![("deps"@, text_list(":b"@)), ("value"@, ValueModel::Int(5))]
}

fn is_rule_call_attrs(attrs: &[(String, BzlValue)]) -> (r: bool)
    ensures
        r == (values::fields_of(attrs@) == rule_call_attrs()),
{
    let r = attrs.len() == 2 && is_text_list_attr(&attrs[0], "deps", ":b") && is_int_attr(
        &attrs[1],
        "value",
        5,
    );
    proof {
        let models = values::fields_of(attrs@);
        if r {
            assert(models =~= rule_call_attrs());
        } else if models == rule_call_attrs() {
            assert(models.len() == 2);
            assert(models[0] == rule_call_attrs()[0] && models[1] == rule_call_attrs()[1]);
        }
    }
    r
}

/// The verdict on a target `a` of the kind `my_rule` with `srcs = ["x.txt"]`, and a target `b` with
/// `zzz = 1, aaa = 2`.
pub open spec fn target_instantiation(answer: Result<Seq<TargetModel>, ErrorModel>) -> Result<
    (),
    Seq<char>,
> {
    match answer {
        Err(_) => Err("a BUILD file of target calls must evaluate"@),
        Ok(ts) => if ts.len() != 2 {
            Err("two target calls must instantiate two targets"@)
        } else {
            both(
                held(ts[0].kind == "my_rule"@, "a target must carry its kind"@),
                both(
                    held(ts[0].name == "a"@, "a target must carry its name"@),
                    both(
                        held(
                            ts[0].attrs == seq![("srcs"@, text_list("x.txt"@))],
                            "a target must carry its attributes"@,
                        ),
                        both(
                            held(ts[1].name == "b"@, "a target must carry its name"@),
                            held(
                                ts[1].attrs == sorted_ints(),
                                "attributes must be sorted by name, whatever the order of the call"@,
                            ),
                        ),
                    ),
                ),
            )
        },
    }
}

pub fn check_target_instantiation(answer: &Result<Vec<TargetDecl>, BzlError>) -> (v: Verdict)
    ensures
        verdict_of(v) == target_instantiation(seam::targets_outcome(*answer)),
{
    match answer {
        Err(_) => Err("a BUILD file of target calls must evaluate"),
        Ok(ts) => {
            if ts.len() != 2 {
                return Err("two target calls must instantiate two targets");
            }
            and_also(
                hold(same_text(ts[0].kind.as_str(), "my_rule"), "a target must carry its kind"),
                and_also(
                    hold(same_text(ts[0].name.as_str(), "a"), "a target must carry its name"),
                    and_also(
                        hold(
                            is_single_text_attr(ts[0].attrs.as_slice(), "srcs", "x.txt"),
                            "a target must carry its attributes",
                        ),
                        and_also(
                            hold(
                                same_text(ts[1].name.as_str(), "b"),
                                "a target must carry its name",
                            ),
                            hold(
                                is_sorted_ints(ts[1].attrs.as_slice()),
                                "attributes must be sorted by name, whatever the order of the call",
                            ),
                        ),
                    ),
                ),
            )
        },
    }
}

/// The verdict on two targets of one name.
pub open spec fn duplicate_name(answer: Result<Seq<TargetModel>, ErrorModel>) -> Result<
    (),
    Seq<char>,
> {
    held(
        answer matches Err(ErrorModel::Eval { .. }),
        "two targets of one name must be an evaluation error"@,
    )
}

pub fn check_duplicate_name(answer: &Result<Vec<TargetDecl>, BzlError>) -> (v: Verdict)
    ensures
        verdict_of(v) == duplicate_name(seam::targets_outcome(*answer)),
{
    let refused = match answer {
        Err(BzlError::Eval { .. }) => true,
        _ => false,
    };
    hold(refused, "two targets of one name must be an evaluation error")
}

/// The verdict on a target with `srcs = SRCS`, where the loaded `SRCS` is `["g.txt"]`.
pub open spec fn loaded_constant(answer: Result<Seq<TargetModel>, ErrorModel>) -> Result<
    (),
    Seq<char>,
> {
    match answer {
        Err(_) => Err("a BUILD file that uses a loaded constant must evaluate"@),
        Ok(ts) => if ts.len() != 1 {
            Err("one target call must instantiate one target"@)
        } else {
            held(
                ts[0].attrs == seq![("srcs"@, text_list("g.txt"@))],
                "a loaded constant must be usable as an attribute value"@,
            )
        },
    }
}

pub fn check_loaded_constant(answer: &Result<Vec<TargetDecl>, BzlError>) -> (v: Verdict)
    ensures
        verdict_of(v) == loaded_constant(seam::targets_outcome(*answer)),
{
    match answer {
        Err(_) => Err("a BUILD file that uses a loaded constant must evaluate"),
        Ok(ts) => {
            if ts.len() != 1 {
                return Err("one target call must instantiate one target");
            }
            hold(
                is_single_text_attr(ts[0].attrs.as_slice(), "srcs", "g.txt"),
                "a loaded constant must be usable as an attribute value",
            )
        },
    }
}

// ---- rules ----

/// The schema of `deps = attr.label_list()` and `value = attr.int()`, sorted by name.
pub open spec fn deps_and_value() -> Seq<(Seq<char>, AttrType)> {
    seq![("deps"@, AttrType::LabelList), ("value"@, AttrType::Int)]
}

fn is_deps_and_value(attrs: &[(String, AttrType)]) -> (r: bool)
    ensures
        r == (values::schema_of(attrs@) == deps_and_value()),
{
    let r = attrs.len() == 2 && same_text(attrs[0].0.as_str(), "deps") && attrs[0].1
        == AttrType::LabelList && same_text(attrs[1].0.as_str(), "value") && attrs[1].1
        == AttrType::Int;
    proof {
        let models = values::schema_of(attrs@);
        if r {
            assert(models =~= deps_and_value());
        } else if models == deps_and_value() {
            assert(models.len() == 2);
            assert(models[0] == deps_and_value()[0] && models[1] == deps_and_value()[1]);
        }
    }
    r
}

/// The verdict on the rule `my_rule` that `rules.bzl` defines with the attributes `deps` and `value`.
pub open spec fn rule_definition(answer: Result<ModuleModel, ErrorModel>) -> Result<(), Seq<char>> {
    match answer {
        Err(_) => Err("a module that defines a rule must evaluate"@),
        Ok(m) => both(
            match model::lookup(m.bindings, "my_rule"@) {
                Some(ValueModel::Rule(r)) => both(
                    held(
                        r.name == "my_rule"@,
                        "a rule must be named by the symbol that exports it"@,
                    ),
                    both(
                        held(r.bzl == "rules.bzl"@, "a rule must carry its defining module"@),
                        held(
                            r.attrs == deps_and_value(),
                            "a rule must carry its attribute schema, sorted by name"@,
                        ),
                    ),
                ),
                _ => Err("a rule must be exported as a rule"@),
            },
            held(
                model::lookup(m.bindings, "_impl"@) is None,
                "a private implementation must not be exported"@,
            ),
        ),
    }
}

pub fn check_rule_definition(answer: &Result<BzlModule, BzlError>) -> (v: Verdict)
    ensures
        verdict_of(v) == rule_definition(model::outcome(*answer)),
{
    match answer {
        Err(_) => Err("a module that defines a rule must evaluate"),
        Ok(m) => {
            let first = match m.get("my_rule") {
                Some(BzlValue::Rule(r)) => and_also(
                    hold(
                        same_text(r.name.as_str(), "my_rule"),
                        "a rule must be named by the symbol that exports it",
                    ),
                    and_also(
                        hold(
                            same_text(r.bzl.as_str(), "rules.bzl"),
                            "a rule must carry its defining module",
                        ),
                        hold(
                            is_deps_and_value(r.attrs.as_slice()),
                            "a rule must carry its attribute schema, sorted by name",
                        ),
                    ),
                ),
                _ => Err("a rule must be exported as a rule"),
            };
            and_also(
                first,
                hold(
                    binds_nothing(m, "_impl"),
                    "a private implementation must not be exported",
                ),
            )
        },
    }
}

/// The verdict on `my_rule(name = "a", value = 5, deps = [":b"])`, where `pkg/rules.bzl` defines the rule.
pub open spec fn rule_call(answer: Result<Seq<TargetModel>, ErrorModel>) -> Result<(), Seq<char>> {
    match answer {
        Err(_) => Err("a BUILD file that calls a loaded rule must evaluate"@),
        Ok(ts) => if ts.len() != 1 {
            Err("one rule call must instantiate one target"@)
        } else {
            both(
                held(ts[0].kind == "my_rule"@, "the kind of a target must be the rule's symbol"@),
                both(
                    held(
                        ts[0].origin == Some(
                            OriginModel { bzl: "pkg/rules.bzl"@, name: "my_rule"@ },
                        ),
                        "a target must record where its rule is defined"@,
                    ),
                    held(
                        ts[0].attrs == rule_call_attrs(),
                        "a target must carry its attributes, sorted by name"@,
                    ),
                ),
            )
        },
    }
}

pub fn check_rule_call(answer: &Result<Vec<TargetDecl>, BzlError>) -> (v: Verdict)
    ensures
        verdict_of(v) == rule_call(seam::targets_outcome(*answer)),
{
    match answer {
        Err(_) => Err("a BUILD file that calls a loaded rule must evaluate"),
        Ok(ts) => {
            if ts.len() != 1 {
                return Err("one rule call must instantiate one target");
            }
            let recorded = match &ts[0].origin {
                Some(o) => same_text(o.bzl.as_str(), "pkg/rules.bzl") && same_text(
                    o.name.as_str(),
                    "my_rule",
                ),
                None => false,
            };
            and_also(
                hold(
                    same_text(ts[0].kind.as_str(), "my_rule"),
                    "the kind of a target must be the rule's symbol",
                ),
                and_also(
                    hold(recorded, "a target must record where its rule is defined"),
                    hold(
                        is_rule_call_attrs(ts[0].attrs.as_slice()),
                        "a target must carry its attributes, sorted by name",
                    ),
                ),
            )
        },
    }
}

// ---- analysis ----

/// The verdict on a rule that adds up the attribute 2 and the totals 10 and 20 of two dependencies.
pub open spec fn rule_evaluation(answer: Result<ResultModel, ErrorModel>) -> Result<(), Seq<char>> {
    match answer {
        Err(_) => Err("a rule's implementation must run and publish a provider"@),
        Ok(r) => if r.providers.len() != 1 {
            Err("the implementation returns exactly one provider"@)
        } else {
            both(
                held(
                    r.providers[0].provider == (IdModel { name: "NumberInfo"@, bzl: None }),
                    "a published provider must have the identity of its declaration"@,
                ),
                held(
                    model::lookup(r.providers[0].fields, "total"@) == Some(ValueModel::Int(32)),
                    "attributes and the providers of dependencies must reach the implementation"@,
                ),
            )
        },
    }
}

pub fn check_rule_evaluation(answer: &Result<RuleResult, BzlError>) -> (v: Verdict)
    ensures
        verdict_of(v) == rule_evaluation(model::outcome(*answer)),
{
    match answer {
        Err(_) => Err("a rule's implementation must run and publish a provider"),
        Ok(r) => {
            if r.providers.len() != 1 {
                return Err("the implementation returns exactly one provider");
            }
            let p = &r.providers[0];
            assert(r@.providers[0] == p@);
            let identity = same_text(p.provider.name(), "NumberInfo") && p.provider.bzl().is_none();
            let total = match p.get("total") {
                Some(x) => is_int(x, 32),
                None => false,
            };
            and_also(
                hold(
                    identity,
                    "a published provider must have the identity of its declaration",
                ),
                hold(
                    total,
                    "attributes and the providers of dependencies must reach the implementation",
                ),
            )
        },
    }
}

/// The verdict on an error that must be an evaluation error and name what it is about.
pub open spec fn named_error<T>(
    answer: Result<T, ErrorModel>,
    part: Seq<char>,
    not_refused: Seq<char>,
    not_named: Seq<char>,
) -> Result<(), Seq<char>> {
    match answer {
        Err(ErrorModel::Eval { detail }) => held(text::is_part(part, detail), not_named),
        _ => Err(not_refused),
    }
}

fn check_named(
    error: &BzlError,
    part: &str,
    not_refused: &'static str,
    not_named: &'static str,
) -> (v: Verdict)
    ensures
        verdict_of(v) == named_error::<()>(Err(error@), part@, not_refused@, not_named@),
{
    match error {
        BzlError::Eval { detail } => hold(contains_text(detail.as_str(), part), not_named),
        _ => Err(not_refused),
    }
}

pub fn check_module_error(
    answer: &Result<BzlModule, BzlError>,
    part: &str,
    not_refused: &'static str,
    not_named: &'static str,
) -> (v: Verdict)
    ensures
        verdict_of(v) == named_error(model::outcome(*answer), part@, not_refused@, not_named@),
{
    match answer {
        Ok(_) => Err(not_refused),
        Err(e) => check_named(e, part, not_refused, not_named),
    }
}

pub fn check_rule_error(
    answer: &Result<RuleResult, BzlError>,
    part: &str,
    not_refused: &'static str,
    not_named: &'static str,
) -> (v: Verdict)
    ensures
        verdict_of(v) == named_error(model::outcome(*answer), part@, not_refused@, not_named@),
{
    match answer {
        Ok(_) => Err(not_refused),
        Err(e) => check_named(e, part, not_refused, not_named),
    }
}

/// The verdict on a rule whose module declares `NumberInfo` twice.
pub open spec fn declared_twice_for_rule(answer: Result<ResultModel, ErrorModel>) -> Result<
    (),
    Seq<char>,
> {
    named_error(
        answer,
        "NumberInfo"@,
        "a second declaration of a provider must be an evaluation error"@,
        "the error must name the provider"@,
    )
}

pub fn check_declared_twice_for_rule(answer: &Result<RuleResult, BzlError>) -> (v: Verdict)
    ensures
        verdict_of(v) == declared_twice_for_rule(model::outcome(*answer)),
{
    check_rule_error(
        answer,
        "NumberInfo",
        "a second declaration of a provider must be an evaluation error",
        "the error must name the provider",
    )
}

/// The verdict on a module that declares `P` twice.
pub open spec fn declared_twice_in_module(answer: Result<ModuleModel, ErrorModel>) -> Result<
    (),
    Seq<char>,
> {
    named_error(
        answer,
        "'P'"@,
        "a second declaration of a provider in a module must be an evaluation error"@,
        "the error must name the provider"@,
    )
}

pub fn check_declared_twice_in_module(answer: &Result<BzlModule, BzlError>) -> (v: Verdict)
    ensures
        verdict_of(v) == declared_twice_in_module(model::outcome(*answer)),
{
    check_module_error(
        answer,
        "'P'",
        "a second declaration of a provider in a module must be an evaluation error",
        "the error must name the provider",
    )
}

/// The verdict on one declaration under two names.
pub open spec fn aliased_declaration(answer: Result<ModuleModel, ErrorModel>) -> Result<
    (),
    Seq<char>,
> {
    held(answer is Ok, "one declaration under two names must evaluate"@)
}

pub fn check_aliased_declaration(answer: &Result<BzlModule, BzlError>) -> (v: Verdict)
    ensures
        verdict_of(v) == aliased_declaration(model::outcome(*answer)),
{
    hold(answer.is_ok(), "one declaration under two names must evaluate")
}

/// The verdict on a rule that returns two instances of one provider.
pub open spec fn duplicate_result(answer: Result<ResultModel, ErrorModel>) -> Result<(), Seq<char>> {
    named_error(
        answer,
        "Multiple conflicting returned providers with key NumberInfo"@,
        "two returned instances of one provider must be an evaluation error"@,
        "the error must say which provider was returned twice"@,
    )
}

pub fn check_duplicate_result(answer: &Result<RuleResult, BzlError>) -> (v: Verdict)
    ensures
        verdict_of(v) == duplicate_result(model::outcome(*answer)),
{
    check_rule_error(
        answer,
        "Multiple conflicting returned providers with key NumberInfo",
        "two returned instances of one provider must be an evaluation error",
        "the error must say which provider was returned twice",
    )
}

/// The verdict on a rule that declares the action `touch out` with the mnemonic `Touch` and the output
/// `out`.
pub open spec fn action_declaration(answer: Result<ResultModel, ErrorModel>) -> Result<
    (),
    Seq<char>,
> {
    match answer {
        Err(_) => Err("a rule that declares an action must evaluate"@),
        Ok(r) => if r.providers.len() != 1 {
            Err("the provider must still be published"@)
        } else if r.actions.len() != 1 {
            Err("the declared action must be in the result"@)
        } else {
            both(
                held(r.actions[0].mnemonic == "Touch"@, "an action must carry its mnemonic"@),
                both(
                    held(
                        r.actions[0].argv == seq!["touch"@, "out"@],
                        "the command line is the executable and the arguments"@,
                    ),
                    held(
                        r.actions[0].outputs == seq!["out"@],
                        "an action must carry its outputs"@,
                    ),
                ),
            )
        },
    }
}

pub fn check_action_declaration(answer: &Result<RuleResult, BzlError>) -> (v: Verdict)
    ensures
        verdict_of(v) == action_declaration(model::outcome(*answer)),
{
    match answer {
        Err(_) => Err("a rule that declares an action must evaluate"),
        Ok(r) => {
            if r.providers.len() != 1 {
                return Err("the provider must still be published");
            }
            if r.actions.len() != 1 {
                return Err("the declared action must be in the result");
            }
            let a: &ActionTemplate = &r.actions[0];
            assert(r@.actions[0] == a@);
            let argv = a.argv.len() == 2 && same_text(a.argv[0].as_str(), "touch") && same_text(
                a.argv[1].as_str(),
                "out",
            );
            let outputs = a.outputs.len() == 1 && same_text(a.outputs[0].as_str(), "out");
            proof {
                let line = bytes::texts(a.argv@);
                if argv {
                    assert(line =~= seq!["touch"@, "out"@]);
                } else if line == seq!["touch"@, "out"@] {
                    assert(line.len() == 2 && line[0] == "touch"@ && line[1] == "out"@);
                }
                let outs = bytes::texts(a.outputs@);
                if outputs {
                    assert(outs =~= seq!["out"@]);
                } else if outs == seq!["out"@] {
                    assert(outs.len() == 1 && outs[0] == "out"@);
                }
            }
            and_also(
                hold(
                    same_text(a.mnemonic.as_str(), "Touch"),
                    "an action must carry its mnemonic",
                ),
                and_also(
                    hold(argv, "the command line is the executable and the arguments"),
                    hold(outputs, "an action must carry its outputs"),
                ),
            )
        },
    }
}

} // verus!
