use razel_bzl_api::{
    encode_bzl_value, encode_provider_instance, AttrDecl, AttrType, BzlValue, Depset, DepsetOrder,
    FunctionRef, ProviderDef, ProviderId, ProviderInstance, RuleDef, SelectArm,
};

fn enc(v: &BzlValue) -> Vec<u8> {
    let mut b = Vec::new();
    encode_bzl_value(v, &mut b);
    b
}

fn enc_instance(p: &ProviderInstance) -> Vec<u8> {
    let mut b = Vec::new();
    encode_provider_instance(p, &mut b);
    b
}

fn text(x: &str) -> BzlValue {
    BzlValue::Str(x.into())
}

fn func(module: &str, name: &str, d: u8) -> BzlValue {
    BzlValue::FunctionRef(FunctionRef {
        module: module.into(),
        name: name.into(),
        defining_digest: [d; 32],
    })
}

#[test]
fn distinct_scalars_encode_distinctly_and_deterministically() {
    assert_ne!(enc(&BzlValue::Int(1)), enc(&BzlValue::Int(2)));
    assert_ne!(enc(&BzlValue::Bool(true)), enc(&BzlValue::Bool(false)));
    // The tag tells apart what looks alike without it.
    assert_ne!(enc(&BzlValue::Nil), enc(&BzlValue::Bool(false)));
    assert_ne!(enc(&BzlValue::Int(0)), enc(&BzlValue::Str(String::new())));
    assert_eq!(enc(&BzlValue::Str("x".into())), enc(&BzlValue::Str("x".into())), "deterministic");
}

#[test]
fn length_framing_prevents_string_aliasing() {
    // ["ab", "c"] and ["a", "bc"] are one run of bytes without frames.
    let a = BzlValue::List(vec![BzlValue::Str("ab".into()), BzlValue::Str("c".into())]);
    let b = BzlValue::List(vec![BzlValue::Str("a".into()), BzlValue::Str("bc".into())]);
    assert_ne!(enc(&a), enc(&b));
    assert_ne!(
        enc(&BzlValue::Str("x".into())),
        enc(&BzlValue::List(vec![BzlValue::Str("x".into())]))
    );
}

#[test]
fn rule_identity_is_injective_across_bzl_name_attrs_toolchains() {
    let base =
        RuleDef { bzl: "a.bzl".into(), name: "r".into(), attrs: vec![], toolchains: vec![] };
    let diff_bzl = RuleDef { bzl: "b.bzl".into(), ..base.clone() };
    let diff_attr = RuleDef { attrs: vec![("x".into(), AttrType::Int)], ..base.clone() };
    let diff_tc = RuleDef { toolchains: vec!["//cc:t".into()], ..base.clone() };
    let mk = |rd: &RuleDef| enc(&BzlValue::Rule(rd.clone()));
    assert_ne!(mk(&base), mk(&diff_bzl), "bzl distinguishes");
    assert_ne!(mk(&base), mk(&diff_attr), "attrs distinguish");
    assert_ne!(mk(&base), mk(&diff_tc), "toolchains distinguish");
}

#[test]
fn provider_instance_boundary_is_framed() {
    let mk = |n: &str, v: BzlValue| {
        enc_instance(&ProviderInstance {
            provider: ProviderId::from_name("P"),
            fields: vec![(n.to_string(), v)],
        })
    };
    assert_ne!(mk("ab", BzlValue::Str("c".into())), mk("a", BzlValue::Str("bc".into())));
    assert_ne!(mk("v", BzlValue::Int(1)), mk("v", BzlValue::Int(2)));
}

#[test]
fn provider_identity_reserved_bzl_dim() {
    let mk = |bzl: Option<&str>| ProviderInstance {
        provider: ProviderId { name: "P".into(), bzl: bzl.map(|s| s.to_string()) },
        fields: vec![],
    };
    let none = enc_instance(&mk(None));
    let a = enc_instance(&mk(Some("a.bzl")));
    let b = enc_instance(&mk(Some("b.bzl")));
    assert_ne!(none, a, "bzl None vs Some must digest differently");
    assert_ne!(a, b, "bzl Some(a) vs Some(b) must digest differently");
    assert_ne!(
        mk(None).provider,
        mk(Some("a.bzl")).provider,
        "the derived Eq must distinguish the bzl dim"
    );
    assert_eq!(none[0], 0x00, "namespace byte: Starlark-declared (0x01 = builtin, reserved)");
    assert_eq!(none[1], 0x00, "bzl dim: the tag of None");
    assert_eq!(
        &none[2..10],
        &1u64.to_be_bytes(),
        "the exported name is u64-framed after the identity dims"
    );
    let pd = |bzl: Option<&str>| {
        BzlValue::Provider(ProviderDef {
            id: ProviderId { name: "P".into(), bzl: bzl.map(|s| s.to_string()) },
            fields: vec![],
        })
    };
    assert_ne!(enc(&pd(None)), enc(&pd(Some("a.bzl"))), "ProviderDef carries the same reserved dim");
}

#[test]
fn depset_order_codes_pinned() {
    let table = [
        (DepsetOrder::Default, 0u8, "default"),
        (DepsetOrder::Postorder, 1, "postorder"),
        (DepsetOrder::Topological, 2, "topological"),
        (DepsetOrder::Preorder, 3, "preorder"),
    ];
    for (order, code, name) in table {
        assert_eq!(order.code(), code, "digest code for {name}");
        assert_eq!(DepsetOrder::from_code(code), Some(order), "code {code} round-trips");
        assert_eq!(DepsetOrder::parse(name), Some(order), "Starlark name '{name}' parses");
        assert_eq!(order.starlark_name(), name);
    }
    for c in 4..=255u8 {
        assert_eq!(
            DepsetOrder::from_code(c),
            None,
            "unknown code {c} must fail closed, never default"
        );
    }
    for stale in ["stable", "compile", "link", "naive_link", "STABLE_ORDER", ""] {
        assert_eq!(
            DepsetOrder::parse(stale),
            None,
            "deprecated/unknown order name '{stale}' must not parse"
        );
    }
}

#[test]
fn depset_digest_is_structural() {
    let leafless = |direct: Vec<BzlValue>, transitive: Vec<Depset>| Depset {
        order: DepsetOrder::Default,
        elem: Some("string".into()),
        direct,
        transitive,
    };
    let flat = leafless(vec![text("a"), text("b")], vec![]);
    let nested = leafless(vec![text("a")], vec![leafless(vec![text("b")], vec![])]);
    assert_ne!(
        enc(&BzlValue::Depset(flat.clone())),
        enc(&BzlValue::Depset(nested)),
        "same to_list, different nesting: different digest"
    );
    let mut post = flat.clone();
    post.order = DepsetOrder::Postorder;
    assert_ne!(
        enc(&BzlValue::Depset(flat)),
        enc(&BzlValue::Depset(post)),
        "the order code is digest content"
    );
    let empty =
        Depset { order: DepsetOrder::Default, elem: None, direct: vec![], transitive: vec![] };
    assert_ne!(
        enc(&BzlValue::Depset(empty)),
        enc(&BzlValue::List(vec![])),
        "depset tag 7 is not list tag 4"
    );
}

#[test]
fn file_takes_tag8_and_is_distinct_from_str() {
    let enc_file = enc(&BzlValue::File("p/lib.rlib".into()));
    assert_eq!(enc_file[0], 8, "File encodes under tag 8");
    assert_ne!(
        enc(&BzlValue::File("p/lib.rlib".into())),
        enc(&BzlValue::Str("p/lib.rlib".into())),
        "a File and a Str of the same path are distinct values"
    );
    let ds = |v: BzlValue| {
        BzlValue::Depset(Depset {
            order: DepsetOrder::Default,
            elem: None,
            direct: vec![v],
            transitive: vec![],
        })
    };
    assert_ne!(
        enc(&ds(BzlValue::File("p/lib.rlib".into()))),
        enc(&ds(BzlValue::Str("p/lib.rlib".into()))),
        "a depset of a File is not a depset of a Str"
    );
}

#[test]
fn codec_tag_table_is_frozen_through_tag_11() {
    assert_eq!(enc(&BzlValue::Nil)[0], 0);
    assert_eq!(enc(&BzlValue::Bool(false))[0], 1);
    assert_eq!(enc(&BzlValue::Int(0))[0], 2);
    assert_eq!(enc(&BzlValue::Str(String::new()))[0], 3);
    assert_eq!(enc(&BzlValue::List(vec![]))[0], 4);
    assert_eq!(
        enc(&BzlValue::Rule(RuleDef {
            bzl: "a".into(),
            name: "r".into(),
            attrs: vec![],
            toolchains: vec![]
        }))[0],
        5
    );
    assert_eq!(
        enc(&BzlValue::Provider(ProviderDef { id: ProviderId::from_name("P"), fields: vec![] }))[0],
        6
    );
    assert_eq!(
        enc(&BzlValue::Depset(Depset {
            order: DepsetOrder::Default,
            elem: None,
            direct: vec![],
            transitive: vec![]
        }))[0],
        7
    );
    assert_eq!(enc(&BzlValue::File("p".into()))[0], 8);
    assert_eq!(enc(&BzlValue::Struct(vec![]))[0], 9, "Struct takes tag 9");
    assert_eq!(enc(&func("m", "f", 0))[0], 10, "FunctionRef takes tag 10");
    assert_eq!(enc(&BzlValue::Label("//p:t".into()))[0], 11, "Label takes tag 11");
    assert_ne!(
        enc(&BzlValue::Label("//p:t".into())),
        enc(&BzlValue::Str("//p:t".into())),
        "Label tag 11 is not Str tag 3"
    );
}

#[test]
fn struct_fields_canonical_sorted() {
    let ab = BzlValue::Struct(vec![("a".into(), text("1")), ("b".into(), text("2"))]);
    let ba = BzlValue::Struct(vec![("b".into(), text("2")), ("a".into(), text("1"))]);
    assert_eq!(enc(&ab), enc(&ba), "struct field order must NOT affect the digest");
    let ab2 = BzlValue::Struct(vec![("a".into(), text("1")), ("b".into(), text("X"))]);
    assert_ne!(enc(&ab), enc(&ab2), "a changed field value must change the digest");
    let one = BzlValue::Struct(vec![("a".into(), text("b"))]);
    let two = BzlValue::Struct(vec![("ab".into(), text(""))]);
    assert_ne!(enc(&one), enc(&two), "struct name/value framing must be self-delimiting");
    assert_ne!(
        enc(&BzlValue::Struct(vec![])),
        enc(&BzlValue::List(vec![])),
        "struct tag 9 is not list tag 4"
    );
}

#[test]
fn select_frame_canonical_and_injective() {
    let branch = |conds: Vec<(&str, BzlValue)>| {
        BzlValue::Select(vec![SelectArm::Branch {
            conditions: conds.into_iter().map(|(k, v)| (k.to_string(), v)).collect(),
            no_match_error: String::new(),
        }])
    };
    let ab = branch(vec![("//a", text("1")), ("//b", text("2"))]);
    let ba = branch(vec![("//b", text("2")), ("//a", text("1"))]);
    assert_eq!(enc(&ab), enc(&ba), "select condition order must NOT affect the digest");
    assert_eq!(enc(&ab)[0], 15, "Select takes tag 15");
    assert_ne!(
        enc(&ab),
        enc(&branch(vec![("//a", text("1")), ("//b", text("X"))])),
        "a changed branch value changes the digest"
    );
    let nme = BzlValue::Select(vec![SelectArm::Branch {
        conditions: vec![("//a".into(), text("1"))],
        no_match_error: "boom".into(),
    }]);
    let no_nme = branch(vec![("//a", text("1"))]);
    assert_ne!(enc(&nme), enc(&no_nme), "no_match_error is digest content");
    let concat = BzlValue::Select(vec![
        SelectArm::Concrete(BzlValue::List(vec![text("//x")])),
        SelectArm::Branch {
            conditions: vec![("//a".into(), text("1"))],
            no_match_error: String::new(),
        },
    ]);
    assert_ne!(
        enc(&concat),
        enc(&no_nme),
        "a `[..] + select(..)` concat digests differently from a bare select"
    );
    assert_eq!(enc(&ab), enc(&ab), "deterministic");
    assert_ne!(
        enc(&BzlValue::Select(vec![])),
        enc(&BzlValue::List(vec![])),
        "select tag 15 is not list tag 4"
    );
}

#[test]
fn function_ref_carries_module_identity() {
    assert_ne!(
        enc(&func("m1", "f", 0)),
        enc(&func("m2", "f", 0)),
        "same name, different module must digest differently"
    );
    assert_ne!(
        enc(&func("m", "f", 0)),
        enc(&func("m", "f", 9)),
        "a defining_digest change must change the digest (module-content cutoff)"
    );
    assert_ne!(
        enc(&func("m", "f", 0)),
        enc(&func("m", "g", 0)),
        "different symbol name must digest differently"
    );
    assert_eq!(enc(&func("m", "f", 0)), enc(&func("m", "f", 0)), "deterministic");
    let a = FunctionRef { module: "m1".into(), name: "f".into(), defining_digest: [0; 32] };
    let b = FunctionRef { module: "m2".into(), name: "f".into(), defining_digest: [0; 32] };
    assert_ne!(a, b, "the derived Eq distinguishes the module dim (never aliases by name)");
    assert_ne!(
        enc(&func("m", "f", 0)),
        enc(&BzlValue::Str("f".into())),
        "FunctionRef tag 10 is not Str tag 3"
    );
}

#[test]
fn struct_recurses_into_function_ref_and_nesting() {
    let with_fn =
        BzlValue::Struct(vec![("create".into(), func("common.bzl", "_create_crate_info", 3))]);
    let with_str =
        BzlValue::Struct(vec![("create".into(), BzlValue::Str("_create_crate_info".into()))]);
    assert_ne!(
        enc(&with_fn),
        enc(&with_str),
        "a function reference is not a text of the function's name"
    );
    let nested = BzlValue::Struct(vec![(
        "inner".into(),
        BzlValue::Struct(vec![("x".into(), BzlValue::Str("1".into()))]),
    )]);
    let flat = BzlValue::Struct(vec![("inner".into(), BzlValue::Str("1".into()))]);
    assert_ne!(enc(&nested), enc(&flat), "a nested struct field is not a scalar field");
}

#[test]
fn ladder_value_tags_are_injective_and_distinct() {
    let ab = BzlValue::Dict(vec![(text("a"), text("1")), (text("b"), text("2"))]);
    let ba = BzlValue::Dict(vec![(text("b"), text("2")), (text("a"), text("1"))]);
    assert_ne!(enc(&ab), enc(&ba), "dict insertion order is observable, and digest content");
    assert_eq!(enc(&ab), enc(&ab), "deterministic");
    assert_ne!(
        enc(&BzlValue::Dict(vec![])),
        enc(&BzlValue::Struct(vec![])),
        "empty dict tag 12 is not empty struct tag 9"
    );
    let tup = BzlValue::Tuple(vec![text("a"), text("b")]);
    let lst = BzlValue::List(vec![text("a"), text("b")]);
    assert_ne!(enc(&tup), enc(&lst), "a tuple is not a list with the same elements");
    assert_eq!(enc(&tup)[0], 14, "Tuple takes tag 14");
    let base = AttrDecl {
        code: 3,
        allow_files: None,
        providers: vec![],
        mandatory: false,
        default: None,
    };
    let mk = |a: &AttrDecl| enc(&BzlValue::AttrDecl(a.clone()));
    assert_eq!(mk(&base)[0], 13, "AttrDecl takes tag 13");
    assert_ne!(
        mk(&base),
        mk(&AttrDecl { code: 4, ..base.clone() }),
        "the attr code distinguishes"
    );
    assert_ne!(
        mk(&base),
        mk(&AttrDecl { mandatory: true, ..base.clone() }),
        "mandatory distinguishes"
    );
    assert_ne!(
        mk(&base),
        mk(&AttrDecl { providers: vec!["P".into()], ..base.clone() }),
        "required providers distinguish"
    );
    assert_ne!(
        mk(&base),
        mk(&AttrDecl { allow_files: Some(vec![".rs".into()]), ..base.clone() }),
        "allow_files distinguishes"
    );
    assert_ne!(
        mk(&base),
        mk(&AttrDecl { default: Some("2021".into()), ..base }),
        "the string default distinguishes"
    );
}
