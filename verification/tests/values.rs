use razel_bzl_api::{
    ActionTemplate, AttrType, BzlError, BzlModule, BzlValue, DepProviders, Depset, DepsetOrder,
    ModuleFileValue, ProviderId, ProviderInstance, RepoDecl, ResolvedToolchain, RuleOrigin,
    RuleResult, SelectArm, TargetDecl,
};

#[test]
fn attribute_codes_round_trip() {
    for c in 0..=255u8 {
        match AttrType::from_code(c) {
            Some(t) => assert_eq!(t.code(), c),
            None => assert!(c > 9),
        }
    }
    assert_eq!(AttrType::LabelKeyedStringDict.code(), 9);
    assert_eq!(AttrType::String.code(), 1);
}

#[test]
fn only_labels_and_lists_of_labels_are_dependency_edges() {
    for c in 0..=9u8 {
        let t = AttrType::from_code(c).expect("a code of a type");
        assert_eq!(t.is_label(), t == AttrType::Label || t == AttrType::LabelList);
    }
    assert!(!AttrType::FileList.is_label());
}

#[test]
fn the_first_binding_of_a_name_is_the_one_that_is_found() {
    let m = BzlModule {
        bindings: vec![
            ("a".into(), BzlValue::Int(1)),
            ("b".into(), BzlValue::Int(2)),
            ("b".into(), BzlValue::Int(3)),
        ],
    };
    assert_eq!(m.get("b"), Some(&BzlValue::Int(2)));
    assert_eq!(m.get("c"), None);
    assert_eq!(BzlModule::default().get("a"), None);
}

#[test]
fn fields_are_found_by_name() {
    let p = ProviderInstance {
        provider: ProviderId::from_name("P"),
        fields: vec![("x".into(), BzlValue::Nil)],
    };
    assert_eq!(p.get("x"), Some(&BzlValue::Nil));
    assert_eq!(p.get("X"), None);
}

#[test]
fn an_identity_from_a_name_has_the_name_alone() {
    let id = ProviderId::from_name("NumberInfo");
    assert_eq!(id.name(), "NumberInfo");
    assert_eq!(id.bzl(), None);
    assert_eq!(ProviderId::from_name(String::from("P")).name(), "P");
    let full = ProviderId { name: "P".into(), bzl: Some("d.bzl".into()) };
    assert_eq!(full.bzl(), Some("d.bzl"));
    assert_ne!(full, ProviderId::from_name("P"));
}

#[test]
fn order_names_parse_as_they_are_written() {
    assert_eq!(DepsetOrder::parse("Default"), None);
    assert_eq!(DepsetOrder::parse("preorder "), None);
    assert_eq!(DepsetOrder::parse("topological"), Some(DepsetOrder::Topological));
}

#[test]
fn a_clone_is_the_same_value() {
    let depset = Depset {
        order: DepsetOrder::Postorder,
        elem: Some("string".into()),
        direct: vec![BzlValue::Str("a".into())],
        transitive: vec![Depset {
            order: DepsetOrder::Default,
            elem: None,
            direct: vec![],
            transitive: vec![],
        }],
    };
    let v = BzlValue::Struct(vec![
        ("d".into(), BzlValue::Depset(depset)),
        (
            "s".into(),
            BzlValue::Select(vec![
                SelectArm::Concrete(BzlValue::Tuple(vec![BzlValue::Int(1)])),
                SelectArm::Branch {
                    conditions: vec![("//c".into(), BzlValue::Label("//l".into()))],
                    no_match_error: "e".into(),
                },
            ]),
        ),
        ("k".into(), BzlValue::Dict(vec![(BzlValue::Bool(true), BzlValue::File("f".into()))])),
    ]);
    assert_eq!(v.clone(), v);
    let e = BzlError::Unsupported { what: "range".into() };
    assert_eq!(e.clone(), e);
    let m = BzlModule { bindings: vec![("v".into(), v)] };
    assert_eq!(m.clone(), m);
}

#[test]
fn defaults_are_empty() {
    assert_eq!(RuleResult::default(), RuleResult { providers: vec![], actions: vec![] });
    assert_eq!(
        ModuleFileValue::default(),
        ModuleFileValue {
            module_name: String::new(),
            registered_toolchains: vec![],
            repos: vec![]
        }
    );
}

#[test]
fn a_clone_of_a_result_is_the_same_result() {
    let p = ProviderInstance {
        provider: ProviderId { name: "P".into(), bzl: Some("d.bzl".into()) },
        fields: vec![("x".into(), BzlValue::Int(1))],
    };
    let r = RuleResult {
        providers: vec![p.clone()],
        actions: vec![ActionTemplate {
            mnemonic: "M".into(),
            argv: vec!["a".into(), "b".into()],
            env: vec![("K".into(), "V".into())],
            inputs: vec!["i".into()],
            outputs: vec!["o".into()],
        }],
    };
    assert_eq!(r.clone(), r);
    let d = DepProviders { label: ":a".into(), providers: vec![p.clone(), p.clone()] };
    assert_eq!(d.clone(), d);
    let t = ResolvedToolchain { toolchain_type: "//t".into(), info: p };
    assert_eq!(t.clone(), t);
    let decl = TargetDecl {
        kind: "k".into(),
        name: "n".into(),
        attrs: vec![("a".into(), BzlValue::Nil)],
        origin: Some(RuleOrigin { bzl: "b.bzl".into(), name: "r".into() }),
    };
    assert_eq!(decl.clone(), decl);
    let f = ModuleFileValue {
        module_name: "m".into(),
        registered_toolchains: vec!["//t:t".into()],
        repos: vec![RepoDecl {
            name: "r".into(),
            path: "p".into(),
            build_file: Some("//:B".into()),
        }],
    };
    assert_eq!(f.clone(), f);
}
