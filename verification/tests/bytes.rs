use razel_bzl_api::{
    encode_bzl_value, encode_provider_instance, AttrDecl, AttrType, BzlValue, Depset, DepsetOrder,
    FunctionRef, ProviderDef, ProviderId, ProviderInstance, RuleDef, SelectArm,
};

fn enc(v: &BzlValue) -> Vec<u8> {
    let mut b = Vec::new();
    encode_bzl_value(v, &mut b);
    b
}

fn text(x: &str) -> BzlValue {
    BzlValue::Str(x.into())
}

fn frame(run: &[u8]) -> Vec<u8> {
    let mut b = (run.len() as u64).to_be_bytes().to_vec();
    b.extend_from_slice(run);
    b
}

fn count(n: u64) -> Vec<u8> {
    n.to_be_bytes().to_vec()
}

fn joined(parts: &[Vec<u8>]) -> Vec<u8> {
    parts.concat()
}

#[test]
fn scalars_have_these_bytes() {
    assert_eq!(enc(&BzlValue::Nil), vec![0]);
    assert_eq!(enc(&BzlValue::Bool(false)), vec![1, 0]);
    assert_eq!(enc(&BzlValue::Bool(true)), vec![1, 1]);
    assert_eq!(enc(&BzlValue::Int(1)), vec![2, 0, 0, 0, 0, 0, 0, 0, 1]);
    assert_eq!(
        enc(&BzlValue::Int(-2)),
        vec![2, 0xff, 0xff, 0xff, 0xff, 0xff, 0xff, 0xff, 0xfe]
    );
    assert_eq!(
        enc(&BzlValue::Int(0x0102_0304_0506_0708)),
        vec![2, 1, 2, 3, 4, 5, 6, 7, 8]
    );
    assert_eq!(enc(&BzlValue::Int(i64::MIN)), vec![2, 0x80, 0, 0, 0, 0, 0, 0, 0]);
    assert_eq!(enc(&text("hi")), vec![3, 0, 0, 0, 0, 0, 0, 0, 2, b'h', b'i']);
}

#[test]
fn texts_are_framed_by_their_length_in_bytes() {
    assert_eq!(
        enc(&text("\u{e9}")),
        vec![3, 0, 0, 0, 0, 0, 0, 0, 2, 0xc3, 0xa9]
    );
    assert_eq!(enc(&text("")), vec![3, 0, 0, 0, 0, 0, 0, 0, 0]);
}

#[test]
fn lists_and_tuples_stand_behind_their_count() {
    let items = || vec![BzlValue::Nil, BzlValue::Bool(true)];
    assert_eq!(
        enc(&BzlValue::List(items())),
        joined(&[vec![4], count(2), vec![0], vec![1, 1]])
    );
    assert_eq!(
        enc(&BzlValue::Tuple(items())),
        joined(&[vec![14], count(2), vec![0], vec![1, 1]])
    );
}

#[test]
fn a_rule_has_these_bytes() {
    let rule = RuleDef {
        bzl: "a.bzl".into(),
        name: "r".into(),
        attrs: vec![("x".into(), AttrType::StringListDict), ("y".into(), AttrType::Int)],
        toolchains: vec!["//t".into()],
    };
    assert_eq!(
        enc(&BzlValue::Rule(rule)),
        joined(&[
            vec![5],
            frame(b"a.bzl"),
            frame(b"r"),
            count(2),
            frame(b"x"),
            vec![8],
            frame(b"y"),
            vec![0],
            count(1),
            frame(b"//t"),
        ])
    );
}

#[test]
fn a_provider_has_these_bytes() {
    let provider = ProviderDef {
        id: ProviderId { name: "P".into(), bzl: Some("d.bzl".into()) },
        fields: vec!["f".into(), "g".into()],
    };
    assert_eq!(
        enc(&BzlValue::Provider(provider)),
        joined(&[
            vec![6, 0, 1],
            frame(b"d.bzl"),
            frame(b"P"),
            count(2),
            frame(b"f"),
            frame(b"g"),
        ])
    );
}

#[test]
fn a_depset_has_these_bytes() {
    let inner = Depset {
        order: DepsetOrder::Default,
        elem: None,
        direct: vec![],
        transitive: vec![],
    };
    let outer = Depset {
        order: DepsetOrder::Preorder,
        elem: Some("string".into()),
        direct: vec![text("a")],
        transitive: vec![inner],
    };
    assert_eq!(
        enc(&BzlValue::Depset(outer)),
        joined(&[
            vec![7, 3],
            count(1),
            vec![3],
            frame(b"a"),
            count(1),
            vec![7, 0],
            count(0),
            count(0),
        ])
    );
}

#[test]
fn the_element_type_of_a_depset_is_not_encoded() {
    let of = |elem: Option<&str>| {
        enc(&BzlValue::Depset(Depset {
            order: DepsetOrder::Default,
            elem: elem.map(|s| s.to_string()),
            direct: vec![text("a")],
            transitive: vec![],
        }))
    };
    assert_eq!(of(None), of(Some("string")));
}

#[test]
fn the_element_types_of_depsets_below_are_not_encoded_either() {
    let of = |elem: Option<&str>| {
        let inner = Depset {
            order: DepsetOrder::Topological,
            elem: elem.map(|s| s.to_string()),
            direct: vec![text("b")],
            transitive: vec![],
        };
        enc(&BzlValue::Depset(Depset {
            order: DepsetOrder::Default,
            elem: None,
            direct: vec![text("a")],
            transitive: vec![inner],
        }))
    };
    assert_eq!(of(None), of(Some("string")));
}

#[test]
fn conditions_of_several_branches_may_change_their_order() {
    let branch = |reverse: bool, error: &str| {
        let mut conditions =
            vec![("//a".to_string(), text("1")), ("//b".to_string(), text("2"))];
        if reverse {
            conditions.reverse();
        }
        SelectArm::Branch { conditions, no_match_error: error.into() }
    };
    let of = |x: bool, y: bool| enc(&BzlValue::Select(vec![branch(x, "e"), branch(y, "f")]));
    assert_eq!(of(false, false), of(true, true));
    assert_eq!(of(false, false), of(false, true));
    assert_ne!(
        of(false, false),
        enc(&BzlValue::Select(vec![branch(false, "f"), branch(false, "e")]))
    );
}

#[test]
fn paths_and_labels_have_these_bytes() {
    assert_eq!(enc(&BzlValue::File("p/x".into())), joined(&[vec![8], frame(b"p/x")]));
    assert_eq!(enc(&BzlValue::Label("//p:x".into())), joined(&[vec![11], frame(b"//p:x")]));
}

#[test]
fn struct_fields_are_sorted_by_their_bytes() {
    // An upper case letter comes before a lower case one, and a prefix before what it starts.
    let v = BzlValue::Struct(vec![
        ("b".into(), BzlValue::Nil),
        ("ab".into(), BzlValue::Bool(true)),
        ("a".into(), BzlValue::Bool(false)),
        ("Z".into(), BzlValue::Nil),
    ]);
    assert_eq!(
        enc(&v),
        joined(&[
            vec![9],
            count(4),
            frame(b"Z"),
            vec![0],
            frame(b"a"),
            vec![1, 0],
            frame(b"ab"),
            vec![1, 1],
            frame(b"b"),
            vec![0],
        ])
    );
}

#[test]
fn fields_of_one_name_stay_in_their_order() {
    let v = BzlValue::Struct(vec![
        ("b".into(), BzlValue::Nil),
        ("a".into(), BzlValue::Bool(true)),
        ("a".into(), BzlValue::Bool(false)),
    ]);
    assert_eq!(
        enc(&v),
        joined(&[
            vec![9],
            count(3),
            frame(b"a"),
            vec![1, 1],
            frame(b"a"),
            vec![1, 0],
            frame(b"b"),
            vec![0],
        ])
    );
}

#[test]
fn a_function_has_these_bytes() {
    let f = FunctionRef { module: "m".into(), name: "f".into(), defining_digest: [7; 32] };
    assert_eq!(
        enc(&BzlValue::FunctionRef(f)),
        joined(&[vec![10], frame(b"m"), frame(b"f"), vec![7; 32]])
    );
}

#[test]
fn dict_pairs_stay_in_the_order_of_insertion() {
    let v = BzlValue::Dict(vec![
        (text("b"), BzlValue::Bool(true)),
        (text("a"), BzlValue::Nil),
    ]);
    assert_eq!(
        enc(&v),
        joined(&[
            vec![12],
            count(2),
            vec![3],
            frame(b"b"),
            vec![1, 1],
            vec![3],
            frame(b"a"),
            vec![0],
        ])
    );
}

#[test]
fn an_attribute_declaration_has_these_bytes() {
    let full = AttrDecl {
        code: 4,
        allow_files: Some(vec![".rs".into()]),
        providers: vec!["P".into()],
        mandatory: true,
        default: Some("d".into()),
    };
    assert_eq!(
        enc(&BzlValue::AttrDecl(full)),
        joined(&[
            vec![13, 4, 1],
            count(1),
            frame(b".rs"),
            count(1),
            frame(b"P"),
            vec![1, 1],
            frame(b"d"),
        ])
    );
    let bare = AttrDecl {
        code: 0,
        allow_files: None,
        providers: vec![],
        mandatory: false,
        default: None,
    };
    assert_eq!(
        enc(&BzlValue::AttrDecl(bare)),
        joined(&[vec![13, 0, 0], count(0), vec![0, 0]])
    );
    let any_file = AttrDecl {
        code: 0,
        allow_files: Some(vec![]),
        providers: vec![],
        mandatory: false,
        default: None,
    };
    assert_eq!(
        enc(&BzlValue::AttrDecl(any_file)),
        joined(&[vec![13, 0, 1], count(0), count(0), vec![0, 0]])
    );
}

#[test]
fn a_selection_has_these_bytes() {
    let v = BzlValue::Select(vec![
        SelectArm::Concrete(BzlValue::Nil),
        SelectArm::Branch {
            conditions: vec![
                ("//b".into(), BzlValue::Bool(true)),
                ("//a".into(), BzlValue::Bool(false)),
            ],
            no_match_error: "no".into(),
        },
    ]);
    assert_eq!(
        enc(&v),
        joined(&[
            vec![15],
            count(2),
            vec![0, 0],
            vec![1],
            count(2),
            frame(b"//a"),
            vec![1, 0],
            frame(b"//b"),
            vec![1, 1],
            frame(b"no"),
        ])
    );
}

#[test]
fn the_order_of_arms_is_encoded() {
    let a = || SelectArm::Concrete(BzlValue::Bool(true));
    let b = || SelectArm::Concrete(BzlValue::Bool(false));
    assert_ne!(
        enc(&BzlValue::Select(vec![a(), b()])),
        enc(&BzlValue::Select(vec![b(), a()]))
    );
}

#[test]
fn a_provider_instance_has_these_bytes() {
    let p = ProviderInstance {
        provider: ProviderId::from_name("P"),
        fields: vec![("b".into(), BzlValue::Nil), ("a".into(), BzlValue::Bool(true))],
    };
    let mut b = Vec::new();
    encode_provider_instance(&p, &mut b);
    assert_eq!(
        b,
        joined(&[
            vec![0, 0],
            frame(b"P"),
            count(2),
            frame(b"b"),
            vec![0],
            frame(b"a"),
            vec![1, 1],
        ])
    );
}

#[test]
fn encoding_appends() {
    let mut b = vec![9, 9];
    encode_bzl_value(&BzlValue::Bool(true), &mut b);
    encode_bzl_value(&BzlValue::Nil, &mut b);
    assert_eq!(b, vec![9, 9, 1, 1, 0]);
}

#[test]
fn an_encoding_is_no_proper_prefix_of_another() {
    let nested = BzlValue::List(vec![BzlValue::List(vec![]), text("a")]);
    let values = [
        BzlValue::Nil,
        BzlValue::Bool(false),
        BzlValue::Int(0),
        text(""),
        text("a"),
        BzlValue::List(vec![]),
        nested,
        BzlValue::Struct(vec![("a".into(), text("b"))]),
        BzlValue::Dict(vec![(text("a"), text("b"))]),
        BzlValue::Select(vec![SelectArm::Concrete(text("a"))]),
    ];
    for (i, a) in values.iter().enumerate() {
        for (j, b) in values.iter().enumerate() {
            if i != j {
                assert!(!enc(b).starts_with(&enc(a)), "{a:?} and {b:?}");
            }
        }
    }
}

#[test]
fn nested_structs_are_sorted_too() {
    let inner = |swap: bool| {
        let mut fields = vec![("x".to_string(), text("1")), ("y".to_string(), text("2"))];
        if swap {
            fields.reverse();
        }
        BzlValue::Struct(fields)
    };
    let wrap = |v: BzlValue| BzlValue::Dict(vec![(text("k"), BzlValue::List(vec![v]))]);
    assert_eq!(enc(&wrap(inner(false))), enc(&wrap(inner(true))));
}

#[test]
fn counted_instances_are_kept_apart() {
    let instance = |name: &str, fields: Vec<(&str, BzlValue)>| ProviderInstance {
        provider: ProviderId::from_name(name),
        fields: fields.into_iter().map(|(n, v)| (n.to_string(), v)).collect(),
    };
    let run = |list: &[ProviderInstance]| {
        let mut b = count(list.len() as u64);
        for p in list {
            encode_provider_instance(p, &mut b);
        }
        b
    };
    let split = [
        instance("P", vec![("x", text("1"))]),
        instance("P", vec![("y", text("2"))]),
    ];
    let joint = [instance("P", vec![("x", text("1")), ("y", text("2"))])];
    let swapped = [instance("P", vec![("y", text("2")), ("x", text("1"))])];
    assert_ne!(run(&split), run(&joint));
    assert_ne!(run(&joint), run(&swapped));
    assert!(!run(&split).starts_with(&run(&joint)));
}

#[test]
fn the_tag_is_the_first_byte() {
    let values = [
        BzlValue::Nil,
        BzlValue::Bool(true),
        BzlValue::Int(7),
        text("x"),
        BzlValue::List(vec![]),
    ];
    for (tag, v) in values.iter().enumerate() {
        assert_eq!(enc(v)[0], tag as u8);
    }
    assert_eq!(enc(&BzlValue::Dict(vec![]))[0], 12);
    assert_eq!(enc(&BzlValue::Tuple(vec![]))[0], 14);
    assert_eq!(enc(&BzlValue::Select(vec![]))[0], 15);
}
