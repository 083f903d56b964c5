use razel_bzl_api::{
    apply_builtins_injection, derive_predeclared_env_id, BuiltinsDigest, BzlError, Dialect, EnvEntry,
    EnvTag, EvalEnv, LoadKind, StarlarkFlagRegistry, StarlarkSemanticsId, TypeOptions,
    Utf8Enforcement,
};

fn entry(n: &str, i: &str, v: &str) -> EnvEntry {
    EnvEntry { name: n.into(), identity: i.into(), version: v.into() }
}

fn table() -> Vec<EnvEntry> {
    vec![entry("provider", "razel.provider", "1"), entry("rule", "razel.rule", "1")]
}

#[test]
fn an_environment_has_this_identity() {
    assert_eq!(
        derive_predeclared_env_id(EnvTag::EnvBuildBzl, &table(), None).0,
        [
            0xb9, 0xee, 0x0d, 0x19, 0x96, 0xbb, 0xdc, 0x20, 0x1d, 0xb4, 0x4b, 0xb2, 0xe9, 0x42,
            0xad, 0x0d, 0xaf, 0xb8, 0xb2, 0x0d, 0xad, 0xd0, 0xe6, 0x83, 0xf8, 0x5a, 0x03, 0x94,
            0x4d, 0x74, 0x73, 0x90
        ]
    );
    assert_eq!(
        derive_predeclared_env_id(
            EnvTag::EnvBuildBzl,
            &table(),
            Some(&BuiltinsDigest([1; 32]))
        )
        .0,
        [
            0x71, 0x78, 0x5e, 0x8a, 0xab, 0x42, 0x12, 0x87, 0xf0, 0xe3, 0x52, 0x9b, 0xb9, 0x3e,
            0xee, 0xf5, 0x43, 0xbd, 0x8d, 0xd9, 0xed, 0x0b, 0x1c, 0xea, 0x1b, 0x06, 0xcd, 0x91,
            0x59, 0x24, 0x5f, 0xb7
        ]
    );
    assert_eq!(
        derive_predeclared_env_id(EnvTag::EnvBzlmodBzl, &table(), None).0,
        [
            0xef, 0x23, 0x6b, 0x43, 0xd5, 0xda, 0x7a, 0x72, 0xc1, 0x95, 0x83, 0x06, 0xf3, 0x94,
            0xc1, 0xf1, 0xce, 0xe1, 0x76, 0x14, 0x8a, 0xe7, 0x38, 0x59, 0xb2, 0x6e, 0x81, 0x6e,
            0x13, 0x55, 0x59, 0x5e
        ]
    );
    assert_eq!(
        derive_predeclared_env_id(EnvTag::EnvBuildFile, &[], None).0,
        [
            0x2a, 0xf5, 0xca, 0x17, 0xa3, 0x67, 0xec, 0xaf, 0xb1, 0xcd, 0x43, 0x0b, 0xd4, 0xf9,
            0x5e, 0x6d, 0xbb, 0x35, 0x97, 0xa1, 0xbf, 0xc5, 0xd4, 0x1d, 0x2c, 0xcd, 0x7b, 0xb9,
            0x0b, 0xa0, 0xef, 0x20
        ]
    );
}

#[test]
fn no_other_environment_takes_in_injected_definitions() {
    for tag in [
        EnvTag::EnvBuiltinsBzl,
        EnvTag::EnvBzlmodBzl,
        EnvTag::EnvBzlmodBootstrapBzl,
        EnvTag::EnvScl,
        EnvTag::EnvBuildFile,
    ] {
        assert_eq!(
            derive_predeclared_env_id(tag, &table(), None),
            derive_predeclared_env_id(tag, &table(), Some(&BuiltinsDigest([9; 32]))),
        );
    }
}

#[test]
fn entries_of_one_name_are_sorted_by_identity_and_version() {
    let a = [entry("n", "b", "1"), entry("n", "a", "2"), entry("n", "a", "1")];
    let b = [entry("n", "a", "1"), entry("n", "a", "2"), entry("n", "b", "1")];
    assert_eq!(
        derive_predeclared_env_id(EnvTag::EnvScl, &a, None),
        derive_predeclared_env_id(EnvTag::EnvScl, &b, None)
    );
    // How often an entry occurs counts.
    let twice = [entry("n", "a", "1"), entry("n", "a", "1")];
    let once = [entry("n", "a", "1")];
    assert_ne!(
        derive_predeclared_env_id(EnvTag::EnvScl, &twice, None),
        derive_predeclared_env_id(EnvTag::EnvScl, &once, None)
    );
    // Frames keep the members apart.
    assert_ne!(
        derive_predeclared_env_id(EnvTag::EnvScl, &[entry("ab", "c", "1")], None),
        derive_predeclared_env_id(EnvTag::EnvScl, &[entry("a", "bc", "1")], None)
    );
}

#[test]
fn an_injection_overrides_in_place() {
    let out = apply_builtins_injection(
        &table(),
        &[entry("rule", "x", "2"), entry("provider", "y", "3"), entry("rule", "z", "4")],
    );
    assert_eq!(out, Ok(vec![entry("provider", "y", "3"), entry("rule", "z", "4")]));
    assert_eq!(apply_builtins_injection(&table(), &[]), Ok(table()));
}

#[test]
fn an_injection_overrides_the_first_entry_of_a_name() {
    let reg = [entry("a", "1", "1"), entry("a", "2", "2")];
    assert_eq!(
        apply_builtins_injection(&reg, &[entry("a", "3", "3")]),
        Ok(vec![entry("a", "3", "3"), entry("a", "2", "2")])
    );
}

#[test]
fn an_injection_is_refused_at_the_first_name_that_is_not_registered() {
    let refused = apply_builtins_injection(
        &table(),
        &[entry("rule", "x", "2"), entry("new", "y", "3"), entry("newer", "z", "4")],
    );
    assert_eq!(
        refused,
        Err(BzlError::Eval {
            detail: "cannot inject 'new': builtins injection may only override a registered name, never add one".into()
        })
    );
    assert!(apply_builtins_injection(&[], &[entry("rule", "x", "2")]).is_err());
    assert_eq!(apply_builtins_injection(&[], &[]), Ok(vec![]));
}

#[test]
fn injections_add_up() {
    let (a, b) = (entry("rule", "x", "2"), entry("rule", "y", "3"));
    let stepwise = apply_builtins_injection(
        &apply_builtins_injection(&table(), &[a.clone()]).expect("registered"),
        &[b.clone()],
    );
    assert_eq!(stepwise, apply_builtins_injection(&table(), &[a, b]));
}

#[test]
fn the_first_semantics_has_this_fingerprint() {
    assert_eq!(
        StarlarkSemanticsId::v1().0,
        [
            0x42, 0x95, 0x28, 0x0c, 0x98, 0x6e, 0xbe, 0xe0, 0x31, 0x16, 0x57, 0x50, 0x65, 0xe8,
            0x9f, 0x77, 0x3a, 0x75, 0xb3, 0xee, 0x49, 0x85, 0xdc, 0x37, 0xda, 0x94, 0x80, 0x85,
            0x89, 0x4d, 0xcd, 0x0f
        ]
    );
}

#[test]
fn a_configuration_has_this_fingerprint() {
    let all = StarlarkFlagRegistry {
        scl_enabled: true,
        bzl_visibility_enabled: false,
        check_bzl_visibility: false,
        utf8_enforcement: Utf8Enforcement::Off,
        type_options: TypeOptions {
            use_type_syntax: true,
            static_checks: false,
            dynamic_checks: true,
        },
        type_syntax_allowlist: vec!["//b".into(), "//a".into(), "//b".into()],
    };
    assert_eq!(
        all.fingerprint().0,
        [
            0x5e, 0xfd, 0x7d, 0x04, 0x80, 0x39, 0x5d, 0x81, 0x7f, 0x15, 0x7e, 0xaf, 0x05, 0x73,
            0xd2, 0xf0, 0x53, 0x3f, 0x8a, 0xcd, 0x95, 0x1a, 0xc2, 0xae, 0x0a, 0x47, 0x55, 0x2e,
            0xfd, 0x7d, 0xd0, 0x96
        ]
    );
    let warning = StarlarkFlagRegistry {
        utf8_enforcement: Utf8Enforcement::Warning,
        ..Default::default()
    };
    assert_eq!(
        warning.fingerprint().0,
        [
            0xa0, 0x63, 0xfc, 0xba, 0xfe, 0x46, 0x99, 0x92, 0x74, 0x77, 0x2b, 0x45, 0xc9, 0xe7,
            0x47, 0x72, 0xd0, 0x8a, 0x25, 0xa3, 0xe4, 0x8b, 0x9d, 0x48, 0xf4, 0x30, 0x94, 0xf9,
            0x36, 0x97, 0x25, 0x0d
        ]
    );
    assert_eq!(all.clone(), all);
}

#[test]
fn every_flag_shows_in_the_fingerprint() {
    let default = StarlarkFlagRegistry::default;
    let variants = [
        default(),
        StarlarkFlagRegistry { scl_enabled: true, ..default() },
        StarlarkFlagRegistry { bzl_visibility_enabled: false, ..default() },
        StarlarkFlagRegistry { check_bzl_visibility: false, ..default() },
        StarlarkFlagRegistry { utf8_enforcement: Utf8Enforcement::Off, ..default() },
        StarlarkFlagRegistry { utf8_enforcement: Utf8Enforcement::Warning, ..default() },
        StarlarkFlagRegistry {
            type_options: TypeOptions { static_checks: true, ..TypeOptions::default() },
            ..default()
        },
        StarlarkFlagRegistry { type_syntax_allowlist: vec!["".into()], ..default() },
    ];
    for (i, a) in variants.iter().enumerate() {
        for b in &variants[i + 1..] {
            assert_ne!(a.fingerprint(), b.fingerprint(), "{a:?} and {b:?}");
        }
    }
}

#[test]
fn type_options_are_three_bytes() {
    let mut b = vec![7];
    TypeOptions { use_type_syntax: true, static_checks: false, dynamic_checks: true }
        .encode_into(&mut b);
    TypeOptions::default().encode_into(&mut b);
    assert_eq!(b, vec![7, 1, 0, 1, 0, 0, 0]);
}

#[test]
fn the_default_environment_is_that_of_a_bzl_for_a_build_file() {
    let env = EvalEnv::default();
    assert_eq!(env, EvalEnv::build_bzl_v1());
    assert_eq!(env.load_kind, LoadKind::Build { is_prelude: false });
    assert_eq!(env.dialect, Dialect::Bzl);
    assert_eq!(env.semantics, StarlarkSemanticsId::v1());
    assert_eq!(env.type_options, TypeOptions::default());
    assert_eq!(env.load_kind.env_tag(env.dialect), EnvTag::EnvBuildBzl);
}

#[test]
fn loads_stay_in_their_environment() {
    for c in 0..=4u8 {
        let k = LoadKind::from_code(c).expect("a code of a kind");
        for d in [Dialect::Bzl, Dialect::Scl] {
            assert_eq!(k.key_for_load().env_tag(d), k.env_tag(d));
            assert_ne!(k.env_tag(d), EnvTag::EnvBuildFile);
        }
        assert_eq!(k.key_for_load().key_for_load(), k.key_for_load());
    }
}

#[test]
fn environments_have_these_codes() {
    let table = [
        (EnvTag::EnvBuildBzl, 1u8),
        (EnvTag::EnvBuiltinsBzl, 2),
        (EnvTag::EnvBzlmodBzl, 3),
        (EnvTag::EnvBzlmodBootstrapBzl, 4),
        (EnvTag::EnvScl, 5),
        (EnvTag::EnvBuildFile, 6),
    ];
    for (tag, code) in table {
        assert_eq!(tag.code(), code);
        assert_eq!(EnvTag::from_code(code), Some(tag));
    }
}

#[test]
fn codes_of_environments_and_dialects_round_trip() {
    for c in 0..=255u8 {
        match EnvTag::from_code(c) {
            Some(t) => assert_eq!(t.code(), c),
            None => assert!(c == 0 || c > 6),
        }
        match Dialect::from_code(c) {
            Some(d) => assert_eq!(d.code(), c),
            None => assert!(c > 1),
        }
    }
}

#[test]
fn only_the_end_of_a_label_tells_its_dialect() {
    assert_eq!(Dialect::from_label_suffix(".bzl"), Some(Dialect::Bzl));
    assert_eq!(Dialect::from_label_suffix("a.bzl.scl"), Some(Dialect::Scl));
    assert_eq!(Dialect::from_label_suffix("\u{e9}.scl"), Some(Dialect::Scl));
    assert_eq!(Dialect::from_label_suffix("bzl"), None);
    assert_eq!(Dialect::from_label_suffix("a.BZL"), None);
    assert_eq!(Dialect::from_label_suffix(""), None);
}

#[test]
fn identities_and_fingerprints_are_apart() {
    let bare = derive_predeclared_env_id(EnvTag::EnvBuildBzl, &[], None);
    assert_ne!(bare.0, StarlarkSemanticsId::v1().0);
}

#[test]
fn kinds_share_an_environment_where_their_loads_have_one_kind() {
    let kinds: Vec<LoadKind> =
        (0..=4u8).map(|c| LoadKind::from_code(c).expect("a code of a kind")).collect();
    for j in &kinds {
        for k in &kinds {
            assert_eq!(
                j.env_tag(Dialect::Bzl) == k.env_tag(Dialect::Bzl),
                j.key_for_load() == k.key_for_load()
            );
            assert_eq!(j.env_tag(Dialect::Scl), k.env_tag(Dialect::Scl));
            assert_ne!(j.env_tag(Dialect::Scl), k.env_tag(Dialect::Bzl));
        }
    }
}
