use razel_bzl_api::{
    apply_builtins_injection, derive_predeclared_env_id, BuiltinsDigest, Dialect, EnvEntry, EnvTag,
    LoadKind, StarlarkFlagRegistry, StarlarkSemanticsId,
};

fn entry(n: &str, i: &str, v: &str) -> EnvEntry {
    EnvEntry { name: n.into(), identity: i.into(), version: v.into() }
}

fn table() -> Vec<EnvEntry> {
    vec![entry("provider", "razel.provider", "1"), entry("rule", "razel.rule", "1")]
}

fn class(k: LoadKind) -> &'static str {
    match k {
        LoadKind::Build { .. } => "build",
        LoadKind::Builtins => "builtins",
        LoadKind::Bzlmod => "bzlmod",
        LoadKind::BzlmodBootstrap => "bzlmod_bootstrap",
    }
}

#[test]
fn predeclared_env_id_is_canonical() {
    let fwd = table();
    let mut rev = table();
    rev.reverse();
    let a = derive_predeclared_env_id(EnvTag::EnvBuildBzl, &fwd, None);
    let b = derive_predeclared_env_id(EnvTag::EnvBuildBzl, &rev, None);
    assert_eq!(a, b, "insertion order must never leak into the id (byte-sorted enumeration)");
    assert_eq!(
        a,
        derive_predeclared_env_id(EnvTag::EnvBuildBzl, &fwd, None),
        "deterministic across derivations"
    );
    let tags = [
        EnvTag::EnvBuildBzl,
        EnvTag::EnvBuiltinsBzl,
        EnvTag::EnvBzlmodBzl,
        EnvTag::EnvBzlmodBootstrapBzl,
        EnvTag::EnvScl,
        EnvTag::EnvBuildFile,
    ];
    for (i, x) in tags.iter().enumerate() {
        for y in &tags[i + 1..] {
            assert_ne!(
                derive_predeclared_env_id(*x, &fwd, None),
                derive_predeclared_env_id(*y, &fwd, None),
                "env tags {x:?} vs {y:?} must yield distinct ids"
            );
        }
    }
    let base = derive_predeclared_env_id(EnvTag::EnvBuildBzl, &table(), None);
    let mut t = table();
    t[0].identity = "razel.other".into();
    assert_ne!(
        base,
        derive_predeclared_env_id(EnvTag::EnvBuildBzl, &t, None),
        "identity distinguishes"
    );
    let mut t = table();
    t[0].version = "2".into();
    assert_ne!(
        base,
        derive_predeclared_env_id(EnvTag::EnvBuildBzl, &t, None),
        "version distinguishes"
    );
    let mut t = table();
    t.push(entry("aspect", "razel.aspect", "1"));
    assert_ne!(
        base,
        derive_predeclared_env_id(EnvTag::EnvBuildBzl, &t, None),
        "the name-set distinguishes"
    );
}

#[test]
fn build_bzl_digest_includes_injected_builtins() {
    let e = table();
    let none = derive_predeclared_env_id(EnvTag::EnvBuildBzl, &e, None);
    let d1 = derive_predeclared_env_id(EnvTag::EnvBuildBzl, &e, Some(&BuiltinsDigest([1; 32])));
    let d2 = derive_predeclared_env_id(EnvTag::EnvBuildBzl, &e, Some(&BuiltinsDigest([2; 32])));
    assert_ne!(none, d1, "no builtins and an injected value must be DIFFERENT ids");
    assert_ne!(d1, d2, "an injected-builtins change must re-fingerprint the EnvBuildBzl id");
}

#[test]
fn bzlmod_bzl_digest_excludes_injected_builtins() {
    let e = table();
    let none = derive_predeclared_env_id(EnvTag::EnvBzlmodBzl, &e, None);
    let d1 = derive_predeclared_env_id(EnvTag::EnvBzlmodBzl, &e, Some(&BuiltinsDigest([1; 32])));
    let d2 = derive_predeclared_env_id(EnvTag::EnvBzlmodBzl, &e, Some(&BuiltinsDigest([2; 32])));
    assert_eq!(none, d1, "the builtins digest is left out on purpose");
    assert_eq!(d1, d2, "an injected-builtins change must NOT re-fingerprint the EnvBzlmodBzl id");
}

#[test]
fn builtins_injection_override_only() {
    let reg = table();
    assert!(
        apply_builtins_injection(&reg, &[entry("smuggled", "razel.smuggled", "1")]).is_err(),
        "injecting a symbol that overrides no registered name must fail closed, never be added"
    );
    let injected = apply_builtins_injection(&reg, &[entry("rule", "builtins.rule", "7")])
        .expect("overriding a registered name is a legal injection");
    assert_eq!(injected.len(), reg.len(), "injection must never change the name-set size");
    let names = |v: &[EnvEntry]| {
        let mut n: Vec<String> = v.iter().map(|e| e.name.clone()).collect();
        n.sort();
        n
    };
    assert_eq!(
        names(&injected),
        names(&reg),
        "injection is override-only: the NAME-SET is invariant"
    );
    assert_ne!(
        derive_predeclared_env_id(EnvTag::EnvBuildBzl, &reg, None),
        derive_predeclared_env_id(EnvTag::EnvBuildBzl, &injected, None),
        "an override changes the builtin's identity/version, so the env id must change"
    );
}

#[test]
fn load_kind_is_closed_set() {
    let all = [
        LoadKind::Build { is_prelude: false },
        LoadKind::Build { is_prelude: true },
        LoadKind::Builtins,
        LoadKind::Bzlmod,
        LoadKind::BzlmodBootstrap,
    ];
    for (i, k) in all.iter().enumerate() {
        assert_eq!(k.code(), i as u8, "wire code pinned for {}", class(*k));
        assert_eq!(LoadKind::from_code(i as u8), Some(*k), "code {i} round-trips");
    }
    for c in 5..=255u8 {
        assert_eq!(LoadKind::from_code(c), None, "unknown kind code {c} must fail closed");
    }
}

#[test]
fn dependency_load_kind_is_contextual() {
    assert_eq!(
        LoadKind::Build { is_prelude: true }.key_for_load(),
        LoadKind::Build { is_prelude: false },
        "a prelude file's loads are loaded as ordinary Build (no prelude re-export propagation)"
    );
    assert_eq!(
        LoadKind::Build { is_prelude: false }.key_for_load(),
        LoadKind::Build { is_prelude: false }
    );
    assert_eq!(LoadKind::Builtins.key_for_load(), LoadKind::Builtins);
    assert_eq!(LoadKind::Bzlmod.key_for_load(), LoadKind::Bzlmod);
    assert_eq!(LoadKind::BzlmodBootstrap.key_for_load(), LoadKind::BzlmodBootstrap);
}

#[test]
fn env_selection_is_a_function_of_loadkind() {
    assert_eq!(
        LoadKind::Build { is_prelude: false }.env_tag(Dialect::Bzl),
        EnvTag::EnvBuildBzl
    );
    assert_eq!(
        LoadKind::Build { is_prelude: true }.env_tag(Dialect::Bzl),
        EnvTag::EnvBuildBzl,
        "prelude-ness is a LoadKind bit, not an environment"
    );
    assert_eq!(LoadKind::Builtins.env_tag(Dialect::Bzl), EnvTag::EnvBuiltinsBzl);
    assert_eq!(LoadKind::Bzlmod.env_tag(Dialect::Bzl), EnvTag::EnvBzlmodBzl);
    assert_eq!(LoadKind::BzlmodBootstrap.env_tag(Dialect::Bzl), EnvTag::EnvBzlmodBootstrapBzl);
    for k in [LoadKind::Build { is_prelude: false }, LoadKind::Builtins, LoadKind::Bzlmod] {
        assert_eq!(k.env_tag(Dialect::Scl), EnvTag::EnvScl, ".scl env selection ignores the kind");
    }
}

#[test]
fn semantics_fingerprint_is_nondefault_canonical_map() {
    let v1 = StarlarkSemanticsId::v1();
    assert_eq!(
        StarlarkFlagRegistry::default().fingerprint(),
        v1,
        "the all-default registry is the first semantics"
    );
    let scl = StarlarkFlagRegistry { scl_enabled: true, ..Default::default() };
    assert_ne!(scl.fingerprint(), v1, "a non-default flag must produce a different semantics id");
    let a = StarlarkFlagRegistry {
        type_syntax_allowlist: vec!["//b".into(), "//a".into(), "//a".into()],
        ..Default::default()
    };
    let b = StarlarkFlagRegistry {
        type_syntax_allowlist: vec!["//a".into(), "//b".into()],
        ..Default::default()
    };
    assert_eq!(
        a.fingerprint(),
        b.fingerprint(),
        "the allowlist is canonicalized (sorted + deduped set)"
    );
    assert_ne!(a.fingerprint(), v1, "a non-empty allowlist is a non-default flag");
}

#[test]
fn dialect_is_keyed_from_suffix_not_defaulted() {
    assert_eq!(Dialect::from_label_suffix("pkg/rules.bzl"), Some(Dialect::Bzl));
    assert_eq!(Dialect::from_label_suffix("pkg/opts.scl"), Some(Dialect::Scl));
    assert_eq!(
        Dialect::from_label_suffix("pkg/BUILD.bazel"),
        None,
        "not a load dialect, never defaulted"
    );
    assert_eq!(Dialect::from_label_suffix("rules.bzl.bak"), None);
    for c in 2..=255u8 {
        assert_eq!(Dialect::from_code(c), None, "unknown dialect code {c} must fail closed");
    }
}
