use path_mapper::{classify, map_registry_path, map_toolchain_path, FilePath};
use regex::Regex;

/// What the two path grammars give for `raw`, computed with the regex crate.
fn by_regex(raw: &str) -> Option<String> {
    let toolchain = Regex::new(r"^/rustc/(?P<rev>[0-9a-f]+)[/\\](?P<path>(?s:.*))$").unwrap();
    let registry = Regex::new(
        r"[/\\]\.cargo[/\\]registry[/\\]src[/\\](?P<registry>[^/\\]+)[/\\](?P<crate>[^/\\]+)-(?P<version>[0-9]+\.[0-9]+\.[0-9]+)[/\\](?P<path>(?s:.*))$",
    )
    .unwrap();
    if let Some(c) = toolchain.captures(raw) {
        let path = c.name("path").unwrap().as_str().replace('\\', "/");
        return Some(format!("git:github.com/rust-lang/rust:{}:{}", path, &c["rev"]));
    }
    if let Some(c) = registry.captures(raw) {
        let path = c.name("path").unwrap().as_str().replace('\\', "/");
        return Some(format!(
            "cargo:{}:{}-{}:{}",
            &c["registry"], &c["crate"], &c["version"], path
        ));
    }
    None
}

const SAMPLES: [&str; 42] = [
    "/.cargo/registry/src/i/a\\b-1.0.0/f",
    "/h/.cargo/registry/src/i/a-b-1.0.0-2.0.0/f",
    "",
    "/",
    "/rustc/",
    "/rustc/a",
    "/rustc/a/",
    "/rustc/0/x",
    "/rustc/abc123def/library/core/src/lib.rs",
    "/rustc/abc123def\\library\\core\\src\\lib.rs",
    "/rustc/abc\\/x.rs",
    "/rustc/abc\\\\x.rs",
    "/rustc/abc\\\\\\x.rs",
    "/rustc/abc\\x.rs",
    "/rustc/abc//x.rs",
    "/rustc/abcg/x.rs",
    "/rustc/ABC/x.rs",
    "/rustc/abc/x\n.rs",
    "/rustc/abc/x.rs\n",
    "/rustc/abc/ünï/cödé.rs",
    "//rustc/abc/x.rs",
    "/rustc/abc/x/.cargo/registry/src/idx/c-1.0.0/f.rs",
    "/home/u/.cargo/registry/src/index.crates.io-abc/serde-1.0.160/src/de.rs",
    "C:\\Users\\u\\.cargo\\registry\\src\\idx\\serde-1.0.160\\src\\de.rs",
    "/h/.cargo\\registry/src\\idx/serde-1.0.160\\src/de.rs",
    "/h/.cargo/registry/src/idx/foo-bar-0.1.2/src/lib.rs",
    "/h/.cargo/registry/src/idx/x-1.0.0\\y-2.0.0/f.rs",
    "/h/.cargo/registry/src/idx/x-1.0.0/y-2.0.0/f.rs",
    "/h/.cargo/registry/src/idx/x-1.0.0-2.0.0/f.rs",
    "/h/.cargo/registry/src/idx/x-10.20.30/",
    "/h/.cargo/registry/src/idx/x-1.0.0/a\\b\\c.rs",
    "/h/.cargo/registry/src/idx/x-1.0/f.rs",
    "/h/.cargo/registry/src/idx/x-1.0.0f.rs",
    "/h/.cargo/registry/src/idx/-1.0.0/f.rs",
    "/h/.cargo/registry/src/i\ndx/x\ny-1.0.0/f.rs",
    "/h/.cargo/registry/src/idx/x-1.0.0/f\n.rs",
    "/h/.cargo/registry/src/idx/x-1.0.0/f.rs/.cargo/registry/src/j/y-2.0.0/g.rs",
    "/h/.cargo/registry/src/.cargo/registry/src/j/y-2.0.0/g.rs",
    "/h/.cargo/registry/src/idx/crête-1.0.0/fïle.rs",
    "/h/.cargo/registry/src/idx/x-01.002.3/f.rs",
    "/h/.Cargo/registry/src/idx/x-1.0.0/f.rs",
    "/home/u/project/src/main.rs",
];

#[test]
fn rules_agree_with_patterns() {
    for raw in SAMPLES {
        let expected = match by_regex(raw) {
            Some(m) => FilePath::Mapped { raw: raw.to_string(), mapped: m },
            None => FilePath::Normal(raw.to_string()),
        };
        assert_eq!(classify(raw), expected, "{:?}", raw);
    }
}

#[test]
fn toolchain_rule_alone() {
    assert_eq!(
        map_toolchain_path("/rustc/abc\\\\x\\y.rs"),
        Some("git:github.com/rust-lang/rust:/x/y.rs:abc".to_string())
    );
    assert_eq!(
        map_toolchain_path("/rustc/abc\\/x.rs"),
        Some("git:github.com/rust-lang/rust:/x.rs:abc".to_string())
    );
    assert_eq!(
        map_toolchain_path("/rustc/0/"),
        Some("git:github.com/rust-lang/rust::0".to_string())
    );
    assert_eq!(map_toolchain_path("/rustc/abc"), None);
    assert_eq!(map_toolchain_path("/home/u/.cargo/registry/src/i/x-1.0.0/f.rs"), None);
}

#[test]
fn registry_rule_alone() {
    assert_eq!(
        map_registry_path("C:\\Users\\u\\.cargo\\registry\\src\\idx\\serde-1.0.160\\src\\de.rs"),
        Some("cargo:idx:serde-1.0.160:src/de.rs".to_string())
    );
    assert_eq!(
        map_registry_path("/h/.cargo/registry/src/idx/foo-bar-0.1.2/src/lib.rs"),
        Some("cargo:idx:foo-bar-0.1.2:src/lib.rs".to_string())
    );
    assert_eq!(
        map_registry_path("/h/.cargo/registry/src/idx/x-1.0.0\\y-2.0.0/f.rs"),
        Some("cargo:idx:x-1.0.0:y-2.0.0/f.rs".to_string())
    );
    assert_eq!(map_registry_path("/.cargo/registry/src/i/a\\b-1.0.0/f"), None);
    assert_eq!(
        map_registry_path("/a/.cargo/registry/src/r/x-1.0.0/.cargo/registry/src/r2/y-2.0.0/f"),
        Some("cargo:r:x-1.0.0:.cargo/registry/src/r2/y-2.0.0/f".to_string())
    );
    assert_eq!(map_registry_path("/rustc/abc/x.rs"), None);
    assert_eq!(map_registry_path("/h/.cargo/registry/src/idx/x-1.0.0"), None);
}

#[test]
fn identifiers_differ_from_raw_paths() {
    for raw in SAMPLES {
        if let FilePath::Mapped { raw: r, mapped } = classify(raw) {
            assert_eq!(r, raw);
            assert!(!mapped.is_empty());
            assert_ne!(mapped, raw);
        }
    }
}

#[test]
fn file_path_accessors() {
    let a = FilePath::Mapped { raw: "r".to_string(), mapped: "m".to_string() };
    let b = FilePath::Normal("n".to_string());
    assert_eq!(a.raw(), "r");
    assert_eq!(b.raw(), "n");
    assert!(a.has_raw(&"r".to_string()));
    assert!(!a.has_raw(&"m".to_string()));
    assert_eq!(a.duplicate(), a);
    assert_eq!(b.duplicate(), b);
}
