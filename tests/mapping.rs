use std::cell::Cell;
use std::rc::Rc;

use path_mapper::{ExtraPathMapper, FilePath, PathMapper};

fn mapped(raw: &str, mapped: &str) -> FilePath {
    FilePath::Mapped { raw: raw.to_string(), mapped: mapped.to_string() }
}

struct CountingHook {
    calls: Rc<Cell<usize>>,
    answer: Option<String>,
}

impl ExtraPathMapper for CountingHook {
    fn map_path(&mut self, _path: &str) -> Option<String> {
        self.calls.set(self.calls.get() + 1);
        self.answer.clone()
    }
}

fn counting_hook(answer: Option<&str>) -> (CountingHook, Rc<Cell<usize>>) {
    let calls = Rc::new(Cell::new(0));
    (CountingHook { calls: calls.clone(), answer: answer.map(|a| a.to_string()) }, calls)
}

#[test]
fn toolchain_path_is_mapped() {
    let mut m = PathMapper::<()>::new();
    let raw = "/rustc/abc123def/library/core/src/lib.rs";
    assert_eq!(
        m.map_path(raw),
        mapped(raw, "git:github.com/rust-lang/rust:library/core/src/lib.rs:abc123def")
    );
}

#[test]
fn toolchain_path_with_backslashes() {
    let mut m = PathMapper::<()>::new();
    let raw = "/rustc/abc123def\\library\\core\\src\\lib.rs";
    assert_eq!(
        m.map_path(raw),
        mapped(raw, "git:github.com/rust-lang/rust:library/core/src/lib.rs:abc123def")
    );
}

#[test]
fn registry_path_is_mapped() {
    let mut m = PathMapper::<()>::new();
    let raw = "/home/u/.cargo/registry/src/index.crates.io-abc/serde-1.0.160/src/de.rs";
    assert_eq!(m.map_path(raw), mapped(raw, "cargo:index.crates.io-abc:serde-1.0.160:src/de.rs"));
}

#[test]
fn other_path_is_unchanged() {
    let mut m = PathMapper::<()>::new();
    let raw = "/home/u/project/src/main.rs";
    assert_eq!(m.map_path(raw), FilePath::Normal(raw.to_string()));
}

#[test]
fn unrecognized_paths_pass_through() {
    let mut m = PathMapper::<()>::new();
    for raw in [
        "",
        "main.rs",
        "/rustc/",
        "/rustc//library/core/src/lib.rs",
        "/rustc/ABC123/library/core/src/lib.rs",
        "/rustc/abc123",
        "/rustc/abc123xyz/lib.rs",
        "rustc/abc123/lib.rs",
        " /rustc/abc123/lib.rs",
        "/rustc/abc-x.rs",
        "/home/u/.cargo/registry/src/idx/serde/src/de.rs",
        "/home/u/.cargo/registry/src/idx/serde-1.0/src/de.rs",
        "/home/u/.cargo/registry/src/idx/serde-1.0.160",
        "/home/u/.cargo/registry/src//serde-1.0.160/src/de.rs",
        "/home/u/.cargo/registry/src/idx/-1.0.160/src/de.rs",
        "/home/u/.cargo/registry/src/idx/a\\b-1.0.160/src/de.rs",
        "/.cargo/registry/src/i/a\\b-1.0.0/f",
        "/home/u/xcargo/registry/src/idx/serde-1.0.160/src/de.rs",
        ".cargo/registry/src/idx/serde-1.0.160/src/de.rs",
    ] {
        assert_eq!(m.map_path(raw), FilePath::Normal(raw.to_string()), "{:?}", raw);
    }
}

#[test]
fn repeated_call_gives_equal_result() {
    let mut m = PathMapper::<()>::new();
    for raw in [
        "/rustc/abc123def/library/core/src/lib.rs",
        "/home/u/.cargo/registry/src/idx/serde-1.0.160/src/de.rs",
        "/home/u/project/src/main.rs",
    ] {
        let first = m.map_path(raw);
        let second = m.map_path(raw);
        assert_eq!(first, second);
    }
}

#[test]
fn hook_claiming_everything_is_asked_every_time() {
    let (hook, calls) = counting_hook(Some("custom:x"));
    let mut m = PathMapper::new_with_maybe_extra_mapper(Some(hook));
    let raw = "/rustc/abc123def/library/core/src/lib.rs";
    for n in 1..=3 {
        assert_eq!(m.map_path(raw), mapped(raw, "custom:x"));
        assert_eq!(calls.get(), n);
    }
}

#[test]
fn declining_hook_is_asked_every_time() {
    let (hook, calls) = counting_hook(None);
    let mut m = PathMapper::new_with_maybe_extra_mapper(Some(hook));
    let raw = "/home/u/.cargo/registry/src/idx/serde-1.0.160/src/de.rs";
    for n in 1..=3 {
        assert_eq!(m.map_path(raw), mapped(raw, "cargo:idx:serde-1.0.160:src/de.rs"));
        assert_eq!(calls.get(), n);
    }
}

#[test]
fn mapper_without_hook() {
    let mut m = PathMapper::new_with_maybe_extra_mapper(None::<CountingHook>);
    assert_eq!(m.map_path("a.rs"), FilePath::Normal("a.rs".to_string()));
}

#[test]
fn hook_is_asked_before_the_cache() {
    let (hook, _) = counting_hook(None);
    let mut m = PathMapper::new_with_maybe_extra_mapper(Some(hook));
    let raw = "/home/u/project/src/main.rs";
    assert_eq!(m.map_path(raw), FilePath::Normal(raw.to_string()));
    assert_eq!(m.map_path(raw), FilePath::Normal(raw.to_string()));
    // The cache now holds the path; a claim still wins over it.
    assert_eq!(m.resolve(raw, Some("claimed".to_string())), mapped(raw, "claimed"));
    assert_eq!(m.resolve(raw, None), FilePath::Normal(raw.to_string()));
}

#[test]
fn declining_hook_leaves_rules_in_charge() {
    let mut m = PathMapper::new_with_maybe_extra_mapper(Some(()));
    let raw = "/home/u/.cargo/registry/src/idx/serde-1.0.160/src/de.rs";
    assert_eq!(m.map_path(raw), mapped(raw, "cargo:idx:serde-1.0.160:src/de.rs"));
}

#[test]
fn toolchain_rule_wins_over_registry_rule() {
    let mut m = PathMapper::<()>::new();
    let raw = "/rustc/abc/x/.cargo/registry/src/idx/c-1.0.0/f.rs";
    assert!(path_mapper::map_registry_path(raw).is_some());
    assert_eq!(
        m.map_path(raw),
        mapped(raw, "git:github.com/rust-lang/rust:x/.cargo/registry/src/idx/c-1.0.0/f.rs:abc")
    );
}

#[test]
fn remainder_may_hold_any_character() {
    let mut m = PathMapper::<()>::new();
    let raw = "/rustc/abc/x\n.rs";
    assert_eq!(m.map_path(raw), mapped(raw, "git:github.com/rust-lang/rust:x\n.rs:abc"));
    let raw = "/h/.cargo/registry/src/idx/x-1.0.0/f\n.rs";
    assert_eq!(m.map_path(raw), mapped(raw, "cargo:idx:x-1.0.0:f\n.rs"));
}

#[test]
fn unit_hook_maps_as_no_hook() {
    let mut with_unit = PathMapper::new_with_maybe_extra_mapper(Some(()));
    let mut without = PathMapper::<()>::new();
    for raw in ["/rustc/abc/x.rs", "/h/.cargo/registry/src/i/x-1.0.0/f.rs", "a.rs"] {
        assert_eq!(with_unit.map_path(raw), without.map_path(raw));
    }
    assert_eq!(ExtraPathMapper::map_path(&mut (), "/rustc/abc/x.rs"), None);
}
