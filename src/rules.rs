use vstd::prelude::*;
use vstd::string::*;

use crate::file_path::FilePath;
use crate::scan::{
    append_forward_slashed, chars_of, forward_slashes, is_separator, lemma_run_end_admits,
    lemma_run_end_at, lemma_run_end_bounds, lemma_run_start_admits, lemma_run_start_at,
    lemma_run_start_bounds, literal_at, literal_matches, run_end, run_start, scan_run,
    scan_run_back, CharClass,
};

verus! {

/// The separator at position `i` of `s`, of either kind.
pub open spec fn separator_at(s: Seq<char>, i: int) -> bool {
    0 <= i < s.len() && is_separator(s[i])
}

/// Every character of `s` from `i` up to `j` is of class `k`.
pub open spec fn all_of_class(s: Seq<char>, i: int, j: int, k: CharClass) -> bool {
    forall|x: int| i <= x < j ==> k.admits(#[trigger] s[x])
}

// ---------------------------------------------------------------------------
// Sources of the compiler's bundled standard library:
// `/rustc/<rev><sep><path>`, `rev` one or more lowercase hex digits, `sep`
// either slash, `path` anything.

/// `s` is `/rustc/`, then the revision `rev`, then the separator `sep`, then
/// `path`.
pub open spec fn is_toolchain_path(s: Seq<char>, rev: Seq<char>, sep: char, path: Seq<char>) -> bool {
    &&& rev.len() > 0
    &&& all_of_class(rev, 0, rev.len() as int, CharClass::HexDigit)
    &&& is_separator(sep)
    &&& s == "/rustc/"@ + rev + seq![sep] + path
}

/// For a toolchain source path, where its revision ends: the separator stands
/// there.
pub open spec fn toolchain_revision_end(s: Seq<char>) -> Option<int> {
    let n = "/rustc/"@.len() as int;
    let e = run_end(s, n, CharClass::HexDigit);
    if literal_at(s, 0, "/rustc/"@) && e > n && separator_at(s, e) {
        Some(e)
    } else {
        None
    }
}

/// The identifier of a file at `path` in the toolchain sources of revision
/// `rev`.
pub open spec fn toolchain_identifier(rev: Seq<char>, path: Seq<char>) -> Seq<char> {
    "git:github.com/rust-lang/rust:"@ + forward_slashes(path) + ":"@ + rev
}

/// What the toolchain rule maps `s` to, if it applies.
pub open spec fn toolchain_mapping(s: Seq<char>) -> Option<Seq<char>> {
    match toolchain_revision_end(s) {
        Some(e) => Some(
            toolchain_identifier(s.subrange("/rustc/"@.len() as int, e), s.subrange(e + 1, s.len() as int)),
        ),
        None => None,
    }
}

fn find_toolchain_revision_end(v: &Vec<char>) -> (r: Option<usize>)
    ensures
        match r {
            Some(e) => toolchain_revision_end(v@) == Some(e as int),
            None => toolchain_revision_end(v@) is None,
        },
        r matches Some(e) ==> "/rustc/"@.len() < e < v.len(),
{
    let root = "/rustc/";
    if !literal_matches(v, 0, root) {
        return None;
    }
    let n = root.unicode_len();
    let e = scan_run(v, n, CharClass::HexDigit);
    if e == n || !is_separator_at(v, e) {
        return None;
    }
    Some(e)
}

fn toolchain_mapping_of(raw: &str, v: &Vec<char>) -> (r: Option<String>)
    requires
        v@ == raw@,
    ensures
        r.deep_view() == toolchain_mapping(raw@),
{
    match find_toolchain_revision_end(v) {
        Some(e) => {
            let mut out = String::from_str("git:github.com/rust-lang/rust:");
            append_forward_slashed(&mut out, raw, v, e + 1);
            out.append(":");
            out.append(raw.substring_char("/rustc/".unicode_len(), e));
            Some(out)
        },
        None => None,
    }
}

/// Maps a path into the compiler's bundled standard-library sources, such as
/// `/rustc/<rev>/library/core/src/lib.rs`, to
/// `git:github.com/rust-lang/rust:library/core/src/lib.rs:<rev>`.
pub fn map_toolchain_path(raw: &str) -> (r: Option<String>)
    ensures
        r.deep_view() == toolchain_mapping(raw@),
{
    let v = chars_of(raw);
    toolchain_mapping_of(raw, &v)
}

/// The toolchain rule recognises exactly the paths of its grammar, and maps
/// each to the identifier of its revision and path.
pub proof fn lemma_toolchain_grammar(s: Seq<char>, rev: Seq<char>, sep: char, path: Seq<char>)
    ensures
        is_toolchain_path(s, rev, sep, path) ==> toolchain_mapping(s) == Some(
            toolchain_identifier(rev, path),
        ),
        toolchain_mapping(s) is Some ==> ({
            let e = toolchain_revision_end(s)->0;
            is_toolchain_path(s, s.subrange(7, e), s[e], s.subrange(e + 1, s.len() as int))
        }),
{
    reveal_strlit("/rustc/");
    let lit = "/rustc/"@;
    if is_toolchain_path(s, rev, sep, path) {
        let e = 7 + rev.len() as int;
        assert(s.subrange(0, 7) == lit);
        assert forall|x: int| 7 <= x < e implies CharClass::HexDigit.admits(#[trigger] s[x]) by {
            assert(s[x] == rev[x - 7]);
        }
        assert(s[e] == sep);
        lemma_run_end_at(s, 7, e, CharClass::HexDigit);
        assert(s.subrange(7, e) == rev);
        assert(s.subrange(e + 1, s.len() as int) == path);
    }
    if toolchain_mapping(s) is Some {
        let e = toolchain_revision_end(s)->0;
        lemma_run_end_bounds(s, 7, CharClass::HexDigit);
        lemma_run_end_admits(s, 7, CharClass::HexDigit);
        let r = s.subrange(7, e);
        assert(all_of_class(r, 0, r.len() as int, CharClass::HexDigit)) by {
            assert forall|x: int| 0 <= x < r.len() implies CharClass::HexDigit.admits(#[trigger] r[x]) by {
                assert(r[x] == s[x + 7]);
            }
        }
        assert(s == lit + r + seq![s[e]] + s.subrange(e + 1, s.len() as int));
    }
}

// ---------------------------------------------------------------------------
// Sources in a registry cache:
// `...<sep>.cargo<sep>registry<sep>src<sep><registry><sep><crate>-<x>.<y>.<z><sep><path>`,
// `registry` and `crate` one path segment each, `x`, `y` and `z` digits, at
// the leftmost place in the path where it stands.

/// Where the registry name begins, when the registry cache directory stands at
/// `i`.
pub open spec fn registry_start(s: Seq<char>, i: int) -> Option<int> {
    let a = i + 1;
    let b = a + ".cargo"@.len();
    let c = b + 1;
    let d = c + "registry"@.len();
    let e = d + 1;
    let f = e + "src"@.len();
    if separator_at(s, i) && literal_at(s, a, ".cargo"@) && separator_at(s, b) && literal_at(
        s,
        c,
        "registry"@,
    ) && separator_at(s, d) && literal_at(s, e, "src"@) && separator_at(s, f) {
        Some(f + 1)
    } else {
        None
    }
}

/// The registry grammar at position `i` of `s`, by the positions of its parts:
/// the cache directory at `i`, the registry name up to the separator at `re`,
/// the crate name up to the hyphen at `h`, the version with its dots at `p`
/// and `q` up to the separator at `t`, then the path.
pub open spec fn is_registry_path_at(
    s: Seq<char>,
    i: int,
    re: int,
    h: int,
    p: int,
    q: int,
    t: int,
) -> bool {
    &&& registry_start(s, i) matches Some(rs) && rs < re && all_of_class(
        s,
        rs,
        re,
        CharClass::NotSeparator,
    )
    &&& separator_at(s, re)
    &&& re + 1 < h && all_of_class(s, re + 1, h, CharClass::NotSeparator) && s[h] == '-'
    &&& h + 1 < p && all_of_class(s, h + 1, p, CharClass::Digit) && s[p] == '.'
    &&& p + 1 < q && all_of_class(s, p + 1, q, CharClass::Digit) && s[q] == '.'
    &&& q + 1 < t && all_of_class(s, q + 1, t, CharClass::Digit)
    &&& separator_at(s, t)
}

/// Where the hyphen before a version `x.y.z` that ends at `t` stands.
pub open spec fn version_hyphen(s: Seq<char>, t: int) -> Option<int> {
    let a3 = run_start(s, t, CharClass::Digit);
    let a2 = run_start(s, a3 - 1, CharClass::Digit);
    let a1 = run_start(s, a2 - 1, CharClass::Digit);
    if a3 < t && a3 >= 1 && s[a3 - 1] == '.' && a2 < a3 - 1 && a2 >= 1 && s[a2 - 1] == '.' && a1
        < a2 - 1 && a1 >= 1 && s[a1 - 1] == '-' {
        Some(a1 - 1)
    } else {
        None
    }
}

/// For a registry path whose cache directory stands at `i`: where the registry
/// name begins and ends, the hyphen after the crate name, and the separator
/// after the version.
pub open spec fn registry_bounds_at(s: Seq<char>, i: int) -> Option<(int, int, int, int)> {
    match registry_start(s, i) {
        Some(rs) => {
            let re = run_end(s, rs, CharClass::NotSeparator);
            let t = run_end(s, re + 1, CharClass::NotSeparator);
            if re > rs && separator_at(s, re) && separator_at(s, t) {
                match version_hyphen(s, t) {
                    Some(h) => if h > re + 1 {
                        Some((rs, re, h, t))
                    } else {
                        None
                    },
                    None => None,
                }
            } else {
                None
            }
        },
        None => None,
    }
}

/// The bounds of the leftmost registry path in `s` at or after `i`.
pub open spec fn registry_bounds_from(s: Seq<char>, i: int) -> Option<(int, int, int, int)>
    decreases s.len() - i,
{
    if 0 <= i < s.len() {
        match registry_bounds_at(s, i) {
            Some(b) => Some(b),
            None => registry_bounds_from(s, i + 1),
        }
    } else {
        None
    }
}

/// The identifier of a file at `path` in version `version` of crate `name`,
/// from registry `registry`.
pub open spec fn registry_identifier(
    registry: Seq<char>,
    name: Seq<char>,
    version: Seq<char>,
    path: Seq<char>,
) -> Seq<char> {
    "cargo:"@ + registry + ":"@ + name + "-"@ + version + ":"@ + forward_slashes(path)
}

/// What the registry rule maps `s` to, if it applies.
pub open spec fn registry_mapping(s: Seq<char>) -> Option<Seq<char>> {
    match registry_bounds_from(s, 0) {
        Some((rs, re, h, t)) => Some(
            registry_identifier(
                s.subrange(rs, re),
                s.subrange(re + 1, h),
                s.subrange(h + 1, t),
                s.subrange(t + 1, s.len() as int),
            ),
        ),
        None => None,
    }
}

fn is_separator_at(v: &Vec<char>, i: usize) -> (b: bool)
    ensures
        b == separator_at(v@, i as int),
{
    i < v.len() && (v[i] == '/' || v[i] == '\\')
}

fn find_registry_start(v: &Vec<char>, i: usize) -> (r: Option<usize>)
    ensures
        match r {
            Some(x) => registry_start(v@, i as int) == Some(x as int),
            None => registry_start(v@, i as int) is None,
        },
        r matches Some(x) ==> x <= v.len(),
{
    let len = v.len();
    if !is_separator_at(v, i) {
        return None;
    }
    let a = i + 1;
    if !literal_matches(v, a, ".cargo") {
        return None;
    }
    let b = a + ".cargo".unicode_len();
    if !is_separator_at(v, b) {
        return None;
    }
    let c = b + 1;
    if !literal_matches(v, c, "registry") {
        return None;
    }
    let d = c + "registry".unicode_len();
    if !is_separator_at(v, d) {
        return None;
    }
    let e = d + 1;
    if !literal_matches(v, e, "src") {
        return None;
    }
    let f = e + "src".unicode_len();
    if !is_separator_at(v, f) {
        return None;
    }
    Some(f + 1)
}

fn find_version_hyphen(v: &Vec<char>, t: usize) -> (r: Option<usize>)
    requires
        t <= v.len(),
    ensures
        match r {
            Some(h) => version_hyphen(v@, t as int) == Some(h as int),
            None => version_hyphen(v@, t as int) is None,
        },
        r matches Some(h) ==> h < t,
{
    let a3 = scan_run_back(v, t, CharClass::Digit);
    if a3 == t || a3 == 0 || v[a3 - 1] != '.' {
        return None;
    }
    let a2 = scan_run_back(v, a3 - 1, CharClass::Digit);
    if a2 == a3 - 1 || a2 == 0 || v[a2 - 1] != '.' {
        return None;
    }
    let a1 = scan_run_back(v, a2 - 1, CharClass::Digit);
    if a1 == a2 - 1 || a1 == 0 || v[a1 - 1] != '-' {
        return None;
    }
    Some(a1 - 1)
}

fn find_registry_bounds_at(v: &Vec<char>, i: usize) -> (r: Option<(usize, usize, usize, usize)>)
    ensures
        match r {
            Some((a, b, c, d)) => registry_bounds_at(v@, i as int) == Some(
                (a as int, b as int, c as int, d as int),
            ),
            None => registry_bounds_at(v@, i as int) is None,
        },
        r matches Some((a, b, c, d)) ==> a < b < c < d < v.len(),
{
    match find_registry_start(v, i) {
        Some(rs) => {
            let re = scan_run(v, rs, CharClass::NotSeparator);
            if re == rs || !is_separator_at(v, re) {
                return None;
            }
            let t = scan_run(v, re + 1, CharClass::NotSeparator);
            if !is_separator_at(v, t) {
                return None;
            }
            match find_version_hyphen(v, t) {
                Some(h) => if h > re + 1 {
                    Some((rs, re, h, t))
                } else {
                    None
                },
                None => None,
            }
        },
        None => None,
    }
}

fn find_registry_bounds(v: &Vec<char>) -> (r: Option<(usize, usize, usize, usize)>)
    ensures
        match r {
            Some((a, b, c, d)) => registry_bounds_from(v@, 0) == Some(
                (a as int, b as int, c as int, d as int),
            ),
            None => registry_bounds_from(v@, 0) is None,
        },
        r matches Some((a, b, c, d)) ==> a < b < c < d < v.len(),
{
    let mut i: usize = 0;
    while i < v.len()
        invariant
            i <= v.len(),
            registry_bounds_from(v@, i as int) == registry_bounds_from(v@, 0),
        decreases v.len() - i,
    {
        match find_registry_bounds_at(v, i) {
            Some(b) => {
                return Some(b);
            },
            None => {},
        }
        i = i + 1;
    }
    None
}

fn registry_mapping_of(raw: &str, v: &Vec<char>) -> (r: Option<String>)
    requires
        v@ == raw@,
    ensures
        r.deep_view() == registry_mapping(raw@),
{
    match find_registry_bounds(v) {
        Some((rs, re, h, t)) => {
            let mut out = String::from_str("cargo:");
            out.append(raw.substring_char(rs, re));
            out.append(":");
            out.append(raw.substring_char(re + 1, h));
            out.append("-");
            out.append(raw.substring_char(h + 1, t));
            out.append(":");
            append_forward_slashed(&mut out, raw, v, t + 1);
            Some(out)
        },
        None => None,
    }
}

/// Maps a path into a registry cache directory, such as
/// `/home/u/.cargo/registry/src/<registry>/serde-1.0.160/src/de.rs`, to
/// `cargo:<registry>:serde-1.0.160:src/de.rs`.
pub fn map_registry_path(raw: &str) -> (r: Option<String>)
    ensures
        r.deep_view() == registry_mapping(raw@),
{
    let v = chars_of(raw);
    registry_mapping_of(raw, &v)
}

/// Where the registry grammar stands at `i`, the registry rule finds it there,
/// with the same parts.
pub proof fn lemma_registry_grammar_recognised(
    s: Seq<char>,
    i: int,
    re: int,
    h: int,
    p: int,
    q: int,
    t: int,
)
    requires
        is_registry_path_at(s, i, re, h, p, q, t),
    ensures
        registry_bounds_at(s, i) == Some((registry_start(s, i)->0, re, h, t)),
{
    let rs = registry_start(s, i)->0;
    lemma_run_end_at(s, rs, re, CharClass::NotSeparator);
    assert forall|x: int| re + 1 <= x < t implies CharClass::NotSeparator.admits(#[trigger] s[x]) by {
        if x < h {
            assert(all_of_class(s, re + 1, h, CharClass::NotSeparator));
        } else if h < x < p {
            assert(CharClass::Digit.admits(s[x]));
        } else if p < x < q {
            assert(CharClass::Digit.admits(s[x]));
        } else if q < x {
            assert(CharClass::Digit.admits(s[x]));
        }
    }
    lemma_run_end_at(s, re + 1, t, CharClass::NotSeparator);
    lemma_run_start_at(s, q + 1, t, CharClass::Digit);
    lemma_run_start_at(s, p + 1, q, CharClass::Digit);
    lemma_run_start_at(s, h + 1, p, CharClass::Digit);
}

/// Where the registry rule finds a path at `i`, the registry grammar stands
/// there, with the same parts.
pub proof fn lemma_registry_recognised_grammar(s: Seq<char>, i: int)
    requires
        registry_bounds_at(s, i) is Some,
    ensures
        ({
            let (rs, re, h, t) = registry_bounds_at(s, i)->0;
            &&& rs == registry_start(s, i)->0
            &&& exists|p: int, q: int| #[trigger] is_registry_path_at(s, i, re, h, p, q, t)
        }),
{
    reveal_strlit(".cargo");
    reveal_strlit("registry");
    reveal_strlit("src");
    let (rs, re, h, t) = registry_bounds_at(s, i)->0;
    lemma_run_end_bounds(s, rs, CharClass::NotSeparator);
    lemma_run_end_admits(s, rs, CharClass::NotSeparator);
    lemma_run_end_bounds(s, re + 1, CharClass::NotSeparator);
    lemma_run_end_admits(s, re + 1, CharClass::NotSeparator);
    let a3 = run_start(s, t, CharClass::Digit);
    lemma_run_start_bounds(s, t, CharClass::Digit);
    lemma_run_start_admits(s, t, CharClass::Digit);
    let a2 = run_start(s, a3 - 1, CharClass::Digit);
    lemma_run_start_bounds(s, a3 - 1, CharClass::Digit);
    lemma_run_start_admits(s, a3 - 1, CharClass::Digit);
    let a1 = run_start(s, a2 - 1, CharClass::Digit);
    lemma_run_start_bounds(s, a2 - 1, CharClass::Digit);
    lemma_run_start_admits(s, a2 - 1, CharClass::Digit);
    assert(all_of_class(s, re + 1, h, CharClass::NotSeparator));
    assert(is_registry_path_at(s, i, re, h, a2 - 1, a3 - 1, t));
}

proof fn lemma_registry_search(s: Seq<char>, k: int)
    requires
        0 <= k,
    ensures
        registry_bounds_from(s, k) is None ==> forall|j: int|
            k <= j ==> (#[trigger] registry_bounds_at(s, j)) is None,
        registry_bounds_from(s, k) is Some ==> exists|i: int|
            k <= i && #[trigger] registry_bounds_at(s, i) == registry_bounds_from(s, k) && forall|
                j: int,
            | k <= j < i ==> (#[trigger] registry_bounds_at(s, j)) is None,
    decreases s.len() - k,
{
    if k < s.len() {
        lemma_registry_search(s, k + 1);
        if registry_bounds_at(s, k) is Some {
            assert(registry_bounds_at(s, k) == registry_bounds_from(s, k));
        } else if registry_bounds_from(s, k + 1) is Some {
            let i = choose|i: int|
                k + 1 <= i && #[trigger] registry_bounds_at(s, i) == registry_bounds_from(s, k + 1)
                    && forall|j: int| k + 1 <= j < i ==> (#[trigger] registry_bounds_at(s, j)) is None;
            assert(forall|j: int| k <= j < i ==> (#[trigger] registry_bounds_at(s, j)) is None);
        }
    } else {
        assert forall|j: int| k <= j implies (#[trigger] registry_bounds_at(s, j)) is None by {
            assert(!separator_at(s, j));
        }
    }
}

/// The registry rule takes the leftmost place in the path where its grammar
/// stands, and finds nothing where it stands nowhere.
pub proof fn lemma_registry_leftmost(s: Seq<char>)
    ensures
        registry_mapping(s) is None ==> forall|i: int, re: int, h: int, p: int, q: int, t: int|
            !#[trigger] is_registry_path_at(s, i, re, h, p, q, t),
        registry_mapping(s) is Some ==> exists|i: int|
            0 <= i && #[trigger] registry_bounds_at(s, i) == registry_bounds_from(s, 0) && forall|
                j: int,
                re: int,
                h: int,
                p: int,
                q: int,
                t: int,
            | 0 <= j < i ==> !#[trigger] is_registry_path_at(s, j, re, h, p, q, t),
{
    lemma_registry_search(s, 0);
    if registry_mapping(s) is None {
        assert forall|i: int, re: int, h: int, p: int, q: int, t: int|
            !#[trigger] is_registry_path_at(s, i, re, h, p, q, t) by {
            if is_registry_path_at(s, i, re, h, p, q, t) {
                lemma_registry_grammar_recognised(s, i, re, h, p, q, t);
                assert(registry_bounds_at(s, i) is None);
            }
        }
    } else {
        let i = choose|i: int|
            0 <= i && #[trigger] registry_bounds_at(s, i) == registry_bounds_from(s, 0) && forall|
                j: int,
            | 0 <= j < i ==> (#[trigger] registry_bounds_at(s, j)) is None;
        assert forall|j: int, re: int, h: int, p: int, q: int, t: int|
            0 <= j < i implies !#[trigger] is_registry_path_at(s, j, re, h, p, q, t) by {
            if is_registry_path_at(s, j, re, h, p, q, t) {
                lemma_registry_grammar_recognised(s, j, re, h, p, q, t);
                assert(registry_bounds_at(s, j) is None);
            }
        }
    }
}

// ---------------------------------------------------------------------------

/// The identifier a raw path maps to: the toolchain rule first, then the
/// registry rule; `None` where neither applies.
pub open spec fn path_identifier(s: Seq<char>) -> Option<Seq<char>> {
    match toolchain_mapping(s) {
        Some(m) => Some(m),
        None => registry_mapping(s),
    }
}

/// The result of classifying `s`.
pub open spec fn classified(s: Seq<char>) -> (Seq<char>, Option<Seq<char>>) {
    (s, path_identifier(s))
}

/// A path that neither rule recognises is returned unchanged.
pub proof fn lemma_unrecognized_path_unchanged(s: Seq<char>)
    requires
        toolchain_mapping(s) is None,
        registry_mapping(s) is None,
    ensures
        classified(s) == (s, None::<Seq<char>>),
{
}

/// Where the toolchain rule recognises a path, its identifier is the result,
/// whatever the registry rule would say of the same path.
pub proof fn lemma_toolchain_rule_first(s: Seq<char>)
    requires
        toolchain_mapping(s) is Some,
    ensures
        path_identifier(s) == toolchain_mapping(s),
{
}

proof fn lemma_registry_bounds_order(s: Seq<char>, i: int)
    requires
        0 <= i,
        registry_bounds_from(s, i) is Some,
    ensures
        ({
            let (rs, re, h, t) = registry_bounds_from(s, i)->0;
            i + 21 <= rs < re < h < t < s.len()
        }),
    decreases s.len() - i,
{
    if 0 <= i < s.len() {
        match registry_bounds_at(s, i) {
            Some(b) => {
                reveal_strlit(".cargo");
                reveal_strlit("registry");
                reveal_strlit("src");
                let t = b.3;
                let a3 = run_start(s, t, CharClass::Digit);
                lemma_run_start_bounds(s, t, CharClass::Digit);
                lemma_run_start_bounds(s, a3 - 1, CharClass::Digit);
                let a2 = run_start(s, a3 - 1, CharClass::Digit);
                lemma_run_start_bounds(s, a2 - 1, CharClass::Digit);
            },
            None => {
                lemma_registry_bounds_order(s, i + 1);
            },
        }
    }
}

/// An identifier that a rule gives is never empty and never the raw path
/// itself.
pub proof fn lemma_identifier_differs_from_path(s: Seq<char>)
    requires
        path_identifier(s) is Some,
    ensures
        path_identifier(s)->0.len() > 0,
        path_identifier(s)->0 != s,
{
    reveal_strlit("/rustc/");
    reveal_strlit("git:github.com/rust-lang/rust:");
    reveal_strlit(":");
    reveal_strlit("cargo:");
    reveal_strlit("-");
    if toolchain_mapping(s) is Some {
        let e = toolchain_revision_end(s)->0;
        lemma_run_end_bounds(s, 7, CharClass::HexDigit);
        let m = toolchain_mapping(s)->0;
        assert(m.len() == 30 + (s.len() - e - 1) + 1 + (e - 7));
        assert(m.len() > s.len());
    } else {
        lemma_registry_bounds_order(s, 0);
        let (rs, re, h, t) = registry_bounds_from(s, 0)->0;
        let m = registry_mapping(s)->0;
        assert(m.len() == 6 + (re - rs) + 1 + (h - re - 1) + 1 + (t - h - 1) + 1 + (s.len() - t
            - 1));
        assert(m.len() < s.len());
    }
}

/// Classifies a raw path by the rules in their order: the toolchain rule, then
/// the registry rule; a path that neither recognises is returned unchanged.
pub fn classify(raw: &str) -> (r: FilePath)
    ensures
        r@ == classified(raw@),
{
    let v = chars_of(raw);
    match toolchain_mapping_of(raw, &v) {
        Some(m) => FilePath::Mapped { raw: raw.to_owned(), mapped: m },
        None => match registry_mapping_of(raw, &v) {
            Some(m) => FilePath::Mapped { raw: raw.to_owned(), mapped: m },
            None => FilePath::Normal(raw.to_owned()),
        },
    }
}

} // verus!
