use vstd::prelude::*;
use vstd::string::*;

verus! {

/// The sets of characters that the path grammars are built from.
#[derive(Clone, Copy, Debug, PartialEq, Eq)]
pub enum CharClass {
    /// `0-9` and `a-f`.
    HexDigit,
    /// `0-9`.
    Digit,
    /// Anything but a forward or backward slash.
    NotSeparator,
    /// Anything but a forward slash.
    NotSlash,
}

/// Either kind of path separator.
pub open spec fn is_separator(c: char) -> bool {
    c == '/' || c == '\\'
}

impl CharClass {
    pub open spec fn admits(self, c: char) -> bool {
        match self {
            CharClass::HexDigit => ('0' <= c && c <= '9') || ('a' <= c && c <= 'f'),
            CharClass::Digit => '0' <= c && c <= '9',
            CharClass::NotSeparator => !is_separator(c),
            CharClass::NotSlash => c != '/',
        }
    }

    pub fn contains(self, c: char) -> (b: bool)
        ensures
            b == self.admits(c),
    {
        match self {
            CharClass::HexDigit => ('0' <= c && c <= '9') || ('a' <= c && c <= 'f'),
            CharClass::Digit => '0' <= c && c <= '9',
            CharClass::NotSeparator => !(c == '/' || c == '\\'),
            CharClass::NotSlash => c != '/',
        }
    }
}

/// Where the longest run of characters of class `k` that starts at `i` ends.
pub open spec fn run_end(s: Seq<char>, i: int, k: CharClass) -> int
    decreases s.len() - i,
{
    if 0 <= i < s.len() && k.admits(s[i]) {
        run_end(s, i + 1, k)
    } else {
        i
    }
}

/// A run of class `k` that starts inside `s` ends inside it, not before its
/// start.
pub proof fn lemma_run_end_bounds(s: Seq<char>, i: int, k: CharClass)
    requires
        0 <= i <= s.len(),
    ensures
        i <= run_end(s, i, k) <= s.len(),
    decreases s.len() - i,
{
    if i < s.len() && k.admits(s[i]) {
        lemma_run_end_bounds(s, i + 1, k);
    }
}

/// Where the longest run of characters of class `k` that ends just before `j`
/// begins.
pub open spec fn run_start(s: Seq<char>, j: int, k: CharClass) -> int
    decreases j,
{
    if 0 < j <= s.len() && k.admits(s[j - 1]) {
        run_start(s, j - 1, k)
    } else {
        j
    }
}

/// A run of class `k` that ends inside `s` begins inside it, not after its end.
pub proof fn lemma_run_start_bounds(s: Seq<char>, j: int, k: CharClass)
    requires
        0 <= j <= s.len(),
    ensures
        0 <= run_start(s, j, k) <= j,
    decreases j,
{
    if 0 < j && k.admits(s[j - 1]) {
        lemma_run_start_bounds(s, j - 1, k);
    }
}

/// Every character from `i` up to `j` is of class `k`, and the one at `j`, if
/// any, is not: the run from `i` ends at `j`.
pub proof fn lemma_run_end_at(s: Seq<char>, i: int, j: int, k: CharClass)
    requires
        0 <= i <= j <= s.len(),
        forall|x: int| i <= x < j ==> k.admits(#[trigger] s[x]),
        j < s.len() ==> !k.admits(s[j]),
    ensures
        run_end(s, i, k) == j,
    decreases j - i,
{
    if i < j {
        lemma_run_end_at(s, i + 1, j, k);
    }
}

/// Every character from `i` up to `j` is of class `k`, and the one before `i`,
/// if any, is not: the run that ends at `j` begins at `i`.
pub proof fn lemma_run_start_at(s: Seq<char>, i: int, j: int, k: CharClass)
    requires
        0 <= i <= j <= s.len(),
        forall|x: int| i <= x < j ==> k.admits(#[trigger] s[x]),
        0 < i ==> !k.admits(s[i - 1]),
    ensures
        run_start(s, j, k) == i,
    decreases j - i,
{
    if i < j {
        lemma_run_start_at(s, i, j - 1, k);
    }
}

/// Every character of a run of class `k` is of that class.
pub proof fn lemma_run_end_admits(s: Seq<char>, i: int, k: CharClass)
    requires
        0 <= i <= s.len(),
    ensures
        forall|x: int| i <= x < run_end(s, i, k) ==> k.admits(#[trigger] s[x]),
        run_end(s, i, k) < s.len() ==> !k.admits(s[run_end(s, i, k)]),
    decreases s.len() - i,
{
    if i < s.len() && k.admits(s[i]) {
        lemma_run_end_admits(s, i + 1, k);
    }
}

/// Every character of a run of class `k` is of that class.
pub proof fn lemma_run_start_admits(s: Seq<char>, j: int, k: CharClass)
    requires
        0 <= j <= s.len(),
    ensures
        forall|x: int| run_start(s, j, k) <= x < j ==> k.admits(#[trigger] s[x]),
        0 < run_start(s, j, k) ==> !k.admits(s[run_start(s, j, k) - 1]),
    decreases j,
{
    if 0 < j && k.admits(s[j - 1]) {
        lemma_run_start_admits(s, j - 1, k);
    }
}

/// `t` with every backslash turned into a forward slash.
pub open spec fn forward_slashes(t: Seq<char>) -> Seq<char> {
    t.map_values(|c: char| if c == '\\' { '/' } else { c })
}

/// `lit` stands in `s` at position `i`.
pub open spec fn literal_at(s: Seq<char>, i: int, lit: Seq<char>) -> bool {
    0 <= i && i + lit.len() <= s.len() && s.subrange(i, i + lit.len()) == lit
}

/// The characters of `s`, one per element.
pub fn chars_of(s: &str) -> (v: Vec<char>)
    ensures
        v@ == s@,
{
    let mut v: Vec<char> = Vec::new();
    for c in it: s.chars()
        invariant
            v@ == it.seq().take(it.index() as int),
            it.seq() == s@,
    {
        v.push(c);
    }
    v
}

/// The end of the longest run of class `k` from `start`.
pub fn scan_run(v: &Vec<char>, start: usize, k: CharClass) -> (e: usize)
    requires
        start <= v.len(),
    ensures
        e == run_end(v@, start as int, k),
        start <= e <= v.len(),
{
    let mut e: usize = start;
    while e < v.len() && k.contains(v[e])
        invariant
            start <= e <= v.len(),
            run_end(v@, e as int, k) == run_end(v@, start as int, k),
        decreases v.len() - e,
    {
        e = e + 1;
    }
    e
}

/// The start of the longest run of class `k` that ends just before `end`.
pub fn scan_run_back(v: &Vec<char>, end: usize, k: CharClass) -> (b: usize)
    requires
        end <= v.len(),
    ensures
        b == run_start(v@, end as int, k),
        b <= end,
{
    let mut b: usize = end;
    while b > 0 && k.contains(v[b - 1])
        invariant
            b <= end <= v.len(),
            run_start(v@, b as int, k) == run_start(v@, end as int, k),
        decreases b,
    {
        b = b - 1;
    }
    b
}

/// Whether the characters of `lit` stand in `v` at position `i`.
pub fn literal_matches(v: &Vec<char>, i: usize, lit: &str) -> (b: bool)
    ensures
        b == literal_at(v@, i as int, lit@),
{
    let n = lit.unicode_len();
    if n > v.len() || i > v.len() - n {
        return false;
    }
    let mut j: usize = 0;
    while j < n
        invariant
            n == lit@.len(),
            i + n <= v.len(),
            j <= n,
            v@.subrange(i as int, i + j) == lit@.take(j as int),
        decreases n - j,
    {
        if v[i + j] != lit.get_char(j) {
            assert(v@.subrange(i as int, i + n)[j as int] != lit@[j as int]);
            return false;
        }
        assert(v@.subrange(i as int, i + j + 1) == v@.subrange(i as int, i + j).push(v@[i + j]));
        assert(lit@.take(j + 1) == lit@.take(j as int).push(lit@[j as int]));
        j = j + 1;
    }
    assert(lit@.take(n as int) == lit@);
    true
}

/// Appends to `out` the characters of `s` from `from` to the end, with every
/// backslash turned into a forward slash.
pub fn append_forward_slashed(out: &mut String, s: &str, v: &Vec<char>, from: usize)
    requires
        v@ == s@,
        from <= v.len(),
    ensures
        final(out)@ == old(out)@ + forward_slashes(v@.subrange(from as int, v@.len() as int)),
{
    let ghost base = out@;
    let mut seg: usize = from;
    let mut i: usize = from;
    while i < v.len()
        invariant
            v@ == s@,
            from <= seg <= i <= v.len(),
            out@ == base + forward_slashes(v@.subrange(from as int, seg as int)),
            forall|j: int| seg <= j < i ==> v@[j] != '\\',
        decreases v.len() - i,
    {
        if v[i] == '\\' {
            let piece = s.substring_char(seg, i);
            out.append(piece);
            out.append("/");
            proof {
                reveal_strlit("/");
                let a = v@.subrange(from as int, seg as int);
                let b = v@.subrange(seg as int, i as int);
                assert(v@.subrange(from as int, i + 1) == a + b.push('\\'));
                assert(forward_slashes(b) == b);
                assert(forward_slashes(a + b.push('\\')) == forward_slashes(a) + b.push('/'));
            }
            seg = i + 1;
        }
        i = i + 1;
    }
    let piece = s.substring_char(seg, v.len());
    out.append(piece);
    proof {
        let a = v@.subrange(from as int, seg as int);
        let b = v@.subrange(seg as int, v@.len() as int);
        assert(v@.subrange(from as int, v@.len() as int) == a + b);
        assert(forward_slashes(b) == b);
        assert(forward_slashes(a + b) == forward_slashes(a) + b);
    }
}

} // verus!
