use vstd::prelude::*;

use crate::file_path::FilePath;
use crate::rules::{classified, classify};

verus! {

/// A hook that may claim a raw path before the built-in rules see it.
///
/// It is asked on every call of [`PathMapper::map_path`], and what it answers
/// is never cached.
pub trait ExtraPathMapper: Sized {
    /// Whether a hook in this state, asked about `path`, may answer `answer`
    /// and be left in state `after`. A hook that does not say may answer
    /// anything.
    open spec fn answers(&self, path: Seq<char>, after: Self, answer: Option<Seq<char>>) -> bool {
        true
    }

    /// The identifier for `path`, or `None` to leave the path to the built-in
    /// rules.
    fn map_path(&mut self, path: &str) -> (r: Option<String>)
        ensures
            old(self).answers(path@, *final(self), r.deep_view()),
    ;
}

/// The hook that claims nothing.
impl ExtraPathMapper for () {
    open spec fn answers(&self, path: Seq<char>, after: (), answer: Option<Seq<char>>) -> bool {
        answer is None
    }

    fn map_path(&mut self, _path: &str) -> (r: Option<String>)
        ensures
            r is None,
    {
        None
    }
}

/// The hook that claims nothing declines every path, so a mapper that holds it
/// maps as one without a hook.
pub proof fn lemma_unit_hook_declines(path: Seq<char>, answer: Option<Seq<char>>)
    requires
        ().answers(path, (), answer),
    ensures
        answer is None,
{
}

/// The cache as a map from raw path to result.
pub type CacheView = Map<Seq<char>, (Seq<char>, Option<Seq<char>>)>;

/// Every cached result is what the rules give for its raw path.
pub open spec fn cache_consistent(c: CacheView) -> bool {
    forall|k: Seq<char>| #[trigger] c.contains_key(k) ==> c[k] == classified(k)
}

/// A call that the hook leaves to the built-in rules, as the cache after it and
/// its result: a path already in the cache is served from there, any other is
/// classified and recorded.
pub open spec fn lookup_step(c: CacheView, s: Seq<char>) -> (CacheView, (
    Seq<char>,
    Option<Seq<char>>,
)) {
    if c.contains_key(s) {
        (c, c[s])
    } else {
        (c.insert(s, classified(s)), classified(s))
    }
}

/// A call that got `answer` from the hook (`None` where no hook is configured
/// or the hook declined), as the cache `c0` before it, `c1` after it, and its
/// result `r`: a claim is returned as it is and not cached; otherwise the call
/// is a lookup step.
pub open spec fn answered(
    c0: CacheView,
    c1: CacheView,
    s: Seq<char>,
    answer: Option<Seq<char>>,
    r: (Seq<char>, Option<Seq<char>>),
) -> bool {
    match answer {
        Some(m) => r == (s, Some(m)) && c1 == c0,
        None => r == classified(s) && (c1, r) == lookup_step(c0, s),
    }
}

/// A call whose hook claims the path returns the claim and memoizes nothing,
/// so the next call with the same path asks the hook again and is not served
/// from the cache.
pub proof fn lemma_claim_not_cached(
    c0: CacheView,
    c1: CacheView,
    s: Seq<char>,
    m: Seq<char>,
    r: (Seq<char>, Option<Seq<char>>),
)
    requires
        answered(c0, c1, s, Some(m), r),
    ensures
        r == (s, Some(m)),
        c1 == c0,
{
}

/// What the hook, if one is configured, answers for `raw_path`.
fn ask_hook<E: ExtraPathMapper>(extra_mapper: &mut Option<E>, raw_path: &str) -> (r: Option<String>)
    ensures
        match *old(extra_mapper) {
            Some(before) => (*final(extra_mapper)) matches Some(after) && before.answers(
                raw_path@,
                after,
                r.deep_view(),
            ),
            None => r is None && (*final(extra_mapper)) is None,
        },
{
    match extra_mapper {
        Some(hook) => hook.map_path(raw_path),
        None => None,
    }
}

/// Maps raw source paths to canonical identifiers, remembering each result.
pub struct PathMapper<E: ExtraPathMapper> {
    cache: Vec<FilePath>,
    known: Ghost<CacheView>,
    extra_mapper: Option<E>,
}

impl<E: ExtraPathMapper> PathMapper<E> {
    /// The results computed so far, by raw path.
    pub closed spec fn cached(&self) -> CacheView {
        self.known@
    }

    /// The hook, if one is configured.
    pub closed spec fn extra(&self) -> Option<E> {
        self.extra_mapper
    }

    /// The cache holds one entry per raw path, `cached` describes exactly
    /// those entries, and each is what the rules give for its path.
    pub closed spec fn wf(&self) -> bool {
        &&& forall|i: int, j: int|
            0 <= i < j < self.cache.len()
                ==> (#[trigger] self.cache@[i])@.0 != (#[trigger] self.cache@[j])@.0
        &&& forall|i: int|
            0 <= i < self.cache.len() ==> self.known@.contains_key((#[trigger] self.cache@[i])@.0)
                && self.known@[self.cache@[i]@.0] == self.cache@[i]@
        &&& forall|k: Seq<char>| #[trigger]
            self.known@.contains_key(k) ==> exists|i: int|
                0 <= i < self.cache.len() && (#[trigger] self.cache@[i])@.0 == k
        &&& cache_consistent(self.known@)
    }

    /// Mapping the same path twice, with no hook claiming it, gives equal
    /// results, and the second call is served from the cache: it classifies
    /// nothing and leaves the cache as the first call left it.
    pub proof fn lemma_repeat_served_from_cache(&self, s: Seq<char>)
        requires
            self.wf(),
        ensures
            ({
                let (c1, r1) = lookup_step(self.cached(), s);
                let (c2, r2) = lookup_step(c1, s);
                &&& r1 == classified(s)
                &&& c1.contains_key(s)
                &&& c2 == c1
                &&& r2 == r1
            }),
    {
    }

    /// The cache only grows, and stays consistent with the rules: no call
    /// removes or changes an entry.
    pub proof fn lemma_cache_only_grows(&self, s: Seq<char>)
        requires
            self.wf(),
        ensures
            self.cached().submap_of(lookup_step(self.cached(), s).0),
            cache_consistent(lookup_step(self.cached(), s).0),
    {
    }

    /// A mapper with no hook and an empty cache.
    pub fn new() -> (r: Self)
        ensures
            r.wf(),
            r.cached() == CacheView::empty(),
            r.extra() is None,
    {
        Self::new_with_maybe_extra_mapper(None)
    }

    /// A mapper with the given hook, if any, and an empty cache.
    pub fn new_with_maybe_extra_mapper(extra_mapper: Option<E>) -> (r: Self)
        ensures
            r.wf(),
            r.cached() == CacheView::empty(),
            r.extra() == extra_mapper,
    {
        PathMapper { cache: Vec::new(), known: Ghost(CacheView::empty()), extra_mapper }
    }

    /// The index of the cached entry for `raw_path`, if there is one.
    fn find_cached(&self, raw_path: &str) -> (r: Option<usize>)
        requires
            self.wf(),
        ensures
            match r {
                Some(i) => i < self.cache.len() && self.cache@[i as int]@.0 == raw_path@,
                None => !self.cached().contains_key(raw_path@),
            },
    {
        let key = raw_path.to_owned();
        let mut i: usize = 0;
        while i < self.cache.len()
            invariant
                self.wf(),
                i <= self.cache.len(),
                key@ == raw_path@,
                forall|j: int| 0 <= j < i ==> (#[trigger] self.cache@[j])@.0 != raw_path@,
            decreases self.cache.len() - i,
        {
            if self.cache[i].has_raw(&key) {
                return Some(i);
            }
            i = i + 1;
        }
        None
    }

    /// Finishes a call of [`Self::map_path`] once the hook has answered
    /// `claimed` (`None` where no hook is configured): a claim is returned as
    /// it is and not cached; otherwise the cached result is returned, or the
    /// path is classified and the result cached.
    pub fn resolve(&mut self, raw_path: &str, claimed: Option<String>) -> (r: FilePath)
        requires
            old(self).wf(),
        ensures
            final(self).wf(),
            final(self).extra() == old(self).extra(),
            answered(old(self).cached(), final(self).cached(), raw_path@, claimed.deep_view(), r@),
    {
        match claimed {
            Some(mapped) => {
                return FilePath::Mapped { raw: raw_path.to_owned(), mapped };
            },
            None => {},
        }
        match self.find_cached(raw_path) {
            Some(i) => {
                return self.cache[i].duplicate();
            },
            None => {},
        }
        let value = classify(raw_path);
        let ghost before = self.cache@;
        self.cache.push(value.duplicate());
        self.known = Ghost(self.known@.insert(raw_path@, classified(raw_path@)));
        proof {
            assert(self.cache@[before.len() as int] == self.cache@.last());
            assert forall|k: Seq<char>| #[trigger] self.known@.contains_key(k) implies exists|
                i: int,
            | 0 <= i < self.cache.len() && (#[trigger] self.cache@[i])@.0 == k by {
                if k == raw_path@ {
                    assert(self.cache@[before.len() as int]@.0 == k);
                } else {
                    let i = choose|i: int| 0 <= i < before.len() && (#[trigger] before[i])@.0 == k;
                    assert(self.cache@[i] == before[i]);
                }
            }
        }
        value
    }

    /// Maps `raw_path`. A configured hook is asked first, every time, and what
    /// it claims is returned uncached. Otherwise the result comes from the
    /// cache, or from the rules and is then cached: the identifier of the first
    /// rule that recognises the path, or the path unchanged.
    pub fn map_path(&mut self, raw_path: &str) -> (r: FilePath)
        requires
            old(self).wf(),
        ensures
            final(self).wf(),
            match old(self).extra() {
                Some(before) => exists|after: E, answer: Option<Seq<char>>|
                    #[trigger] before.answers(raw_path@, after, answer) && final(self).extra()
                        == Some(after) && answered(
                        old(self).cached(),
                        final(self).cached(),
                        raw_path@,
                        answer,
                        r@,
                    ),
                None => final(self).extra() is None && answered(
                    old(self).cached(),
                    final(self).cached(),
                    raw_path@,
                    None,
                    r@,
                ),
            },
    {
        let ghost cache = self.cache@;
        let claimed = ask_hook(&mut self.extra_mapper, raw_path);
        assert(self.cache@ == cache);
        self.resolve(raw_path, claimed)
    }
}

} // verus!
