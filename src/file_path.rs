use vstd::prelude::*;

verus! {

/// The outcome of mapping one raw path.
#[derive(Clone, Debug, PartialEq, Eq)]
pub enum FilePath {
    /// No rule applied: the path as it was given.
    Normal(String),
    /// `raw` is the path as given, `mapped` its canonical identifier.
    Mapped { raw: String, mapped: String },
}

impl View for FilePath {
    /// The raw path, and the identifier it was mapped to, if any.
    type V = (Seq<char>, Option<Seq<char>>);

    open spec fn view(&self) -> (Seq<char>, Option<Seq<char>>) {
        match self {
            FilePath::Normal(p) => (p@, None),
            FilePath::Mapped { raw, mapped } => (raw@, Some(mapped@)),
        }
    }
}

impl FilePath {
    /// A copy of this value.
    pub fn duplicate(&self) -> (r: FilePath)
        ensures
            r@ == self@,
    {
        match self {
            FilePath::Normal(p) => FilePath::Normal(p.clone()),
            FilePath::Mapped { raw, mapped } => FilePath::Mapped {
                raw: raw.clone(),
                mapped: mapped.clone(),
            },
        }
    }

    /// Whether `path` is the path as it was given.
    pub fn has_raw(&self, path: &String) -> (b: bool)
        ensures
            b == (self@.0 == path@),
    {
        match self {
            FilePath::Normal(p) => p.eq(path),
            FilePath::Mapped { raw, .. } => raw.eq(path),
        }
    }

    /// The path as it was given.
    pub fn raw(&self) -> (r: &str)
        ensures
            r@ == self@.0,
    {
        match self {
            FilePath::Normal(p) => p.as_str(),
            FilePath::Mapped { raw, .. } => raw.as_str(),
        }
    }
}

} // verus!
