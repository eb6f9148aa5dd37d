//! Operations whose result depends on the operating system.
//!
//! Nothing here touches the system. The caller puts the question to it and
//! hands in what it said, `None` standing for a refusal or a failure; what
//! becomes of the answer is decided here.

use vstd::prelude::*;
use vstd::string::*;
use crate::error::PathError;
use crate::path::Path;
use crate::syntax::{is_dot, is_dotdot, joined, stored};
use crate::text::chars_of;

verus! {

/// Every entry of a listing was read.
pub open spec fn all_present(entries: Seq<Option<Seq<char>>>) -> bool {
    forall|i: int| 0 <= i < entries.len() ==> (#[trigger] entries[i]) is Some
}

/// The entries of a listing that was read in full.
pub open spec fn present(entries: Seq<Option<Seq<char>>>) -> Seq<Seq<char>> {
    Seq::new(entries.len(), |i: int| entries[i]->0)
}

/// The texts that are stored for the entries of a listing read in full.
pub open spec fn stored_all(entries: Seq<Option<Seq<char>>>) -> Seq<Seq<char>> {
    Seq::new(entries.len(), |i: int| stored(entries[i]->0))
}

/// The children of `base` for the names a directory holds: each name joined
/// to `base`, the entries `.` and `..` left out.
pub open spec fn children_of(base: Seq<char>, names: Seq<Seq<char>>) -> Seq<Seq<char>>
    decreases names.len(),
{
    if names.len() == 0 {
        Seq::empty()
    } else {
        let earlier = children_of(base, names.drop_last());
        if is_dot(names.last()) || is_dotdot(names.last()) {
            earlier
        } else {
            earlier.push(joined(base, names.last()))
        }
    }
}

/// The pattern that finds `pattern` directly under `base`.
pub open spec fn glob_text(base: Seq<char>, pattern: Seq<char>) -> Seq<char> {
    base.push('/') + pattern
}

/// The pattern that finds `pattern` at any depth under `base`.
pub open spec fn rglob_text(base: Seq<char>, pattern: Seq<char>) -> Seq<char> {
    base + seq!['/', '*', '*', '/'] + pattern
}

/// Whether `name` is one of the entries `.` and `..`.
fn is_pseudo_entry(name: &str) -> (r: bool)
    ensures
        r == (is_dot(name@) || is_dotdot(name@)),
{
    let v = chars_of(name);
    (v.len() == 1 && v[0] == '.') || (v.len() == 2 && v[0] == '.' && v[1] == '.')
}

impl Path {
    /// The canonical form of the path, given what the system made of it.
    /// `OSFailure` where the system gave no canonical form. An empty path is
    /// refused with `EmptyPath` before the system's answer is looked at; no
    /// path is empty, so the guard stands for the day one could be.
    pub fn resolve(&self, canonical: Option<String>) -> (r: Result<Path, PathError>)
        ensures
            self@.len() == 0 ==> r == Err::<Path, PathError>(PathError::EmptyPath),
            self@.len() > 0 ==> match canonical {
                Some(c) => r is Ok && r->Ok_0@ == stored(c@),
                None => r == Err::<Path, PathError>(PathError::OSFailure),
            },
    {
        if self.as_str().is_empty() {
            return Err(PathError::EmptyPath);
        }
        match canonical {
            Some(text) => Ok(Path::from_text(text)),
            None => Err(PathError::OSFailure),
        }
    }

    /// The working directory as the system reported it.
    pub fn cwd(reported: Option<String>) -> (r: Result<Path, PathError>)
        ensures
            match reported {
                Some(c) => r is Ok && r->Ok_0@ == stored(c@),
                None => r == Err::<Path, PathError>(PathError::OSFailure),
            },
    {
        match reported {
            Some(text) => Ok(Path::from_text(text)),
            None => Err(PathError::OSFailure),
        }
    }

    /// The home directory, from the value of the variable `HOME`; there is
    /// no other source, so an unset variable is an `OSFailure`.
    pub fn home(variable: Option<String>) -> (r: Result<Path, PathError>)
        ensures
            match variable {
                Some(c) => r is Ok && r->Ok_0@ == stored(c@),
                None => r == Err::<Path, PathError>(PathError::OSFailure),
            },
    {
        match variable {
            Some(text) => Ok(Path::from_text(text)),
            None => Err(PathError::OSFailure),
        }
    }

    /// The children of this directory for the entry names the system
    /// listed, in the order listed. `OSFailure` where the directory could
    /// not be listed or one entry could not be read.
    pub fn iterdir(&self, listing: Option<Vec<Option<String>>>) -> (r: Result<
        Vec<Path>,
        PathError,
    >)
        ensures
            match listing {
                Some(entries) if all_present(entries.deep_view()) => r is Ok
                    && r->Ok_0.deep_view() == children_of(self@, present(entries.deep_view())),
                _ => r == Err::<Vec<Path>, PathError>(PathError::OSFailure),
            },
            r is Ok ==> forall|k: int|
                0 <= k < r->Ok_0.len() ==> (#[trigger] r->Ok_0.deep_view()[k]).len() > 0,
    {
        match listing {
            Some(entries) => {
                let ghost es = entries.deep_view();
                let mut out: Vec<Path> = Vec::new();
                let mut i: usize = 0;
                while i < entries.len()
                    invariant
                        i <= entries.len(),
                        listing == Some(entries),
                        es == entries.deep_view(),
                        forall|k: int| 0 <= k < i ==> (#[trigger] es[k]) is Some,
                        out.deep_view() == children_of(self@, present(es).take(i as int)),
                        forall|k: int|
                            0 <= k < out.len() ==> (#[trigger] out.deep_view()[k]).len() > 0,
                    decreases entries.len() - i,
                {
                    match &entries[i] {
                        Some(name) => {
                            assert(present(es).take(i + 1).drop_last() =~= present(es).take(
                                i as int,
                            ));
                            if !is_pseudo_entry(name.as_str()) {
                                out.push(self.truediv(name.as_str()));
                            }
                        },
                        None => {
                            return Err(PathError::OSFailure);
                        },
                    }
                    i = i + 1;
                }
                assert(present(es).take(i as int) =~= present(es));
                Ok(out)
            },
            None => Err(PathError::OSFailure),
        }
    }

    /// The pattern to search for `pattern` directly under this path: the
    /// canonical form, a separator, the pattern. Fails as `resolve` does.
    pub fn glob_pattern(&self, canonical: Option<String>, pattern: &str) -> (r: Result<
        String,
        PathError,
    >)
        ensures
            self@.len() == 0 ==> r == Err::<String, PathError>(PathError::EmptyPath),
            self@.len() > 0 ==> match canonical {
                Some(c) => r is Ok && r->Ok_0@ == glob_text(stored(c@), pattern@),
                None => r == Err::<String, PathError>(PathError::OSFailure),
            },
    {
        match self.resolve(canonical) {
            Ok(base) => {
                proof {
                    reveal_strlit("/");
                }
                let mut text = base.to_string();
                text.append("/");
                text.append(pattern);
                Ok(text)
            },
            Err(e) => Err(e),
        }
    }

    /// The pattern to search for `pattern` at any depth under this path: the
    /// canonical form, `/**/`, the pattern. Fails as `resolve` does.
    pub fn rglob_pattern(&self, canonical: Option<String>, pattern: &str) -> (r: Result<
        String,
        PathError,
    >)
        ensures
            self@.len() == 0 ==> r == Err::<String, PathError>(PathError::EmptyPath),
            self@.len() > 0 ==> match canonical {
                Some(c) => r is Ok && r->Ok_0@ == rglob_text(stored(c@), pattern@),
                None => r == Err::<String, PathError>(PathError::OSFailure),
            },
    {
        match self.resolve(canonical) {
            Ok(base) => {
                proof {
                    reveal_strlit("/**/");
                }
                let mut text = base.to_string();
                text.append("/**/");
                text.append(pattern);
                Ok(text)
            },
            Err(e) => Err(e),
        }
    }

    /// The paths a search found, in the order found, each stored as a path
    /// is; none found is an empty result and no error. `OSFailure` where the
    /// search could not be made or one match could not be read.
    pub fn from_matches(found: Option<Vec<Option<String>>>) -> (r: Result<Vec<Path>, PathError>)
        ensures
            match found {
                Some(entries) if all_present(entries.deep_view()) => r is Ok
                    && r->Ok_0.deep_view() == stored_all(entries.deep_view()),
                _ => r == Err::<Vec<Path>, PathError>(PathError::OSFailure),
            },
    {
        match found {
            Some(entries) => {
                let ghost es = entries.deep_view();
                let mut out: Vec<Path> = Vec::new();
                let mut i: usize = 0;
                while i < entries.len()
                    invariant
                        i <= entries.len(),
                        found == Some(entries),
                        es == entries.deep_view(),
                        forall|k: int| 0 <= k < i ==> (#[trigger] es[k]) is Some,
                        out.deep_view() == stored_all(es).take(i as int),
                    decreases entries.len() - i,
                {
                    let ghost before = out.deep_view();
                    match &entries[i] {
                        Some(text) => {
                            out.push(Path::from_text(text.clone()));
                            assert(out.deep_view() =~= before.push(stored(text@)));
                        },
                        None => {
                            assert(!all_present(es)) by {
                                assert(es.len() == entries.len());
                                assert(es[i as int] is None);
                            }
                            return Err(PathError::OSFailure);
                        },
                    }
                    i = i + 1;
                }
                Ok(out)
            },
            None => Err(PathError::OSFailure),
        }
    }
}

} // verus!
