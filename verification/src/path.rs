//! The path value and its operations.

use vstd::prelude::*;
use vstd::string::*;
use crate::error::PathError;
use crate::scan::{name_span, parent_len, part_spans, stem_end};
use crate::syntax::{
    cut, has_suffix, initial_text, is_rooted, is_valid_suffix, join_all, joined,
    lemma_join_keeps_text, lemma_stem_is_not_empty, lemma_terminal_has_no_name, logical_parent,
    name_of, parts_of, repr_of, spans_within, stem_of, stored, suffix_of, suffixes_of,
    with_name_of, with_stem_of, with_suffix_of,
};
use crate::text::{chars_of, push_segment};

verus! {

/// A filesystem path, held as text. Its view is that text, and the text is
/// never empty: a path is made and changed only by the operations here, and
/// each stores `.` where no text would be left.
#[derive(Debug)]
pub struct Path {
    path: String,
}

impl Clone for Path {
    /// A copy with the same text.
    fn clone(&self) -> (r: Path)
        ensures
            r@ == self@,
    {
        proof {
            use_type_invariant(self);
        }
        Path { path: self.path.clone() }
    }
}

impl View for Path {
    type V = Seq<char>;

    closed spec fn view(&self) -> Seq<char> {
        self.path@
    }
}

impl DeepView for Path {
    type V = Seq<char>;

    open spec fn deep_view(&self) -> Seq<char> {
        self@
    }
}

impl Path {
    #[verifier::type_invariant]
    spec fn holds_text(&self) -> bool {
        self.path@.len() > 0
    }

    /// The path that stores `text`: `text` itself, or `.` where it is empty.
    pub fn from_text(text: String) -> (p: Path)
        ensures
            p@ == stored(text@),
    {
        if text.as_str().is_empty() {
            proof {
                reveal_strlit(".");
            }
            Path { path: ".".to_owned() }
        } else {
            Path { path: text }
        }
    }

    /// A path from the first of `args`; `.` where there is none or it is
    /// empty. Nothing is normalised and nothing can fail.
    pub fn new(args: &[&str]) -> (p: Path)
        ensures
            p@ == initial_text(args.deep_view()),
    {
        if args.len() == 0 {
            Path::from_text(String::new())
        } else {
            Path::from_text(args[0].to_owned())
        }
    }

    /// The text of the path, borrowed. It is never empty.
    pub fn as_str(&self) -> (s: &str)
        ensures
            s@ == self@,
            s@.len() > 0,
    {
        proof {
            use_type_invariant(self);
        }
        self.path.as_str()
    }

    /// The text of the path, as it is handed to the system.
    pub fn to_string(&self) -> (r: String)
        ensures
            r@ == self@,
            r@.len() > 0,
    {
        self.as_str().to_owned()
    }

    /// The text of the path between `Path('` and `')`.
    pub fn repr(&self) -> (r: String)
        ensures
            r@ == repr_of(self@),
    {
        proof {
            reveal_strlit("Path('");
            reveal_strlit("')");
        }
        let mut r = String::from_str("Path('");
        r.append(self.as_str());
        r.append("')");
        r
    }

    /// The final component, `..` included. `NoComponent` where the path is
    /// the root or `.` alone.
    pub fn name(&self) -> (r: Result<String, PathError>)
        ensures
            match name_of(self@) {
                Some(n) => r is Ok && r->Ok_0@ == n,
                None => r == Err::<String, PathError>(PathError::NoComponent),
            },
    {
        let text = self.as_str();
        let v = chars_of(text);
        match name_span(&v) {
            Some((c, e)) => Ok(text.substring_char(c, e).to_owned()),
            None => Err(PathError::NoComponent),
        }
    }

    /// The final component without its suffix. `NoComponent` as for `name`.
    pub fn stem(&self) -> (r: Result<String, PathError>)
        ensures
            match name_of(self@) {
                Some(n) => r is Ok && r->Ok_0@ == stem_of(n),
                None => r == Err::<String, PathError>(PathError::NoComponent),
            },
    {
        let text = self.as_str();
        let v = chars_of(text);
        match name_span(&v) {
            Some((c, e)) => {
                let k = stem_end(&v, c, e);
                Ok(text.substring_char(c, k).to_owned())
            },
            None => Err(PathError::NoComponent),
        }
    }

    /// The suffix of the final component, its `.` included. `NoSuffix` where
    /// there is no final component or it has no suffix.
    pub fn suffix(&self) -> (r: Result<String, PathError>)
        ensures
            match name_of(self@) {
                Some(n) if has_suffix(n) => r is Ok && r->Ok_0@ == suffix_of(n),
                _ => r == Err::<String, PathError>(PathError::NoSuffix),
            },
    {
        let text = self.as_str();
        let v = chars_of(text);
        match name_span(&v) {
            Some((c, e)) => {
                let k = stem_end(&v, c, e);
                if k < e {
                    Ok(text.substring_char(k, e).to_owned())
                } else {
                    Err(PathError::NoSuffix)
                }
            },
            None => Err(PathError::NoSuffix),
        }
    }

    /// Every suffix of the final component, innermost first, each with its
    /// `.`. `NoSuffix` as for `suffix`.
    pub fn suffixes(&self) -> (r: Result<Vec<String>, PathError>)
        ensures
            match name_of(self@) {
                Some(n) if has_suffix(n) => r is Ok && r->Ok_0.deep_view() == suffixes_of(n),
                _ => r == Err::<Vec<String>, PathError>(PathError::NoSuffix),
            },
    {
        let text = self.as_str();
        let v = chars_of(text);
        match name_span(&v) {
            Some((c, e)) => {
                let mut out: Vec<String> = Vec::new();
                let mut end: usize = e;
                loop
                    invariant
                        c <= end <= e <= v.len(),
                        text@ == v@,
                        suffixes_of(v@.subrange(c as int, e as int)) == suffixes_of(
                            v@.subrange(c as int, end as int),
                        ) + out.deep_view(),
                    ensures
                        suffixes_of(v@.subrange(c as int, e as int)) == out.deep_view(),
                    decreases end - c,
                {
                    let ghost m = v@.subrange(c as int, end as int);
                    let k = stem_end(&v, c, end);
                    if k == end {
                        break ;
                    }
                    out.insert(0, text.substring_char(k, end).to_owned());
                    proof {
                        assert(stem_of(m) =~= v@.subrange(c as int, k as int));
                        assert(suffix_of(m) =~= v@.subrange(k as int, end as int));
                    }
                    end = k;
                }
                if out.len() == 0 {
                    Err(PathError::NoSuffix)
                } else {
                    Ok(out)
                }
            },
            None => Err(PathError::NoSuffix),
        }
    }

    /// Every component of the path in order: `/` first where it is rooted.
    pub fn parts(&self) -> (r: Vec<String>)
        ensures
            r.deep_view() == parts_of(self@),
            r.len() > 0,
    {
        let text = self.as_str();
        let v = chars_of(text);
        let spans = part_spans(&v);
        let mut out: Vec<String> = Vec::new();
        let mut k: usize = 0;
        while k < spans.len()
            invariant
                k <= spans.len(),
                text@ == v@,
                spans_within(spans@, v.len() as int),
                out.deep_view() == cut(v@, spans@).take(k as int),
            decreases spans.len() - k,
        {
            let (a, b) = spans[k];
            let ghost before = out.deep_view();
            out.push(text.substring_char(a, b).to_owned());
            assert(out.deep_view() =~= before.push(v@.subrange(a as int, b as int)));
            k = k + 1;
        }
        proof {
            lemma_terminal_has_no_name(self@);
        }
        out
    }

    /// The path without its final component. A path that is the root or `.`
    /// alone, however it is spelled, is its own parent; the parent of a path
    /// of one component is `.`. There is always a parent.
    pub fn parent(&self) -> (r: Result<Path, PathError>)
        ensures
            r is Ok,
            r->Ok_0@ == logical_parent(self@),
            r->Ok_0@.len() > 0,
    {
        let text = self.as_str();
        let v = chars_of(text);
        proof {
            lemma_terminal_has_no_name(self@);
        }
        match (name_span(&v), parent_len(&v)) {
            (Some(_), Some(k)) => Ok(Path::from_text(text.substring_char(0, k).to_owned())),
            _ => Ok(Path::from_text(text.to_owned())),
        }
    }

    /// Whether the path starts at the root.
    pub fn is_absolute(&self) -> (r: bool)
        ensures
            r == is_rooted(self@),
    {
        self.as_str().get_char(0) == '/'
    }

    /// The path with its final component replaced by `name`, joined to what
    /// stands before that component as a segment is. `NoComponent` where
    /// there is no final component to replace.
    pub fn with_name(&self, name: &str) -> (r: Result<Path, PathError>)
        ensures
            match with_name_of(self@, name@) {
                Some(t) => r is Ok && r->Ok_0@ == t && t.len() > 0,
                None => r == Err::<Path, PathError>(PathError::NoComponent),
            },
    {
        let text = self.as_str();
        let v = chars_of(text);
        match (name_span(&v), parent_len(&v)) {
            (Some(_), Some(k)) => {
                let mut path = text.substring_char(0, k).to_owned();
                push_segment(&mut path, name);
                Ok(Path::from_text(path))
            },
            _ => Err(PathError::NoComponent),
        }
    }

    /// The path with the stem of its final component replaced by `stem` and
    /// the suffix kept. `NoComponent` as for `with_name`.
    pub fn with_stem(&self, stem: &str) -> (r: Result<Path, PathError>)
        ensures
            match with_stem_of(self@, stem@) {
                Some(t) => r is Ok && r->Ok_0@ == t && t.len() > 0,
                None => r == Err::<Path, PathError>(PathError::NoComponent),
            },
    {
        let text = self.as_str();
        let v = chars_of(text);
        match name_span(&v) {
            Some((c, e)) => {
                let k = stem_end(&v, c, e);
                let mut name = stem.to_owned();
                name.append(text.substring_char(k, e));
                self.with_name(name.as_str())
            },
            None => Err(PathError::NoComponent),
        }
    }

    /// The path with the suffix of its final component replaced by `suffix`,
    /// or with `suffix` added where it had none; an empty `suffix` removes.
    /// A path without a final component comes back unchanged.
    /// `InvalidSuffix` where `suffix` is neither empty nor led by `.`.
    pub fn with_suffix(&self, suffix: &str) -> (r: Result<Path, PathError>)
        ensures
            is_valid_suffix(suffix@) ==> r is Ok && r->Ok_0@ == with_suffix_of(self@, suffix@)
                && r->Ok_0@.len() > 0,
            !is_valid_suffix(suffix@) ==> r == Err::<Path, PathError>(PathError::InvalidSuffix),
    {
        if !suffix.is_empty() && suffix.get_char(0) != '.' {
            return Err(PathError::InvalidSuffix);
        }
        let text = self.as_str();
        let v = chars_of(text);
        match name_span(&v) {
            Some((c, e)) => {
                let k = stem_end(&v, c, e);
                proof {
                    lemma_stem_is_not_empty(v@.subrange(c as int, e as int));
                }
                let mut path = text.substring_char(0, k).to_owned();
                path.append(suffix);
                Ok(Path::from_text(path))
            },
            None => Ok(Path::from_text(text.to_owned())),
        }
    }

    /// The path extended by each of `segments` in turn. A rooted segment
    /// replaces all that came before it.
    pub fn joinpath(&self, segments: &[&str]) -> (r: Path)
        ensures
            r@ == join_all(self@, segments.deep_view()),
            r@.len() > 0,
    {
        let mut path = self.to_string();
        let mut i: usize = 0;
        let ghost segs = segments.deep_view();
        while i < segments.len()
            invariant
                i <= segments.len(),
                segs == segments.deep_view(),
                path@ == join_all(self@, segs.take(i as int)),
            decreases segments.len() - i,
        {
            push_segment(&mut path, segments[i]);
            assert(segs.take(i + 1).drop_last() =~= segs.take(i as int));
            i = i + 1;
        }
        proof {
            assert(segs.take(i as int) =~= segs);
            lemma_join_keeps_text(self@, segs);
        }
        Path::from_text(path)
    }

    /// `self / key`: the path extended by the one segment `key`.
    pub fn truediv(&self, key: &str) -> (r: Path)
        ensures
            r@ == joined(self@, key@),
            r@.len() > 0,
    {
        let mut path = self.to_string();
        push_segment(&mut path, key);
        Path::from_text(path)
    }

    /// The reflected form of the division; it too extends the path by `key`.
    pub fn rtruediv(&self, key: &str) -> (r: Path)
        ensures
            r@ == joined(self@, key@),
            r@.len() > 0,
    {
        self.truediv(key)
    }

    /// Whether the two paths have the same components. The filesystem is not
    /// asked: two names of one file differ, and `a/../b` is not `b`.
    pub fn samefile(&self, other: &Path) -> (r: bool)
        ensures
            r == (parts_of(self@) == parts_of(other@)),
    {
        let a = self.parts();
        let b = other.parts();
        if a.len() != b.len() {
            return false;
        }
        let mut i: usize = 0;
        while i < a.len()
            invariant
                i <= a.len(),
                a.len() == b.len(),
                a.deep_view() == parts_of(self@),
                b.deep_view() == parts_of(other@),
                forall|k: int| 0 <= k < i ==> a.deep_view()[k] == b.deep_view()[k],
            decreases a.len() - i,
        {
            if a[i] != b[i] {
                assert(parts_of(self@)[i as int] != parts_of(other@)[i as int]) by {
                    assert(a.deep_view()[i as int] == a@[i as int]@);
                    assert(b.deep_view()[i as int] == b@[i as int]@);
                }
                return false;
            }
            i = i + 1;
        }
        assert(a.deep_view() =~= b.deep_view());
        true
    }

    /// Declared, not yet offered: always `NotImplemented`.
    pub fn relative_to(&self, other: &Path) -> (r: Result<Path, PathError>)
        ensures
            r == Err::<Path, PathError>(PathError::NotImplemented),
    {
        Err(PathError::NotImplemented)
    }

    /// Declared, not yet offered: always `NotImplemented`.
    pub fn is_relative_to(&self, other: &Path) -> (r: Result<bool, PathError>)
        ensures
            r == Err::<bool, PathError>(PathError::NotImplemented),
    {
        Err(PathError::NotImplemented)
    }

    /// Declared, not yet offered: always `NotImplemented`.
    pub fn is_reserved(&self) -> (r: Result<bool, PathError>)
        ensures
            r == Err::<bool, PathError>(PathError::NotImplemented),
    {
        Err(PathError::NotImplemented)
    }

    /// Declared, not yet offered: always `NotImplemented`.
    pub fn match_(&self, path_pattern: &str) -> (r: Result<bool, PathError>)
        ensures
            r == Err::<bool, PathError>(PathError::NotImplemented),
    {
        Err(PathError::NotImplemented)
    }

    /// Declared, not yet offered: always `NotImplemented`.
    pub fn write_text(&self, contents: &str) -> (r: Result<(), PathError>)
        ensures
            r == Err::<(), PathError>(PathError::NotImplemented),
    {
        Err(PathError::NotImplemented)
    }
}

} // verus!
