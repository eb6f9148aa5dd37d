//! Scanning a path's characters: the executable counterparts of the lexical
//! model, each tied to it by its contract.

use vstd::prelude::*;
use crate::syntax::{
    before, body, body_parts, cut, has_suffix, head_len, head_part, last_dot, last_start,
    lemma_last_start_is, lemma_trim_tail, name_end, name_of, parent_of, parts_of, spans_within,
    stem_len, trim_tail,
};

verus! {

/// Length of the head of `v`.
pub fn head_of(v: &Vec<char>) -> (n: usize)
    ensures
        n == head_len(v@),
        n <= v.len(),
{
    if v.len() == 0 {
        0
    } else if v[0] == '/' {
        1
    } else if v[0] == '.' && (v.len() == 1 || v[1] == '/') {
        1
    } else {
        0
    }
}

/// Start of the piece that ends at `hi`, looking no further back than `lo`.
pub fn piece_start(v: &Vec<char>, lo: usize, hi: usize) -> (c: usize)
    requires
        lo <= hi <= v.len(),
    ensures
        lo <= c <= hi,
        c - lo == last_start(v@.subrange(lo as int, hi as int)),
{
    let mut c: usize = hi;
    while c > lo && v[c - 1] != '/'
        invariant
            lo <= c <= hi <= v.len(),
            last_start(v@.subrange(lo as int, hi as int)) == last_start(
                v@.subrange(lo as int, c as int),
            ),
        decreases c - lo,
    {
        assert(v@.subrange(lo as int, c as int).drop_last() =~= v@.subrange(
            lo as int,
            c - 1,
        ));
        c = c - 1;
    }
    c
}

/// End of the last component of `v[lo..hi]`, or `lo` where it has none.
pub fn trimmed_end(v: &Vec<char>, lo: usize, hi: usize) -> (e: usize)
    requires
        lo <= hi <= v.len(),
    ensures
        lo <= e <= hi,
        trim_tail(v@.subrange(lo as int, hi as int)) == v@.subrange(lo as int, e as int),
{
    let mut e: usize = hi;
    loop
        invariant
            lo <= e <= hi <= v.len(),
            trim_tail(v@.subrange(lo as int, hi as int)) == trim_tail(
                v@.subrange(lo as int, e as int),
            ),
        ensures
            lo <= e <= hi,
            trim_tail(v@.subrange(lo as int, e as int)) == v@.subrange(lo as int, e as int),
        decreases e - lo,
    {
        if e == lo {
            break ;
        }
        let c = piece_start(v, lo, e);
        let ghost b = v@.subrange(lo as int, e as int);
        let skipped = c == e || (e - c == 1 && v[c] == '.');
        if !skipped {
            break ;
        }
        let shorter: usize = if c > lo {
            c - 1
        } else {
            lo
        };
        assert(b.take(before(c - lo)) =~= v@.subrange(lo as int, shorter as int));
        e = shorter;
    }
    e
}

/// Index of the last `.` in `v[lo..hi]`, counted from `lo`, if there is one.
pub fn dot_index(v: &Vec<char>, lo: usize, hi: usize) -> (r: Option<usize>)
    requires
        lo <= hi <= v.len(),
    ensures
        match r {
            Some(d) => d < hi - lo && d == last_dot(v@.subrange(lo as int, hi as int)),
            None => last_dot(v@.subrange(lo as int, hi as int)) == -1,
        },
{
    let mut i: usize = hi;
    while i > lo
        invariant
            lo <= i <= hi <= v.len(),
            last_dot(v@.subrange(lo as int, hi as int)) == last_dot(
                v@.subrange(lo as int, i as int),
            ),
        decreases i - lo,
    {
        if v[i - 1] == '.' {
            return Some(i - 1 - lo);
        }
        assert(v@.subrange(lo as int, i as int).drop_last() =~= v@.subrange(
            lo as int,
            i - 1,
        ));
        i = i - 1;
    }
    None
}

/// Where the name lies: `(start, end)`, or `None` where the path is its
/// head alone.
pub fn name_span(v: &Vec<char>) -> (r: Option<(usize, usize)>)
    ensures
        match r {
            Some((c, e)) => {
                &&& head_len(v@) <= c < e <= v.len()
                &&& e == name_end(v@)
                &&& name_of(v@) == Some(v@.subrange(c as int, e as int))
                &&& c - head_len(v@) == last_start(trim_tail(body(v@)))
            },
            None => name_of(v@) is None && name_end(v@) == head_len(v@),
        },
{
    let lo = head_of(v);
    let e = trimmed_end(v, lo, v.len());
    if e == lo {
        None
    } else {
        let c = piece_start(v, lo, e);
        proof {
            lemma_trim_tail(body(v@));
        }
        Some((c, e))
    }
}

/// Where the stem of the name `v[c..e]` ends and its suffix begins; `e`
/// where the name has no suffix.
pub fn stem_end(v: &Vec<char>, c: usize, e: usize) -> (k: usize)
    requires
        c <= e <= v.len(),
    ensures
        c <= k <= e,
        k - c == stem_len(v@.subrange(c as int, e as int)),
        k < e <==> has_suffix(v@.subrange(c as int, e as int)),
{
    let dotdot = e - c == 2 && v[c] == '.' && v[c + 1] == '.';
    match dot_index(v, c, e) {
        Some(d) if d > 0 && !dotdot => c + d,
        _ => e,
    }
}

/// Length of the prefix of `v` that is its parent, or `None` where it has
/// none.
pub fn parent_len(v: &Vec<char>) -> (r: Option<usize>)
    ensures
        match r {
            Some(k) => k <= v.len() && parent_of(v@) == Some(v@.take(k as int)),
            None => parent_of(v@) is None,
        },
{
    let lo = head_of(v);
    match name_span(v) {
        Some((c, e)) => {
            let p: usize = if c > lo {
                c - 1
            } else {
                lo
            };
            let k = trimmed_end(v, lo, p);
            proof {
                let t = trim_tail(body(v@));
                lemma_trim_tail(body(v@));
                assert(t.take(before(last_start(t))) =~= v@.subrange(lo as int, p as int));
            }
            Some(k)
        },
        None => {
            if lo == 1 && v[0] == '.' {
                Some(0)
            } else {
                None
            }
        },
    }
}

/// Where each component of the path lies, the head first.
pub fn part_spans(v: &Vec<char>) -> (spans: Vec<(usize, usize)>)
    ensures
        cut(v@, spans@) == parts_of(v@),
        spans_within(spans@, v.len() as int),
{
    let lo = head_of(v);
    let n = v.len();
    let mut spans: Vec<(usize, usize)> = Vec::new();
    if lo == 1 {
        spans.push((0, 1));
    }
    let mut i: usize = lo;
    loop
        invariant_except_break
            cut(v@, spans@) == head_part(v@) + body_parts(
                v@.subrange(lo as int, lo + before(i - lo)),
            ),
        invariant
            lo == head_len(v@),
            n == v.len(),
            lo <= i <= n,
            i == lo || v@[i - 1] == '/',
            spans_within(spans@, n as int),
        ensures
            spans_within(spans@, n as int),
            cut(v@, spans@) == head_part(v@) + body_parts(v@.subrange(lo as int, n as int)),
        decreases n - i,
    {
        let mut j: usize = i;
        while j < n && v[j] != '/'
            invariant
                i <= j <= n,
                n == v.len(),
                forall|k: int| i <= k < j ==> v@[k] != '/',
            decreases n - j,
        {
            j = j + 1;
        }
        let ghost b = v@.subrange(lo as int, j as int);
        let ghost earlier = v@.subrange(lo as int, lo + before(i - lo));
        let ghost old_cut = cut(v@, spans@);
        proof {
            lemma_last_start_is(b, i - lo);
            assert(b.skip(i - lo) =~= v@.subrange(i as int, j as int));
            assert(b.take(before(i - lo)) =~= earlier);
        }
        let skipped = j == i || (j - i == 1 && v[i] == '.');
        if !skipped {
            spans.push((i, j));
            assert(cut(v@, spans@) =~= old_cut.push(v@.subrange(i as int, j as int)));
        }
        if j == n {
            break ;
        }
        i = j + 1;
    }
    spans
}

} // verus!
