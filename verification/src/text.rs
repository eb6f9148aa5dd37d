//! Moving between strings and the characters they hold.

use vstd::prelude::*;
use vstd::std_specs::iter::IteratorSpec;
use vstd::string::*;
use crate::syntax::joined;

verus! {

/// The characters of `s`, one element each.
pub fn chars_of(s: &str) -> (v: Vec<char>)
    ensures
        v@ == s@,
{
    let mut v: Vec<char> = Vec::new();
    for c in it: s.chars()
        invariant
            it.seq() == s@,
            v@ == it.seq().take(it.index() as int),
    {
        v.push(c);
    }
    v
}

/// Whether `s` ends in a separator.
pub fn ends_in_separator(s: &str) -> (r: bool)
    ensures
        r == (s@.len() > 0 && s@.last() == '/'),
{
    let v = chars_of(s);
    v.len() > 0 && v[v.len() - 1] == '/'
}

/// Extends `base` by one segment: a rooted segment takes its place, any
/// other follows it, after a separator where `base` does not end in one.
pub fn push_segment(base: &mut String, seg: &str)
    ensures
        final(base)@ == joined(old(base)@, seg@),
{
    if !seg.is_empty() && seg.get_char(0) == '/' {
        *base = seg.to_owned();
    } else {
        let bare = !base.as_str().is_empty() && !ends_in_separator(base.as_str());
        if bare {
            proof {
                reveal_strlit("/");
            }
            base.append("/");
        }
        base.append(seg);
    }
}

} // verus!
