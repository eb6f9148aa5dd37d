//! Laws that tie the operations together, each proved from the lexical model.
//!
//! They are stated over the model's functions, the same that the contracts
//! of `Path` speak of, so each is a statement about what `Path` returns.

use vstd::prelude::*;
use crate::syntax::{
    before, body, body_parts, has_suffix, head_len, head_part, initial_text, is_component,
    is_dot, is_rooted, is_skipped, is_terminal, is_valid_suffix, join_all, joined, last_dot,
    last_start, lemma_body_parts_trimmed, lemma_join_keeps_text, lemma_last_dot,
    lemma_last_start, lemma_last_start_is, lemma_stem_is_not_empty,
    lemma_terminal_has_no_name, lemma_trim_tail, logical_parent, name_end, name_of, parent_of,
    parts_of, stem_len, stem_of, stored, suffix_of, suffixes_of, trim_tail, with_name_of,
    with_suffix_of,
};

verus! {

// Construction

/// A path made from arguments whose first is not empty holds that first
/// argument, character for character: nothing is collapsed or cleaned.
pub proof fn law_construction_identity(args: Seq<Seq<char>>)
    requires
        args.len() > 0,
        args[0].len() > 0,
    ensures
        initial_text(args) == args[0],
{
}

/// A path made from no argument, or from an empty first argument, is `.`.
pub proof fn law_empty_is_dot(args: Seq<Seq<char>>)
    requires
        args.len() == 0 || args[0].len() == 0,
    ensures
        initial_text(args) == seq!['.'],
{
}

/// No path is made empty: the text stored for any text holds a character,
/// and has at least one component.
pub proof fn law_stored_text_is_not_empty(t: Seq<char>)
    ensures
        stored(t).len() > 0,
        parts_of(stored(t)).len() > 0,
        t.len() > 0 ==> stored(t) == t,
{
    lemma_terminal_has_no_name(stored(t));
}

// Names, stems and suffixes

/// A name is a component: not empty, free of separators, and not `.`.
pub proof fn law_name_is_a_component(s: Seq<char>)
    requires
        name_of(s) is Some,
    ensures
        is_component(name_of(s)->0),
{
    let t = trim_tail(body(s));
    lemma_trim_tail(body(s));
    lemma_last_start(t);
    let n = t.skip(last_start(t));
    assert forall|i: int| 0 <= i < n.len() implies n[i] != '/' by {}
}

/// A name is its stem followed by its suffix.
pub proof fn law_name_is_stem_and_suffix(n: Seq<char>)
    ensures
        stem_of(n) + suffix_of(n) == n,
{
    lemma_last_dot(n);
}

/// The stem of a name that is not empty is not empty: a `.` in first place
/// begins no suffix.
pub proof fn law_stem_is_not_empty(n: Seq<char>)
    requires
        n.len() > 0,
    ensures
        stem_of(n).len() > 0,
{
    lemma_stem_is_not_empty(n);
}

/// The suffix is the last of the suffixes, and the suffixes of a name are
/// those of its stem and then its own.
pub proof fn law_suffix_is_last_of_suffixes(n: Seq<char>)
    requires
        has_suffix(n),
    ensures
        suffixes_of(n).len() > 0,
        suffixes_of(n).last() == suffix_of(n),
        suffixes_of(n).drop_last() == suffixes_of(stem_of(n)),
{
}

/// Removing the suffix leaves the path up to its last component, less that
/// suffix.
pub proof fn law_empty_suffix_removes(s: Seq<char>)
    requires
        name_of(s) is Some,
    ensures
        with_suffix_of(s, Seq::empty()) + suffix_of(name_of(s)->0) == s.take(name_end(s)),
{
    lemma_trim_tail(body(s));
    lemma_last_start(trim_tail(body(s)));
    lemma_last_dot(name_of(s)->0);
}

/// Where the path has no suffix, the new one is added after its last
/// component.
pub proof fn law_suffix_added_where_none(s: Seq<char>, suffix: Seq<char>)
    requires
        name_of(s) is Some,
        !has_suffix(name_of(s)->0),
    ensures
        with_suffix_of(s, suffix) == s.take(name_end(s)) + suffix,
{
}

/// After a suffix of one `.` and an extension is set, the path has that
/// suffix and its old stem. The extension holds neither `.` nor separator,
/// and is not empty.
pub proof fn law_suffix_round_trip(s: Seq<char>, suffix: Seq<char>)
    requires
        name_of(s) is Some,
        suffix.len() > 1,
        suffix[0] == '.',
        forall|i: int| 1 <= i < suffix.len() ==> suffix[i] != '.' && suffix[i] != '/',
    ensures
        is_valid_suffix(suffix),
        name_of(with_suffix_of(s, suffix)) == Some(stem_of(name_of(s)->0) + suffix),
        has_suffix(stem_of(name_of(s)->0) + suffix),
        suffix_of(stem_of(name_of(s)->0) + suffix) == suffix,
        stem_of(stem_of(name_of(s)->0) + suffix) == stem_of(name_of(s)->0),
{
    let n = name_of(s)->0;
    let lo = head_len(s);
    let t = trim_tail(body(s));
    lemma_trim_tail(body(s));
    lemma_last_start(t);
    lemma_last_dot(n);
    let c = lo + last_start(t);
    let k = name_end(s) - suffix_of(n).len();
    let r = with_suffix_of(s, suffix);
    // the new name and its dot
    lemma_dot_position(stem_of(n) + suffix, stem_len(n));
    // the new text ends in the new name
    assert forall|i: int| c <= i < r.len() implies r[i] != '/' by {
        if i < k {
            assert(r[i] == t[i - lo]);
        }
    }
    lemma_name_at_end(r, c);
}

// Parents and parts

/// The parent is a proper prefix of the path: an operation on text alone
/// can only take characters away from the end.
pub proof fn law_parent_is_a_prefix(s: Seq<char>)
    requires
        parent_of(s) is Some,
    ensures
        (parent_of(s)->0).len() < s.len(),
        parent_of(s)->0 == s.take((parent_of(s)->0).len() as int),
{
    let t = trim_tail(body(s));
    lemma_trim_tail(body(s));
    if t.len() > 0 {
        lemma_last_start(t);
        lemma_trim_tail(t.take(before(last_start(t))));
    }
}

/// A path is its own parent exactly when its one component is the root or
/// `.`, whatever its spelling.
pub proof fn law_parent_fixed_points(s: Seq<char>)
    requires
        s.len() > 0,
    ensures
        logical_parent(s) == s <==> is_terminal(s),
{
    lemma_terminal_has_no_name(s);
    if !is_terminal(s) {
        // the text before the name is shorter than `s`, and `.` is terminal
        law_parent_is_a_prefix(s);
    }
}

/// Every path has a parent, and the parent is a path: it is never empty.
pub proof fn law_parent_is_never_empty(s: Seq<char>)
    requires
        s.len() > 0,
    ensures
        logical_parent(s).len() > 0,
{
}

/// The parent of a path that is not terminal has its components but the
/// last; where that leaves none, the parent is `.`.
pub proof fn law_parent_keeps_earlier_parts(s: Seq<char>)
    requires
        s.len() > 0,
        !is_terminal(s),
    ensures
        parts_of(s).len() > 1 ==> parts_of(logical_parent(s)) == parts_of(s).drop_last(),
        parts_of(s).len() == 1 ==> logical_parent(s) == seq!['.'],
{
    lemma_terminal_has_no_name(s);
    law_parent_drops_last_part(s);
    let p = parent_of(s)->0;
    if p.len() > 0 {
        lemma_terminal_has_no_name(p);
    }
}

/// Every component of a body is a component: not empty, free of separators,
/// and not `.`.
pub proof fn law_body_parts_are_components(b: Seq<char>)
    ensures
        forall|k: int| 0 <= k < body_parts(b).len() ==> is_component(#[trigger] body_parts(b)[k]),
    decreases b.len(),
{
    if b.len() > 0 {
        lemma_last_start(b);
        let c = last_start(b);
        let earlier = body_parts(b.take(before(c)));
        law_body_parts_are_components(b.take(before(c)));
        if !is_skipped(b.skip(c)) {
            let last = b.skip(c);
            assert forall|i: int| 0 <= i < last.len() implies last[i] != '/' by {}
            assert forall|k: int| 0 <= k < body_parts(b).len() implies is_component(
                #[trigger] body_parts(b)[k],
            ) by {
                if k < earlier.len() {
                    assert(body_parts(b)[k] == earlier[k]);
                }
            }
        }
    }
}

/// The name of a path is the last of its parts.
pub proof fn law_name_is_last_part(s: Seq<char>)
    requires
        name_of(s) is Some,
    ensures
        parts_of(s).len() > 0,
        parts_of(s).last() == name_of(s)->0,
{
    lemma_trim_tail(body(s));
    lemma_body_parts_trimmed(body(s));
}

/// The parent has the components of the path but the last.
pub proof fn law_parent_drops_last_part(s: Seq<char>)
    requires
        parent_of(s) is Some,
    ensures
        parts_of(s).len() > 0,
        parts_of(parent_of(s)->0) == parts_of(s).drop_last(),
{
    let lo = head_len(s);
    let t = trim_tail(body(s));
    let p = parent_of(s)->0;
    lemma_trim_tail(body(s));
    lemma_body_parts_trimmed(body(s));
    if t.len() > 0 {
        lemma_last_start(t);
        let cut = t.take(before(last_start(t)));
        let u = trim_tail(cut);
        lemma_trim_tail(cut);
        lemma_body_parts_trimmed(cut);
        // the parent keeps the head of the path
        assert(head_len(p) == lo) by {
            if lo == 1 {
                assert(p[0] == s[0]);
                if p.len() > 1 {
                    assert(p[1] == u[0]);
                    assert(u[0] == body(s)[0]);
                }
            } else {
                assert(p =~= u);
                if u.len() > 0 {
                    lemma_last_start(u);
                    assert(p[0] == s[0]);
                    if u.len() == 1 {
                        // `u` does not end in a skipped piece, so it is no `.`
                        assert(u.skip(last_start(u)) =~= u || u.skip(last_start(u)).len() == 0);
                    } else {
                        assert(p[1] == s[1]);
                    }
                }
            }
        }
        assert(body(p) =~= u);
        assert(head_part(p) =~= head_part(s)) by {
            if lo == 1 {
                assert(p.take(1) =~= s.take(1));
            }
        }
    }
}

// Joining

/// Joining two segments at once is joining the first and then the second.
pub proof fn law_join_associative(base: Seq<char>, a: Seq<char>, b: Seq<char>)
    ensures
        join_all(base, seq![a, b]) == join_all(join_all(base, seq![a]), seq![b]),
{
    law_join_splits(base, seq![a], seq![b]);
    assert(seq![a] + seq![b] =~= seq![a, b]);
}

/// Joining a run of segments is joining any first part of it and then the
/// rest.
pub proof fn law_join_splits(base: Seq<char>, first: Seq<Seq<char>>, rest: Seq<Seq<char>>)
    ensures
        join_all(base, first + rest) == join_all(join_all(base, first), rest),
    decreases rest.len(),
{
    if rest.len() > 0 {
        law_join_splits(base, first, rest.drop_last());
        assert((first + rest).drop_last() =~= first + rest.drop_last());
    }
}

/// A rooted segment replaces whatever was joined before it.
pub proof fn law_rooted_segment_wins(base: Seq<char>, rel: Seq<char>, abs: Seq<char>)
    requires
        is_rooted(abs),
    ensures
        join_all(base, seq![rel, abs]) == abs,
        joined(base, abs) == abs,
{
}

/// Of any run of segments only what begins at the last rooted one counts.
pub proof fn law_last_rooted_segment_wins(base: Seq<char>, segs: Seq<Seq<char>>, k: int)
    requires
        0 <= k < segs.len(),
        is_rooted(segs[k]),
    ensures
        join_all(base, segs) == join_all(segs[k], segs.skip(k + 1)),
    decreases segs.len(),
{
    if k < segs.len() - 1 {
        law_last_rooted_segment_wins(base, segs.drop_last(), k);
        assert(segs.drop_last().skip(k + 1) =~= segs.skip(k + 1).drop_last());
    }
}

/// A join is rooted exactly when the base or the segment is.
pub proof fn law_join_is_rooted(base: Seq<char>, seg: Seq<char>)
    ensures
        is_rooted(joined(base, seg)) <==> is_rooted(base) || is_rooted(seg),
{
}

/// Joining a component to a path adds it to the parts and changes none.
pub proof fn law_join_adds_a_part(a: Seq<char>, c: Seq<char>)
    requires
        is_component(c),
    ensures
        parts_of(joined(a, c)) == parts_of(a).push(c),
{
    let r = joined(a, c);
    if a.len() == 0 {
        assert(body(c) =~= c);
        lemma_last_start_is(c, 0);
        assert(body_parts(c.take(0)) =~= Seq::<Seq<char>>::empty());
    } else {
        assert(head_part(r) =~= head_part(a)) by {
            assert(r.take(1) =~= a.take(1));
        }
        let ba = body(a);
        let br = body(r);
        let k = br.len() - c.len();
        assert(br.skip(k) =~= c);
        lemma_last_start_is(br, k);
        // what precedes the component in the new body: the old body, less
        // the separator it may end in
        if a.last() == '/' && ba.len() > 0 {
            assert(br.take(before(k)) =~= ba.drop_last());
        } else {
            assert(br.take(before(k)) =~= ba);
        }
    }
}

/// The name of a path extended by a component is that component, and its
/// parent has the parts of the path.
pub proof fn law_child_of_a_path(a: Seq<char>, c: Seq<char>)
    requires
        a.len() > 0,
        is_component(c),
    ensures
        name_of(joined(a, c)) == Some(c),
        parts_of(logical_parent(joined(a, c))) == parts_of(a),
{
    let r = joined(a, c);
    law_join_adds_a_part(a, c);
    lemma_terminal_has_no_name(a);
    lemma_terminal_has_no_name(r);
    law_name_is_last_part(r);
    law_parent_drops_last_part(r);
}

/// Replacing the name by a component changes the last part and no other.
pub proof fn law_with_name_changes_last_part(s: Seq<char>, name: Seq<char>)
    requires
        name_of(s) is Some,
        is_component(name),
    ensures
        with_name_of(s, name) is Some,
        parts_of(with_name_of(s, name)->0) == parts_of(s).drop_last().push(name),
        name_of(with_name_of(s, name)->0) == Some(name),
{
    let p = parent_of(s)->0;
    let r = joined(p, name);
    law_parent_drops_last_part(s);
    law_join_adds_a_part(p, name);
    // `r` ends in `name`, so it is not its head alone
    lemma_body_parts_trimmed(body(r));
    law_name_is_last_part(r);
}

/// Joining to a path gives a path: the text is not empty.
pub proof fn law_join_is_never_empty(base: Seq<char>, segs: Seq<Seq<char>>)
    requires
        base.len() > 0,
    ensures
        join_all(base, segs).len() > 0,
{
    lemma_join_keeps_text(base, segs);
}

/// The parts of a path, joined one after the other from nothing, make a
/// path with the same parts: an equal path, in its plainest spelling.
pub proof fn law_parts_round_trip(s: Seq<char>)
    ensures
        parts_of(join_all(Seq::empty(), parts_of(s))) == parts_of(s),
{
    lemma_parts_prefix_round_trip(s, parts_of(s).len() as int);
    assert(parts_of(s).take(parts_of(s).len() as int) =~= parts_of(s));
}

// Lemmas the laws rest on

/// A text that ends in a component has that component for its name: the
/// piece starts after the head or after a separator, holds no separator,
/// and is not `.`.
pub proof fn lemma_name_at_end(s: Seq<char>, c: int)
    requires
        head_len(s) <= c < s.len(),
        c == head_len(s) || s[c - 1] == '/',
        forall|i: int| c <= i < s.len() ==> s[i] != '/',
        !is_dot(s.skip(c)),
    ensures
        name_of(s) == Some(s.skip(c)),
        name_end(s) == s.len(),
{
    lemma_last_start_is(body(s), c - head_len(s));
}

/// Where `d` is the one `.` from `d` on, it is the last `.`.
pub proof fn lemma_dot_position(n: Seq<char>, d: int)
    requires
        0 <= d < n.len(),
        n[d] == '.',
        forall|i: int| d < i < n.len() ==> n[i] != '.',
    ensures
        last_dot(n) == d,
    decreases n.len(),
{
    if n.len() - 1 > d {
        lemma_dot_position(n.drop_last(), d);
    }
}

/// The round trip of `law_parts_round_trip` for the first `k` parts.
proof fn lemma_parts_prefix_round_trip(s: Seq<char>, k: int)
    requires
        0 <= k <= parts_of(s).len(),
    ensures
        parts_of(join_all(Seq::empty(), parts_of(s).take(k))) == parts_of(s).take(k),
    decreases k,
{
    let all = parts_of(s);
    if k > 0 {
        lemma_parts_prefix_round_trip(s, k - 1);
        let earlier = join_all(Seq::empty(), all.take(k - 1));
        let part = all[k - 1];
        assert(all.take(k).drop_last() =~= all.take(k - 1));
        if k == 1 && head_len(s) == 1 {
            // the head, `/` or `.`, joined to nothing is itself
            assert(part.take(1) =~= part);
        } else {
            law_body_parts_are_components(body(s));
            law_join_adds_a_part(earlier, part);
        }
    }
}

} // verus!
