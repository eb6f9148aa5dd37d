//! The lexical model of a path: what its characters mean.
//!
//! A path is a sequence of characters. Its *head* is the root `/`, or a
//! leading `.` that stands alone or before a separator; the rest is its
//! *body*. The body is cut at every `/`; empty pieces and `.` pieces carry no
//! meaning and are passed over. No `..` is ever resolved here: it is a
//! component like any other, except that it has no suffix.
//!
//! A path that is stored is never empty: where an operation would leave no
//! text, it leaves `.`.

use vstd::prelude::*;

verus! {

/// The text that is stored for `t`: `t` itself, or `.` where `t` is empty.
pub open spec fn stored(t: Seq<char>) -> Seq<char> {
    if t.len() == 0 {
        seq!['.']
    } else {
        t
    }
}

/// The text a new path holds for the arguments it is made from: the first
/// argument, or `.` where there is none or it is empty.
pub open spec fn initial_text(args: Seq<Seq<char>>) -> Seq<char> {
    if args.len() == 0 {
        seq!['.']
    } else {
        stored(args[0])
    }
}

/// How a path shows itself for debugging: `Path('` , its text, `')`.
pub open spec fn repr_of(s: Seq<char>) -> Seq<char> {
    seq!['P', 'a', 't', 'h', '(', '\''] + s + seq!['\'', ')']
}

/// The text begins at the filesystem root.
pub open spec fn is_rooted(s: Seq<char>) -> bool {
    s.len() > 0 && s[0] == '/'
}

/// The text begins with a `.` that is a component of its own.
pub open spec fn leads_with_dot(s: Seq<char>) -> bool {
    s.len() > 0 && s[0] == '.' && (s.len() == 1 || s[1] == '/')
}

/// Length of the head: one character for a root or a leading `.`.
pub open spec fn head_len(s: Seq<char>) -> int {
    if is_rooted(s) || leads_with_dot(s) {
        1
    } else {
        0
    }
}

/// What follows the head.
pub open spec fn body(s: Seq<char>) -> Seq<char> {
    s.skip(head_len(s))
}

/// The component `.`.
pub open spec fn is_dot(c: Seq<char>) -> bool {
    c.len() == 1 && c[0] == '.'
}

/// The component `..`.
pub open spec fn is_dotdot(c: Seq<char>) -> bool {
    c.len() == 2 && c[0] == '.' && c[1] == '.'
}

/// A piece between separators that is no component: empty, or `.`.
pub open spec fn is_skipped(c: Seq<char>) -> bool {
    c.len() == 0 || is_dot(c)
}

/// A text that can stand as a component of a body: not empty, free of
/// separators, and not `.`. The component `..` is one.
pub open spec fn is_component(c: Seq<char>) -> bool {
    &&& c.len() > 0
    &&& !is_dot(c)
    &&& forall|i: int| 0 <= i < c.len() ==> c[i] != '/'
}

/// Index at which the text after the last separator of `b` begins
/// (0 where `b` holds no separator).
pub open spec fn last_start(b: Seq<char>) -> int
    decreases b.len(),
{
    if b.len() == 0 || b.last() == '/' {
        b.len() as int
    } else {
        last_start(b.drop_last())
    }
}

/// Where the text that precedes a piece starting at `c` ends: the separator
/// before the piece is not part of either.
pub open spec fn before(c: int) -> int {
    if c > 0 {
        c - 1
    } else {
        0
    }
}

/// `b` without the skipped pieces at its end.
pub open spec fn trim_tail(b: Seq<char>) -> Seq<char>
    decreases b.len(),
    via trim_tail_decreases
{
    if b.len() == 0 {
        b
    } else {
        let c = last_start(b);
        if is_skipped(b.skip(c)) {
            trim_tail(b.take(before(c)))
        } else {
            b
        }
    }
}

#[via_fn]
proof fn trim_tail_decreases(b: Seq<char>) {
    lemma_last_start(b);
}

/// The components of a body, first to last.
pub open spec fn body_parts(b: Seq<char>) -> Seq<Seq<char>>
    decreases b.len(),
    via body_parts_decreases
{
    if b.len() == 0 {
        Seq::empty()
    } else {
        let c = last_start(b);
        let earlier = body_parts(b.take(before(c)));
        if is_skipped(b.skip(c)) {
            earlier
        } else {
            earlier.push(b.skip(c))
        }
    }
}

#[via_fn]
proof fn body_parts_decreases(b: Seq<char>) {
    lemma_last_start(b);
}

/// The head as a component: `/`, `.`, or none.
pub open spec fn head_part(s: Seq<char>) -> Seq<Seq<char>> {
    if head_len(s) == 1 {
        seq![s.take(1)]
    } else {
        Seq::empty()
    }
}

/// Every component of the path, the head first.
pub open spec fn parts_of(s: Seq<char>) -> Seq<Seq<char>> {
    head_part(s) + body_parts(body(s))
}

/// The pieces of `s` that the spans `(start, end)` mark, in their order.
pub open spec fn cut(s: Seq<char>, spans: Seq<(usize, usize)>) -> Seq<Seq<char>> {
    Seq::new(spans.len(), |k: int| s.subrange(spans[k].0 as int, spans[k].1 as int))
}

/// Every span lies in a text of length `n`, its start not after its end.
pub open spec fn spans_within(spans: Seq<(usize, usize)>, n: int) -> bool {
    forall|k: int|
        0 <= k < spans.len() ==> (#[trigger] spans[k]).0 <= spans[k].1 && spans[k].1 <= n
}

/// Index in `s` just past its last component.
pub open spec fn name_end(s: Seq<char>) -> int {
    head_len(s) + trim_tail(body(s)).len()
}

/// The name: the last component of the body, `..` included. A path that is
/// its head alone has none.
pub open spec fn name_of(s: Seq<char>) -> Option<Seq<char>> {
    let t = trim_tail(body(s));
    if t.len() > 0 {
        Some(t.skip(last_start(t)))
    } else {
        None
    }
}

/// The text before the last component, as it stands in the path and so
/// empty where the path is one component. A root has no component to
/// remove; a lone leading `.` leaves nothing.
pub open spec fn parent_of(s: Seq<char>) -> Option<Seq<char>> {
    let t = trim_tail(body(s));
    if t.len() > 0 {
        Some(s.take(head_len(s)) + trim_tail(t.take(before(last_start(t)))))
    } else if leads_with_dot(s) {
        Some(Seq::empty())
    } else {
        None
    }
}

/// The paths that are their own parent: those whose one component is the
/// root `/` or the directory `.`, however they are spelled (`//`, `./`).
pub open spec fn is_terminal(s: Seq<char>) -> bool {
    parts_of(s) == seq![seq!['/']] || parts_of(s) == seq![seq!['.']]
}

/// The parent as a caller sees it. A terminal path is its own parent; of any
/// other the last component is removed, and `.` is what is left of a path
/// of one component.
pub open spec fn logical_parent(s: Seq<char>) -> Seq<char> {
    if is_terminal(s) {
        s
    } else {
        match parent_of(s) {
            Some(p) => stored(p),
            None => stored(s),
        }
    }
}

/// `base` extended by one segment. A rooted segment replaces the base; a
/// separator is put in only where the base does not end in one.
pub open spec fn joined(base: Seq<char>, seg: Seq<char>) -> Seq<char> {
    if is_rooted(seg) {
        seg
    } else if base.len() > 0 && base.last() != '/' {
        base.push('/') + seg
    } else {
        base + seg
    }
}

/// `base` extended by each segment in turn.
pub open spec fn join_all(base: Seq<char>, segs: Seq<Seq<char>>) -> Seq<char>
    decreases segs.len(),
{
    if segs.len() == 0 {
        base
    } else {
        joined(join_all(base, segs.drop_last()), segs.last())
    }
}

/// Index of the last `.` in a name, or -1.
pub open spec fn last_dot(n: Seq<char>) -> int
    decreases n.len(),
{
    if n.len() == 0 {
        -1
    } else if n.last() == '.' {
        n.len() - 1
    } else {
        last_dot(n.drop_last())
    }
}

/// A name has a suffix when its last `.` is not its first character. The
/// name `..` has none.
pub open spec fn has_suffix(n: Seq<char>) -> bool {
    last_dot(n) > 0 && !is_dotdot(n)
}

/// Length of the stem of a name.
pub open spec fn stem_len(n: Seq<char>) -> int {
    if has_suffix(n) {
        last_dot(n)
    } else {
        n.len() as int
    }
}

/// The name without its suffix.
pub open spec fn stem_of(n: Seq<char>) -> Seq<char> {
    n.take(stem_len(n))
}

/// The suffix of a name with its leading `.`, or the empty text.
pub open spec fn suffix_of(n: Seq<char>) -> Seq<char> {
    n.skip(stem_len(n))
}

/// Every suffix of a name, outermost last: the suffix, then that of the stem,
/// and so on.
pub open spec fn suffixes_of(n: Seq<char>) -> Seq<Seq<char>>
    decreases n.len(),
    via suffixes_of_decreases
{
    if has_suffix(n) {
        suffixes_of(stem_of(n)).push(suffix_of(n))
    } else {
        Seq::empty()
    }
}

#[via_fn]
proof fn suffixes_of_decreases(n: Seq<char>) {
    lemma_last_dot(n);
}

/// A suffix that may replace another: empty, or led by `.`.
pub open spec fn is_valid_suffix(suffix: Seq<char>) -> bool {
    suffix.len() == 0 || suffix[0] == '.'
}

/// The path with its last component replaced by `name`: `name` joined to
/// what stands before that component.
pub open spec fn with_name_of(s: Seq<char>, name: Seq<char>) -> Option<Seq<char>> {
    match (name_of(s), parent_of(s)) {
        (Some(_), Some(p)) => Some(stored(joined(p, name))),
        _ => None,
    }
}

/// The path with the stem of its last component replaced and the suffix kept.
pub open spec fn with_stem_of(s: Seq<char>, stem: Seq<char>) -> Option<Seq<char>> {
    match name_of(s) {
        Some(n) => with_name_of(s, stem + suffix_of(n)),
        None => None,
    }
}

/// The path cut after the stem of its last component, then `suffix`. A path
/// without a name stays as it is.
pub open spec fn with_suffix_of(s: Seq<char>, suffix: Seq<char>) -> Seq<char> {
    match name_of(s) {
        Some(n) => s.take(name_end(s) - suffix_of(n).len()) + suffix,
        None => s,
    }
}

/// Bounds and meaning of `last_start`: it lies in the text, nothing from it
/// on is a separator, and a separator stands just before it unless it is 0.
pub proof fn lemma_last_start(b: Seq<char>)
    ensures
        0 <= last_start(b) <= b.len(),
        forall|i: int| last_start(b) <= i < b.len() ==> b[i] != '/',
        last_start(b) > 0 ==> b[last_start(b) - 1] == '/',
    decreases b.len(),
{
    if b.len() > 0 && b.last() != '/' {
        lemma_last_start(b.drop_last());
        assert forall|i: int| last_start(b) <= i < b.len() implies b[i] != '/' by {
            if i < b.len() - 1 {
                assert(b.drop_last()[i] == b[i]);
            }
        }
    }
}

/// The converse: an index that meets those three conditions is `last_start`.
pub proof fn lemma_last_start_is(b: Seq<char>, c: int)
    requires
        0 <= c <= b.len(),
        forall|i: int| c <= i < b.len() ==> b[i] != '/',
        c > 0 ==> b[c - 1] == '/',
    ensures
        last_start(b) == c,
    decreases b.len(),
{
    if b.len() > c {
        lemma_last_start_is(b.drop_last(), c);
    }
}

/// Bounds and meaning of `last_dot`.
pub proof fn lemma_last_dot(n: Seq<char>)
    ensures
        -1 <= last_dot(n) < n.len(),
        forall|i: int| last_dot(n) < i < n.len() ==> n[i] != '.',
        last_dot(n) >= 0 ==> n[last_dot(n)] == '.',
    decreases n.len(),
{
    if n.len() > 0 && n.last() != '.' {
        lemma_last_dot(n.drop_last());
        assert forall|i: int| last_dot(n) < i < n.len() implies n[i] != '.' by {
            if i < n.len() - 1 {
                assert(n.drop_last()[i] == n[i]);
            }
        }
    }
}

/// Trimming keeps a prefix, and what it keeps ends in a component.
pub proof fn lemma_trim_tail(b: Seq<char>)
    ensures
        trim_tail(b).len() <= b.len(),
        trim_tail(b) == b.take(trim_tail(b).len() as int),
        trim_tail(trim_tail(b)) == trim_tail(b),
        trim_tail(b).len() > 0 ==> !is_skipped(trim_tail(b).skip(last_start(trim_tail(b)))),
    decreases b.len(),
{
    if b.len() > 0 {
        lemma_last_start(b);
        let c = last_start(b);
        if is_skipped(b.skip(c)) {
            lemma_trim_tail(b.take(before(c)));
        }
    }
}

/// Skipped pieces at the end of a body change none of its components.
pub proof fn lemma_body_parts_trimmed(b: Seq<char>)
    ensures
        body_parts(trim_tail(b)) == body_parts(b),
    decreases b.len(),
{
    if b.len() > 0 {
        lemma_last_start(b);
        let c = last_start(b);
        if is_skipped(b.skip(c)) {
            lemma_body_parts_trimmed(b.take(before(c)));
        }
    }
}

/// A text without head that is not empty begins with a component, which
/// trimming keeps.
pub proof fn lemma_headless_text_has_a_name(b: Seq<char>)
    requires
        b.len() > 0,
        head_len(b) == 0,
    ensures
        trim_tail(b).len() > 0,
    decreases b.len(),
{
    lemma_last_start(b);
    let c = last_start(b);
    if is_skipped(b.skip(c)) {
        // the skipped piece is not all of `b`, which is neither empty nor
        // `.`; what precedes its separator is again without head
        lemma_headless_text_has_a_name(b.take(c - 1));
    }
}

/// Of a text that is not empty: it is terminal exactly when it has no name,
/// and where it has a name, there is a text before that name.
pub proof fn lemma_terminal_has_no_name(s: Seq<char>)
    requires
        s.len() > 0,
    ensures
        is_terminal(s) <==> name_of(s) is None,
        name_of(s) is Some ==> parent_of(s) is Some,
        parts_of(s).len() > 0,
{
    let t = trim_tail(body(s));
    lemma_trim_tail(body(s));
    lemma_body_parts_trimmed(body(s));
    if t.len() == 0 {
        if head_len(s) == 0 {
            assert(body(s) =~= s);
            lemma_headless_text_has_a_name(s);
        }
        if is_rooted(s) {
            assert(s.take(1) =~= seq!['/']);
        } else {
            assert(s.take(1) =~= seq!['.']);
        }
    } else {
        // the name is the last part, and a name is neither `/` nor `.`
        lemma_last_start(t);
        assert(parts_of(s).last() == t.skip(last_start(t)));
    }
}

/// A stem is never empty: a `.` in first place begins no suffix.
pub proof fn lemma_stem_is_not_empty(n: Seq<char>)
    requires
        n.len() > 0,
    ensures
        0 < stem_len(n) <= n.len(),
{
    lemma_last_dot(n);
}

/// Joining to a text that is not empty never gives the empty text.
pub proof fn lemma_join_keeps_text(base: Seq<char>, segs: Seq<Seq<char>>)
    requires
        base.len() > 0,
    ensures
        join_all(base, segs).len() > 0,
    decreases segs.len(),
{
    if segs.len() > 0 {
        lemma_join_keeps_text(base, segs.drop_last());
    }
}

} // verus!
