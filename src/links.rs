//! Rewriting of root-relative Markdown links `[label](/target)` so that the
//! target gains a prefix: `[label](/prefix target)`.
//!
//! A link starts at a `[`; its label runs, on one line, up to the first
//! `](/`; its target runs, on the same line, up to the first `)`. The text is
//! read left to right and links do not overlap.
use vstd::prelude::*;
use crate::text::{chars_of, push_range, string_of};

verus! {

/// The first `j >= from` at which `](/` starts, if no line break comes
/// before it.
pub open spec fn label_end(t: Seq<char>, from: int) -> Option<int>
    decreases t.len() - from,
{
    if from < 0 || from >= t.len() || t[from] == '\n' {
        None
    } else if from + 3 <= t.len() && t[from] == ']' && t[from + 1] == '(' && t[from + 2] == '/' {
        Some(from)
    } else {
        label_end(t, from + 1)
    }
}

/// The first `k >= from` holding `)`, if no line break comes before it.
pub open spec fn target_end(t: Seq<char>, from: int) -> Option<int>
    decreases t.len() - from,
{
    if from < 0 || from >= t.len() || t[from] == '\n' {
        None
    } else if t[from] == ')' {
        Some(from)
    } else {
        target_end(t, from + 1)
    }
}

/// The root-relative link that starts at `i`, if any: where its `](/` and
/// its closing `)` stand.
pub open spec fn link_at(t: Seq<char>, i: int) -> Option<(int, int)> {
    if 0 <= i < t.len() && t[i] == '[' {
        match label_end(t, i + 1) {
            Some(j) => match target_end(t, j + 3) {
                Some(k) => Some((j, k)),
                None => None,
            },
            None => None,
        }
    } else {
        None
    }
}

/// `t[i..]` with the prefix `p` put at the start of every root-relative link
/// target.
pub open spec fn rewritten_from(t: Seq<char>, p: Seq<char>, i: int) -> Seq<char>
    decreases t.len() - i,
{
    if i < 0 || i >= t.len() {
        Seq::empty()
    } else {
        match link_at(t, i) {
            Some((j, k)) => if i < j && j + 3 <= k && k < t.len() {
                t.subrange(i, j + 3) + p + t.subrange(j + 3, k + 1) + rewritten_from(t, p, k + 1)
            } else {
                seq![t[i]] + rewritten_from(t, p, i + 1)
            },
            None => seq![t[i]] + rewritten_from(t, p, i + 1),
        }
    }
}

/// `t` with the prefix `p` put at the start of every root-relative link target.
pub open spec fn links_rewritten(t: Seq<char>, p: Seq<char>) -> Seq<char> {
    rewritten_from(t, p, 0)
}

proof fn lemma_label_end_bounds(t: Seq<char>, from: int)
    ensures
        label_end(t, from) matches Some(j) ==> from <= j && j + 3 <= t.len() && t[j] == ']'
            && t[j + 1] == '(' && t[j + 2] == '/',
    decreases t.len() - from,
{
    if !(from < 0 || from >= t.len() || t[from] == '\n') {
        if !(from + 3 <= t.len() && t[from] == ']' && t[from + 1] == '(' && t[from + 2] == '/') {
            lemma_label_end_bounds(t, from + 1);
        }
    }
}

proof fn lemma_target_end_bounds(t: Seq<char>, from: int)
    ensures
        target_end(t, from) matches Some(k) ==> from <= k < t.len() && t[k] == ')',
    decreases t.len() - from,
{
    if !(from < 0 || from >= t.len() || t[from] == '\n') {
        if t[from] != ')' {
            lemma_target_end_bounds(t, from + 1);
        }
    }
}

fn find_label_end(t: &Vec<char>, from: usize) -> (r: Option<usize>)
    ensures
        r matches Some(j) ==> label_end(t@, from as int) == Some(j as int),
        r is None ==> label_end(t@, from as int) is None,
{
    let mut j: usize = from;
    while j < t.len()
        invariant
            from <= j,
            label_end(t@, from as int) == label_end(t@, j as int),
        decreases t.len() - j,
    {
        if t[j] == '\n' {
            return None;
        }
        if t.len() - j >= 3 && t[j] == ']' && t[j + 1] == '(' && t[j + 2] == '/' {
            return Some(j);
        }
        j = j + 1;
    }
    None
}

fn find_target_end(t: &Vec<char>, from: usize) -> (r: Option<usize>)
    ensures
        r matches Some(k) ==> target_end(t@, from as int) == Some(k as int),
        r is None ==> target_end(t@, from as int) is None,
{
    let mut k: usize = from;
    while k < t.len()
        invariant
            from <= k,
            target_end(t@, from as int) == target_end(t@, k as int),
        decreases t.len() - k,
    {
        if t[k] == '\n' {
            return None;
        }
        if t[k] == ')' {
            return Some(k);
        }
        k = k + 1;
    }
    None
}

fn find_link(t: &Vec<char>, i: usize) -> (r: Option<(usize, usize)>)
    requires
        i < t@.len(),
    ensures
        r matches Some((j, k)) ==> link_at(t@, i as int) == Some((j as int, k as int)) && i < j
            && j + 3 <= k && k < t@.len(),
        r is None ==> link_at(t@, i as int) is None,
{
    let n = t.len();
    if t[i] != '[' {
        return None;
    }
    match find_label_end(t, i + 1) {
        Some(j) => {
            proof {
                lemma_label_end_bounds(t@, i + 1);
            }
            match find_target_end(t, j + 3) {
                Some(k) => {
                    proof {
                        lemma_target_end_bounds(t@, j + 3);
                    }
                    Some((j, k))
                },
                None => None,
            }
        },
        None => None,
    }
}

fn rewrite_chars(t: &Vec<char>, p: &Vec<char>) -> (r: Vec<char>)
    ensures
        r@ == links_rewritten(t@, p@),
{
    let mut out: Vec<char> = Vec::new();
    let mut i: usize = 0;
    while i < t.len()
        invariant
            0 <= i <= t@.len(),
            out@ + rewritten_from(t@, p@, i as int) == links_rewritten(t@, p@),
        decreases t.len() - i,
    {
        let ghost before = out@;
        match find_link(t, i) {
            Some((j, k)) => {
                push_range(&mut out, t, i, j + 3);
                push_range(&mut out, p, 0, p.len());
                push_range(&mut out, t, j + 3, k + 1);
                assert(p@.subrange(0, p@.len() as int) =~= p@);
                assert(before + rewritten_from(t@, p@, i as int) =~= out@ + rewritten_from(
                    t@,
                    p@,
                    k + 1,
                ));
                i = k + 1;
            },
            None => {
                out.push(t[i]);
                assert(before + rewritten_from(t@, p@, i as int) =~= out@ + rewritten_from(
                    t@,
                    p@,
                    i + 1,
                ));
                i = i + 1;
            },
        }
    }
    assert(out@ =~= links_rewritten(t@, p@));
    out
}

/// Puts `prefix` at the start of the target of every root-relative Markdown
/// link in `text`, keeping the labels. Without a prefix the text comes back
/// unchanged.
pub fn rewrite_links(text: &str, prefix: Option<&str>) -> (r: String)
    ensures
        prefix is None ==> r@ == text@,
        prefix matches Some(p) ==> r@ == links_rewritten(text@, p@),
{
    match prefix {
        None => String::from_str(text),
        Some(p) => {
            let t = chars_of(text);
            let pc = chars_of(p);
            let out = rewrite_chars(&t, &pc);
            string_of(&out)
        },
    }
}

/// Whether `](/` starts at `j`.
pub open spec fn rooted_marker_at(t: Seq<char>, j: int) -> bool {
    0 <= j && j + 3 <= t.len() && t[j] == ']' && t[j + 1] == '(' && t[j + 2] == '/'
}

/// A text with no `](/` in it has no root-relative link, and no prefix
/// changes it: links whose target does not start with `/` stay as they are.
pub proof fn lemma_no_rooted_link_unchanged(t: Seq<char>, p: Seq<char>)
    requires
        forall|j: int| !#[trigger] rooted_marker_at(t, j),
    ensures
        links_rewritten(t, p) == t,
{
    lemma_no_rooted_link_from(t, p, 0);
    assert(t.subrange(0, t.len() as int) =~= t);
}

proof fn lemma_no_label_end(t: Seq<char>, from: int)
    requires
        forall|j: int| !#[trigger] rooted_marker_at(t, j),
    ensures
        label_end(t, from) is None,
    decreases t.len() - from,
{
    if !(from < 0 || from >= t.len() || t[from] == '\n') {
        assert(!rooted_marker_at(t, from));
        lemma_no_label_end(t, from + 1);
    }
}

proof fn lemma_no_rooted_link_from(t: Seq<char>, p: Seq<char>, i: int)
    requires
        0 <= i <= t.len(),
        forall|j: int| !#[trigger] rooted_marker_at(t, j),
    ensures
        rewritten_from(t, p, i) == t.subrange(i, t.len() as int),
    decreases t.len() - i,
{
    if i < t.len() {
        lemma_no_label_end(t, i + 1);
        lemma_no_rooted_link_from(t, p, i + 1);
        assert(t.subrange(i, t.len() as int) =~= seq![t[i]] + t.subrange(i + 1, t.len() as int));
    } else {
        assert(t.subrange(i, t.len() as int) =~= Seq::<char>::empty());
    }
}

/// Nothing before the first `](/` changes: a link whose target does not
/// start with `/`, and any other text, comes out as it was when no `](/`
/// starts before its end.
pub proof fn lemma_unchanged_before_first_rooted_marker(t: Seq<char>, p: Seq<char>, m: int)
    requires
        0 <= m <= t.len(),
        forall|j: int| 0 <= j < m ==> !#[trigger] rooted_marker_at(t, j),
    ensures
        m <= links_rewritten(t, p).len(),
        links_rewritten(t, p).take(m) == t.take(m),
{
    lemma_unchanged_before_from(t, p, m, 0);
    assert(t.subrange(0, m) =~= t.take(m));
}

proof fn lemma_unchanged_before_from(t: Seq<char>, p: Seq<char>, m: int, i: int)
    requires
        0 <= i <= m <= t.len(),
        forall|j: int| i <= j && j + 3 < m ==> !#[trigger] rooted_marker_at(t, j),
    ensures
        m - i <= rewritten_from(t, p, i).len(),
        rewritten_from(t, p, i).take(m - i) == t.subrange(i, m),
    decreases t.len() - i,
{
    if i < m {
        match link_at(t, i) {
            Some((j, k)) => {
                lemma_label_end_bounds(t, i + 1);
                if i < j && j + 3 <= k && k < t.len() {
                    assert(rooted_marker_at(t, j));
                    let r = t.subrange(i, j + 3) + p + t.subrange(j + 3, k + 1) + rewritten_from(t, p, k + 1);
                    assert(r.take(m - i) =~= t.subrange(i, m));
                } else {
                    lemma_unchanged_before_from(t, p, m, i + 1);
                    lemma_unchanged_step(t, p, m, i);
                }
            },
            None => {
                lemma_unchanged_before_from(t, p, m, i + 1);
                lemma_unchanged_step(t, p, m, i);
            },
        }
    } else {
        assert(rewritten_from(t, p, i).take(0) =~= t.subrange(i, m));
    }
}

proof fn lemma_unchanged_step(t: Seq<char>, p: Seq<char>, m: int, i: int)
    requires
        0 <= i < m <= t.len(),
        m - i - 1 <= rewritten_from(t, p, i + 1).len(),
        rewritten_from(t, p, i + 1).take(m - i - 1) == t.subrange(i + 1, m),
    ensures
        ({
            let r = seq![t[i]] + rewritten_from(t, p, i + 1);
            m - i <= r.len() && r.take(m - i) == t.subrange(i, m)
        }),
{
    let rest = rewritten_from(t, p, i + 1);
    let r = seq![t[i]] + rest;
    assert forall|n: int| 0 <= n < m - i implies r.take(m - i)[n] == t.subrange(i, m)[n] by {
        if n > 0 {
            assert(rest.take(m - i - 1)[n - 1] == t.subrange(i + 1, m)[n - 1]);
        }
    }
    assert(r.take(m - i) =~= t.subrange(i, m));
}

/// Whether the prefix would be put inside `t[a..b]`: some `](/` ends
/// strictly between `a` and `b`.
pub open spec fn insertion_inside(t: Seq<char>, a: int, b: int) -> bool {
    exists|j: int| a < j + 3 < b && #[trigger] rooted_marker_at(t, j)
}

proof fn lemma_kept_segment_from(t: Seq<char>, p: Seq<char>, a: int, b: int, i: int)
    requires
        0 <= i <= a <= b <= t.len(),
        !insertion_inside(t, a, b),
    ensures
        exists|o: int|
            0 <= o && o + (b - a) <= rewritten_from(t, p, i).len() && #[trigger] rewritten_from(
                t,
                p,
                i,
            ).subrange(o, o + (b - a)) == t.subrange(a, b),
    decreases t.len() - i,
{
    let r = rewritten_from(t, p, i);
    assert forall|j: int| a <= j && j + 3 < b implies !#[trigger] rooted_marker_at(t, j) by {
        if rooted_marker_at(t, j) {
            assert(insertion_inside(t, a, b));
        }
    }
    if i == a {
        lemma_unchanged_before_from(t, p, b, a);
        assert(r.subrange(0, b - a) =~= r.take(b - a));
        assert(r.subrange(0, 0 + (b - a)) == t.subrange(a, b));
    } else {
        match link_at(t, i) {
            Some((j, k)) => {
                lemma_label_end_bounds(t, i + 1);
                if i < j && j + 3 <= k && k < t.len() {
                    assert(rooted_marker_at(t, j));
                    let c = t.subrange(i, j + 3) + p + t.subrange(j + 3, k + 1);
                    let rest = rewritten_from(t, p, k + 1);
                    assert(r == c + rest);
                    if k + 1 <= a {
                        lemma_kept_segment_from(t, p, a, b, k + 1);
                        let o2 = choose|o: int|
                            0 <= o && o + (b - a) <= rest.len() && #[trigger] rest.subrange(
                                o,
                                o + (b - a),
                            ) == t.subrange(a, b);
                        let o = c.len() + o2;
                        assert(r.subrange(o, o + (b - a)) =~= rest.subrange(o2, o2 + (b - a)));
                    } else if j + 3 >= b {
                        let o = a - i;
                        assert(r.subrange(o, o + (b - a)) =~= t.subrange(a, b));
                    } else {
                        assert(j + 3 <= a) by {
                            if j + 3 > a {
                                assert(insertion_inside(t, a, b));
                            }
                        }
                        let o = (j + 3 - i) + p.len() + (a - (j + 3));
                        if b <= k + 1 {
                            assert(r.subrange(o, o + (b - a)) =~= t.subrange(a, b));
                        } else {
                            lemma_unchanged_before_from(t, p, b, k + 1);
                            assert(r.subrange(o, o + (b - a)) =~= t.subrange(a, k + 1)
                                + rest.take(b - (k + 1)));
                            assert(t.subrange(a, b) =~= t.subrange(a, k + 1) + t.subrange(
                                k + 1,
                                b,
                            ));
                        }
                    }
                } else {
                    lemma_kept_segment_step(t, p, a, b, i);
                }
            },
            None => {
                lemma_kept_segment_step(t, p, a, b, i);
            },
        }
    }
}

proof fn lemma_kept_segment_step(t: Seq<char>, p: Seq<char>, a: int, b: int, i: int)
    requires
        0 <= i < a <= b <= t.len(),
        !insertion_inside(t, a, b),
        rewritten_from(t, p, i) == seq![t[i]] + rewritten_from(t, p, i + 1),
    ensures
        exists|o: int|
            0 <= o && o + (b - a) <= rewritten_from(t, p, i).len() && #[trigger] rewritten_from(
                t,
                p,
                i,
            ).subrange(o, o + (b - a)) == t.subrange(a, b),
    decreases t.len() - i, 0int,
{
    lemma_kept_segment_from(t, p, a, b, i + 1);
    let rest = rewritten_from(t, p, i + 1);
    let o2 = choose|o: int|
        0 <= o && o + (b - a) <= rest.len() && #[trigger] rest.subrange(o, o + (b - a))
            == t.subrange(a, b);
    let o = 1 + o2;
    assert(rewritten_from(t, p, i).subrange(o, o + (b - a)) =~= rest.subrange(o2, o2 + (b - a)));
}

/// The Markdown text of the link `[label](target)`.
pub open spec fn link_text(label: Seq<char>, target: Seq<char>) -> Seq<char> {
    seq!['['] + label + seq![']', '('] + target + seq![')']
}

/// Whether `](/` occurs in `t`.
pub open spec fn has_rooted_marker(t: Seq<char>) -> bool {
    exists|j: int| #[trigger] rooted_marker_at(t, j)
}

/// A link whose target does not start with `/` is never altered: where a
/// link `[label](target)` holds no `](/` (so its target does not start
/// with `/`), it comes out whole and unchanged, wherever it stands in the
/// text.
pub proof fn lemma_plain_link_unchanged(
    before: Seq<char>,
    label: Seq<char>,
    target: Seq<char>,
    after: Seq<char>,
    p: Seq<char>,
)
    requires
        !has_rooted_marker(link_text(label, target)),
    ensures
        ({
            let link = link_text(label, target);
            let out = links_rewritten(before + link + after, p);
            exists|o: int|
                0 <= o && o + link.len() <= out.len() && #[trigger] out.subrange(
                    o,
                    o + link.len(),
                ) == link
        }),
{
    let link = link_text(label, target);
    let t = before + link + after;
    let a = before.len() as int;
    let b = a + link.len();
    assert(t.subrange(a, b) =~= link);
    assert(t[a] == '[');
    assert(!insertion_inside(t, a, b)) by {
        if insertion_inside(t, a, b) {
            let j = choose|j: int| a < j + 3 < b && #[trigger] rooted_marker_at(t, j);
            if j >= a {
                assert(rooted_marker_at(link, j - a));
                assert(has_rooted_marker(link));
            }
        }
    }
    lemma_kept_segment_from(t, p, a, b, 0);
    let out = rewritten_from(t, p, 0);
    let o = choose|o: int|
        0 <= o && o + (b - a) <= out.len() && #[trigger] out.subrange(o, o + (b - a))
            == t.subrange(a, b);
    assert(out.subrange(o, o + link.len()) == link);
    assert(links_rewritten(before + link + after, p) == out);
    assert(0 <= o && o + link.len() <= links_rewritten(before + link + after, p).len());
    assert(links_rewritten(before + link + after, p).subrange(o, o + link.len()) == link);
}

/// An empty prefix leaves every text unchanged.
pub proof fn lemma_empty_prefix_unchanged(t: Seq<char>)
    ensures
        links_rewritten(t, Seq::empty()) == t,
{
    lemma_empty_prefix_from(t, 0);
    assert(t.subrange(0, t.len() as int) =~= t);
}

proof fn lemma_empty_prefix_from(t: Seq<char>, i: int)
    requires
        0 <= i <= t.len(),
    ensures
        rewritten_from(t, Seq::empty(), i) == t.subrange(i, t.len() as int),
    decreases t.len() - i,
{
    if i < t.len() {
        match link_at(t, i) {
            Some((j, k)) => {
                if i < j && j + 3 <= k && k < t.len() {
                    lemma_empty_prefix_from(t, k + 1);
                    assert(t.subrange(i, t.len() as int) =~= t.subrange(i, j + 3) + Seq::<
                        char,
                    >::empty() + t.subrange(j + 3, k + 1) + t.subrange(k + 1, t.len() as int));
                } else {
                    lemma_empty_prefix_from(t, i + 1);
                    assert(t.subrange(i, t.len() as int) =~= seq![t[i]] + t.subrange(
                        i + 1,
                        t.len() as int,
                    ));
                }
            },
            None => {
                lemma_empty_prefix_from(t, i + 1);
                assert(t.subrange(i, t.len() as int) =~= seq![t[i]] + t.subrange(
                    i + 1,
                    t.len() as int,
                ));
            },
        }
    } else {
        assert(t.subrange(i, t.len() as int) =~= Seq::<char>::empty());
    }
}

} // verus!
