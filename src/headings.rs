//! Demotion of Markdown headings: every line that starts with `#` gets one
//! more `#`, so that a page can be nested under a heading of its own.
use vstd::prelude::*;
use crate::text::{chars_of, string_of};

verus! {

/// `t` with one more `#` at the start of every line that starts with `#`;
/// `at_line_start` says whether `t` itself starts a line.
pub open spec fn demoted_from(t: Seq<char>, at_line_start: bool) -> Seq<char>
    decreases t.len(),
{
    if t.len() == 0 {
        Seq::empty()
    } else {
        let c = t[0];
        let head = if at_line_start && c == '#' {
            seq!['#', '#']
        } else {
            seq![c]
        };
        head + demoted_from(t.drop_first(), c == '\n')
    }
}

/// `t` with every Markdown heading one level deeper.
pub open spec fn demoted(t: Seq<char>) -> Seq<char> {
    demoted_from(t, true)
}

/// Whether a line holds no line break.
pub open spec fn is_line(l: Seq<char>) -> bool {
    forall|i: int| 0 <= i < l.len() ==> l[i] != '\n'
}

/// The number of `#` at the start of `l`: its heading level, 0 for a line
/// that is no heading.
pub open spec fn heading_level(l: Seq<char>) -> nat
    decreases l.len(),
{
    if l.len() > 0 && l[0] == '#' {
        1 + heading_level(l.drop_first())
    } else {
        0
    }
}

fn demote_chars(t: &Vec<char>) -> (r: Vec<char>)
    ensures
        r@ == demoted(t@),
{
    let mut out: Vec<char> = Vec::new();
    let mut at_start = true;
    let mut i: usize = 0;
    assert(t@.skip(0) =~= t@);
    assert(out@ + demoted(t@) =~= demoted(t@));
    while i < t.len()
        invariant
            0 <= i <= t@.len(),
            out@ + demoted_from(t@.skip(i as int), at_start) == demoted(t@),
        decreases t.len() - i,
    {
        let c = t[i];
        let ghost before = out@;
        assert(t@.skip(i as int).drop_first() =~= t@.skip(i + 1));
        if at_start && c == '#' {
            out.push('#');
        }
        out.push(c);
        assert(before + demoted_from(t@.skip(i as int), at_start) =~= out@ + demoted_from(
            t@.skip(i + 1),
            c == '\n',
        ));
        at_start = c == '\n';
        i = i + 1;
    }
    assert(t@.skip(i as int) =~= Seq::<char>::empty());
    assert(out@ =~= demoted(t@));
    out
}

/// Gives every Markdown heading of `text` one more level: a `#` is added
/// at the start of each line that starts with `#`.
pub fn demote_headings(text: &str) -> (r: String)
    ensures
        r@ == demoted(text@),
{
    let t = chars_of(text);
    let out = demote_chars(&t);
    string_of(&out)
}

proof fn lemma_demoted_line_from(l: Seq<char>, at_line_start: bool)
    requires
        is_line(l),
    ensures
        demoted_from(l, at_line_start) == if at_line_start && l.len() > 0 && l[0] == '#' {
            seq!['#'] + l
        } else {
            l
        },
    decreases l.len(),
{
    if l.len() > 0 {
        lemma_demoted_line_from(l.drop_first(), false);
        assert(l =~= seq![l[0]] + l.drop_first());
    }
}

proof fn lemma_demoted_split_from(a: Seq<char>, b: Seq<char>, at_line_start: bool)
    requires
        is_line(a),
    ensures
        demoted_from(a + seq!['\n'] + b, at_line_start) == demoted_from(a, at_line_start) + seq![
            '\n',
        ] + demoted(b),
    decreases a.len(),
{
    if a.len() == 0 {
        assert((a + seq!['\n'] + b).drop_first() =~= b);
        assert(a + seq!['\n'] + b =~= seq!['\n'] + b);
    } else {
        lemma_demoted_split_from(a.drop_first(), b, false);
        assert((a + seq!['\n'] + b).drop_first() =~= a.drop_first() + seq!['\n'] + b);
    }
}

/// Demotion works line by line: a text made of a first line, a line break
/// and the rest is demoted to the first line with one `#` more if it is a
/// heading (unchanged otherwise), the line break, and the rest demoted.
pub proof fn lemma_demoted_by_lines(line: Seq<char>, rest: Seq<char>)
    requires
        is_line(line),
    ensures
        demoted(line + seq!['\n'] + rest) == (if heading_level(line) > 0 {
            seq!['#'] + line
        } else {
            line
        }) + seq!['\n'] + demoted(rest),
        demoted(line) == if heading_level(line) > 0 {
            seq!['#'] + line
        } else {
            line
        },
{
    lemma_demoted_split_from(line, rest, true);
    lemma_demoted_line_from(line, true);
}

/// Demotion raises the level of every heading line by exactly one, and
/// leaves a line that is no heading as it is.
pub proof fn lemma_heading_level_raised(line: Seq<char>)
    requires
        is_line(line),
    ensures
        heading_level(line) > 0 ==> heading_level(demoted(line)) == heading_level(line) + 1,
        heading_level(line) == 0 ==> demoted(line) == line,
{
    lemma_demoted_line_from(line, true);
    if heading_level(line) > 0 {
        let d = seq!['#'] + line;
        assert(d.drop_first() =~= line);
    }
}

} // verus!
