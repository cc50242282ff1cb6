//! Front-matter headers in the two supported dialects.
use vstd::prelude::*;
use crate::text::strs;

verus! {

/// The front-matter dialect of a run.
#[derive(Debug, Clone, Copy, PartialEq, Eq, Structural)]
pub enum OutputType {
    /// `+++` block with a `[taxonomies]` table (Zola).
    Zola,
    /// `+++` block with flat `tags`, `authors` and `layout` (Hugo).
    Hugo,
}

impl OutputType {
    /// Reads a dialect name: `"zola"` or `"hugo"`, nothing else.
    pub fn from_name(s: &str) -> (r: Result<OutputType, &'static str>)
        ensures
            s@ == "zola"@ ==> r == Ok::<OutputType, &'static str>(OutputType::Zola),
            s@ == "hugo"@ ==> r == Ok::<OutputType, &'static str>(OutputType::Hugo),
            s@ != "zola"@ && s@ != "hugo"@ ==> r is Err && r->Err_0@ == "type should be \"zola\" or \"hugo\""@,
    {
        let given = String::from_str(s);
        let zola = String::from_str("zola");
        let hugo = String::from_str("hugo");
        proof {
            reveal_strlit("zola");
            reveal_strlit("hugo");
            assert("zola"@[0] != "hugo"@[0]);
        }
        if given == zola {
            Ok(OutputType::Zola)
        } else if given == hugo {
            Ok(OutputType::Hugo)
        } else {
            Err("type should be \"zola\" or \"hugo\"")
        }
    }
}

impl std::str::FromStr for OutputType {
    type Err = &'static str;

    fn from_str(s: &str) -> Result<OutputType, &'static str> {
        OutputType::from_name(s)
    }
}

/// `s` between double quotes, with nothing escaped.
pub open spec fn quoted(s: Seq<char>) -> Seq<char> {
    "\""@ + s + "\""@
}

/// The items, each quoted, in the order given, separated by commas.
pub open spec fn quoted_list(items: Seq<Seq<char>>) -> Seq<char>
    decreases items.len(),
{
    if items.len() == 0 {
        Seq::empty()
    } else if items.len() == 1 {
        quoted(items[0])
    } else {
        quoted_list(items.drop_last()) + ","@ + quoted(items.last())
    }
}

/// The front-matter block for a page, ending in two blank lines.
pub open spec fn front_matter(
    title: Seq<char>,
    date: Seq<char>,
    tags: Seq<Seq<char>>,
    authors: Seq<Seq<char>>,
    output_type: OutputType,
) -> Seq<char> {
    match output_type {
        OutputType::Zola => "+++\ntitle=\""@ + title + "\"\ndate = "@ + date
            + "\n\n[taxonomies]\ntags = ["@ + quoted_list(tags) + "]\n+++\n\n\n"@,
        OutputType::Hugo => "+++\ntitle=\""@ + title + "\"\ndate = "@ + date + "\ntags = ["@
            + quoted_list(tags) + "]\nauthors = ["@ + quoted_list(authors)
            + "]\nlayout = \"post\"\n+++\n\n\n"@,
    }
}

/// Appends the quoted, comma-separated items to `out`.
fn push_quoted_list(out: &mut String, items: &Vec<String>)
    ensures
        final(out)@ == old(out)@ + quoted_list(strs(items@)),
{
    let mut i: usize = 0;
    while i < items.len()
        invariant
            0 <= i <= items@.len(),
            out@ == old(out)@ + quoted_list(strs(items@.take(i as int))),
        decreases items.len() - i,
    {
        let ghost before = out@;
        if i > 0 {
            out.append(",");
        }
        out.append("\"");
        out.append(items[i].as_str());
        out.append("\"");
        proof {
            let s = strs(items@.take(i + 1));
            assert(s.drop_last() =~= strs(items@.take(i as int)));
            assert(s.last() == items@[i as int]@);
            if i == 0 {
                assert(out@ =~= before + quoted(s.last()));
            } else {
                assert(out@ =~= before + ","@ + quoted(s.last()));
            }
        }
        i = i + 1;
    }
    assert(items@.take(items@.len() as int) =~= items@);
}

/// Builds the front-matter block for a page titled `name`, dated `date`,
/// with the given tags and authors, in the given dialect. Zola ignores the
/// authors.
pub fn make_front_matter(
    name: &str,
    date: &str,
    tags: &Vec<String>,
    authors: &Vec<String>,
    output_type: OutputType,
) -> (r: String)
    ensures
        r@ == front_matter(name@, date@, strs(tags@), strs(authors@), output_type),
{
    let mut out = String::new();
    out.append("+++\ntitle=\"");
    out.append(name);
    out.append("\"\ndate = ");
    out.append(date);
    match output_type {
        OutputType::Zola => {
            out.append("\n\n[taxonomies]\ntags = [");
            push_quoted_list(&mut out, tags);
            out.append("]\n+++\n\n\n");
        },
        OutputType::Hugo => {
            out.append("\ntags = [");
            push_quoted_list(&mut out, tags);
            out.append("]\nauthors = [");
            push_quoted_list(&mut out, authors);
            out.append("]\nlayout = \"post\"\n+++\n\n\n");
        },
    }
    assert(out@ =~= front_matter(name@, date@, strs(tags@), strs(authors@), output_type));
    out
}

/// Tags (and authors) come out in the order given: adding one item at the
/// end of a non-empty list adds a comma and that item, quoted, at the end of
/// its rendering, and leaves what came before unchanged.
pub proof fn lemma_quoted_list_keeps_order(items: Seq<Seq<char>>, item: Seq<char>)
    requires
        items.len() > 0,
    ensures
        quoted_list(items.push(item)) == quoted_list(items) + ","@ + quoted(item),
{
    assert(items.push(item).drop_last() =~= items);
}

/// Front matter depends on its inputs alone: equal inputs give the same
/// block, and the tags it lists are the given tags in the given order.
pub proof fn lemma_front_matter_deterministic(
    title: Seq<char>,
    date: Seq<char>,
    tags: Seq<Seq<char>>,
    authors: Seq<Seq<char>>,
    output_type: OutputType,
    title2: Seq<char>,
    date2: Seq<char>,
    tags2: Seq<Seq<char>>,
    authors2: Seq<Seq<char>>,
    output_type2: OutputType,
)
    requires
        title == title2,
        date == date2,
        tags == tags2,
        authors == authors2,
        output_type == output_type2,
    ensures
        front_matter(title, date, tags, authors, output_type) == front_matter(
            title2,
            date2,
            tags2,
            authors2,
            output_type2,
        ),
{
}

} // verus!
