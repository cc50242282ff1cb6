//! The pages of one event: an index page that gathers every challenge, and
//! one page per challenge.
use vstd::prelude::*;
use crate::front_matter::{front_matter, make_front_matter, OutputType};
use crate::headings::{demote_headings, demoted};
use crate::links::{links_rewritten, rewrite_links};
use crate::text::strs;

verus! {

/// One challenge entry of an event descriptor.
pub struct ChallengeMeta {
    /// The display title.
    pub name: String,
    /// The challenge's tags, in order; none given counts as no tags.
    pub tags: Option<Vec<String>>,
}

/// An event descriptor (`meta.toml`).
pub struct CTFMeta {
    /// The event's display name.
    pub name: String,
    /// The event's date, copied as it is into front matter.
    pub date: String,
    /// Text put at the top of the index page.
    pub description: Option<String>,
    /// The challenges, each under its key (also the base name of its
    /// Markdown file), in the order they are processed.
    pub challenges: Vec<(String, ChallengeMeta)>,
}

/// What a run applies to every event.
pub struct RunConfig {
    /// The front-matter dialect.
    pub output_type: OutputType,
    /// Prefix for the targets of root-relative links, if any.
    pub rewrite_url_prefix: Option<String>,
    /// The authors of every page, in order.
    pub authors: Vec<String>,
}

/// A page to write: its path relative to the output folder, and its text.
pub struct Page {
    pub path: String,
    pub content: String,
}

/// The pages of one event, and the keys of the challenges whose Markdown
/// file could not be read.
pub struct EventPages {
    pub index: Page,
    pub challenges: Vec<Page>,
    pub skipped: Vec<String>,
}

/// The tag a whole event's index page carries.
pub const WRITEUPS_TAG: &'static str = "ctf-writeups";

impl ChallengeMeta {
    /// The challenge's tags, empty where none were given.
    pub open spec fn tag_list(&self) -> Seq<Seq<char>> {
        match self.tags {
            Some(v) => strs(v@),
            None => Seq::empty(),
        }
    }
}

impl CTFMeta {
    /// No two challenges share a key.
    pub open spec fn wf(&self) -> bool {
        forall|i: int, j: int|
            0 <= i < self.challenges@.len() && 0 <= j < self.challenges@.len() && i != j
                ==> #[trigger] self.challenges@[i].0@ != #[trigger] self.challenges@[j].0@
    }

    /// Whether some challenge has the key `key`.
    pub open spec fn has_key(&self, key: Seq<char>) -> bool {
        exists|i: int| 0 <= i < self.challenges@.len() && #[trigger] self.challenges@[i].0@ == key
    }

    /// A descriptor with no challenges yet.
    pub fn new(name: String, date: String, description: Option<String>) -> (r: CTFMeta)
        ensures
            r.name == name,
            r.date == date,
            r.description == description,
            r.challenges@.len() == 0,
            r.wf(),
    {
        CTFMeta { name, date, description, challenges: Vec::new() }
    }

    /// Adds `challenge` under `key` at the end, unless a challenge already
    /// has that key; says whether it was added.
    pub fn add_challenge(&mut self, key: String, challenge: ChallengeMeta) -> (r: bool)
        ensures
            r == !old(self).has_key(key@),
            r ==> final(self).challenges@ == old(self).challenges@.push((key, challenge)),
            !r ==> final(self).challenges@ == old(self).challenges@,
            final(self).name == old(self).name,
            final(self).date == old(self).date,
            final(self).description == old(self).description,
            old(self).wf() ==> final(self).wf(),
    {
        let mut i: usize = 0;
        while i < self.challenges.len()
            invariant
                0 <= i <= self.challenges@.len(),
                forall|k: int| 0 <= k < i ==> #[trigger] self.challenges@[k].0@ != key@,
            decreases self.challenges.len() - i,
        {
            if self.challenges[i].0 == key {
                return false;
            }
            i = i + 1;
        }
        self.challenges.push((key, challenge));
        true
    }
}

/// Names the result of `slug::slugify`.
pub uninterp spec fn slug_of(s: Seq<char>) -> Seq<char>;

/// Relies on `slug::slugify`: the URL slug of a challenge key, which depends
/// on the characters of the key alone.
#[verifier::external_body]
fn slugify(s: &str) -> (r: String)
    ensures
        r@ == slug_of(s@),
{
    slug::slugify(s)
}

/// The indices of the readable bodies, in increasing order.
pub open spec fn readable(bodies: Seq<Option<String>>) -> Seq<int>
    decreases bodies.len(),
{
    if bodies.len() == 0 {
        Seq::empty()
    } else if bodies.last() is Some {
        readable(bodies.drop_last()).push(bodies.len() - 1)
    } else {
        readable(bodies.drop_last())
    }
}

/// The keys of the challenges whose body could not be read, in order.
pub open spec fn skipped_keys(
    challenges: Seq<(String, ChallengeMeta)>,
    bodies: Seq<Option<String>>,
) -> Seq<Seq<char>>
    decreases bodies.len(),
{
    if bodies.len() == 0 {
        Seq::empty()
    } else if bodies.last() is Some {
        skipped_keys(challenges, bodies.drop_last())
    } else {
        skipped_keys(challenges, bodies.drop_last()).push(challenges[bodies.len() - 1].0@)
    }
}

/// A body after link rewriting with the run's prefix, if any.
pub open spec fn transformed(body: Seq<char>, prefix: Option<String>) -> Seq<char> {
    match prefix {
        Some(p) => links_rewritten(body, p@),
        None => body,
    }
}

/// The transformed body of challenge `i`.
pub open spec fn page_body(bodies: Seq<Option<String>>, config: RunConfig, i: int) -> Seq<char> {
    transformed(bodies[i]->Some_0@, config.rewrite_url_prefix)
}

/// The path of a page of an event.
pub open spec fn page_path_of(event_folder: Seq<char>, key: Seq<char>) -> Seq<char> {
    event_folder + "/"@ + key + ".md"@
}

/// The text of the page of challenge `i`: its front matter, then its body.
pub open spec fn challenge_text(
    meta: CTFMeta,
    bodies: Seq<Option<String>>,
    config: RunConfig,
    i: int,
) -> Seq<char> {
    front_matter(
        meta.challenges@[i].1.name@,
        meta.date@,
        meta.challenges@[i].1.tag_list(),
        strs(config.authors@),
        config.output_type,
    ) + page_body(bodies, config, i)
}

/// A challenge's section of the index page: a top-level heading that links
/// to the challenge's page, then its body with headings demoted.
pub open spec fn index_entry_text(
    title: Seq<char>,
    event_folder: Seq<char>,
    page_slug: Seq<char>,
    body: Seq<char>,
) -> Seq<char> {
    "# ["@ + title + "](/"@ + event_folder + "/"@ + page_slug + ")\n"@ + demoted(body)
}

/// The sections of the challenges `idx` on the index page, joined by line
/// breaks.
pub open spec fn index_entries(
    event_folder: Seq<char>,
    meta: CTFMeta,
    bodies: Seq<Option<String>>,
    config: RunConfig,
    idx: Seq<int>,
) -> Seq<char>
    decreases idx.len(),
{
    if idx.len() == 0 {
        Seq::empty()
    } else {
        let i = idx.last();
        let entry = index_entry_text(
            meta.challenges@[i].1.name@,
            event_folder,
            slug_of(meta.challenges@[i].0@),
            page_body(bodies, config, i),
        );
        if idx.len() == 1 {
            entry
        } else {
            index_entries(event_folder, meta, bodies, config, idx.drop_last()) + "\n"@ + entry
        }
    }
}

/// The description part of the index page.
pub open spec fn description_text(description: Option<String>) -> Seq<char> {
    match description {
        Some(d) => d@ + "\n<!-- more -->\n"@,
        None => Seq::empty(),
    }
}

/// The text of an event's index page.
pub open spec fn index_text(
    event_folder: Seq<char>,
    meta: CTFMeta,
    bodies: Seq<Option<String>>,
    config: RunConfig,
) -> Seq<char> {
    front_matter(
        meta.name@,
        meta.date@,
        seq![WRITEUPS_TAG@],
        strs(config.authors@),
        config.output_type,
    ) + description_text(meta.description) + index_entries(
        event_folder,
        meta,
        bodies,
        config,
        readable(bodies),
    )
}

proof fn lemma_take_step(
    challenges: Seq<(String, ChallengeMeta)>,
    bodies: Seq<Option<String>>,
    i: int,
)
    requires
        0 <= i < bodies.len(),
    ensures
        readable(bodies.take(i + 1)) == if bodies[i] is Some {
            readable(bodies.take(i)).push(i)
        } else {
            readable(bodies.take(i))
        },
        skipped_keys(challenges, bodies.take(i + 1)) == if bodies[i] is Some {
            skipped_keys(challenges, bodies.take(i))
        } else {
            skipped_keys(challenges, bodies.take(i)).push(challenges[i].0@)
        },
{
    assert(bodies.take(i + 1).drop_last() =~= bodies.take(i));
}

proof fn lemma_readable_facts(bodies: Seq<Option<String>>)
    ensures
        forall|n: int|
            0 <= n < readable(bodies).len() ==> 0 <= #[trigger] readable(bodies)[n] < bodies.len()
                && bodies[readable(bodies)[n]] is Some,
    decreases bodies.len(),
{
    if bodies.len() > 0 {
        lemma_readable_facts(bodies.drop_last());
    }
}

/// The challenges that get a page are exactly those whose body was read:
/// each readable index once, in increasing order, and no other.
pub proof fn lemma_pages_are_readable_challenges(bodies: Seq<Option<String>>)
    ensures
        forall|n: int|
            0 <= n < readable(bodies).len() ==> 0 <= #[trigger] readable(bodies)[n] < bodies.len()
                && bodies[readable(bodies)[n]] is Some,
        forall|n: int, m: int|
            0 <= n < m < readable(bodies).len() ==> #[trigger] readable(bodies)[n]
                < #[trigger] readable(bodies)[m],
        forall|i: int|
            0 <= i < bodies.len() && #[trigger] bodies[i] is Some ==> exists|n: int|
                0 <= n < readable(bodies).len() && #[trigger] readable(bodies)[n] == i,
    decreases bodies.len(),
{
    lemma_readable_facts(bodies);
    if bodies.len() > 0 {
        let prev = bodies.drop_last();
        lemma_pages_are_readable_challenges(prev);
        lemma_readable_facts(prev);
        assert forall|i: int| 0 <= i < bodies.len() && #[trigger] bodies[i] is Some implies exists|n: int|
            0 <= n < readable(bodies).len() && #[trigger] readable(bodies)[n] == i by {
            if i < bodies.len() - 1 {
                assert(prev[i] is Some);
                let n = choose|n: int| 0 <= n < readable(prev).len() && #[trigger] readable(prev)[n] == i;
                assert(readable(bodies)[n] == i);
            } else {
                assert(readable(bodies)[readable(bodies).len() - 1] == i);
            }
        }
    }
}

/// A body with the run's link rewriting applied.
fn transform_body(body: &String, prefix: &Option<String>) -> (r: String)
    ensures
        r@ == transformed(body@, *prefix),
{
    match prefix {
        Some(p) => rewrite_links(body.as_str(), Some(p.as_str())),
        None => rewrite_links(body.as_str(), None),
    }
}

/// The path of the page of challenge `key` of an event: `<event>/<key>.md`.
pub fn page_path(event_folder: &str, key: &str) -> (r: String)
    ensures
        r@ == page_path_of(event_folder@, key@),
{
    let mut out = String::from_str(event_folder);
    out.append("/");
    out.append(key);
    out.append(".md");
    out
}

/// A challenge's section of the index page, given the slug of its key:
/// `# [title](/event/slug)`, a line break, then the body with every heading
/// one level deeper.
pub fn index_entry(title: &str, event_folder: &str, page_slug: &str, body: &str) -> (r: String)
    ensures
        r@ == index_entry_text(title@, event_folder@, page_slug@, body@),
{
    let mut out = String::from_str("# [");
    out.append(title);
    out.append("](/");
    out.append(event_folder);
    out.append("/");
    out.append(page_slug);
    out.append(")\n");
    let d = demote_headings(body);
    out.append(d.as_str());
    out
}

/// Builds the pages of one event from its descriptor and the bodies read
/// for its challenges: `bodies[i]` belongs to `meta.challenges[i]`, and is
/// `None` where that challenge's Markdown file could not be read. Such a
/// challenge gets no page and no section of the index; its key is listed
/// among the skipped ones.
///
/// Every body has its links rewritten once; the result is used both on the
/// challenge's own page and, with its headings demoted, on the index page.
pub fn process_event(
    event_folder: &str,
    meta: &CTFMeta,
    bodies: &Vec<Option<String>>,
    config: &RunConfig,
) -> (r: EventPages)
    requires
        bodies@.len() == meta.challenges@.len(),
    ensures
        r.index.path@ == event_folder@ + "/index.md"@,
        r.index.content@ == index_text(event_folder@, *meta, bodies@, *config),
        r.challenges@.len() == readable(bodies@).len(),
        forall|n: int|
            0 <= n < r.challenges@.len() ==> (#[trigger] r.challenges@[n]).path@ == page_path_of(
                event_folder@,
                meta.challenges@[readable(bodies@)[n]].0@,
            ) && r.challenges@[n].content@ == challenge_text(
                *meta,
                bodies@,
                *config,
                readable(bodies@)[n],
            ),
        strs(r.skipped@) == skipped_keys(meta.challenges@, bodies@),
{
    // The readable challenges: their index, and their transformed body.
    let mut docs: Vec<(usize, String)> = Vec::new();
    let mut skipped: Vec<String> = Vec::new();
    let mut i: usize = 0;
    assert(bodies@.take(0) =~= Seq::<Option<String>>::empty());
    assert(strs(skipped@) =~= Seq::<Seq<char>>::empty());
    while i < bodies.len()
        invariant
            bodies@.len() == meta.challenges@.len(),
            0 <= i <= bodies@.len(),
            docs@.len() == readable(bodies@.take(i as int)).len(),
            forall|n: int|
                0 <= n < docs@.len() ==> (#[trigger] docs@[n]).0 as int == readable(
                    bodies@.take(i as int),
                )[n] && docs@[n].1@ == page_body(bodies@, *config, docs@[n].0 as int),
            strs(skipped@) == skipped_keys(meta.challenges@, bodies@.take(i as int)),
        decreases bodies.len() - i,
    {
        proof {
            lemma_take_step(meta.challenges@, bodies@, i as int);
        }
        match &bodies[i] {
            Some(b) => {
                let t = transform_body(b, &config.rewrite_url_prefix);
                docs.push((i, t));
            },
            None => {
                let ghost before = skipped@;
                skipped.push(meta.challenges[i].0.clone());
                assert(strs(skipped@) =~= strs(before).push(meta.challenges@[i as int].0@));
            },
        }
        i = i + 1;
    }
    assert(bodies@.take(bodies@.len() as int) =~= bodies@);
    proof {
        lemma_readable_facts(bodies@);
    }
    let ghost idx = readable(bodies@);

    let tags = vec![String::from_str(WRITEUPS_TAG)];
    let mut index = make_front_matter(
        meta.name.as_str(),
        meta.date.as_str(),
        &tags,
        &config.authors,
        config.output_type,
    );
    assert(strs(tags@) =~= seq![WRITEUPS_TAG@]);
    match &meta.description {
        Some(d) => {
            index.append(d.as_str());
            index.append("\n<!-- more -->\n");
        },
        None => {},
    }
    let ghost head = index@;
    assert(head =~= front_matter(
        meta.name@,
        meta.date@,
        seq![WRITEUPS_TAG@],
        strs(config.authors@),
        config.output_type,
    ) + description_text(meta.description));
    assert(idx.take(0) =~= Seq::<int>::empty());
    let mut n: usize = 0;
    while n < docs.len()
        invariant
            bodies@.len() == meta.challenges@.len(),
            idx == readable(bodies@),
            docs@.len() == idx.len(),
            forall|m: int|
                0 <= m < docs@.len() ==> (#[trigger] docs@[m]).0 as int == idx[m] && docs@[m].1@
                    == page_body(bodies@, *config, docs@[m].0 as int),
            forall|m: int| 0 <= m < idx.len() ==> 0 <= #[trigger] idx[m] < bodies@.len(),
            0 <= n <= docs@.len(),
            index@ == head + index_entries(
                event_folder@,
                *meta,
                bodies@,
                *config,
                idx.take(n as int),
            ),
        decreases docs.len() - n,
    {
        let ci = docs[n].0;
        assert(0 <= idx[n as int]);
        let ch = &meta.challenges[ci];
        let ghost before = index@;
        if n > 0 {
            index.append("\n");
        }
        let page_slug = slugify(ch.0.as_str());
        let entry = index_entry(ch.1.name.as_str(), event_folder, page_slug.as_str(), docs[n].1.as_str());
        index.append(entry.as_str());
        proof {
            let t = idx.take(n + 1);
            assert(t.drop_last() =~= idx.take(n as int));
            assert(t.last() == ci as int);
            if n == 0 {
                assert(index@ =~= head + index_entries(event_folder@, *meta, bodies@, *config, t));
            } else {
                assert(index@ =~= before + "\n"@ + entry@);
            }
        }
        n = n + 1;
    }
    assert(idx.take(idx.len() as int) =~= idx);

    let mut pages: Vec<Page> = Vec::new();
    let mut n: usize = 0;
    while n < docs.len()
        invariant
            bodies@.len() == meta.challenges@.len(),
            idx == readable(bodies@),
            docs@.len() == idx.len(),
            forall|m: int|
                0 <= m < docs@.len() ==> (#[trigger] docs@[m]).0 as int == idx[m] && docs@[m].1@
                    == page_body(bodies@, *config, docs@[m].0 as int),
            forall|m: int| 0 <= m < idx.len() ==> 0 <= #[trigger] idx[m] < bodies@.len(),
            0 <= n <= docs@.len(),
            pages@.len() == n,
            forall|m: int|
                0 <= m < n ==> (#[trigger] pages@[m]).path@ == page_path_of(
                    event_folder@,
                    meta.challenges@[idx[m]].0@,
                ) && pages@[m].content@ == challenge_text(*meta, bodies@, *config, idx[m]),
        decreases docs.len() - n,
    {
        let ci = docs[n].0;
        assert(0 <= idx[n as int]);
        let ch = &meta.challenges[ci];
        let path = page_path(event_folder, ch.0.as_str());
        let mut content = match &ch.1.tags {
            Some(t) => make_front_matter(
                ch.1.name.as_str(),
                meta.date.as_str(),
                t,
                &config.authors,
                config.output_type,
            ),
            None => {
                let no_tags: Vec<String> = Vec::new();
                assert(strs(no_tags@) =~= Seq::<Seq<char>>::empty());
                make_front_matter(
                    ch.1.name.as_str(),
                    meta.date.as_str(),
                    &no_tags,
                    &config.authors,
                    config.output_type,
                )
            },
        };
        content.append(docs[n].1.as_str());
        pages.push(Page { path, content });
        n = n + 1;
    }

    let mut index_path = String::from_str(event_folder);
    index_path.append("/index.md");
    EventPages { index: Page { path: index_path, content: index }, challenges: pages, skipped }
}

} // verus!
