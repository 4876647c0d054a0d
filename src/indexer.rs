use vstd::prelude::*;

use crate::index::{
    add_pages, entries_wf, lemma_pages_follow_occurrences, occurrences, pages_of, IndexTable,
};
use crate::render::{generate_index, index_text};
use crate::linker::{link_markers, linked};
use crate::tokenizer::{extract_prefix_items, marker_names};

verus! {

/// A document of the book: its path, which identifies it, and its text.
pub struct Document {
    pub path: String,
    pub content: String,
}

impl View for Document {
    type V = (Seq<char>, Seq<char>);

    open spec fn view(&self) -> (Seq<char>, Seq<char>) {
        (self.path@, self.content@)
    }
}

/// The documents as (path, text) pairs.
pub open spec fn doc_views(docs: Seq<Document>) -> Seq<(Seq<char>, Seq<char>)> {
    docs.map_values(|d: Document| d@)
}

/// Path of the tags index document, also the target of tag links.
pub open spec fn tags_path() -> Seq<char> {
    "tags.md"@
}

/// Path of the mentions index document, also the target of mention links.
pub open spec fn mentions_path() -> Seq<char> {
    "mentions.md"@
}

/// Tags of a document's text.
pub open spec fn tag_names(text: Seq<char>) -> Seq<Seq<char>> {
    marker_names(text, '#')
}

/// Mentions of a document's text.
pub open spec fn mention_names(text: Seq<char>) -> Seq<Seq<char>> {
    marker_names(text, '@')
}

/// The text once its tags and its mentions are links.
pub open spec fn processed_text(text: Seq<char>) -> Seq<char> {
    linked(text)
}

/// The tags table of a sequence of documents, built in document order.
pub open spec fn tag_table(docs: Seq<(Seq<char>, Seq<char>)>) -> Seq<(Seq<char>, Seq<Seq<char>>)>
    decreases docs.len(),
{
    if docs.len() == 0 {
        seq![]
    } else {
        add_pages(tag_table(docs.drop_last()), tag_names(docs.last().1), docs.last().0)
    }
}

/// The mentions table of a sequence of documents, built in document order.
pub open spec fn mention_table(docs: Seq<(Seq<char>, Seq<char>)>) -> Seq<
    (Seq<char>, Seq<Seq<char>>),
>
    decreases docs.len(),
{
    if docs.len() == 0 {
        seq![]
    } else {
        add_pages(mention_table(docs.drop_last()), mention_names(docs.last().1), docs.last().0)
    }
}

/// Each document with its text processed, paths unchanged.
pub open spec fn processed_docs(docs: Seq<(Seq<char>, Seq<char>)>) -> Seq<(Seq<char>, Seq<char>)> {
    docs.map_values(|d: (Seq<char>, Seq<char>)| (d.0, processed_text(d.1)))
}

/// For every name, processing a document with path `path` and text `text`
/// adds `path` to the name's tags entry once per occurrence of the tag that the
/// tokenizer finds in the text, and to its mentions entry once per occurrence
/// of the mention it finds there; both are read from the text before rewriting.
pub proof fn lemma_chapter_pages_match_occurrences(
    tags: Seq<(Seq<char>, Seq<Seq<char>>)>,
    mentions: Seq<(Seq<char>, Seq<Seq<char>>)>,
    path: Seq<char>,
    text: Seq<char>,
    name: Seq<char>,
)
    requires
        entries_wf(tags),
        entries_wf(mentions),
    ensures
        pages_of(add_pages(tags, tag_names(text), path), name) == pages_of(tags, name) + Seq::new(
            occurrences(tag_names(text), name),
            |_i: int| path,
        ),
        pages_of(add_pages(mentions, mention_names(text), path), name) == pages_of(mentions, name)
            + Seq::new(occurrences(mention_names(text), name), |_i: int| path),
{
    lemma_pages_follow_occurrences(tags, tag_names(text), path, name);
    lemma_pages_follow_occurrences(mentions, mention_names(text), path, name);
}

/// Finds the tags and mentions of `chapter`, records each occurrence under the
/// chapter's path, and returns its text with every tag and mention made a link.
/// Both kinds are read from the chapter's text as given.
pub fn process_chapter(
    chapter: &Document,
    mentions: &mut IndexTable,
    tags: &mut IndexTable,
) -> (r: String)
    requires
        old(mentions).wf(),
        old(tags).wf(),
    ensures
        final(tags).wf(),
        final(mentions).wf(),
        final(tags)@ == add_pages(old(tags)@, tag_names(chapter.content@), chapter.path@),
        final(mentions)@ == add_pages(
            old(mentions)@,
            mention_names(chapter.content@),
            chapter.path@,
        ),
        r@ == processed_text(chapter.content@),
{
    let found_tags = extract_prefix_items(chapter.content.as_str(), '#');
    let found_mentions = extract_prefix_items(chapter.content.as_str(), '@');
    tags.add_all(found_tags, &chapter.path);
    mentions.add_all(found_mentions, &chapter.path);
    link_markers(chapter.content.as_str())
}

/// Processes every document in order, rewriting its text in place, and
/// returns the mentions table and the tags table.
pub fn collect_mentions_and_tags(docs: &mut Vec<Document>) -> (r: (IndexTable, IndexTable))
    ensures
        r.0.wf(),
        r.1.wf(),
        r.0@ == mention_table(doc_views(old(docs)@)),
        r.1@ == tag_table(doc_views(old(docs)@)),
        doc_views(final(docs)@) == processed_docs(doc_views(old(docs)@)),
{
    let ghost start = doc_views(docs@);
    let mut mentions = IndexTable::new();
    let mut tags = IndexTable::new();
    let n = docs.len();
    let mut i: usize = 0;
    while i < n
        invariant
            n == docs@.len(),
            n == start.len(),
            0 <= i <= n,
            mentions.wf(),
            tags.wf(),
            mentions@ == mention_table(start.take(i as int)),
            tags@ == tag_table(start.take(i as int)),
            forall|k: int| 0 <= k < i ==> (#[trigger] docs@[k])@ == processed_docs(start)[k],
            forall|k: int| i <= k < n ==> (#[trigger] docs@[k])@ == start[k],
        decreases n - i,
    {
        assert(start.take(i + 1).drop_last() =~= start.take(i as int));
        assert(docs@[i as int]@ == start[i as int]);
        let content = process_chapter(&docs[i], &mut mentions, &mut tags);
        docs[i].content = content;
        i = i + 1;
    }
    assert(start.take(n as int) =~= start);
    assert(doc_views(docs@) =~= processed_docs(start));
    (mentions, tags)
}

/// Appends to `docs` the index document at `path` that renders `index`.
pub fn add_index_chapter(
    docs: &mut Vec<Document>,
    path: &str,
    title: &str,
    prefix: &str,
    index: &IndexTable,
)
    ensures
        doc_views(final(docs)@) == doc_views(old(docs)@).push(
            (path@, index_text(title@, prefix@, index@)),
        ),
{
    let content = generate_index(title, prefix, index);
    docs.push(Document { path: String::from_str(path), content });
    assert(doc_views(docs@) =~= doc_views(old(docs)@).push(
        (path@, index_text(title@, prefix@, index@)),
    ));
}

/// The indexing stage of a book: links tags and mentions in every document and
/// appends a tags index and a mentions index.
pub struct Indexer;

impl Indexer {
    pub fn new() -> Self {
        Indexer
    }

    /// The name under which the stage is known to its host.
    pub fn name(&self) -> (r: &'static str)
        ensures
            r@ == "indexer_preprocessor"@,
    {
        "indexer_preprocessor"
    }

    /// Every renderer is supported but the one named `not-supported`.
    pub fn supports_renderer(&self, renderer: &str) -> (r: bool)
        ensures
            r == (renderer@ != "not-supported"@),
    {
        String::from_str(renderer) != String::from_str("not-supported")
    }

    /// Processes `docs` in order, then appends the tags index (`tags.md`, titled
    /// `Tags`) and the mentions index (`mentions.md`, titled `Mentions`).
    pub fn run(&self, docs: Vec<Document>) -> (r: Vec<Document>)
        ensures
            doc_views(r@) == processed_docs(doc_views(docs@)).push(
                (tags_path(), index_text("Tags"@, "#"@, tag_table(doc_views(docs@)))),
            ).push(
                (
                    mentions_path(),
                    index_text("Mentions"@, "@"@, mention_table(doc_views(docs@))),
                ),
            ),
    {
        let mut updated = docs;
        let (mentions, tags) = collect_mentions_and_tags(&mut updated);
        add_index_chapter(&mut updated, "tags.md", "Tags", "#", &tags);
        add_index_chapter(&mut updated, "mentions.md", "Mentions", "@", &mentions);
        updated
    }
}

} // verus!
