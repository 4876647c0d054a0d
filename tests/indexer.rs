use mdbook_indexer::{
    add_index_chapter, collect_mentions_and_tags, extract_prefix_items, generate_index,
    link_markers, process_chapter, rewrite_markers, Document, IndexTable, Indexer,
};

fn doc(path: &str, content: &str) -> Document {
    Document { path: path.to_string(), content: content.to_string() }
}

fn pages(table: &IndexTable, name: &str) -> Vec<String> {
    table.pages(&name.to_string())
}

fn strings(items: &[&str]) -> Vec<String> {
    items.iter().map(|s| s.to_string()).collect()
}

#[test]
fn extract_splits_on_punctuation_other_than_prefix() {
    let names = extract_prefix_items("#tag, @who #a.b ##x # #", '#');
    assert_eq!(names, strings(&["tag", "a"]));
    let names = extract_prefix_items("#tag, @who #a.b ##x # #", '@');
    assert_eq!(names, strings(&["who"]));
}

#[test]
fn extract_tag_followed_by_comma() {
    assert_eq!(extract_prefix_items("#tag,", '#'), strings(&["tag"]));
}

#[test]
fn extract_bare_prefixes_yield_nothing() {
    assert!(extract_prefix_items("# @ #", '#').is_empty());
    assert!(extract_prefix_items("# @ #", '@').is_empty());
    assert!(extract_prefix_items("", '#').is_empty());
    assert!(extract_prefix_items("no markers here", '#').is_empty());
}

#[test]
fn extract_keeps_repeats_in_order() {
    assert_eq!(extract_prefix_items("#b #a #b", '#'), strings(&["b", "a", "b"]));
}

#[test]
fn extract_splits_on_unicode_whitespace() {
    assert_eq!(extract_prefix_items("#a\u{3000}#b", '#'), strings(&["a", "b"]));
    assert_eq!(extract_prefix_items("#a\t#b\n#c", '#'), strings(&["a", "b", "c"]));
}

#[test]
fn extracted_names_are_clean_words() {
    let text = "x #one,#two; @three #fo@ur #a-b #é! ## #\t#z";
    for prefix in ['#', '@'] {
        for name in extract_prefix_items(text, prefix) {
            assert!(!name.is_empty());
            assert!(!name.starts_with(prefix));
            assert!(name
                .chars()
                .all(|c| !c.is_whitespace() && (c == prefix || !c.is_ascii_punctuation())));
        }
    }
}

#[test]
fn rewrite_turns_markers_into_links() {
    assert_eq!(rewrite_markers("see #x.", '#', "tags.md"), "see [#x](tags.md#x).");
    assert_eq!(rewrite_markers("@bob", '@', "mentions.md"), "[@bob](mentions.md#bob)");
    assert_eq!(rewrite_markers("plain text", '#', "tags.md"), "plain text");
    assert_eq!(rewrite_markers("", '#', "tags.md"), "");
}

#[test]
fn rewrite_leaves_non_marker_words() {
    assert_eq!(rewrite_markers("x#a ##a # #a", '#', "t.md"), "x#a ##a # [#a](t.md#a)");
}

#[test]
fn substring_collision_is_avoided() {
    let mut docs = vec![doc("c.md", "#a #ab")];
    let (_mentions, tags) = collect_mentions_and_tags(&mut docs);
    assert_eq!(docs[0].content, "[#a](tags.md#a) [#ab](tags.md#ab)");
    assert_eq!(pages(&tags, "a"), strings(&["c.md"]));
    assert_eq!(pages(&tags, "ab"), strings(&["c.md"]));
}

#[test]
fn chapter_scenario() {
    let mut docs = vec![doc("chapter1.md", "See #alpha and @bob, also #alpha again.")];
    let (mentions, tags) = collect_mentions_and_tags(&mut docs);
    assert_eq!(tags.len(), 1);
    assert_eq!(pages(&tags, "alpha"), strings(&["chapter1.md", "chapter1.md"]));
    assert_eq!(mentions.len(), 1);
    assert_eq!(pages(&mentions, "bob"), strings(&["chapter1.md"]));
    assert_eq!(docs[0].path, "chapter1.md");
    assert_eq!(
        docs[0].content,
        "See [#alpha](tags.md#alpha) and [@bob](mentions.md#bob), also [#alpha](tags.md#alpha) again."
    );
    assert_eq!(docs[0].content.matches("[#alpha](tags.md#alpha)").count(), 2);
    assert_eq!(docs[0].content.matches("[@bob](mentions.md#bob)").count(), 1);
}

#[test]
fn process_chapter_records_each_occurrence() {
    let chapter = doc("p.md", "#x #y #x @m");
    let mut mentions = IndexTable::new();
    let mut tags = IndexTable::new();
    let out = process_chapter(&chapter, &mut mentions, &mut tags);
    assert_eq!(out, "[#x](tags.md#x) [#y](tags.md#y) [#x](tags.md#x) [@m](mentions.md#m)");
    let found = extract_prefix_items(&chapter.content, '#');
    for name in ["x", "y"] {
        let count = found.iter().filter(|n| n.as_str() == name).count();
        assert_eq!(pages(&tags, name).len(), count);
    }
    assert_eq!(pages(&tags, "x"), strings(&["p.md", "p.md"]));
    assert_eq!(pages(&mentions, "m"), strings(&["p.md"]));
    assert!(pages(&tags, "m").is_empty());
}

#[test]
fn tables_follow_document_order() {
    let mut docs = vec![doc("a.md", "#k #j"), doc("b.md", "#j @p"), doc("c.md", "@p #k")];
    let (mentions, tags) = collect_mentions_and_tags(&mut docs);
    let names: Vec<String> = tags.entries().iter().map(|e| e.name.clone()).collect();
    assert_eq!(names, strings(&["k", "j"]));
    assert_eq!(pages(&tags, "k"), strings(&["a.md", "c.md"]));
    assert_eq!(pages(&tags, "j"), strings(&["a.md", "b.md"]));
    assert_eq!(pages(&mentions, "p"), strings(&["b.md", "c.md"]));
}

#[test]
fn index_rendering_scenario() {
    let mut tags = IndexTable::new();
    tags.add("x".to_string(), &"a.md".to_string());
    tags.add("x".to_string(), &"b.md".to_string());
    let body = generate_index("Tags", "#", &tags);
    assert!(body.starts_with("# Tags\n\n## #x\n- [a.md](a.md)\n- [b.md](b.md)\n"));
    assert_eq!(body, "# Tags\n\n## #x\n- [a.md](a.md)\n- [b.md](b.md)\n");
}

#[test]
fn index_rendering_keeps_duplicates() {
    let mut table = IndexTable::new();
    table.add("bob".to_string(), &"a.md".to_string());
    table.add("eve".to_string(), &"b.md".to_string());
    table.add("bob".to_string(), &"a.md".to_string());
    let body = generate_index("Mentions", "@", &table);
    assert_eq!(
        body,
        "# Mentions\n\n## @bob\n- [a.md](a.md)\n- [a.md](a.md)\n## @eve\n- [b.md](b.md)\n"
    );
}

#[test]
fn empty_tree_gets_two_bare_indexes() {
    let out = Indexer::new().run(Vec::new());
    assert_eq!(out.len(), 2);
    assert_eq!(out[0].path, "tags.md");
    assert_eq!(out[0].content, "# Tags\n\n");
    assert_eq!(out[1].path, "mentions.md");
    assert_eq!(out[1].content, "# Mentions\n\n");
}

#[test]
fn add_index_chapter_appends_document() {
    let mut docs = vec![doc("a.md", "text")];
    let mut table = IndexTable::new();
    table.add("t".to_string(), &"a.md".to_string());
    add_index_chapter(&mut docs, "tags.md", "Tags", "#", &table);
    assert_eq!(docs.len(), 2);
    assert_eq!(docs[1].path, "tags.md");
    assert_eq!(docs[1].content, "# Tags\n\n## #t\n- [a.md](a.md)\n");
}

#[test]
fn run_processes_and_appends_indexes() {
    let out = Indexer::new().run(vec![doc("one.md", "#t and @u")]);
    assert_eq!(out.len(), 3);
    assert_eq!(out[0].content, "[#t](tags.md#t) and [@u](mentions.md#u)");
    assert_eq!(out[1].content, "# Tags\n\n## #t\n- [one.md](one.md)\n");
    assert_eq!(out[2].content, "# Mentions\n\n## @u\n- [one.md](one.md)\n");
}

#[test]
fn running_twice_wraps_links_again() {
    let indexer = Indexer::new();
    let first = indexer.run(vec![doc("c.md", "#alpha")]);
    assert_eq!(first[0].content, "[#alpha](tags.md#alpha)");
    let second = indexer.run(vec![doc(&first[0].path, &first[0].content)]);
    assert_ne!(second[0].content, first[0].content);
    assert_eq!(second[0].content, "[[#alpha](tags.md#alpha)](tags.md#alpha)");
}

#[test]
fn renderer_support() {
    let indexer = Indexer::new();
    assert!(indexer.supports_renderer("html"));
    assert!(indexer.supports_renderer(""));
    assert!(!indexer.supports_renderer("not-supported"));
    assert_eq!(indexer.name(), "indexer_preprocessor");
}

#[test]
fn rewriting_again_wraps_again() {
    let once = rewrite_markers("#a and #b", '#', "tags.md");
    assert_eq!(once, "[#a](tags.md#a) and [#b](tags.md#b)");
    assert_eq!(extract_prefix_items(&once, '#'), strings(&["a", "b"]));
    let twice = rewrite_markers(&once, '#', "tags.md");
    assert_ne!(twice, once);
    assert_eq!(twice, "[[#a](tags.md#a)](tags.md#a) and [[#b](tags.md#b)](tags.md#b)");
    let m = rewrite_markers("@x", '@', "mentions.md");
    assert_eq!(extract_prefix_items(&m, '@'), strings(&["x"]));
    assert_eq!(rewrite_markers(&m, '@', "mentions.md"), "[[@x](mentions.md#x)](mentions.md#x)");
}

#[test]
fn mention_glued_to_tag_is_not_a_mention() {
    let chapter = doc("p.md", "#t@x");
    let mut mentions = IndexTable::new();
    let mut tags = IndexTable::new();
    let out = process_chapter(&chapter, &mut mentions, &mut tags);
    assert_eq!(out, "[#t](tags.md#t)@x");
    assert_eq!(tags.len(), 1);
    assert_eq!(pages(&tags, "t"), strings(&["p.md"]));
    assert_eq!(mentions.len(), 0);
}

#[test]
fn tag_glued_to_mention_is_not_a_tag() {
    let mut docs = vec![doc("q.md", "@x#y")];
    let (mentions, tags) = collect_mentions_and_tags(&mut docs);
    assert_eq!(docs[0].content, "[@x](mentions.md#x)#y");
    assert_eq!(pages(&mentions, "x"), strings(&["q.md"]));
    assert_eq!(tags.len(), 0);
}

#[test]
fn link_markers_reads_both_kinds_from_the_given_text() {
    assert_eq!(link_markers("#a#@b"), "[#a#](tags.md#a#)[@b](mentions.md#b)");
    assert_eq!(link_markers("#t, @u."), "[#t](tags.md#t), [@u](mentions.md#u).");
    assert_eq!(link_markers("## @@ # @ x#y z@w"), "## @@ # @ x#y z@w");
    assert_eq!(link_markers(""), "");
}

#[test]
fn whitespace_and_punctuation_agree_with_std() {
    for c in (0u32..=0x10FFFF).filter_map(char::from_u32) {
        assert_eq!(mdbook_indexer::chars::is_whitespace(c), c.is_whitespace(), "{:?}", c);
        assert_eq!(
            mdbook_indexer::chars::is_ascii_punctuation(c),
            c.is_ascii_punctuation(),
            "{:?}",
            c
        );
    }
}
