use org2subtext::node::Node;
use org2subtext::render::render;
use org2subtext::render::internal_link_ids;
use org2subtext::render::RenderConfig;
use org2subtext::resolver::LinkIndex;

fn text(s: &str) -> Node {
    Node::Text { content: String::from(s) }
}

fn paragraph(children: Vec<Node>) -> Node {
    Node::Paragraph { children }
}

fn plain_config() -> RenderConfig {
    RenderConfig { normalize_link_titles: false }
}

fn convert(doc: &Vec<Node>, index: &LinkIndex) -> (String, Vec<String>) {
    let r = render(doc, index, &plain_config());
    (r.text, r.warnings)
}

#[test]
fn heading_has_level_hashes_space_title_and_closing_newline() {
    let doc = vec![Node::Heading {
        level: 2,
        title: String::from("Two deep"),
        children: vec![],
    }];
    let (out, warns) = convert(&doc, &LinkIndex::new());
    assert_eq!(out, "## Two deep\n\n");
    assert!(warns.is_empty());
}

#[test]
fn heading_with_body_closes_after_the_section() {
    let doc = vec![Node::Heading {
        level: 1,
        title: String::from("T"),
        children: vec![Node::Section { children: vec![paragraph(vec![text("body")])] }],
    }];
    let (out, _) = convert(&doc, &LinkIndex::new());
    assert_eq!(out, "# T\nbody\n\n\n");
}

#[test]
fn id_marker_text_is_suppressed() {
    let doc = vec![paragraph(vec![text("secret :ID: 1234")])];
    let (out, _) = convert(&doc, &LinkIndex::new());
    assert_eq!(out, "\n");
}

#[test]
fn id_marker_is_case_insensitive() {
    for marker in [":id:", ":ID:", ":Id:", ":iD:"] {
        let doc = vec![paragraph(vec![text(&format!("before {} after", marker))])];
        let (out, _) = convert(&doc, &LinkIndex::new());
        assert_eq!(out, "\n");
    }
}

#[test]
fn plain_text_is_emitted_verbatim() {
    let doc = vec![paragraph(vec![text("two\nlines")])];
    let (out, _) = convert(&doc, &LinkIndex::new());
    assert_eq!(out, "two\nlines\n");
}

#[test]
fn quote_block_composes_all_three_prefix_rules() {
    let doc = vec![Node::QuoteBlock {
        children: vec![paragraph(vec![text("A\nB")]), paragraph(vec![text("C")])],
    }];
    let (out, _) = convert(&doc, &LinkIndex::new());
    assert_eq!(out, "> A\n> B\n>\n> C\n");
}

#[test]
fn quote_block_with_one_paragraph_has_no_separator() {
    let doc = vec![Node::QuoteBlock { children: vec![paragraph(vec![text("A")])] }];
    let (out, _) = convert(&doc, &LinkIndex::new());
    assert_eq!(out, "> A\n");
}

#[test]
fn internal_link_present_in_index_renders_the_title() {
    let mut index = LinkIndex::new();
    index.insert(String::from("abc"), String::from("My Note"));
    let doc = vec![Node::Link { target: String::from("id:abc"), display: None }];
    let (out, warns) = convert(&doc, &index);
    assert_eq!(out, "[[My Note]]");
    assert!(warns.is_empty());
}

#[test]
fn internal_link_absent_from_index_renders_placeholder_and_warns() {
    let doc = vec![Node::Link { target: String::from("id:xyz"), display: None }];
    let (out, warns) = convert(&doc, &LinkIndex::new());
    assert_eq!(out, "[[]]");
    assert_eq!(warns, vec![String::from("xyz")]);
}

#[test]
fn internal_link_ignores_its_display_text() {
    let mut index = LinkIndex::new();
    index.insert(String::from("abc"), String::from("My Note"));
    let doc = vec![Node::Link {
        target: String::from("id:abc"),
        display: Some(String::from("ignored")),
    }];
    let (out, _) = convert(&doc, &index);
    assert_eq!(out, "[[My Note]]");
}

#[test]
fn external_link_with_display_text() {
    let doc = vec![Node::Link {
        target: String::from("https://example.com"),
        display: Some(String::from("Example")),
    }];
    let (out, warns) = convert(&doc, &LinkIndex::new());
    assert_eq!(out, "Example <https://example.com>");
    assert!(warns.is_empty());
}

#[test]
fn external_link_without_display_text() {
    let doc = vec![Node::Link { target: String::from("https://example.com"), display: None }];
    let (out, _) = convert(&doc, &LinkIndex::new());
    assert_eq!(out, "<https://example.com>");
}

#[test]
fn list_item_paragraph_skips_the_default_leave_rule() {
    let doc = vec![Node::List {
        children: vec![Node::ListItem { children: vec![paragraph(vec![text("item text")])] }],
    }];
    let (out, _) = convert(&doc, &LinkIndex::new());
    assert_eq!(out, "- item text\n");
}

#[test]
fn two_list_items_stay_on_their_own_lines() {
    let doc = vec![Node::List {
        children: vec![
            Node::ListItem { children: vec![paragraph(vec![text("one")])] },
            Node::ListItem { children: vec![paragraph(vec![text("two")])] },
        ],
    }];
    let (out, _) = convert(&doc, &LinkIndex::new());
    assert_eq!(out, "- one\n- two\n");
}

#[test]
fn rerunning_an_unchanged_conversion_is_byte_identical() {
    let mut index = LinkIndex::new();
    index.insert(String::from("abc"), String::from("My Note"));
    let doc = vec![
        Node::Keyword { key: String::from("title"), value: String::from(" Doc ") },
        Node::Heading { level: 1, title: String::from("H"), children: vec![] },
        Node::QuoteBlock {
            children: vec![paragraph(vec![text("A\nB")]), paragraph(vec![text("C")])],
        },
        Node::Link { target: String::from("id:abc"), display: None },
        Node::Link { target: String::from("id:missing"), display: None },
    ];
    let first = render(&doc, &index, &plain_config());
    let second = render(&doc, &index, &plain_config());
    assert_eq!(first.text, second.text);
    assert_eq!(first.text.as_bytes(), second.text.as_bytes());
    assert_eq!(first.warnings, second.warnings);
}

#[test]
fn title_keyword_becomes_a_trimmed_heading() {
    let doc = vec![Node::Keyword {
        key: String::from("title"),
        value: String::from("  My Document \n"),
    }];
    let (out, _) = convert(&doc, &LinkIndex::new());
    assert_eq!(out, "# My Document\n");
}

#[test]
fn other_keywords_are_ignored() {
    let doc = vec![Node::Keyword { key: String::from("author"), value: String::from("me") }];
    let (out, _) = convert(&doc, &LinkIndex::new());
    assert_eq!(out, "");
}

#[test]
fn inline_code_is_wrapped_in_backticks() {
    let doc = vec![paragraph(vec![
        text("run "),
        Node::Code { content: String::from("make") },
        text(" now"),
    ])];
    let (out, _) = convert(&doc, &LinkIndex::new());
    assert_eq!(out, "run `make` now\n");
}

#[test]
fn source_block_renders_placeholder_and_skips_children() {
    let doc = vec![Node::SourceBlock {
        children: vec![text("let x = 1;"), Node::Link {
            target: String::from("id:inside"),
            display: None,
        }],
    }];
    let (out, warns) = convert(&doc, &LinkIndex::new());
    assert_eq!(
        out,
        "\n(subtext does not yet support code blocks, but this is where one would be)\n\n"
    );
    assert!(warns.is_empty());
}

#[test]
fn section_emits_trailing_newline() {
    let doc = vec![Node::Section { children: vec![paragraph(vec![text("hi")])] }];
    let (out, _) = convert(&doc, &LinkIndex::new());
    assert_eq!(out, "hi\n\n");
}

#[test]
fn container_renders_its_children_inertly() {
    let doc = vec![Node::Container { children: vec![paragraph(vec![text("inside")])] }];
    let (out, _) = convert(&doc, &LinkIndex::new());
    assert_eq!(out, "inside\n");
}

#[test]
fn empty_document_renders_nothing() {
    let doc: Vec<Node> = vec![];
    let (out, warns) = convert(&doc, &LinkIndex::new());
    assert_eq!(out, "");
    assert!(warns.is_empty());
}

#[test]
fn normalized_titles_are_wikified() {
    let mut index = LinkIndex::new();
    index.insert(String::from("abc"), String::from("my first note!"));
    let doc = vec![Node::Link { target: String::from("id:abc"), display: None }];
    let config = RenderConfig { normalize_link_titles: true };
    let r = render(&doc, &index, &config);
    assert_eq!(r.text, "[[MyFirstNote]]");
}

#[test]
fn default_config_embeds_titles_verbatim() {
    let mut index = LinkIndex::new();
    index.insert(String::from("abc"), String::from("my first note!"));
    let doc = vec![Node::Link { target: String::from("id:abc"), display: None }];
    let r = render(&doc, &index, &RenderConfig::default());
    assert_eq!(r.text, "[[my first note!]]");
}

#[test]
fn internal_link_ids_lists_every_internal_target_in_order() {
    let doc = vec![
        Node::Link { target: String::from("id:first"), display: None },
        Node::Link { target: String::from("https://example.com"), display: None },
        paragraph(vec![Node::Link { target: String::from("id:second"), display: None }]),
    ];
    let ids = internal_link_ids(&doc);
    assert_eq!(ids, vec![String::from("first"), String::from("second")]);
}

#[test]
fn warnings_come_in_traversal_order() {
    let doc = vec![
        Node::Link { target: String::from("id:a"), display: None },
        Node::Link { target: String::from("id:b"), display: None },
    ];
    let (out, warns) = convert(&doc, &LinkIndex::new());
    assert_eq!(out, "[[]][[]]");
    assert_eq!(warns, vec![String::from("a"), String::from("b")]);
}
