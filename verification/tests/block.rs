use markdown_it::common::ruler::RulerError;
use markdown_it::common::sourcemap::{CharMapping, SourcePos};
use markdown_it::parser::block::{BlockRule, BlockState};
use markdown_it::parser::inline::{InlineRoot, Text};
use markdown_it::parser::pipeline::Root;
use markdown_it::plugins::cmark::block::code::CodeBlock;
use markdown_it::plugins::cmark::block::heading::ATXHeading;
use markdown_it::plugins::cmark::block::hr::ThematicBreak;
use markdown_it::plugins::cmark::block::paragraph::Paragraph;
use markdown_it::{MarkdownIt, Node};

fn engine() -> MarkdownIt {
    let mut md = MarkdownIt::new();
    markdown_it::plugins::cmark::add(&mut md).unwrap();
    md
}

fn breaks(root: &Node) -> Vec<(char, usize)> {
    root.walk()
        .into_iter()
        .filter_map(|n| n.cast::<ThematicBreak>().map(|hr| (hr.marker, hr.marker_len)))
        .collect()
}

#[test]
fn three_markers_make_a_thematic_break() {
    let root = engine().parse("***");
    assert_eq!(breaks(&root), vec![('*', 3)]);
    assert_eq!(root.children.len(), 1);
    assert_eq!(root.children[0].srcmap, Some(SourcePos::new(0, 3)));
    assert_eq!(root.render(), "<hr>\n");
}

#[test]
fn markers_may_stand_between_blanks() {
    assert_eq!(breaks(&engine().parse(" - -\t-  ")), vec![('-', 3)]);
    assert_eq!(breaks(&engine().parse("   _____")), vec![('_', 5)]);
    assert_eq!(breaks(&engine().parse("* * * * *")), vec![('*', 5)]);
    assert_eq!(breaks(&engine().parse("---\n___\n")), vec![('-', 3), ('_', 3)]);
}

#[test]
fn indented_by_four_it_is_no_thematic_break() {
    for src in ["    ***", "\t***", "  \t---", "     * * *"] {
        let root = engine().parse(src);
        assert!(breaks(&root).is_empty(), "{:?}", src);
        assert_eq!(root.children.len(), 1);
        assert!(root.children[0].is::<CodeBlock>());
    }
    // without the rule for indented code the line is a paragraph
    let mut md = engine();
    md.block.ruler.disable("code").unwrap();
    let root = md.parse("    ***");
    assert!(breaks(&root).is_empty());
    assert!(root.children[0].is::<Paragraph>());
    assert_eq!(root.render(), "<p>***</p>\n");
}

#[test]
fn indented_lines_are_code() {
    let root = engine().parse("    a <b>\n\tc\n      d\n  \t e\nf");
    assert_eq!(root.children.len(), 2);
    assert_eq!(
        root.children[0].cast::<CodeBlock>().unwrap().content,
        "a <b>\nc\n  d\n e\n"
    );
    assert_eq!(root.children[0].srcmap, Some(SourcePos::new(4, 26)));
    assert_eq!(
        root.render(),
        "<pre><code>a &lt;b&gt;\nc\n  d\n e\n</code></pre>\n<p>f</p>\n"
    );
}

#[test]
fn indented_code_ends_at_an_empty_line_and_ends_no_paragraph() {
    let root = engine().parse("    a\n\n    b\ntext\n    more");
    assert_eq!(
        root.render(),
        "<pre><code>a\n</code></pre>\n<pre><code>b\n</code></pre>\n<p>text\n    more</p>\n"
    );
    let md = engine();
    let src = CharMapping::new("    x\n  y\n     \n");
    let mut state = BlockState::new(&md, &src, Node::new(Root { content: String::new() }));
    assert!(markdown_it::plugins::cmark::block::code::check(&state, 0));
    assert!(!markdown_it::plugins::cmark::block::code::check(&state, 1));
    assert!(!markdown_it::plugins::cmark::block::code::check(&state, 2));
    assert_eq!(markdown_it::plugins::cmark::block::code::start_of(&state, 0), 4);
    assert_eq!(markdown_it::plugins::cmark::block::code::start_of(&state, 1), 8);
    assert_eq!(markdown_it::plugins::cmark::block::code::start_of(&state, 2), 14);
    assert!(markdown_it::plugins::cmark::block::code::rule(&mut state, true));
    assert_eq!(state.line, 0);
    assert!(markdown_it::plugins::cmark::block::code::rule(&mut state, false));
    assert_eq!(state.line, 1);
    assert!(!markdown_it::plugins::cmark::block::code::rule(&mut state, false));
    assert_eq!(state.node.children.len(), 1);
}

#[test]
fn too_few_or_mixed_markers_are_no_thematic_break() {
    for src in ["**", "*-*", "***a", "a***", "+++", "* *", "--_"] {
        let root = engine().parse(src);
        assert!(breaks(&root).is_empty(), "{:?}", src);
    }
}

#[test]
fn the_rule_reports_a_match_and_moves_on() {
    let md = engine();
    let src = CharMapping::new("text\n***\n");
    let holder = Node::new(Root { content: String::new() });
    let mut state = BlockState::new(&md, &src, holder);
    assert!(!markdown_it::plugins::cmark::block::hr::rule(&mut state, false));
    assert_eq!(state.line, 0);
    assert!(state.node.children.is_empty());
    state.line = 1;
    assert!(markdown_it::plugins::cmark::block::hr::rule(&mut state, true));
    assert_eq!(state.line, 1);
    assert!(state.node.children.is_empty());
    assert!(markdown_it::plugins::cmark::block::hr::rule(&mut state, false));
    assert_eq!(state.line, 2);
    assert_eq!(state.node.children.len(), 1);
    let hr = state.node.children[0].cast::<ThematicBreak>().unwrap();
    assert_eq!((hr.marker, hr.marker_len), ('*', 3));
    assert_eq!(state.node.children[0].srcmap, Some(SourcePos::new(5, 8)));
    // the last line is empty, and behind it there is none
    assert!(!markdown_it::plugins::cmark::block::hr::rule(&mut state, false));
    state.line = 3;
    assert!(!markdown_it::plugins::cmark::block::hr::rule(&mut state, false));
    state.line = 1;
    state.line_max = 70;
    assert!(!markdown_it::plugins::cmark::block::hr::rule(&mut state, false));
}

#[test]
fn headings_have_levels_one_to_six() {
    let root = engine().parse("# a\n## b\n###### c\n####### d\n#e\n#\n");
    let levels: Vec<u8> = root
        .walk()
        .into_iter()
        .filter_map(|n| n.cast::<ATXHeading>().map(|h| h.level))
        .collect();
    assert_eq!(levels, vec![1, 2, 6, 1]);
    assert_eq!(
        root.render(),
        "<h1>a</h1>\n<h2>b</h2>\n<h6>c</h6>\n<p>####### d\n#e</p>\n<h1></h1>\n"
    );
}

#[test]
fn heading_text_is_trimmed_and_left_to_the_inline_phase() {
    let mut md = engine();
    md.core.disable("inline").unwrap();
    let root = md.parse("  ##   two words  \t");
    assert_eq!(root.children.len(), 1);
    let heading = &root.children[0];
    assert_eq!(heading.cast::<ATXHeading>().unwrap().level, 2);
    assert_eq!(heading.srcmap, Some(SourcePos::new(2, 19)));
    assert_eq!(heading.children.len(), 1);
    let run = heading.children[0].cast::<InlineRoot>().unwrap();
    assert_eq!((run.start, run.end), (7, 16));
    assert!(heading.children[0].children.is_empty());
    assert_eq!(root.render(), "<h2></h2>\n");

    md.core.enable("inline").unwrap();
    let root = md.parse("  ##   two words  \t");
    let run = &root.children[0].children[0];
    assert_eq!(run.children.len(), 1);
    assert_eq!(run.children[0].cast::<Text>().unwrap().content, "two words");
    assert_eq!(root.render(), "<h2>two words</h2>\n");
}

#[test]
fn a_paragraph_ends_at_an_empty_line_or_another_block() {
    let root = engine().parse("one\ntwo\n\nthree\n***\nfour\n# five\n  \nsix");
    assert_eq!(
        root.render(),
        "<p>one\ntwo</p>\n<p>three</p>\n<hr>\n<p>four</p>\n<h1>five</h1>\n<p>six</p>\n"
    );
    let spans: Vec<Option<SourcePos>> = root.children.iter().map(|n| n.srcmap).collect();
    assert_eq!(
        spans,
        vec![
            Some(SourcePos::new(0, 7)),
            Some(SourcePos::new(9, 14)),
            Some(SourcePos::new(15, 18)),
            Some(SourcePos::new(19, 23)),
            Some(SourcePos::new(24, 30)),
            Some(SourcePos::new(34, 37)),
        ]
    );
}

#[test]
fn only_rules_that_are_switched_on_end_a_paragraph() {
    let mut md = engine();
    md.block.ruler.disable("hr").unwrap();
    assert_eq!(md.parse("one\n***\ntwo").render(), "<p>one\n***\ntwo</p>\n");
    md.block.ruler.enable("hr").unwrap();
    assert_eq!(md.parse("one\n***\ntwo").render(), "<p>one</p>\n<hr>\n<p>two</p>\n");
}

#[test]
fn the_first_rule_that_matches_wins() {
    let mut md = MarkdownIt::new();
    markdown_it::plugins::cmark::block::paragraph::add(&mut md).unwrap();
    markdown_it::plugins::cmark::block::hr::add(&mut md).unwrap();
    // paragraphs stand first here, and a paragraph takes every line
    assert_eq!(md.parse("***").render(), "<p>***</p>\n");
    assert_eq!(
        markdown_it::plugins::cmark::block::hr::add(&mut md),
        Err(RulerError::DuplicateName)
    );
    let order: Vec<BlockRule> = md.block.ruler.iterate().into_iter().copied().collect();
    assert_eq!(order, vec![BlockRule::Paragraph, BlockRule::ThematicBreak]);
    let order: Vec<BlockRule> = engine().block.ruler.iterate().into_iter().copied().collect();
    assert_eq!(
        order,
        vec![
            BlockRule::Code,
            BlockRule::Fence,
            BlockRule::ThematicBreak,
            BlockRule::Heading,
            BlockRule::Paragraph
        ]
    );
}

#[test]
fn lines_that_no_rule_takes_make_nothing() {
    let mut md = MarkdownIt::new();
    markdown_it::plugins::cmark::block::hr::add(&mut md).unwrap();
    let root = md.parse("text\n***\nmore");
    assert_eq!(root.children.len(), 1);
    assert!(root.children[0].is::<ThematicBreak>());
    assert_eq!(root.srcmap, Some(SourcePos::new(0, 13)));
}

#[test]
fn an_empty_text_makes_an_empty_root() {
    let root = engine().parse("");
    assert!(root.children.is_empty());
    assert_eq!(root.cast::<Root>().unwrap().content, "");
    assert_eq!(root.render(), "");
    let root = engine().parse("\n \n\t\n");
    assert!(root.children.is_empty());
}

#[test]
fn line_helpers() {
    let md = engine();
    let src = CharMapping::new("  a b  \n\t\tx\n\n   ");
    let state = BlockState::new(&md, &src, Node::new(Root { content: String::new() }));
    assert_eq!(state.line_max, 4);
    assert_eq!((state.line_first(0), state.line_last(0)), (2, 7));
    assert_eq!((state.line_first(1), state.line_last(1)), (10, 11));
    assert_eq!((state.line_first(2), state.line_last(2)), (12, 12));
    assert_eq!((state.line_first(3), state.line_last(3)), (16, 16));
    assert!(!state.is_empty(0));
    assert!(state.is_empty(2));
    assert!(state.is_empty(3));
    assert!(!state.is_code_indented(0));
    assert!(state.is_code_indented(1));
    assert!(!state.is_code_indented(3));
    assert_eq!(state.get_map(0, 1), Some(SourcePos::new(2, 11)));
}
