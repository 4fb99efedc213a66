use markdown_it::common::ruler::RulerError;
use markdown_it::common::sourcemap::{CharMapping, SourcePos};
use markdown_it::parser::pipeline::{CoreRule, Root};
use markdown_it::plugins::cmark::block::heading::ATXHeading;
use markdown_it::plugins::cmark::block::paragraph::Paragraph;
use markdown_it::MarkdownIt;

fn engine() -> MarkdownIt {
    let mut md = MarkdownIt::new();
    markdown_it::plugins::cmark::add(&mut md).unwrap();
    markdown_it::plugins::sourcepos::add(&mut md).unwrap();
    md
}

fn label_of(node: &markdown_it::Node) -> Option<String> {
    node.attrs
        .iter()
        .find(|(name, _)| name == "data-sourcepos")
        .map(|(_, value)| value.clone())
}

#[test]
fn header_test() {
    let md = &mut MarkdownIt::new();
    markdown_it::plugins::cmark::add(md).unwrap();
    markdown_it::plugins::sourcepos::add(md).unwrap();

    let html = md.parse("# hello").render();
    assert_eq!(html.trim(), r#"<h1 data-sourcepos="1:1-1:7">hello</h1>"#);
}

#[test]
fn positions_count_lines_and_columns_from_one() {
    let map = CharMapping::new("ab\ncd\n\nxyz");
    assert_eq!(map.get_position(0), (1, 1));
    assert_eq!(map.get_position(1), (1, 2));
    assert_eq!(map.get_position(2), (1, 3));
    assert_eq!(map.get_position(3), (2, 1));
    assert_eq!(map.get_position(6), (3, 1));
    assert_eq!(map.get_position(7), (4, 1));
    assert_eq!(map.get_position(9), (4, 3));
    assert_eq!(map.line_count(), 4);
}

#[test]
fn columns_count_code_points_not_bytes() {
    // "é" takes two bytes, "€" three, "𝄞" four
    let map = CharMapping::new("é€𝄞x\nß!");
    assert_eq!(map.get_position(0), (1, 1));
    assert_eq!(map.get_position(1), (1, 1));
    assert_eq!(map.get_position(2), (1, 2));
    assert_eq!(map.get_position(4), (1, 2));
    assert_eq!(map.get_position(5), (1, 3));
    assert_eq!(map.get_position(9), (1, 4));
    assert_eq!(map.get_position(10), (1, 5));
    assert_eq!(map.get_position(11), (2, 1));
    assert_eq!(map.get_position(12), (2, 1));
    assert_eq!(map.get_position(13), (2, 2));
    assert_eq!(map.byte_at(3), 9);
    assert_eq!(map.len(), 7);
}

#[test]
fn position_past_the_end_is_that_of_the_end() {
    let map = CharMapping::new("ab\nc");
    assert_eq!(map.get_position(4), (2, 2));
    assert_eq!(map.get_position(400), (2, 2));
    let empty = CharMapping::new("");
    assert_eq!(empty.get_position(0), (1, 1));
    assert_eq!(empty.line_count(), 1);
}

#[test]
fn span_positions_end_at_the_last_byte() {
    let map = CharMapping::new("# hello");
    let span = SourcePos::new(0, 7);
    assert_eq!(span.get_byte_offsets(), (0, 7));
    assert_eq!(span.get_positions(&map), ((1, 1), (1, 7)));
    assert_eq!(SourcePos::new(0, 0).get_positions(&map), ((1, 1), (1, 1)));
    assert_eq!(SourcePos::new(2, 3).get_positions(&map), ((1, 3), (1, 3)));
}

#[test]
fn root_label_spans_the_whole_text() {
    let md = engine();
    for (src, expected) in [
        ("# hello", "1:1-1:7"),
        ("a", "1:1-1:1"),
        ("one\ntwo", "1:1-2:3"),
        ("one\n\n# two\n", "1:1-3:6"),
        ("héllo", "1:1-1:5"),
    ] {
        let root = md.parse(src);
        assert!(root.is::<Root>());
        assert_eq!(label_of(&root), Some(expected.to_string()), "{:?}", src);
    }
}

#[test]
fn labeling_twice_gives_the_same_labels() {
    let md = engine();
    let src = "# one\n\ntext <https://example.org> more\n***\n";
    let first = md.parse(src);
    let second = md.parse(src);
    let a: Vec<Option<String>> = first.walk().into_iter().map(label_of).collect();
    let b: Vec<Option<String>> = second.walk().into_iter().map(label_of).collect();
    assert_eq!(a, b);
    assert_eq!(first.render(), second.render());
}

#[test]
fn every_node_with_a_span_is_labeled() {
    let md = engine();
    let root = md.parse("# one\n\ntwo\nthree");
    let nodes = root.walk();
    for node in nodes.iter() {
        assert_eq!(node.srcmap.is_some(), label_of(node).is_some());
    }
    let heading = nodes.iter().find(|n| n.is::<ATXHeading>()).unwrap();
    assert_eq!(label_of(heading), Some("1:1-1:5".to_string()));
    let paragraph = nodes.iter().find(|n| n.is::<Paragraph>()).unwrap();
    assert_eq!(label_of(paragraph), Some("3:1-4:5".to_string()));
    assert_eq!(
        root.render(),
        "<h1 data-sourcepos=\"1:1-1:5\">one</h1>\n<p data-sourcepos=\"3:1-4:5\">two\nthree</p>\n"
    );
}

#[test]
fn sourcepos_stands_behind_both_phases() {
    let mut md = MarkdownIt::new();
    assert_eq!(markdown_it::plugins::sourcepos::add(&mut md), Ok(()));
    assert_eq!(
        markdown_it::plugins::sourcepos::add(&mut md),
        Err(RulerError::DuplicateName)
    );
    assert_eq!(md.core.position("inline"), Some(2));
    assert_eq!(md.core.position("sourcepos"), Some(3));
    assert_eq!(md.core.is_enabled("sourcepos"), Some(true));
    md.core.remove("sourcepos").unwrap();
    let order: Vec<CoreRule> = md.core.iterate().into_iter().copied().collect();
    assert_eq!(order, vec![CoreRule::Normalize, CoreRule::Block, CoreRule::Inline]);

    // the inline phase before the block phase: the labels follow the block phase
    let mut swapped = MarkdownIt::new();
    swapped.core.remove("inline").unwrap();
    swapped.core.before("block", "inline", CoreRule::Inline).unwrap();
    assert_eq!(markdown_it::plugins::sourcepos::add(&mut swapped), Ok(()));
    let order: Vec<CoreRule> = swapped.core.iterate().into_iter().copied().collect();
    assert_eq!(
        order,
        vec![CoreRule::Normalize, CoreRule::Inline, CoreRule::Block, CoreRule::SyntaxPos]
    );
}

#[test]
fn sourcepos_needs_one_of_the_phases() {
    let mut no_inline = MarkdownIt::new();
    no_inline.core.remove("inline").unwrap();
    assert_eq!(markdown_it::plugins::sourcepos::add(&mut no_inline), Ok(()));
    assert_eq!(no_inline.core.position("block"), Some(1));
    assert_eq!(no_inline.core.position("sourcepos"), Some(2));

    let mut no_block = MarkdownIt::new();
    no_block.core.remove("block").unwrap();
    assert_eq!(markdown_it::plugins::sourcepos::add(&mut no_block), Ok(()));
    assert_eq!(no_block.core.position("inline"), Some(1));
    assert_eq!(no_block.core.position("sourcepos"), Some(2));

    let mut bare = MarkdownIt::new();
    bare.core.remove("inline").unwrap();
    bare.core.remove("block").unwrap();
    assert_eq!(
        markdown_it::plugins::sourcepos::add(&mut bare),
        Err(RulerError::NotFound)
    );
    assert_eq!(bare.core.len(), 1);

    // a phase that is switched off still anchors the rule
    let mut off = MarkdownIt::new();
    off.core.disable("inline").unwrap();
    assert_eq!(markdown_it::plugins::sourcepos::add(&mut off), Ok(()));
    assert_eq!(off.core.position("sourcepos"), Some(3));
}

#[test]
fn without_the_plugin_there_are_no_labels() {
    let mut md = MarkdownIt::new();
    markdown_it::plugins::cmark::add(&mut md).unwrap();
    assert_eq!(md.parse("# hello").render(), "<h1>hello</h1>\n");
}
