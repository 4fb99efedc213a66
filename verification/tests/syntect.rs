use markdown_it::common::ruler::RulerError;
use markdown_it::parser::inline::Text;
use markdown_it::parser::node::NodeVisitor;
use markdown_it::parser::pipeline::{CoreRule, Root};
use markdown_it::plugins::cmark::block::code::CodeBlock;
use markdown_it::plugins::cmark::block::fence::CodeFence;
use markdown_it::plugins::cmark::block::paragraph::Paragraph;
use markdown_it::plugins::extra::syntect::{
    apply, code_of, lines_with_endings, mode_of, set_theme, use_css_classes, Highlighter,
    SyntectMode, SyntectRule, SyntectSettings, SyntectSnippet,
};
use markdown_it::{MarkdownIt, Node};

fn tree() -> Node {
    let mut root = Node::new(Root { content: String::new() });
    let mut paragraph = Node::new(Paragraph);
    paragraph.children.push(Node::new(Text { content: "fn text() {}".to_string() }));
    root.children.push(paragraph);
    let mut fence = Node::new(CodeFence {
        info: "rust".to_string(),
        content: "fn main() {}\n".to_string(),
    });
    fence.attrs.push(("id".to_string(), "code".to_string()));
    root.children.push(fence);
    root.children.push(Node::new(CodeBlock { content: "plain <text>\n".to_string() }));
    root
}

#[test]
fn code_is_replaced_by_markup_with_inline_styles() {
    let md = MarkdownIt::new();
    let mut root = tree();
    SyntectRule::run(&mut root, &md);
    assert_eq!(root.children.len(), 3);
    assert!(root.children[0].is::<Paragraph>());
    assert_eq!(root.children[0].children[0].cast::<Text>().unwrap().content, "fn text() {}");
    let fence = &root.children[1];
    let html = &fence.cast::<SyntectSnippet>().unwrap().html;
    assert!(html.starts_with("<pre style=\"background-color:#ffffff;\">"), "{}", html);
    assert!(html.contains("<span style="));
    assert!(html.contains("main"));
    assert!(html.ends_with("</pre>\n"));
    assert_eq!(fence.attrs, vec![("id".to_string(), "code".to_string())]);
    let block = &root.children[2];
    let html = &block.cast::<SyntectSnippet>().unwrap().html;
    assert!(html.contains("plain &lt;text&gt;"), "{}", html);
    assert_eq!(root.children[1].render(), root.children[1].cast::<SyntectSnippet>().unwrap().html);
}

#[test]
fn the_theme_changes_the_markup() {
    let mut md = MarkdownIt::new();
    set_theme(&mut md, "base16-ocean.dark");
    let mut root = tree();
    SyntectRule::run(&mut root, &md);
    let html = &root.children[1].cast::<SyntectSnippet>().unwrap().html;
    assert!(html.starts_with("<pre style=\"background-color:#2b303b;\">"), "{}", html);
}

#[test]
fn an_unknown_theme_leaves_the_code_as_it_is() {
    let mut md = MarkdownIt::new();
    set_theme(&mut md, "no such theme");
    let mut root = tree();
    SyntectRule::run(&mut root, &md);
    assert_eq!(root.children[1].cast::<CodeFence>().unwrap().content, "fn main() {}\n");
    assert_eq!(root.children[2].cast::<CodeBlock>().unwrap().content, "plain <text>\n");
}

#[test]
fn classes_in_place_of_styles() {
    let mut md = MarkdownIt::new();
    use_css_classes(&mut md, ::syntect::html::ClassStyle::Spaced);
    let mut root = tree();
    SyntectRule::run(&mut root, &md);
    let html = &root.children[1].cast::<SyntectSnippet>().unwrap().html;
    assert!(html.starts_with("<span class=\"source rust\">"), "{}", html);
    assert!(!html.contains("style="));
    assert!(html.ends_with("</span>"));

    use_css_classes(&mut md, ::syntect::html::ClassStyle::SpacedPrefixed { prefix: "hl-" });
    let mut root = tree();
    SyntectRule::run(&mut root, &md);
    let html = &root.children[1].cast::<SyntectSnippet>().unwrap().html;
    assert!(html.starts_with("<span class=\"hl-source hl-rust\">"), "{}", html);
}

#[test]
fn an_unknown_language_is_plain_text() {
    let md = MarkdownIt::new();
    let mut node = Node::new(CodeFence {
        info: "no-such-language".to_string(),
        content: "a b\n".to_string(),
    });
    SyntectRule::run(&mut node, &md);
    let html = &node.cast::<SyntectSnippet>().unwrap().html;
    assert!(html.contains("a b"), "{}", html);
}

#[test]
fn the_mode_is_the_last_one_set() {
    let mut md = MarkdownIt::new();
    assert!(matches!(mode_of(&md), SyntectMode::InlineStyles { theme: "InspiredGitHub" }));
    assert!(matches!(
        SyntectSettings::default().0,
        SyntectMode::InlineStyles { theme: "InspiredGitHub" }
    ));
    set_theme(&mut md, "Solarized (dark)");
    assert!(matches!(mode_of(&md), SyntectMode::InlineStyles { theme: "Solarized (dark)" }));
    use_css_classes(&mut md, ::syntect::html::ClassStyle::Spaced);
    assert!(matches!(
        mode_of(&md),
        SyntectMode::CssClasses { class_style: ::syntect::html::ClassStyle::Spaced }
    ));
    set_theme(&mut md, "x");
    assert!(matches!(mode_of(&md), SyntectMode::InlineStyles { theme: "x" }));
    assert!(matches!(
        md.ext.get::<SyntectSettings>().map(|s| s.0),
        Some(SyntectMode::InlineStyles { theme: "x" })
    ));
}

#[test]
fn the_rule_is_registered_last() {
    let mut md = MarkdownIt::new();
    assert_eq!(markdown_it::plugins::extra::syntect::add(&mut md), Ok(()));
    assert_eq!(
        markdown_it::plugins::extra::syntect::add(&mut md),
        Err(RulerError::DuplicateName)
    );
    let order: Vec<CoreRule> = md.core.iterate().into_iter().copied().collect();
    assert_eq!(
        order,
        vec![CoreRule::Normalize, CoreRule::Block, CoreRule::Inline, CoreRule::Syntect]
    );
    markdown_it::plugins::sourcepos::add(&mut md).unwrap();
    let order: Vec<CoreRule> = md.core.iterate().into_iter().copied().collect();
    assert_eq!(
        order,
        vec![
            CoreRule::Normalize,
            CoreRule::Block,
            CoreRule::Inline,
            CoreRule::SyntaxPos,
            CoreRule::Syntect
        ]
    );
}

#[test]
fn code_of_names_content_and_language() {
    let root = tree();
    assert_eq!(code_of(&root), None);
    assert_eq!(code_of(&root.children[0]), None);
    let rust = "rust".to_string();
    let main = "fn main() {}\n".to_string();
    assert_eq!(code_of(&root.children[1]), Some((&main, Some(&rust))));
    let plain = "plain <text>\n".to_string();
    assert_eq!(code_of(&root.children[2]), Some((&plain, None)));
}

#[test]
fn apply_replaces_code_only_and_only_with_an_answer() {
    let mut root = tree();
    apply(&mut root.children[0], Some("<x>".to_string()));
    assert!(root.children[0].is::<Paragraph>());
    assert_eq!(root.children[0].children.len(), 1);
    apply(&mut root.children[1], None);
    assert!(root.children[1].is::<CodeFence>());
    apply(&mut root.children[1], Some("<x>".to_string()));
    assert_eq!(root.children[1].cast::<SyntectSnippet>().unwrap().html, "<x>");
    assert_eq!(root.children[1].attrs, vec![("id".to_string(), "code".to_string())]);
    apply(&mut root.children[2], Some(String::new()));
    assert_eq!(root.children[2].cast::<SyntectSnippet>().unwrap().html, "");
    // a snippet holds no code any more
    apply(&mut root.children[2], Some("again".to_string()));
    assert_eq!(root.children[2].cast::<SyntectSnippet>().unwrap().html, "");
}

#[test]
fn lines_keep_their_line_breaks() {
    assert_eq!(lines_with_endings("foo\nbar\nbaz"), vec!["foo\n", "bar\n", "baz"]);
    assert_eq!(lines_with_endings("foo\n"), vec!["foo\n"]);
    assert_eq!(lines_with_endings("\n\nx"), vec!["\n", "\n", "x"]);
    assert_eq!(lines_with_endings(""), Vec::<String>::new());
    let lines: Vec<String> = ::syntect::util::LinesWithEndings::from("a\n\nbé\nc")
        .map(|l| l.to_string())
        .collect();
    assert_eq!(lines_with_endings("a\n\nbé\nc"), lines);
}

struct Nothing;

impl NodeVisitor for Nothing {
    fn visit(&self, _node: &mut Node) {}
}

#[test]
fn highlighting_through_the_pipeline_keeps_other_nodes() {
    let mut md = MarkdownIt::new();
    markdown_it::plugins::cmark::add(&mut md).unwrap();
    markdown_it::plugins::extra::syntect::add(&mut md).unwrap();
    let root = md.parse("# title\n\ntext");
    assert_eq!(root.render(), "<h1>title</h1>\n<p>text</p>\n");
    let mut copy = md.parse("# title\n\ntext");
    copy.walk_mut(&Nothing);
    assert_eq!(copy.render(), root.render());
}

#[test]
fn the_answer_is_that_of_the_highlighter_for_the_chosen_syntax() {
    let ss = ::syntect::parsing::SyntaxSet::load_defaults_newlines();
    let ts = ::syntect::highlighting::ThemeSet::load_defaults();
    let code = "fn main() { let x = 1; }\n";
    let mode = SyntectMode::InlineStyles { theme: "InspiredGitHub" };
    let highlighter = Highlighter::new(&ss, &ts, mode);

    let rust = ss.find_syntax_by_token("rust").unwrap();
    let plain = ss.find_syntax_by_name("Plain Text").unwrap();
    let theme = &ts.themes["InspiredGitHub"];
    let as_rust = ::syntect::html::highlighted_html_for_string(code, &ss, rust, theme).unwrap();
    let as_plain = ::syntect::html::highlighted_html_for_string(code, &ss, plain, theme).unwrap();
    assert_ne!(as_rust, as_plain);

    // the fence's word chooses the syntax; no word and an unknown word mean plain text
    assert_eq!(highlighter.highlight(code, Some("rust")), Some(as_rust.clone()));
    assert_eq!(highlighter.highlight(code, Some("rs")), Some(as_rust));
    assert_eq!(highlighter.highlight(code, None), Some(as_plain.clone()));
    assert_eq!(highlighter.highlight(code, Some("no-such-language")), Some(as_plain));

    // without the theme there is no answer
    let lost = Highlighter::new(&ss, &ts, SyntectMode::InlineStyles { theme: "nope" });
    assert_eq!(lost.highlight(code, Some("rust")), None);
    let none = ::syntect::highlighting::ThemeSet::new();
    assert_eq!(Highlighter::new(&ss, &none, mode).highlight(code, Some("rust")), None);

    // without the syntax of plain text only known languages have an answer
    let empty = ::syntect::parsing::SyntaxSetBuilder::new().build();
    let poor = Highlighter::new(&empty, &ts, mode);
    assert_eq!(poor.highlight(code, None), None);
    assert_eq!(poor.highlight(code, Some("rust")), None);
}

#[test]
fn with_classes_each_line_is_read_once_and_in_order() {
    let ss = ::syntect::parsing::SyntaxSet::load_defaults_newlines();
    let ts = ::syntect::highlighting::ThemeSet::load_defaults();
    let code = "fn a() {}\n\nfn b() {}";
    let style = ::syntect::html::ClassStyle::Spaced;
    let rust = ss.find_syntax_by_token("rust").unwrap();
    let mut generator =
        ::syntect::html::ClassedHTMLGenerator::new_with_class_style(rust, &ss, style);
    for line in ["fn a() {}\n", "\n", "fn b() {}"] {
        generator.parse_html_for_line_which_includes_newline(line).unwrap();
    }
    let expected = generator.finalize();
    let highlighter = Highlighter::new(&ss, &ts, SyntectMode::CssClasses { class_style: style });
    assert_eq!(highlighter.highlight(code, Some("rust")), Some(expected));
    assert_eq!(highlighter.highlight("", Some("rust")), Some(String::new()));
}

#[test]
fn run_with_highlights_with_the_sets_it_is_given() {
    let ss = ::syntect::parsing::SyntaxSet::load_defaults_newlines();
    let ts = ::syntect::highlighting::ThemeSet::load_defaults();
    let mode = SyntectMode::InlineStyles { theme: "InspiredGitHub" };

    let mut root = Node::new(Root { content: "    x\n".to_string() });
    let mut code = Node::new(CodeBlock { content: "x\n".to_string() });
    code.attrs.push(("id".to_string(), "k".to_string()));
    code.srcmap = Some(markdown_it::common::sourcemap::SourcePos::new(0, 6));
    root.children.push(code);
    SyntectRule::run_with(&mut root, &ss, &ts, mode);
    assert!(root.is::<Root>());
    assert_eq!(root.children.len(), 1);
    let plain = ss.find_syntax_by_name("Plain Text").unwrap();
    let expected = ::syntect::html::highlighted_html_for_string(
        "x\n",
        &ss,
        plain,
        &ts.themes["InspiredGitHub"],
    )
    .unwrap();
    assert_eq!(root.children[0].cast::<SyntectSnippet>().unwrap().html, expected);
    assert_eq!(root.children[0].attrs, vec![("id".to_string(), "k".to_string())]);
    assert_eq!(
        root.children[0].srcmap,
        Some(markdown_it::common::sourcemap::SourcePos::new(0, 6))
    );

    // with no theme to be had every node stays as it is, and the walk goes on
    let none = ::syntect::highlighting::ThemeSet::new();
    let mut root = tree();
    SyntectRule::run_with(&mut root, &ss, &none, mode);
    assert!(root.children[1].is::<CodeFence>());
    assert!(root.children[2].is::<CodeBlock>());

    // a set that knows no plain text answers for the fence and not for the block
    let mut builder = ::syntect::parsing::SyntaxSetBuilder::new();
    builder.add(
        ::syntect::parsing::SyntaxDefinition::load_from_str(
            "name: Rust\nfile_extensions: [rust]\nscope: source.rust\ncontexts:\n  main: []\n",
            true,
            None,
        )
        .unwrap(),
    );
    let only_rust = builder.build();
    let mut root = tree();
    SyntectRule::run_with(&mut root, &only_rust, &ts, mode);
    assert!(root.children[0].is::<Paragraph>());
    assert!(root.children[1].is::<SyntectSnippet>());
    assert_eq!(root.children[2].cast::<CodeBlock>().unwrap().content, "plain <text>\n");
}
