use markdown_it::parser::engine::{LinkHooks, SetupError};
use markdown_it::parser::inline::Text;
use markdown_it::common::ruler::RulerError;
use markdown_it::common::sourcemap::{CharMapping, SourcePos};
use markdown_it::parser::inline::InlineState;
use markdown_it::parser::pipeline::Root;
use markdown_it::plugins::cmark::inline::autolink::{Autolink, AutolinkScanner};
use markdown_it::{MarkdownIt, Node};

fn engine() -> MarkdownIt {
    let mut md = MarkdownIt::new();
    markdown_it::plugins::cmark::add(&mut md).unwrap();
    md
}

fn links(root: &Node) -> Vec<&Node> {
    root.walk().into_iter().filter(|n| n.is::<Autolink>()).collect()
}

fn texts(root: &Node) -> Vec<String> {
    root.walk()
        .into_iter()
        .filter_map(|n| n.cast::<Text>().map(|t| t.content.clone()))
        .collect()
}

#[test]
fn a_link_with_a_scheme() {
    let root = engine().parse("<https://example.org>");
    let found = links(&root);
    assert_eq!(found.len(), 1);
    let link = found[0];
    assert_eq!(link.cast::<Autolink>().unwrap().url, "https://example.org");
    assert_eq!(link.children.len(), 1);
    assert_eq!(link.children[0].cast::<Text>().unwrap().content, "https://example.org");
    assert_eq!(link.srcmap, Some(SourcePos::new(0, 21)));
    assert_eq!(link.children[0].srcmap, Some(SourcePos::new(1, 20)));
    assert_eq!(
        root.render(),
        "<p><a href=\"https://example.org\">https://example.org</a></p>\n"
    );
}

#[test]
fn a_mail_address() {
    let root = engine().parse("<foo@bar.com>");
    let found = links(&root);
    assert_eq!(found.len(), 1);
    assert_eq!(found[0].cast::<Autolink>().unwrap().url, "mailto:foo@bar.com");
    assert_eq!(found[0].children.len(), 1);
    assert_eq!(found[0].children[0].cast::<Text>().unwrap().content, "foo@bar.com");
}

#[test]
fn without_a_terminator_the_bracket_is_text() {
    let root = engine().parse("<https://example.org");
    assert!(links(&root).is_empty());
    assert_eq!(texts(&root), vec!["<https://example.org"]);
    assert_eq!(root.render(), "<p>&lt;https://example.org</p>\n");
}

#[test]
fn a_nested_opener_makes_the_first_bracket_text() {
    let root = engine().parse("<<https://x>");
    let found = links(&root);
    assert_eq!(found.len(), 1);
    assert_eq!(found[0].cast::<Autolink>().unwrap().url, "https://x");
    assert_eq!(texts(&root), vec!["<", "https://x"]);
    assert_eq!(found[0].srcmap, Some(SourcePos::new(1, 12)));

    let root = engine().parse("<a<b>");
    assert!(links(&root).is_empty());
    assert_eq!(texts(&root), vec!["<a<b>"]);
}

#[test]
fn text_around_a_link_is_kept_in_order() {
    let root = engine().parse("see <http://a.b> and <x@y.z>!");
    assert_eq!(
        texts(&root),
        vec!["see ", "http://a.b", " and ", "x@y.z", "!"]
    );
    let found = links(&root);
    assert_eq!(found.len(), 2);
    assert_eq!(found[0].cast::<Autolink>().unwrap().url, "http://a.b");
    assert_eq!(found[1].cast::<Autolink>().unwrap().url, "mailto:x@y.z");
    assert_eq!(
        root.render(),
        "<p>see <a href=\"http://a.b\">http://a.b</a> and <a href=\"mailto:x@y.z\">x@y.z</a>!</p>\n"
    );
}

#[test]
fn what_matches_no_pattern_is_text() {
    for src in ["<not a link>", "<>", "<a>", "<http://a b>", "<1x://y>", "<@>"] {
        let root = engine().parse(src);
        assert!(links(&root).is_empty(), "{:?}", src);
        assert_eq!(texts(&root), vec![src.to_string()]);
    }
}

#[test]
fn spans_are_in_bytes() {
    let root = engine().parse("é <https://é.org>");
    let found = links(&root);
    assert_eq!(found.len(), 1);
    assert_eq!(found[0].srcmap, Some(SourcePos::new(3, 19)));
    assert_eq!(found[0].children[0].srcmap, Some(SourcePos::new(4, 18)));
}

struct Picky;

impl LinkHooks for Picky {
    fn normalize_link(&self, url: &str) -> String {
        url.to_lowercase()
    }

    fn validate_link(&self, url: &str) -> bool {
        !url.starts_with("javascript:")
    }

    fn normalize_link_text(&self, url: &str) -> String {
        format!("[{}]", url)
    }
}

#[test]
fn the_hooks_decide_target_text_and_whether_there_is_a_link() {
    let mut md = MarkdownIt::with_hooks(Picky);
    markdown_it::plugins::cmark::add(&mut md).unwrap();

    let root = md.parse("<HTTPS://Example.ORG>");
    let found = links(&root);
    assert_eq!(found.len(), 1);
    assert_eq!(found[0].cast::<Autolink>().unwrap().url, "https://example.org");
    assert_eq!(found[0].children[0].cast::<Text>().unwrap().content, "[HTTPS://Example.ORG]");

    let root = md.parse("<JavaScript:alert(1)> <Foo@Bar.com>");
    let found = links(&root);
    assert_eq!(found.len(), 1);
    assert_eq!(found[0].cast::<Autolink>().unwrap().url, "mailto:foo@bar.com");
    assert_eq!(texts(&root), vec!["<JavaScript:alert(1)> ", "[Foo@Bar.com]"]);
}

#[test]
fn link_builds_target_and_text() {
    let hooks = markdown_it::parser::engine::DefaultHooks;
    assert_eq!(
        AutolinkScanner::link(&hooks, "a@b.c", false),
        Some(("mailto:a@b.c".to_string(), "a@b.c".to_string()))
    );
    assert_eq!(
        AutolinkScanner::link(&hooks, "x:y", true),
        Some(("x:y".to_string(), "x:y".to_string()))
    );
    assert_eq!(AutolinkScanner::link(&Picky, "javascript:x", true), None);
}

#[test]
fn the_scanner_keeps_its_patterns() {
    let scanner = AutolinkScanner::new().unwrap();
    let (uri, email) = scanner.patterns();
    assert_eq!(uri, r"^([a-zA-Z][a-zA-Z0-9+.\-]{1,31}):([^<>\x00-\x20]*)$");
    assert!(email.starts_with("^([a-zA-Z0-9.!#$%&'*+/=?^_`{|}~-]+@"));
}

#[test]
fn registering_twice_is_refused() {
    let mut md = MarkdownIt::new();
    assert_eq!(markdown_it::plugins::cmark::inline::autolink::add(&mut md), Ok(()));
    assert_eq!(
        markdown_it::plugins::cmark::inline::autolink::add(&mut md),
        Err(SetupError::Ruler(RulerError::DuplicateName))
    );
    assert_eq!(md.inline.ruler.len(), 1);
    assert_eq!(
        markdown_it::plugins::cmark::add(&mut md),
        Err(SetupError::Ruler(RulerError::DuplicateName))
    );
    assert_eq!(md.block.ruler.len(), 0);
}

#[test]
fn a_disabled_rule_does_not_run() {
    let mut md = engine();
    md.inline.ruler.disable("autolink").unwrap();
    let root = md.parse("<https://example.org>");
    assert!(links(&root).is_empty());
    assert_eq!(texts(&root), vec!["<https://example.org>"]);
    md.inline.ruler.enable("autolink").unwrap();
    assert_eq!(links(&md.parse("<https://example.org>")).len(), 1);
}

#[test]
fn at_a_nested_opener_the_rule_declines_and_consumes_nothing() {
    let md = engine();
    let scanner = AutolinkScanner::new().unwrap();
    for text in ["<<https://x>", "<https://example.org", "<a<https://x>", "<"] {
        let src = CharMapping::new(text);
        let holder = Node::new(Root { content: String::new() });
        let mut state = InlineState::new(&md, &src, 0, src.len(), holder);
        assert!(!scanner.run(&mut state, false), "{:?}", text);
        assert!(!scanner.run(&mut state, true), "{:?}", text);
        assert_eq!((state.pos, state.pending), (0, 0));
        assert!(state.node.children.is_empty());
    }
}

#[test]
fn silent_the_rule_matches_without_a_change() {
    let md = engine();
    let scanner = AutolinkScanner::new().unwrap();
    let src = CharMapping::new("<<https://x>");
    let holder = Node::new(Root { content: String::new() });
    let mut state = InlineState::new(&md, &src, 0, src.len(), holder);
    state.pos = 1;
    assert!(scanner.run(&mut state, true));
    assert_eq!((state.pos, state.pending), (1, 0));
    assert!(state.node.children.is_empty());
    assert!(scanner.run(&mut state, false));
    assert_eq!((state.pos, state.pending), (12, 0));
    assert_eq!(state.node.children.len(), 2);
    assert_eq!(state.node.children[0].cast::<Text>().unwrap().content, "<");
    assert_eq!(state.node.children[1].cast::<Autolink>().unwrap().url, "https://x");
    // behind the end of the run, and with a cursor outside of it, there is no match
    assert!(!scanner.run(&mut state, false));
    state.pos = 1;
    state.pos_max = 400;
    assert!(!scanner.run(&mut state, false));
    assert_eq!(state.node.children.len(), 2);
}

#[test]
fn a_scanner_needs_both_patterns_compiled() {
    assert!(AutolinkScanner::from_compiled(regex::Regex::new("("), regex::Regex::new("b")).is_none());
    assert!(AutolinkScanner::from_compiled(regex::Regex::new("a"), regex::Regex::new("[")).is_none());
    assert!(AutolinkScanner::from_compiled(regex::Regex::new("("), regex::Regex::new("[")).is_none());
    let scanner =
        AutolinkScanner::from_compiled(regex::Regex::new("^a+$"), regex::Regex::new("^b@c$"))
            .unwrap();
    assert_eq!(scanner.patterns(), ("^a+$", "^b@c$"));
    assert!(AutolinkScanner::new().is_some());

    // the scanner matches with the patterns that it was made from
    let md = engine();
    let src = CharMapping::new("<aaa> <b@c> <https://x>");
    let holder = Node::new(Root { content: String::new() });
    let mut state = InlineState::new(&md, &src, 0, src.len(), holder);
    assert!(scanner.run(&mut state, false));
    assert_eq!(state.node.children[0].cast::<Autolink>().unwrap().url, "aaa");
    state.pos = 6;
    assert!(scanner.run(&mut state, false));
    assert_eq!(state.node.children[2].cast::<Autolink>().unwrap().url, "mailto:b@c");
    state.pos = 12;
    assert!(!scanner.run(&mut state, false));
}
