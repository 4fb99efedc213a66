use markdown_it::common::sourcemap::SourcePos;
use markdown_it::parser::inline::Text;
use markdown_it::parser::node::NodeVisitor;
use markdown_it::parser::pipeline::Root;
use markdown_it::plugins::cmark::block::code::CodeBlock;
use markdown_it::plugins::cmark::block::fence::CodeFence;
use markdown_it::plugins::cmark::block::heading::ATXHeading;
use markdown_it::plugins::cmark::block::hr::ThematicBreak;
use markdown_it::plugins::cmark::block::paragraph::Paragraph;
use markdown_it::plugins::cmark::inline::autolink::Autolink;
use markdown_it::plugins::extra::syntect::SyntectSnippet;
use markdown_it::{HtmlRenderer, Node};

fn text(content: &str) -> Node {
    Node::new(Text { content: content.to_string() })
}

fn tree() -> Node {
    let mut root = Node::new(Root { content: String::new() });
    let mut first = Node::new(Paragraph);
    first.children.push(text("a"));
    first.children.push(text("b"));
    let mut second = Node::new(ATXHeading { level: 2 });
    second.children.push(text("c"));
    root.children.push(first);
    root.children.push(second);
    root.children.push(Node::new(ThematicBreak { marker: '*', marker_len: 3 }));
    root
}

#[test]
fn new_makes_a_leaf() {
    let node = Node::new(Autolink { url: "x".to_string() });
    assert!(node.children.is_empty());
    assert!(node.attrs.is_empty());
    assert!(node.srcmap.is_none());
    assert_eq!(node.cast::<Autolink>().unwrap().url, "x");
}

#[test]
fn cast_gives_the_payload_of_the_asked_kind_only() {
    let node = Node::new(ThematicBreak { marker: '-', marker_len: 5 });
    let hr = node.cast::<ThematicBreak>().unwrap();
    assert_eq!(hr.marker, '-');
    assert_eq!(hr.marker_len, 5);
    assert!(node.cast::<Text>().is_none());
    assert!(node.cast::<Paragraph>().is_none());
    assert!(node.is::<ThematicBreak>());
    assert!(!node.is::<Root>());
}

#[test]
fn replace_changes_the_payload_and_nothing_else() {
    let mut root = tree();
    {
        let node = &mut root.children[0];
        node.attrs.push(("class".to_string(), "x".to_string()));
        node.attrs.push(("class".to_string(), "y".to_string()));
        node.srcmap = Some(SourcePos::new(3, 9));
        node.replace(SyntectSnippet { html: "<b>".to_string() });
    }
    assert_eq!(root.children.len(), 3);
    let node = &root.children[0];
    assert_eq!(node.cast::<SyntectSnippet>().unwrap().html, "<b>");
    assert!(!node.is::<Paragraph>());
    assert_eq!(
        node.attrs,
        vec![("class".to_string(), "x".to_string()), ("class".to_string(), "y".to_string())]
    );
    assert_eq!(node.srcmap, Some(SourcePos::new(3, 9)));
    assert_eq!(node.children.len(), 2);
    assert_eq!(node.children[0].cast::<Text>().unwrap().content, "a");
    assert_eq!(node.children[1].cast::<Text>().unwrap().content, "b");
    assert!(root.children[1].is::<ATXHeading>());
    assert!(root.children[2].is::<ThematicBreak>());
}

#[test]
fn walk_meets_a_node_before_its_children() {
    let root = tree();
    let kinds: Vec<String> = root
        .walk()
        .into_iter()
        .map(|n| {
            if n.is::<Root>() {
                "root".to_string()
            } else if n.is::<Paragraph>() {
                "p".to_string()
            } else if n.is::<ATXHeading>() {
                "h".to_string()
            } else if n.is::<ThematicBreak>() {
                "hr".to_string()
            } else {
                n.cast::<Text>().unwrap().content.clone()
            }
        })
        .collect();
    assert_eq!(kinds, vec!["root", "p", "a", "b", "h", "c", "hr"]);
}

struct Shout;

impl NodeVisitor for Shout {
    fn visit(&self, node: &mut Node) {
        let replaced = node.cast::<Text>().map(|t| t.content.to_uppercase());
        if let Some(content) = replaced {
            node.replace(Text { content });
        }
    }
}

#[test]
fn walk_mut_visits_every_node_in_its_place() {
    let mut root = tree();
    root.walk_mut(&Shout);
    assert_eq!(root.render(), "<p>AB</p>\n<h2>C</h2>\n<hr>\n");
}

#[test]
fn render_follows_the_payloads() {
    assert_eq!(tree().render(), "<p>ab</p>\n<h2>c</h2>\n<hr>\n");
    assert_eq!(text("a < b & \"c\" > d").render(), "a &lt; b &amp; &quot;c&quot; &gt; d");
    assert_eq!(Node::new(SyntectSnippet { html: "<i>&</i>".to_string() }).render(), "<i>&</i>");
    assert_eq!(
        Node::new(CodeBlock { content: "a<b\n".to_string() }).render(),
        "<pre><code>a&lt;b\n</code></pre>\n"
    );
    assert_eq!(
        Node::new(CodeFence { info: "rust".to_string(), content: "x\n".to_string() }).render(),
        "<pre><code class=\"language-rust\">x\n</code></pre>\n"
    );
    assert_eq!(
        Node::new(CodeFence { info: String::new(), content: "x\n".to_string() }).render(),
        "<pre><code>x\n</code></pre>\n"
    );
}

#[test]
fn a_snippet_does_not_render_its_children() {
    let mut node = Node::new(SyntectSnippet { html: "<pre>x</pre>".to_string() });
    node.children.push(text("hidden"));
    assert_eq!(node.render(), "<pre>x</pre>");
}

#[test]
fn a_link_renders_its_target_behind_its_attributes() {
    let mut link = Node::new(Autolink { url: "https://example.org/?a=1&b=2".to_string() });
    link.attrs.push(("class".to_string(), "ext".to_string()));
    link.children.push(text("here"));
    assert_eq!(
        link.render(),
        "<a class=\"ext\" href=\"https://example.org/?a=1&amp;b=2\">here</a>"
    );
}

#[test]
fn renderer_operations() {
    let mut fmt = HtmlRenderer::new();
    fmt.cr();
    fmt.open("div", &vec![("id".to_string(), "a\"b".to_string())]);
    fmt.cr();
    fmt.cr();
    fmt.text("1 < 2");
    fmt.text_raw("<br>");
    fmt.self_close("img", &vec![("src".to_string(), "x.png".to_string()), ("alt".to_string(), "".to_string())]);
    fmt.close("div");
    fmt.cr();
    assert_eq!(
        fmt.finish(),
        "<div id=\"a&quot;b\">\n1 &lt; 2<br><img src=\"x.png\" alt=\"\"></div>\n"
    );
}
