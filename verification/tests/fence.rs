use markdown_it::common::sourcemap::{CharMapping, SourcePos};
use markdown_it::parser::block::BlockState;
use markdown_it::parser::pipeline::Root;
use markdown_it::plugins::cmark::block::fence::CodeFence;
use markdown_it::plugins::extra::syntect::SyntectSnippet;
use markdown_it::{MarkdownIt, Node};

fn engine() -> MarkdownIt {
    let mut md = MarkdownIt::new();
    markdown_it::plugins::cmark::add(&mut md).unwrap();
    md
}

fn fences(root: &Node) -> Vec<(String, String)> {
    root.walk()
        .into_iter()
        .filter_map(|n| n.cast::<CodeFence>().map(|f| (f.info.clone(), f.content.clone())))
        .collect()
}

#[test]
fn a_fence_holds_the_lines_between_its_markers() {
    let root = engine().parse("```rust\nfn main() {}\nlet x = 1;\n```\nafter");
    assert_eq!(
        fences(&root),
        vec![("rust".to_string(), "fn main() {}\nlet x = 1;\n".to_string())]
    );
    assert_eq!(root.children.len(), 2);
    assert_eq!(root.children[0].srcmap, Some(SourcePos::new(0, 35)));
    assert_eq!(
        root.render(),
        "<pre><code class=\"language-rust\">fn main() {}\nlet x = 1;\n</code></pre>\n<p>after</p>\n"
    );
}

#[test]
fn tildes_and_longer_fences() {
    let root = engine().parse("~~~~\n```\n~~~\n~~~~~  \nx");
    assert_eq!(fences(&root), vec![(String::new(), "```\n~~~\n".to_string())]);
    assert_eq!(root.render(), "<pre><code>```\n~~~\n</code></pre>\n<p>x</p>\n");
}

#[test]
fn a_fence_that_is_not_closed_reaches_to_the_end() {
    let root = engine().parse("text\n```  sh  \necho <hi>\n\n# no heading");
    assert_eq!(
        fences(&root),
        vec![("sh".to_string(), "echo <hi>\n\n# no heading".to_string())]
    );
    assert_eq!(root.children.len(), 2);
    assert_eq!(root.children[1].srcmap, Some(SourcePos::new(5, 38)));
    let root = engine().parse("```");
    assert_eq!(fences(&root), vec![(String::new(), String::new())]);
    let root = engine().parse("```\n");
    assert_eq!(fences(&root), vec![(String::new(), String::new())]);
}

#[test]
fn what_is_no_fence() {
    for src in ["``", "    ```", "`` `", "x```", "~~"] {
        assert!(fences(&engine().parse(src)).is_empty(), "{:?}", src);
    }
    // a closing fence holds nothing but its markers
    let root = engine().parse("```\na\n``` b\n```");
    assert_eq!(fences(&root), vec![(String::new(), "a\n``` b\n".to_string())]);
    // and is as long as the opening one
    let root = engine().parse("````\na\n```\n````");
    assert_eq!(fences(&root), vec![(String::new(), "a\n```\n".to_string())]);
}

#[test]
fn the_rule_is_silent_on_request() {
    let md = engine();
    let src = CharMapping::new("```\ncode\n```\n");
    let mut state = BlockState::new(&md, &src, Node::new(Root { content: String::new() }));
    assert!(markdown_it::plugins::cmark::block::fence::rule(&mut state, true));
    assert_eq!(state.line, 0);
    assert!(state.node.children.is_empty());
    assert!(markdown_it::plugins::cmark::block::fence::rule(&mut state, false));
    assert_eq!(state.line, 3);
    assert_eq!(state.node.children.len(), 1);
    assert!(!markdown_it::plugins::cmark::block::fence::rule(&mut state, false));
    assert!(markdown_it::plugins::cmark::block::fence::closes(&state, 2, '`', 3));
    assert!(!markdown_it::plugins::cmark::block::fence::closes(&state, 2, '`', 4));
    assert!(!markdown_it::plugins::cmark::block::fence::closes(&state, 1, '`', 3));
    assert!(markdown_it::plugins::cmark::block::fence::check(&state, 1).is_none());
    let open = markdown_it::plugins::cmark::block::fence::check(&state, 0).unwrap();
    assert_eq!((open.marker, open.len, open.info_start, open.info_end), ('`', 3, 3, 3));
}

#[test]
fn indented_code_is_highlighted_as_plain_text() {
    let mut md = engine();
    markdown_it::plugins::extra::syntect::add(&mut md).unwrap();
    let root = md.parse("    a < b\n");
    let html = &root.children[0].cast::<SyntectSnippet>().unwrap().html;
    assert!(html.contains("a &lt; b"), "{}", html);
    assert_eq!(root.render(), *html);
}

#[test]
fn fenced_code_is_highlighted_by_the_pipeline() {
    let mut md = engine();
    markdown_it::plugins::extra::syntect::add(&mut md).unwrap();
    markdown_it::plugins::sourcepos::add(&mut md).unwrap();
    let root = md.parse("# code\n\n```rust\nfn main() {}\n```\n");
    assert_eq!(root.children.len(), 2);
    let code = &root.children[1];
    let html = &code.cast::<SyntectSnippet>().unwrap().html;
    assert!(html.starts_with("<pre style=\"background-color:#ffffff;\">"), "{}", html);
    assert!(html.contains("main"));
    assert_eq!(
        code.attrs,
        vec![("data-sourcepos".to_string(), "3:1-5:3".to_string())]
    );
    assert_eq!(code.srcmap, Some(SourcePos::new(8, 32)));
    let out = root.render();
    assert!(out.starts_with("<h1 data-sourcepos=\"1:1-1:6\">code</h1>\n<pre style="), "{}", out);
}
