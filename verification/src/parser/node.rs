//! The document tree: nodes, their payloads, and how a tree is walked and
//! rendered.
use vstd::prelude::*;
use vstd::string::*;
use crate::common::sourcemap::SourcePos;
use crate::common::text::digit;
use crate::parser::inline::{InlineRoot, Text};
use crate::parser::pipeline::Root;
use crate::parser::renderer::{attrs_view, broken, closed, opened, with_raw, with_text, HtmlRenderer};
use crate::plugins::cmark::block::code::CodeBlock;
use crate::plugins::cmark::block::fence::CodeFence;
use crate::plugins::cmark::block::heading::ATXHeading;
use crate::plugins::cmark::block::hr::ThematicBreak;
use crate::plugins::cmark::block::paragraph::Paragraph;
use crate::plugins::cmark::inline::autolink::Autolink;
use crate::plugins::extra::syntect::SyntectSnippet;

verus! {

/// What a node carries: exactly one of the kinds of content that the tree
/// knows.
pub enum Payload {
    Root(Root),
    Paragraph(Paragraph),
    ATXHeading(ATXHeading),
    ThematicBreak(ThematicBreak),
    CodeBlock(CodeBlock),
    CodeFence(CodeFence),
    InlineRoot(InlineRoot),
    Text(Text),
    Autolink(Autolink),
    SyntectSnippet(SyntectSnippet),
}

/// A payload as the contracts see it: its kind and its data, texts as
/// sequences of code points.
pub ghost enum PayloadView {
    Root { content: Seq<char> },
    Paragraph,
    ATXHeading { level: u8 },
    ThematicBreak { marker: char, marker_len: usize },
    CodeBlock { content: Seq<char> },
    CodeFence { info: Seq<char>, content: Seq<char> },
    InlineRoot { start: usize, end: usize },
    Text { content: Seq<char> },
    Autolink { url: Seq<char> },
    SyntectSnippet { html: Seq<char> },
}

impl View for Payload {
    type V = PayloadView;

    open spec fn view(&self) -> PayloadView {
        match *self {
            Payload::Root(v) => v@,
            Payload::Paragraph(v) => v@,
            Payload::ATXHeading(v) => v@,
            Payload::ThematicBreak(v) => v@,
            Payload::CodeBlock(v) => v@,
            Payload::CodeFence(v) => v@,
            Payload::InlineRoot(v) => v@,
            Payload::Text(v) => v@,
            Payload::Autolink(v) => v@,
            Payload::SyntectSnippet(v) => v@,
        }
    }
}

/// A kind of payload: a type whose values a node can carry.
pub trait NodeValue: Sized + View<V = PayloadView> {
    /// True for the payloads of this kind.
    spec fn is_kind(p: PayloadView) -> bool;

    /// The value as a payload.
    fn into_payload(self) -> (p: Payload)
        ensures
            p@ == self@,
            Self::is_kind(p@),
    ;

    /// The payload as a value of this kind, where it is one.
    fn from_payload(p: &Payload) -> (r: Option<&Self>)
        ensures
            r is Some <==> Self::is_kind(p@),
            r matches Some(v) ==> v@ == p@,
    ;
}

/// A node of the document tree. It owns its children.
pub struct Node {
    /// What the node carries.
    pub value: Payload,
    /// Attributes in the order in which they are rendered; a name may occur
    /// more than once.
    pub attrs: Vec<(String, String)>,
    /// The children, in document order.
    pub children: Vec<Node>,
    /// The bytes of the source that the node was made from.
    pub srcmap: Option<SourcePos>,
}

/// A node as the contracts see it.
pub ghost struct NodeView {
    pub value: PayloadView,
    pub attrs: Seq<(Seq<char>, Seq<char>)>,
    pub children: Seq<NodeView>,
    pub srcmap: Option<SourcePos>,
}

/// The nodes `nodes` as the contracts see them.
pub open spec fn views(nodes: Seq<Node>) -> Seq<NodeView> {
    Seq::new(nodes.len(), |i: int| nodes[i]@)
}

/// The nodes that `nodes` refer to as the contracts see them.
pub open spec fn ref_views(nodes: Seq<&Node>) -> Seq<NodeView> {
    Seq::new(nodes.len(), |i: int| nodes[i]@)
}

impl View for Node {
    type V = NodeView;

    open spec fn view(&self) -> NodeView {
        self.model()
    }
}

impl Node {
    /// The node as the contracts see it: its payload, its attributes and
    /// its children by their views.
    pub open spec fn model(self) -> NodeView
        decreases self,
    {
        NodeView {
            value: self.value@,
            attrs: attrs_view(self.attrs@),
            children: Seq::new(
                self.children@.len(),
                |i: int|
                    if 0 <= i < self.children@.len() {
                        self.children@[i].model()
                    } else {
                        arbitrary()
                    },
            ),
            srcmap: self.srcmap,
        }
    }
}

/// A leaf: the payload `value` without attributes, children or span.
pub open spec fn leaf(value: PayloadView) -> NodeView {
    NodeView { value, attrs: Seq::empty(), children: Seq::empty(), srcmap: None }
}

/// The node `n` with the payload `value` in place of its own.
pub open spec fn with_value(n: NodeView, value: PayloadView) -> NodeView {
    NodeView { value, attrs: n.attrs, children: n.children, srcmap: n.srcmap }
}

/// The node `n` with the children `children` in place of its own.
pub open spec fn with_children(n: NodeView, children: Seq<NodeView>) -> NodeView {
    NodeView { value: n.value, attrs: n.attrs, children, srcmap: n.srcmap }
}

/// The node `n` with one more attribute at the end.
pub open spec fn with_attr(n: NodeView, name: Seq<char>, value: Seq<char>) -> NodeView {
    NodeView {
        value: n.value,
        attrs: n.attrs.push((name, value)),
        children: n.children,
        srcmap: n.srcmap,
    }
}

/// The tag of a heading of level `level`.
pub open spec fn heading_tag(level: u8) -> Seq<char> {
    seq!['h', digit(level as nat)]
}

/// The attributes of the `code` element of a fenced block: its language as
/// a class, where the fence names one.
pub open spec fn fence_attrs(info: Seq<char>) -> Seq<(Seq<char>, Seq<char>)> {
    if info.len() == 0 {
        Seq::empty()
    } else {
        seq![
            (
                seq!['c', 'l', 'a', 's', 's'],
                seq!['l', 'a', 'n', 'g', 'u', 'a', 'g', 'e', '-'] + info,
            ),
        ]
    }
}

/// `out` followed by a block of code: `content` inside `pre` and `code`.
pub open spec fn code_rendered(
    out: Seq<char>,
    attrs: Seq<(Seq<char>, Seq<char>)>,
    code_attrs: Seq<(Seq<char>, Seq<char>)>,
    content: Seq<char>,
) -> Seq<char> {
    let pre = seq!['p', 'r', 'e'];
    let code = seq!['c', 'o', 'd', 'e'];
    broken(
        closed(
            closed(with_text(opened(opened(broken(out), pre, attrs), code, code_attrs), content), code),
            pre,
        ),
    )
}

/// What the renderer holds after the node `n` was rendered into it, when it
/// held `out` before. Each kind of payload decides what is written and
/// whether the children are rendered.
pub open spec fn rendered(out: Seq<char>, n: NodeView) -> Seq<char>
    decreases n,
{
    match n.value {
        PayloadView::Root { content } => rendered_all(out, n.children),
        PayloadView::Paragraph => broken(
            closed(rendered_all(opened(broken(out), seq!['p'], n.attrs), n.children), seq!['p']),
        ),
        PayloadView::ATXHeading { level } => broken(
            closed(
                rendered_all(opened(broken(out), heading_tag(level), n.attrs), n.children),
                heading_tag(level),
            ),
        ),
        PayloadView::ThematicBreak { marker, marker_len } => broken(
            opened(broken(out), seq!['h', 'r'], n.attrs),
        ),
        PayloadView::CodeBlock { content } => code_rendered(out, n.attrs, Seq::empty(), content),
        PayloadView::CodeFence { info, content } => code_rendered(
            out,
            n.attrs,
            fence_attrs(info),
            content,
        ),
        PayloadView::InlineRoot { start, end } => rendered_all(out, n.children),
        PayloadView::Text { content } => with_text(out, content),
        PayloadView::Autolink { url } => closed(
            rendered_all(
                opened(out, seq!['a'], n.attrs.push((seq!['h', 'r', 'e', 'f'], url))),
                n.children,
            ),
            seq!['a'],
        ),
        PayloadView::SyntectSnippet { html } => with_raw(out, html),
    }
}

/// What the renderer holds after the nodes `nodes` were rendered into it
/// one after the other.
pub open spec fn rendered_all(out: Seq<char>, nodes: Seq<NodeView>) -> Seq<char>
    decreases nodes,
{
    if nodes.len() == 0 {
        out
    } else {
        rendered(rendered_all(out, nodes.drop_last()), nodes.last())
    }
}

/// The nodes of the tree `n` in the order in which a walk meets them: a
/// node before its children, the children in document order.
pub open spec fn preorder(n: NodeView) -> Seq<NodeView>
    decreases n,
{
    seq![n] + preorder_all(n.children)
}

/// The nodes of the trees `nodes`, each tree in the order of a walk.
pub open spec fn preorder_all(nodes: Seq<NodeView>) -> Seq<NodeView>
    decreases nodes,
{
    if nodes.len() == 0 {
        Seq::empty()
    } else {
        preorder_all(nodes.drop_last()) + preorder(nodes.last())
    }
}

/// Something that a walk hands each node to, and that may change the node
/// but not its children.
pub trait NodeVisitor {
    /// True when a visit may turn the node `before` into the node `after`.
    /// Unless an implementation says otherwise, a visit may make anything
    /// of the node but for its children.
    open spec fn visits(&self, before: NodeView, after: NodeView) -> bool {
        true
    }

    /// Visits one node.
    fn visit(&self, node: &mut Node)
        ensures
            self.visits(old(node)@, final(node)@),
            final(node).children == old(node).children,
    ;
}

/// True when a walk of the tree `before` with the visitor `v` may end with
/// the tree `after`: the tree keeps its shape, and each node is what a visit
/// made of the node that stood in its place.
pub open spec fn walked<V: NodeVisitor>(v: &V, before: NodeView, after: NodeView) -> bool
    decreases before,
{
    &&& v.visits(before, with_children(after, before.children))
    &&& after.children.len() == before.children.len()
    &&& forall|i: int|
        0 <= i < before.children.len() ==> walked(v, before.children[i], #[trigger] after.children[i])
}

impl Node {
    /// A leaf that carries `value`.
    pub fn new<T: NodeValue>(value: T) -> (r: Node)
        ensures
            r@ == leaf(value@),
            T::is_kind(r@.value),
    {
        let r = Node {
            value: value.into_payload(),
            attrs: Vec::new(),
            children: Vec::new(),
            srcmap: None,
        };
        assert(r@.attrs =~= Seq::empty());
        assert(r@.children =~= Seq::empty());
        r
    }

    /// True when the node carries a payload of the kind `T`.
    pub fn is<T: NodeValue>(&self) -> (b: bool)
        ensures
            b == T::is_kind(self@.value),
    {
        T::from_payload(&self.value).is_some()
    }

    /// The payload as a value of the kind `T`; `None` where the node
    /// carries another kind.
    pub fn cast<T: NodeValue>(&self) -> (r: Option<&T>)
        ensures
            r is Some <==> T::is_kind(self@.value),
            r matches Some(v) ==> v@ == self@.value,
    {
        T::from_payload(&self.value)
    }

    /// Puts `value` in the place of the node's payload. Attributes,
    /// children and span stay as they are.
    pub fn replace<T: NodeValue>(&mut self, value: T)
        ensures
            final(self)@ == with_value(old(self)@, value@),
            T::is_kind(final(self)@.value),
            final(self).attrs == old(self).attrs,
            final(self).children == old(self).children,
            final(self).srcmap == old(self).srcmap,
    {
        self.value = value.into_payload();
    }

    /// Walks the tree and hands each node to `v`: a node before its
    /// children, the children in document order. No node moves.
    pub fn walk_mut<V: NodeVisitor>(&mut self, v: &V)
        ensures
            walked(v, old(self)@, final(self)@),
        decreases *old(self),
    {
        v.visit(self);
        let ghost mid = self@;
        let n: usize = self.children.len();
        let mut i: usize = 0;
        while i < n
            invariant
                i <= n,
                n == self.children@.len(),
                n == old(self).children@.len(),
                with_children(self@, mid.children) == mid,
                mid.children =~= old(self)@.children,
                forall|j: int|
                    0 <= j < i ==> walked(
                        v,
                        old(self).children@[j]@,
                        (#[trigger] self.children@[j])@,
                    ),
                forall|j: int| i <= j < n ==> #[trigger] self.children@[j] == old(self).children@[j],
            decreases n - i,
        {
            self.children[i].walk_mut(v);
            i = i + 1;
        }
        proof {
            assert(with_children(self@, old(self)@.children) == mid);
            assert forall|j: int| 0 <= j < old(self)@.children.len() implies walked(
                v,
                old(self)@.children[j],
                #[trigger] self@.children[j],
            ) by {
                assert(walked(v, old(self).children@[j]@, self.children@[j]@));
            }
        }
    }

    /// The nodes of the tree in the order of a walk: a node before its
    /// children, the children in document order.
    pub fn walk(&self) -> (r: Vec<&Node>)
        ensures
            ref_views(r@) == preorder(self@),
    {
        let mut out: Vec<&Node> = Vec::new();
        self.collect(&mut out);
        assert(ref_views(out@) =~= preorder(self@));
        out
    }

    fn collect<'a>(&'a self, out: &mut Vec<&'a Node>)
        ensures
            ref_views(final(out)@) == ref_views(old(out)@) + preorder(self@),
        decreases self,
    {
        out.push(self);
        assert(ref_views(out@) =~= ref_views(old(out)@) + seq![self@]);
        let n: usize = self.children.len();
        let mut i: usize = 0;
        while i < n
            invariant
                i <= n,
                n == self.children@.len(),
                ref_views(out@) == ref_views(old(out)@) + seq![self@] + preorder_all(
                    self@.children.take(i as int),
                ),
            decreases n - i,
        {
            let ghost before = ref_views(out@);
            proof {
                let kids = self@.children;
                assert(kids.take(i + 1).drop_last() =~= kids.take(i as int));
                assert(kids.take(i + 1).last() == self.children@[i as int]@);
            }
            self.children[i].collect(out);
            proof {
                assert(ref_views(out@) =~= ref_views(old(out)@) + seq![self@] + preorder_all(
                    self@.children.take(i + 1),
                ));
            }
            i = i + 1;
        }
        proof {
            assert(self@.children.take(n as int) =~= self@.children);
            assert(ref_views(out@) =~= ref_views(old(out)@) + preorder(self@));
        }
    }

    /// Writes the children `nodes` into `fmt`, one after the other.
    pub fn render_all(nodes: &Vec<Node>, fmt: &mut HtmlRenderer)
        ensures
            final(fmt)@ == rendered_all(old(fmt)@, views(nodes@)),
        decreases nodes, 2int,
    {
        let n: usize = nodes.len();
        let mut i: usize = 0;
        while i < n
            invariant
                i <= n,
                n == nodes@.len(),
                fmt@ == rendered_all(old(fmt)@, views(nodes@).take(i as int)),
            decreases n - i,
        {
            proof {
                let all = views(nodes@);
                assert(all.take(i + 1).drop_last() =~= all.take(i as int));
                assert(all.take(i + 1).last() == nodes@[i as int]@);
            }
            nodes[i].render_into(fmt);
            i = i + 1;
        }
        proof {
            assert(views(nodes@).take(n as int) =~= views(nodes@));
        }
    }

    /// Writes the node into `fmt`, as its payload has it.
    pub fn render_into(&self, fmt: &mut HtmlRenderer)
        ensures
            final(fmt)@ == rendered(old(fmt)@, self@),
        decreases self, 1int,
    {
        proof {
            assert(self@.children =~= views(self.children@));
        }
        match &self.value {
            Payload::Root(v) => v.render(self, fmt),
            Payload::Paragraph(v) => v.render(self, fmt),
            Payload::ATXHeading(v) => v.render(self, fmt),
            Payload::ThematicBreak(v) => v.render(self, fmt),
            Payload::CodeBlock(v) => v.render(self, fmt),
            Payload::CodeFence(v) => v.render(self, fmt),
            Payload::InlineRoot(v) => v.render(self, fmt),
            Payload::Text(v) => v.render(self, fmt),
            Payload::Autolink(v) => v.render(self, fmt),
            Payload::SyntectSnippet(v) => v.render(self, fmt),
        }
    }

    /// The tree as HTML.
    pub fn render(&self) -> (html: String)
        ensures
            html@ == rendered(Seq::empty(), self@),
    {
        let mut fmt = HtmlRenderer::new();
        self.render_into(&mut fmt);
        fmt.finish()
    }
}

/// A new payload for one child changes that child's payload and nothing
/// else: the child keeps its place, its attributes, its children and its
/// span, and every other child of the parent is as it was.
pub proof fn law_replace_keeps_place(parent: NodeView, i: int, value: PayloadView)
    requires
        0 <= i < parent.children.len(),
    ensures
        ({
            let after = parent.children.update(i, with_value(parent.children[i], value));
            &&& after.len() == parent.children.len()
            &&& after[i].value == value
            &&& after[i].attrs == parent.children[i].attrs
            &&& after[i].children == parent.children[i].children
            &&& after[i].srcmap == parent.children[i].srcmap
            &&& forall|j: int| 0 <= j < after.len() && j != i ==> after[j] == parent.children[j]
            &&& preorder(with_value(parent.children[i], value)).len() == preorder(
                parent.children[i],
            ).len()
        }),
{
}

} // verus!
