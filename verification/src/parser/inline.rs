//! The inline phase: from a run of text to inline nodes.
use vstd::prelude::*;
use vstd::string::*;
use crate::common::ruler::enabled_rules;
use crate::common::sourcemap::{CharMapping, SourcePos};
use crate::common::text::string_of;
use crate::parser::block::{block_leaf, span};
use crate::parser::engine::{LinkHooks, MarkdownIt};
use crate::parser::node::{
    rendered, views, with_children, with_value, Node, NodeValue, NodeView, Payload, PayloadView,
};
use crate::parser::renderer::HtmlRenderer;
use crate::plugins::cmark::inline::autolink::{autolink_at, AutolinkScanner};

verus! {

/// The payload of literal text.
#[derive(Debug)]
pub struct Text {
    /// The text.
    pub content: String,
}

impl View for Text {
    type V = PayloadView;

    open spec fn view(&self) -> PayloadView {
        PayloadView::Text { content: self.content@ }
    }
}

impl NodeValue for Text {
    open spec fn is_kind(p: PayloadView) -> bool {
        p is Text
    }

    fn into_payload(self) -> (p: Payload) {
        Payload::Text(self)
    }

    fn from_payload(p: &Payload) -> (r: Option<&Text>) {
        match p {
            Payload::Text(v) => Some(v),
            _ => None,
        }
    }
}

impl Text {
    /// Writes the text, escaped.
    pub fn render(&self, node: &Node, fmt: &mut HtmlRenderer)
        ensures
            final(fmt)@ == rendered(old(fmt)@, with_value(node@, self@)),
        decreases node, 0int,
    {
        proof {
            assert(node@.children =~= views(node.children@));
        }
        fmt.text(self.content.as_str());
    }
}

/// A run of text that the block phase found and that the inline phase
/// has yet to read: the code points `start..end` of the source.
#[derive(Debug)]
pub struct InlineRoot {
    /// Index of the first code point of the run.
    pub start: usize,
    /// Index one past the last code point of the run.
    pub end: usize,
}

impl View for InlineRoot {
    type V = PayloadView;

    open spec fn view(&self) -> PayloadView {
        PayloadView::InlineRoot { start: self.start, end: self.end }
    }
}

impl NodeValue for InlineRoot {
    open spec fn is_kind(p: PayloadView) -> bool {
        p is InlineRoot
    }

    fn into_payload(self) -> (p: Payload) {
        Payload::InlineRoot(self)
    }

    fn from_payload(p: &Payload) -> (r: Option<&InlineRoot>) {
        match p {
            Payload::InlineRoot(v) => Some(v),
            _ => None,
        }
    }
}

impl InlineRoot {
    /// Writes the children, nothing around them.
    pub fn render(&self, node: &Node, fmt: &mut HtmlRenderer)
        ensures
            final(fmt)@ == rendered(old(fmt)@, with_value(node@, self@)),
        decreases node, 0int,
    {
        proof {
            assert(node@.children =~= views(node.children@));
        }
        Node::render_all(&node.children, fmt);
    }
}

/// The node of the literal text `s[from..to]`.
pub open spec fn text_node(s: Seq<char>, from: int, to: int) -> NodeView {
    block_leaf(PayloadView::Text { content: s.subrange(from, to) }, span(s, from, to))
}

/// The node of the literal text `s[from..to]`, where there is any.
pub open spec fn flushed(s: Seq<char>, from: int, to: int) -> Seq<NodeView> {
    if from < to {
        seq![text_node(s, from, to)]
    } else {
        Seq::empty()
    }
}

/// The state of one run of the inline phase over a run of text: the
/// source, the cursor, the end of the run, the start of the literal text
/// that no node holds yet, and the node whose children the run makes.
pub struct InlineState<'a, H: LinkHooks> {
    /// The source text with its index.
    pub src: &'a CharMapping,
    /// The engine.
    pub md: &'a MarkdownIt<H>,
    /// Index of the code point that is read next.
    pub pos: usize,
    /// Index one past the last code point of the run.
    pub pos_max: usize,
    /// Index of the first code point of the literal text before the cursor
    /// that no node holds yet.
    pub pending: usize,
    /// The node that receives the nodes of the run as its children.
    pub node: Node,
}

/// True when `after` is `before` with the pending text and then the node
/// `node` appended, and the cursor at `next`.
pub open spec fn consumed<H: LinkHooks>(
    before: InlineState<H>,
    after: InlineState<H>,
    node: NodeView,
    next: int,
) -> bool {
    &&& after.pos == next
    &&& after.pos_max == before.pos_max
    &&& after.pending == before.pending
    &&& after.src == before.src
    &&& after.md == before.md
    &&& after.node@ == with_children(
        before.node@,
        before.node@.children + flushed(before.src@, before.pending as int, before.pos as int).push(
            node,
        ),
    )
}

impl<'a, H: LinkHooks> InlineState<'a, H> {
    /// True when the cursor stands in the run and the run in the source.
    pub open spec fn in_run(&self) -> bool {
        self.pending <= self.pos <= self.pos_max <= self.src@.len()
    }

    /// The state at the start of the run `start..end` of `src`, with `node`
    /// to fill.
    pub fn new(md: &'a MarkdownIt<H>, src: &'a CharMapping, start: usize, end: usize, node: Node) -> (r:
        InlineState<'a, H>)
        ensures
            r.src == src,
            r.md == md,
            r.pos == start,
            r.pos_max == end,
            r.pending == start,
            r.node == node,
    {
        InlineState { src, md, pos: start, pos_max: end, pending: start, node }
    }

    /// True when the cursor stands in the run and the run in the source.
    pub fn is_in_run(&self) -> (b: bool)
        ensures
            b == self.in_run(),
    {
        self.pending <= self.pos && self.pos <= self.pos_max && self.pos_max <= self.src.len()
    }

    /// The bytes from code point `from` up to code point `to`.
    pub fn get_map(&self, from: usize, to: usize) -> (r: Option<SourcePos>)
        requires
            from <= self.src@.len(),
            to <= self.src@.len(),
        ensures
            r == Some(span(self.src@, from as int, to as int)),
    {
        Some(SourcePos::new(self.src.byte_at(from), self.src.byte_at(to)))
    }

    /// Appends the literal text before the cursor that no node holds yet,
    /// as a text node.
    pub fn push_pending(&mut self)
        requires
            old(self).in_run(),
        ensures
            final(self).node@ == with_children(
                old(self).node@,
                old(self).node@.children + flushed(
                    old(self).src@,
                    old(self).pending as int,
                    old(self).pos as int,
                ),
            ),
            final(self).pos == old(self).pos,
            final(self).pos_max == old(self).pos_max,
            final(self).pending == old(self).pending,
            final(self).src == old(self).src,
            final(self).md == old(self).md,
    {
        let ghost before = self.node@;
        if self.pending < self.pos {
            let content = string_of(self.src.chars(), self.pending, self.pos);
            let mut text = Node::new(Text { content });
            text.srcmap = self.get_map(self.pending, self.pos);
            proof {
                assert(text@.attrs =~= Seq::empty());
                assert(text@.children =~= Seq::empty());
                assert(text@ == text_node(self.src@, self.pending as int, self.pos as int));
            }
            self.node.children.push(text);
            proof {
                assert(self.node@.children =~= before.children + seq![text@]);
            }
        } else {
            proof {
                assert(before.children + Seq::<NodeView>::empty() =~= before.children);
            }
        }
    }

    /// Appends `node`, behind the literal text before the cursor that no
    /// node holds yet.
    pub fn push(&mut self, node: Node)
        requires
            old(self).in_run(),
        ensures
            consumed(*old(self), *final(self), node@, old(self).pos as int),
    {
        let ghost before = self.node@;
        self.push_pending();
        let ghost mid = self.node@;
        self.node.children.push(node);
        proof {
            assert(self.node@.children =~= mid.children.push(node@));
            assert(self.node@.children =~= before.children + flushed(
                self.src@,
                self.pending as int,
                self.pos as int,
            ).push(node@));
        }
    }
}

/// The rules that the inline phase knows.
pub enum InlineRule {
    /// Autolinks.
    Autolink(AutolinkScanner),
}

/// The code point at which the rule `rule` is tried.
pub open spec fn marker_of(rule: InlineRule) -> char {
    match rule {
        InlineRule::Autolink(scanner) => '<',
    }
}

/// What the rule `rule` makes of `s[pos..max]`: the node that starts at
/// `pos` and the index behind what it stands for; `None` where the rule
/// does not match.
pub open spec fn inline_match<H: LinkHooks>(
    rule: InlineRule,
    hooks: H,
    s: Seq<char>,
    pos: int,
    max: int,
) -> Option<(NodeView, int)> {
    match rule {
        InlineRule::Autolink(scanner) => autolink_at(scanner, hooks, s, pos, max),
    }
}

/// What the first of the rules `tried` makes of `s[pos..max]` that is
/// tried at the code point `s[pos]` and matches; `None` where there is
/// none.
pub open spec fn first_inline_match<H: LinkHooks>(
    tried: Seq<InlineRule>,
    hooks: H,
    s: Seq<char>,
    pos: int,
    max: int,
) -> Option<(NodeView, int)>
    decreases tried.len(),
{
    if tried.len() == 0 {
        None
    } else if marker_of(tried[0]) == s[pos] && inline_match(tried[0], hooks, s, pos, max) is Some {
        inline_match(tried[0], hooks, s, pos, max)
    } else {
        first_inline_match(tried.drop_first(), hooks, s, pos, max)
    }
}

/// The node of an inline match.
pub open spec fn made_inline(m: Option<(NodeView, int)>) -> NodeView {
    let pair = m->0;
    pair.0
}

/// The index behind an inline match.
pub open spec fn next_pos(m: Option<(NodeView, int)>) -> int {
    let pair = m->0;
    pair.1
}

/// The nodes that the inline phase makes of `s[pos..max]` with the rules
/// `rules`, when `s[pending..pos]` is literal text that no node holds yet.
/// At each code point the rules that are tried there run in their order,
/// and the first that matches makes a node; a code point at which none
/// matches is literal text.
pub open spec fn inline_tokens<H: LinkHooks>(
    rules: Seq<InlineRule>,
    hooks: H,
    s: Seq<char>,
    pos: int,
    max: int,
    pending: int,
) -> Seq<NodeView>
    decreases max - pos,
{
    if pos >= max {
        flushed(s, pending, pos)
    } else {
        let m = first_inline_match(rules, hooks, s, pos, max);
        if m is Some && pos < next_pos(m) <= max {
            flushed(s, pending, pos).push(made_inline(m)) + inline_tokens(
                rules,
                hooks,
                s,
                next_pos(m),
                max,
                next_pos(m),
            )
        } else {
            inline_tokens(rules, hooks, s, pos + 1, max, pending)
        }
    }
}

/// The rules that `refs` refer to.
pub open spec fn inline_rules_of(refs: Seq<&InlineRule>) -> Seq<InlineRule> {
    Seq::new(refs.len(), |i: int| *refs[i])
}

impl InlineRule {
    /// The code point at which the rule is tried.
    pub fn marker(&self) -> (c: char)
        ensures
            c == marker_of(*self),
    {
        match self {
            InlineRule::Autolink(scanner) => '<',
        }
    }

    /// Runs the rule on `state`. It says whether the rule matches at the
    /// cursor. On a match that is not silent the state holds the new node
    /// and stands behind what the node stands for; without a match, or
    /// silent, the state is as it was.
    pub fn run<H: LinkHooks>(&self, state: &mut InlineState<H>, silent: bool) -> (matched: bool)
        ensures
            matched == (old(state).in_run() && inline_match(
                *self,
                old(state).md.hooks,
                old(state).src@,
                old(state).pos as int,
                old(state).pos_max as int,
            ) is Some),
            !matched || silent ==> *final(state) == *old(state),
            matched && !silent ==> {
                let m = inline_match(
                    *self,
                    old(state).md.hooks,
                    old(state).src@,
                    old(state).pos as int,
                    old(state).pos_max as int,
                );
                &&& consumed(*old(state), *final(state), made_inline(m), next_pos(m))
                &&& old(state).pos < next_pos(m) <= old(state).pos_max
            },
    {
        match self {
            InlineRule::Autolink(scanner) => scanner.run(state, silent),
        }
    }
}

/// Reads the run of text from the cursor of `state` to its end and appends
/// the nodes that it holds to its node.
pub fn tokenize<H: LinkHooks>(state: &mut InlineState<H>)
    requires
        old(state).in_run(),
    ensures
        final(state).src == old(state).src,
        final(state).md == old(state).md,
        final(state).pos_max == old(state).pos_max,
        final(state).pos == old(state).pos_max,
        final(state).node@ == with_children(
            old(state).node@,
            old(state).node@.children + inline_tokens(
                enabled_rules(old(state).md.inline.ruler@),
                old(state).md.hooks,
                old(state).src@,
                old(state).pos as int,
                old(state).pos_max as int,
                old(state).pending as int,
            ),
        ),
{
    let md = state.md;
    let refs = md.inline.ruler.iterate();
    let ghost rules = enabled_rules(md.inline.ruler@);
    let ghost s = state.src@;
    let ghost max = state.pos_max as int;
    let ghost all = old(state).node@.children + inline_tokens(
        rules,
        md.hooks,
        s,
        old(state).pos as int,
        max,
        old(state).pending as int,
    );
    proof {
        assert(inline_rules_of(refs@) =~= rules);
        assert(state.node@ == with_children(old(state).node@, old(state).node@.children));
    }
    while state.pos < state.pos_max
        invariant
            state.src == old(state).src,
            state.md == old(state).md,
            state.md == md,
            state.pos_max == old(state).pos_max,
            state.in_run(),
            s == state.src@,
            max == state.pos_max,
            rules == enabled_rules(md.inline.ruler@),
            inline_rules_of(refs@) == rules,
            all == state.node@.children + inline_tokens(
                rules,
                md.hooks,
                s,
                state.pos as int,
                max,
                state.pending as int,
            ),
            with_children(state.node@, old(state).node@.children) == old(state).node@,
        decreases state.pos_max - state.pos,
    {
        let c = state.src.char_at(state.pos);
        let ghost pos = state.pos as int;
        let ghost before = *state;
        let n: usize = refs.len();
        let mut i: usize = 0;
        let mut matched = false;
        proof {
            assert(rules.skip(0) =~= rules);
        }
        while i < n && !matched
            invariant
                i <= n,
                n == refs@.len(),
                inline_rules_of(refs@) == rules,
                before.md == md,
                before.src@ == s,
                before.pos == pos,
                before.pos_max == max,
                before.in_run(),
                pos < max,
                c == s[pos],
                !matched ==> *state == before,
                !matched ==> first_inline_match(rules, md.hooks, s, pos, max) == first_inline_match(
                    rules.skip(i as int),
                    md.hooks,
                    s,
                    pos,
                    max,
                ),
                matched ==> {
                    let m = first_inline_match(rules, md.hooks, s, pos, max);
                    &&& m is Some
                    &&& consumed(before, *state, made_inline(m), next_pos(m))
                    &&& pos < next_pos(m) <= max
                },
            decreases n - i + (if matched { 0int } else { 1int }),
        {
            proof {
                assert(rules.skip(i as int)[0] == *refs@[i as int]);
                assert(rules.skip(i as int).drop_first() =~= rules.skip(i + 1));
            }
            if refs[i].marker() == c {
                matched = refs[i].run(state, false);
            }
            i = i + 1;
        }
        if matched {
            proof {
                let m = first_inline_match(rules, md.hooks, s, pos, max);
                let tail = inline_tokens(rules, md.hooks, s, next_pos(m), max, next_pos(m));
                assert(state.node@.children + tail =~= before.node@.children + (flushed(
                    s,
                    before.pending as int,
                    pos,
                ).push(made_inline(m)) + tail));
            }
            state.pending = state.pos;
        } else {
            proof {
                assert(rules.skip(n as int) =~= Seq::<InlineRule>::empty());
            }
            state.pos = state.pos + 1;
        }
    }
    state.push_pending();
    proof {
        assert(state.node@.children =~= all);
    }
}

} // verus!
