//! The root of a document and the rules that work on the whole tree.
use vstd::prelude::*;
use vstd::string::*;
use crate::common::ruler::enabled_rules;
use crate::common::sourcemap::{line_count, CharMapping, SourcePos};
use crate::common::text::{string_from, to_chars};
use crate::parser::block::{blocks_from, span, BlockRule, BlockState};
use crate::parser::engine::{LinkHooks, MarkdownIt};
use crate::parser::inline::{inline_tokens, InlineRule, InlineState};
use crate::parser::node::{
    leaf, rendered, views, with_children, with_value, Node, NodeValue, NodeView, Payload,
    PayloadView,
};
use crate::parser::renderer::HtmlRenderer;
use crate::plugins::extra::syntect::{highlighted_by, syntect_mode, SyntectMode, SyntectRule};
use crate::plugins::sourcepos::{labeled, source_labeled, SyntaxPosRule};

verus! {

/// The payload of the root of a document: the source text.
#[derive(Debug)]
pub struct Root {
    /// The source text that the document was parsed from.
    pub content: String,
}

impl View for Root {
    type V = PayloadView;

    open spec fn view(&self) -> PayloadView {
        PayloadView::Root { content: self.content@ }
    }
}

impl NodeValue for Root {
    open spec fn is_kind(p: PayloadView) -> bool {
        p is Root
    }

    fn into_payload(self) -> (p: Payload) {
        Payload::Root(self)
    }

    fn from_payload(p: &Payload) -> (r: Option<&Root>) {
        match p {
            Payload::Root(v) => Some(v),
            _ => None,
        }
    }
}

impl Root {
    /// Writes the children, nothing around them.
    pub fn render(&self, node: &Node, fmt: &mut HtmlRenderer)
        ensures
            final(fmt)@ == rendered(old(fmt)@, with_value(node@, self@)),
        decreases node, 0int,
    {
        proof {
            assert(node@.children =~= views(node.children@));
        }
        Node::render_all(&node.children, fmt);
    }
}

/// `s[i..]` with every line break written as a line feed and every NUL as
/// the replacement character: a carriage return before a line feed is
/// dropped, and any other carriage return becomes a line feed.
pub open spec fn normalized_from(s: Seq<char>, i: int) -> Seq<char>
    decreases s.len() - i,
{
    if i < 0 || i >= s.len() {
        Seq::empty()
    } else if s[i] == '\r' && i + 1 < s.len() && s[i + 1] == '\n' {
        normalized_from(s, i + 1)
    } else if s[i] == '\r' {
        seq!['\n'] + normalized_from(s, i + 1)
    } else if s[i] == '\0' {
        seq!['\u{FFFD}'] + normalized_from(s, i + 1)
    } else {
        seq![s[i]] + normalized_from(s, i + 1)
    }
}

/// The tree `root` with its source text normalized. A tree with another
/// node than a root on top is left as it is.
pub open spec fn normalized(root: NodeView) -> NodeView {
    match root.value {
        PayloadView::Root { content } => with_value(
            root,
            PayloadView::Root { content: normalized_from(content, 0) },
        ),
        _ => root,
    }
}

/// The rule that normalizes the source text before any phase reads it.
pub struct NormalizeRule;

impl NormalizeRule {
    /// `src` with every line break written as a line feed and every NUL
    /// as the replacement character.
    pub fn normalize(src: &str) -> (r: String)
        ensures
            r@ == normalized_from(src@, 0),
    {
        let chars = to_chars(src);
        let ghost s = chars@;
        let n: usize = chars.len();
        let mut out: Vec<char> = Vec::new();
        let mut i: usize = 0;
        proof {
            assert(out@ + normalized_from(s, 0) =~= normalized_from(s, 0));
        }
        while i < n
            invariant
                i <= n,
                n == s.len(),
                s == chars@,
                normalized_from(s, 0) == out@ + normalized_from(s, i as int),
            decreases n - i,
        {
            let c = chars[i];
            let ghost before = out@;
            if c == '\r' {
                if !(i + 1 < n && chars[i + 1] == '\n') {
                    out.push('\n');
                }
            } else if c == '\0' {
                out.push('\u{FFFD}');
            } else {
                out.push(c);
            }
            proof {
                assert(out@ + normalized_from(s, i + 1) =~= before + normalized_from(s, i as int));
            }
            i = i + 1;
        }
        proof {
            assert(out@ + Seq::<char>::empty() =~= out@);
        }
        string_from(&out)
    }

    /// Normalizes the source text of the root `root`.
    pub fn run<H: LinkHooks>(root: &mut Node, md: &MarkdownIt<H>)
        ensures
            final(root)@ == normalized(old(root)@),
    {
        let content = match &root.value {
            Payload::Root(r) => NormalizeRule::normalize(r.content.as_str()),
            _ => {
                return ;
            },
        };
        root.replace(Root { content });
    }
}

/// The tree `root` after the block phase with the rules `rules`: a root
/// holds the blocks of its source text as its children, and spans the
/// whole of it. A tree with another node on top is left as it is.
pub open spec fn blocked(rules: Seq<BlockRule>, root: NodeView) -> NodeView {
    match root.value {
        PayloadView::Root { content } => NodeView {
            value: root.value,
            attrs: root.attrs,
            children: blocks_from(rules, content, 0, line_count(content)),
            srcmap: Some(span(content, 0, content.len() as int)),
        },
        _ => root,
    }
}

/// The tree `n` after the inline phase over the source `s`: each run of
/// text that the block phase left holds the inline nodes of its text as its
/// children; every other node keeps its place and its data.
pub open spec fn inlined<H: LinkHooks>(rules: Seq<InlineRule>, hooks: H, s: Seq<char>, n: NodeView) -> NodeView
    decreases n,
{
    if is_run(s, n) {
        with_children(
            n,
            inline_tokens(
                rules,
                hooks,
                s,
                n.value->InlineRoot_start as int,
                n.value->InlineRoot_end as int,
                n.value->InlineRoot_start as int,
            ),
        )
    } else {
        with_children(
            n,
            Seq::new(
                n.children.len(),
                |i: int|
                    if 0 <= i < n.children.len() {
                        inlined(rules, hooks, s, n.children[i])
                    } else {
                        arbitrary()
                    },
            ),
        )
    }
}

/// True when `n` is a run of text that lies in `s`.
pub open spec fn is_run(s: Seq<char>, n: NodeView) -> bool {
    n.value matches PayloadView::InlineRoot { start, end } && start <= end <= s.len()
}

/// The tree `root` after the inline phase: that of a root is read over its
/// source text. A tree with another node on top is left as it is.
pub open spec fn inline_phase<H: LinkHooks>(rules: Seq<InlineRule>, hooks: H, root: NodeView) -> NodeView {
    match root.value {
        PayloadView::Root { content } => inlined(rules, hooks, content, root),
        _ => root,
    }
}

/// The rule that runs the block phase.
pub struct BlockParserRule;

impl BlockParserRule {
    /// Reads the source text of the root `root` into blocks, which become
    /// the children of the root.
    pub fn run<H: LinkHooks>(root: &mut Node, md: &MarkdownIt<H>)
        ensures
            final(root)@ == blocked(enabled_rules(md.block.ruler@), old(root)@),
    {
        let src = match &root.value {
            Payload::Root(r) => CharMapping::new(r.content.as_str()),
            _ => {
                return ;
            },
        };
        let holder = Node::new(Root { content: String::new() });
        let mut state = BlockState::new(md, &src, holder);
        crate::parser::block::tokenize(&mut state);
        let n: usize = src.len();
        root.srcmap = Some(SourcePos::new(src.byte_at(0), src.byte_at(n)));
        let mut made = state.node;
        core::mem::swap(&mut root.children, &mut made.children);
        proof {
            let rules = enabled_rules(md.block.ruler@);
            assert(Seq::<NodeView>::empty() + blocks_from(rules, src@, 0, line_count(src@))
                =~= blocks_from(rules, src@, 0, line_count(src@)));
            assert(root@.children =~= blocks_from(rules, src@, 0, line_count(src@)));
        }
    }
}

/// The rule that runs the inline phase.
pub struct InlineParserRule;

impl InlineParserRule {
    /// Reads each run of text in the tree below the root `root` into inline
    /// nodes.
    pub fn run<H: LinkHooks>(root: &mut Node, md: &MarkdownIt<H>)
        ensures
            final(root)@ == inline_phase(enabled_rules(md.inline.ruler@), md.hooks, old(root)@),
    {
        let src = match &root.value {
            Payload::Root(r) => CharMapping::new(r.content.as_str()),
            _ => {
                return ;
            },
        };
        InlineParserRule::read(root, md, &src);
    }

    /// Reads each run of text in the tree `node` into inline nodes.
    pub fn read<H: LinkHooks>(node: &mut Node, md: &MarkdownIt<H>, src: &CharMapping)
        ensures
            final(node)@ == inlined(
                enabled_rules(md.inline.ruler@),
                md.hooks,
                src@,
                old(node)@,
            ),
        decreases *old(node),
    {
        let ghost rules = enabled_rules(md.inline.ruler@);
        let run = match &node.value {
            Payload::InlineRoot(r) => if r.start <= r.end && r.end <= src.len() {
                Some((r.start, r.end))
            } else {
                None
            },
            _ => None,
        };
        match run {
            Some((start, end)) => {
                let holder = Node::new(Root { content: String::new() });
                let mut state = InlineState::new(md, src, start, end, holder);
                crate::parser::inline::tokenize(&mut state);
                let mut made = state.node;
                core::mem::swap(&mut node.children, &mut made.children);
                proof {
                    let tokens = inline_tokens(
                        rules,
                        md.hooks,
                        src@,
                        start as int,
                        end as int,
                        start as int,
                    );
                    assert(Seq::<NodeView>::empty() + tokens =~= tokens);
                    assert(node@.children =~= tokens);
                }
            },
            None => {
                let n: usize = node.children.len();
                let mut i: usize = 0;
                while i < n
                    invariant
                        i <= n,
                        n == node.children@.len(),
                        n == old(node).children@.len(),
                        rules == enabled_rules(md.inline.ruler@),
                        node.value == old(node).value,
                        node.attrs == old(node).attrs,
                        node.srcmap == old(node).srcmap,
                        forall|j: int|
                            0 <= j < i ==> (#[trigger] node.children@[j])@ == inlined(
                                rules,
                                md.hooks,
                                src@,
                                old(node).children@[j]@,
                            ),
                        forall|j: int|
                            i <= j < n ==> #[trigger] node.children@[j] == old(node).children@[j],
                    decreases n - i,
                {
                    InlineParserRule::read(&mut node.children[i], md, src);
                    i = i + 1;
                }
                proof {
                    assert(node@.children =~= inlined(rules, md.hooks, src@, old(node)@).children);
                }
            },
        }
    }
}

/// The rules on the whole tree that the engine knows.
#[derive(Clone, Copy, Debug, PartialEq, Eq, Structural)]
pub enum CoreRule {
    /// The normalization of the source text.
    Normalize,
    /// The block phase.
    Block,
    /// The inline phase.
    Inline,
    /// The labels that say where in the source a node comes from.
    SyntaxPos,
    /// The highlighting of code.
    Syntect,
}

/// True when the rule `rule` of the engine `md` may turn the tree `before`
/// into the tree `after`. All rules but the highlighting of code leave no
/// choice.
pub open spec fn core_ran<H: LinkHooks>(
    rule: CoreRule,
    md: MarkdownIt<H>,
    before: NodeView,
    after: NodeView,
) -> bool {
    match rule {
        CoreRule::Normalize => after == normalized(before),
        CoreRule::Block => after == blocked(enabled_rules(md.block.ruler@), before),
        CoreRule::Inline => after == inline_phase(
            enabled_rules(md.inline.ruler@),
            md.hooks,
            before,
        ),
        CoreRule::SyntaxPos => after == source_labeled(before),
        CoreRule::Syntect => exists|
            ss: ::syntect::parsing::SyntaxSet,
            ts: ::syntect::highlighting::ThemeSet,
        | after == highlighted_by(before, ss, ts, syntect_mode(md)),
    }
}

/// True when `trace` holds the trees of a run of the rules `rules` of the
/// engine `md`: the tree before the first rule, and then the tree after
/// each rule.
pub open spec fn is_trace<H: LinkHooks>(
    rules: Seq<CoreRule>,
    md: MarkdownIt<H>,
    trace: Seq<NodeView>,
) -> bool {
    &&& trace.len() == rules.len() + 1
    &&& forall|i: int|
        0 <= i < rules.len() ==> core_ran(rules[i], md, #[trigger] trace[i], trace[i + 1])
}

/// True when the rules `rules` of the engine `md`, run one after the other,
/// may turn the tree `before` into the tree `after`.
pub open spec fn ran_all<H: LinkHooks>(
    rules: Seq<CoreRule>,
    md: MarkdownIt<H>,
    before: NodeView,
    after: NodeView,
) -> bool {
    exists|trace: Seq<NodeView>|
        #[trigger] is_trace(rules, md, trace) && trace[0] == before && trace.last() == after
}

/// The tree that a parse starts from: a root that holds the source text
/// `src` and nothing else.
pub open spec fn fresh_root(src: Seq<char>) -> NodeView {
    leaf(PayloadView::Root { content: src })
}

impl CoreRule {
    /// Runs the rule on the tree `root`.
    pub fn run<H: LinkHooks>(&self, root: &mut Node, md: &MarkdownIt<H>)
        ensures
            core_ran(*self, *md, old(root)@, final(root)@),
    {
        match self {
            CoreRule::Normalize => NormalizeRule::run(root, md),
            CoreRule::Block => BlockParserRule::run(root, md),
            CoreRule::Inline => InlineParserRule::run(root, md),
            CoreRule::SyntaxPos => if root.is::<Root>() {
                SyntaxPosRule::run(root, md)
            },
            CoreRule::Syntect => SyntectRule::run(root, md),
        }
    }
}

impl<H: LinkHooks> MarkdownIt<H> {
    /// Parses `src`: makes a root that holds the text and runs the rules on
    /// the whole tree that are switched on, in their order.
    pub fn parse(&self, src: &str) -> (root: Node)
        ensures
            ran_all(enabled_rules(self.core@), *self, fresh_root(src@), root@),
    {
        let mut root = Node::new(Root { content: String::from_str(src) });
        let refs = self.core.iterate();
        let ghost rules = enabled_rules(self.core@);
        let ghost mut trace: Seq<NodeView> = seq![root@];
        let n: usize = refs.len();
        let mut i: usize = 0;
        while i < n
            invariant
                i <= n,
                n == refs@.len(),
                n == rules.len(),
                forall|j: int| 0 <= j < n ==> *(#[trigger] refs@[j]) == rules[j],
                is_trace(rules.take(i as int), *self, trace),
                trace[0] == fresh_root(src@),
                trace.last() == root@,
            decreases n - i,
        {
            let ghost before = trace;
            refs[i].run(&mut root, self);
            proof {
                trace = before.push(root@);
                assert(*refs@[i as int] == rules[i as int]);
                assert forall|j: int| 0 <= j < i + 1 implies core_ran(
                    rules.take(i + 1)[j],
                    *self,
                    #[trigger] trace[j],
                    trace[j + 1],
                ) by {
                    if j < i {
                        assert(core_ran(rules.take(i as int)[j], *self, before[j], before[j + 1]));
                    }
                }
            }
            i = i + 1;
        }
        proof {
            assert(rules.take(n as int) =~= rules);
            assert(is_trace(rules, *self, trace));
        }
        root
    }
}

/// A parse without the highlighting of code has one result: the same
/// engine reads the same text into the same tree, labels and all.
pub proof fn law_parse_repeats<H: LinkHooks>(
    rules: Seq<CoreRule>,
    md: MarkdownIt<H>,
    before: NodeView,
    first: NodeView,
    second: NodeView,
)
    requires
        forall|i: int| 0 <= i < rules.len() ==> rules[i] != CoreRule::Syntect,
        ran_all(rules, md, before, first),
        ran_all(rules, md, before, second),
    ensures
        first == second,
{
    let t1 = choose|trace: Seq<NodeView>|
        #[trigger] is_trace(rules, md, trace) && trace[0] == before && trace.last() == first;
    let t2 = choose|trace: Seq<NodeView>|
        #[trigger] is_trace(rules, md, trace) && trace[0] == before && trace.last() == second;
    lemma_traces_agree(rules, md, t1, t2, rules.len() as int);
}

proof fn lemma_traces_agree<H: LinkHooks>(
    rules: Seq<CoreRule>,
    md: MarkdownIt<H>,
    t1: Seq<NodeView>,
    t2: Seq<NodeView>,
    k: int,
)
    requires
        forall|i: int| 0 <= i < rules.len() ==> rules[i] != CoreRule::Syntect,
        is_trace(rules, md, t1),
        is_trace(rules, md, t2),
        t1[0] == t2[0],
        0 <= k <= rules.len(),
    ensures
        t1[k] == t2[k],
    decreases k,
{
    if k > 0 {
        lemma_traces_agree(rules, md, t1, t2, k - 1);
        assert(core_ran(rules[k - 1], md, t1[k - 1], t1[k]));
        assert(core_ran(rules[k - 1], md, t2[k - 1], t2[k]));
    }
}

/// True for the payloads that hold code or the markup of highlighted
/// code.
pub open spec fn is_code_or_markup(p: PayloadView) -> bool {
    p is CodeBlock || p is CodeFence || p is SyntectSnippet
}

/// True when the trees `a` and `b` have the same shape and the same
/// attributes and spans in each place, and the same payloads but for the
/// places that hold code in the one and code or its markup in the other.
pub open spec fn alike(a: NodeView, b: NodeView) -> bool
    decreases a,
{
    &&& a.value == b.value || (is_code_or_markup(a.value) && is_code_or_markup(b.value))
    &&& a.attrs == b.attrs
    &&& a.srcmap == b.srcmap
    &&& a.children.len() == b.children.len()
    &&& forall|i: int| 0 <= i < a.children.len() ==> alike(a.children[i], #[trigger] b.children[i])
}

/// A tree is like itself.
pub proof fn lemma_alike_same(a: NodeView)
    ensures
        alike(a, a),
    decreases a,
{
    assert forall|i: int| 0 <= i < a.children.len() implies alike(
        a.children[i],
        #[trigger] a.children[i],
    ) by {
        lemma_alike_same(a.children[i]);
    }
}

/// Trees that are alike are alike after the labeling.
pub proof fn lemma_alike_labeled(s: Seq<char>, a: NodeView, b: NodeView)
    requires
        alike(a, b),
    ensures
        alike(labeled(s, a), labeled(s, b)),
    decreases a,
{
    let a2 = labeled(s, a);
    let b2 = labeled(s, b);
    assert forall|i: int| 0 <= i < a2.children.len() implies alike(
        a2.children[i],
        #[trigger] b2.children[i],
    ) by {
        assert(alike(a.children[i], b.children[i]));
        lemma_alike_labeled(s, a.children[i], b.children[i]);
    }
}

/// Trees that are alike are alike after the inline phase.
pub proof fn lemma_alike_inlined<H: LinkHooks>(
    rules: Seq<InlineRule>,
    hooks: H,
    s: Seq<char>,
    a: NodeView,
    b: NodeView,
)
    requires
        alike(a, b),
    ensures
        alike(inlined(rules, hooks, s, a), inlined(rules, hooks, s, b)),
    decreases a,
{
    let a2 = inlined(rules, hooks, s, a);
    let b2 = inlined(rules, hooks, s, b);
    if is_run(s, a) {
        assert(a2.children == b2.children);
        assert forall|i: int| 0 <= i < a2.children.len() implies alike(
            a2.children[i],
            #[trigger] b2.children[i],
        ) by {
            lemma_alike_same(a2.children[i]);
        }
    } else {
        assert(!is_run(s, b));
        assert forall|i: int| 0 <= i < a2.children.len() implies alike(
            a2.children[i],
            #[trigger] b2.children[i],
        ) by {
            assert(alike(a.children[i], b.children[i]));
            lemma_alike_inlined(rules, hooks, s, a.children[i], b.children[i]);
        }
    }
}

/// Trees that are alike are alike after the highlighting, whatever the
/// highlighter answers.
pub proof fn lemma_alike_highlighted(
    a: NodeView,
    b: NodeView,
    ss1: ::syntect::parsing::SyntaxSet,
    ts1: ::syntect::highlighting::ThemeSet,
    ss2: ::syntect::parsing::SyntaxSet,
    ts2: ::syntect::highlighting::ThemeSet,
    mode: SyntectMode,
)
    requires
        alike(a, b),
    ensures
        alike(highlighted_by(a, ss1, ts1, mode), highlighted_by(b, ss2, ts2, mode)),
    decreases a,
{
    let a2 = highlighted_by(a, ss1, ts1, mode);
    let b2 = highlighted_by(b, ss2, ts2, mode);
    assert forall|i: int| 0 <= i < a2.children.len() implies alike(
        a2.children[i],
        #[trigger] b2.children[i],
    ) by {
        assert(alike(a.children[i], b.children[i]));
        lemma_alike_highlighted(a.children[i], b.children[i], ss1, ts1, ss2, ts2, mode);
    }
}

/// Trees that are alike are alike after one rule of one engine.
pub proof fn lemma_alike_step<H: LinkHooks>(
    rule: CoreRule,
    md: MarkdownIt<H>,
    a: NodeView,
    b: NodeView,
    a2: NodeView,
    b2: NodeView,
)
    requires
        alike(a, b),
        core_ran(rule, md, a, a2),
        core_ran(rule, md, b, b2),
    ensures
        alike(a2, b2),
{
    match rule {
        CoreRule::Normalize => {
            assert forall|i: int| 0 <= i < a2.children.len() implies alike(
                a2.children[i],
                #[trigger] b2.children[i],
            ) by {
                assert(alike(a.children[i], b.children[i]));
            }
        },
        CoreRule::Block => {
            if a.value is Root {
                assert(a2.children == b2.children);
                assert forall|i: int| 0 <= i < a2.children.len() implies alike(
                    a2.children[i],
                    #[trigger] b2.children[i],
                ) by {
                    lemma_alike_same(a2.children[i]);
                }
            }
        },
        CoreRule::Inline => {
            if a.value is Root {
                lemma_alike_inlined(
                    enabled_rules(md.inline.ruler@),
                    md.hooks,
                    a.value->Root_content,
                    a,
                    b,
                );
            }
        },
        CoreRule::SyntaxPos => {
            if a.value is Root {
                lemma_alike_labeled(a.value->Root_content, a, b);
            }
        },
        CoreRule::Syntect => {
            let (ss1, ts1) = choose|ss: ::syntect::parsing::SyntaxSet, ts: ::syntect::highlighting::ThemeSet|
                a2 == highlighted_by(a, ss, ts, syntect_mode(md));
            let (ss2, ts2) = choose|ss: ::syntect::parsing::SyntaxSet, ts: ::syntect::highlighting::ThemeSet|
                b2 == highlighted_by(b, ss, ts, syntect_mode(md));
            lemma_alike_highlighted(a, b, ss1, ts1, ss2, ts2, syntect_mode(md));
        },
    }
}

/// Two parses of one text with one engine give trees of the same shape
/// with the same attributes and spans in each place, the labels among
/// them, whatever the highlighter answers; and the same payloads but for
/// the markup of highlighted code.
pub proof fn law_parses_alike<H: LinkHooks>(
    rules: Seq<CoreRule>,
    md: MarkdownIt<H>,
    before: NodeView,
    first: NodeView,
    second: NodeView,
)
    requires
        ran_all(rules, md, before, first),
        ran_all(rules, md, before, second),
    ensures
        alike(first, second),
{
    let t1 = choose|trace: Seq<NodeView>|
        #[trigger] is_trace(rules, md, trace) && trace[0] == before && trace.last() == first;
    let t2 = choose|trace: Seq<NodeView>|
        #[trigger] is_trace(rules, md, trace) && trace[0] == before && trace.last() == second;
    lemma_traces_alike(rules, md, t1, t2, rules.len() as int);
}

proof fn lemma_traces_alike<H: LinkHooks>(
    rules: Seq<CoreRule>,
    md: MarkdownIt<H>,
    t1: Seq<NodeView>,
    t2: Seq<NodeView>,
    k: int,
)
    requires
        is_trace(rules, md, t1),
        is_trace(rules, md, t2),
        t1[0] == t2[0],
        0 <= k <= rules.len(),
    ensures
        alike(t1[k], t2[k]),
    decreases k,
{
    if k > 0 {
        lemma_traces_alike(rules, md, t1, t2, k - 1);
        assert(core_ran(rules[k - 1], md, t1[k - 1], t1[k]));
        assert(core_ran(rules[k - 1], md, t2[k - 1], t2[k]));
        lemma_alike_step(rules[k - 1], md, t1[k - 1], t2[k - 1], t1[k], t2[k]);
    } else {
        lemma_alike_same(t1[0]);
    }
}

} // verus!
