//! The block phase: line by line from the source text to block nodes.
use vstd::prelude::*;
use vstd::string::*;
use crate::common::ruler::enabled_rules;
use crate::common::sourcemap::{
    lemma_line_end, line_count, line_end, line_start, CharMapping, SourcePos,
};
use crate::common::text::byte_offset;
use crate::parser::engine::{LinkHooks, MarkdownIt};
use crate::parser::node::{with_children, Node, NodeView, PayloadView};
use crate::plugins::cmark::block::code::code_at;
use crate::plugins::cmark::block::fence::{fence_at, fence_open};
use crate::plugins::cmark::block::heading::{heading_at, heading_node};
use crate::plugins::cmark::block::hr::{hr_at, hr_node};
use crate::plugins::cmark::block::paragraph::{paragraph_end, paragraph_node};

verus! {

/// True for the code points that indent a line: blank and tab.
pub open spec fn is_blank(c: char) -> bool {
    c == ' ' || c == '\t'
}

/// Index of the first code point of `s[from..to]` that is not blank, or
/// `to` where all are.
pub open spec fn skip_blanks(s: Seq<char>, from: int, to: int) -> int
    decreases to - from,
{
    if from >= to {
        to
    } else if is_blank(s[from]) {
        skip_blanks(s, from + 1, to)
    } else {
        from
    }
}

/// Index one past the last code point of `s[from..to]` that is not blank,
/// or `from` where all are.
pub open spec fn trim_end(s: Seq<char>, from: int, to: int) -> int
    decreases to - from,
{
    if to <= from {
        from
    } else if is_blank(s[to - 1]) {
        trim_end(s, from, to - 1)
    } else {
        to
    }
}

/// Number of columns that the blanks and tabs `s[from..to]` take, a tab
/// reaching to the next multiple of four.
pub open spec fn indent_width(s: Seq<char>, from: int, to: int) -> nat
    decreases to - from,
{
    if to <= from {
        0
    } else {
        let before = indent_width(s, from, to - 1);
        if s[to - 1] == '\t' {
            (before + 4 - before % 4) as nat
        } else {
            before + 1
        }
    }
}

/// Index of the first code point of line `k` that is not blank; the end of
/// the line where the line is empty.
pub open spec fn line_first(s: Seq<char>, k: nat) -> int {
    skip_blanks(s, line_start(s, k), line_end(s, line_start(s, k)))
}

/// Index one past the last code point of line `k`.
pub open spec fn line_last(s: Seq<char>, k: nat) -> int {
    line_end(s, line_start(s, k))
}

/// Number of columns by which line `k` is indented.
pub open spec fn line_indent(s: Seq<char>, k: nat) -> nat {
    indent_width(s, line_start(s, k), line_first(s, k))
}

/// True when line `k` holds nothing but blanks.
pub open spec fn line_empty(s: Seq<char>, k: nat) -> bool {
    line_first(s, k) >= line_last(s, k)
}

/// The bytes from code point `from` up to code point `to`.
pub open spec fn span(s: Seq<char>, from: int, to: int) -> SourcePos {
    SourcePos { start: byte_offset(s, from) as usize, end: byte_offset(s, to) as usize }
}

/// The bytes from the first code point of line `first` that is not blank up
/// to the end of line `last`.
pub open spec fn line_span(s: Seq<char>, first: nat, last: nat) -> SourcePos {
    span(s, line_first(s, first), line_last(s, last))
}

/// A block node without children: the payload `value`, made from the bytes
/// `at`.
pub open spec fn block_leaf(value: PayloadView, at: SourcePos) -> NodeView {
    NodeView { value, attrs: Seq::empty(), children: Seq::empty(), srcmap: Some(at) }
}

/// The node of a run of text that the inline phase has yet to read: the
/// code points `from..to` of the source.
pub open spec fn inline_root(s: Seq<char>, from: int, to: int) -> NodeView {
    block_leaf(PayloadView::InlineRoot { start: from as usize, end: to as usize }, span(s, from, to))
}

/// What `skip_blanks` finds.
pub proof fn lemma_skip_blanks(s: Seq<char>, from: int, to: int)
    requires
        from <= to,
    ensures
        from <= skip_blanks(s, from, to) <= to,
        forall|j: int| from <= j < skip_blanks(s, from, to) ==> is_blank(s[j]),
        skip_blanks(s, from, to) < to ==> !is_blank(s[skip_blanks(s, from, to)]),
    decreases to - from,
{
    if from < to && is_blank(s[from]) {
        lemma_skip_blanks(s, from + 1, to);
    }
}

/// More blanks make no narrower indentation.
pub proof fn lemma_indent_width_grows(s: Seq<char>, from: int, i: int, j: int)
    requires
        from <= i <= j,
    ensures
        indent_width(s, from, i) <= indent_width(s, from, j),
    decreases j - i,
{
    if i < j {
        lemma_indent_width_grows(s, from, i, j - 1);
    }
}

/// Where line `k` starts, where its text starts and where it ends.
pub proof fn lemma_line_bounds(s: Seq<char>, k: nat)
    requires
        0 <= line_start(s, k) <= s.len(),
    ensures
        line_start(s, k) <= line_first(s, k) <= line_last(s, k) <= s.len(),
{
    lemma_line_end(s, line_start(s, k));
    lemma_skip_blanks(s, line_start(s, k), line_last(s, k));
}

/// The state of one run of the block phase: the source, the line that is
/// read next, the line at which the run ends, and the node whose children
/// the run makes.
pub struct BlockState<'a, H: LinkHooks> {
    /// The source text with its index.
    pub src: &'a CharMapping,
    /// The engine.
    pub md: &'a MarkdownIt<H>,
    /// The line that is read next, counted from 0.
    pub line: usize,
    /// One past the last line to read.
    pub line_max: usize,
    /// The node that receives the nodes of the run as its children.
    pub node: Node,
}

impl<'a, H: LinkHooks> BlockState<'a, H> {
    /// True when there is a line to read.
    pub open spec fn at_line(&self) -> bool {
        self.line < self.line_max <= line_count(self.src@)
    }

    /// The state at the first line of `src`, with `node` to fill.
    pub fn new(md: &'a MarkdownIt<H>, src: &'a CharMapping, node: Node) -> (r: BlockState<'a, H>)
        ensures
            r.src == src,
            r.md == md,
            r.line == 0,
            r.line_max == line_count(src@),
            r.node == node,
    {
        let line_max = src.line_count();
        BlockState { src, md, line: 0, line_max, node }
    }

    /// True when there is a line to read.
    pub fn has_line(&self) -> (b: bool)
        ensures
            b == self.at_line(),
    {
        self.line < self.line_max && self.line_max <= self.src.line_count()
    }

    /// Index of the first code point of line `line` that is not blank.
    pub fn line_first(&self, line: usize) -> (i: usize)
        requires
            line < line_count(self.src@),
        ensures
            i == line_first(self.src@, line as nat),
            line_start(self.src@, line as nat) <= i <= line_last(self.src@, line as nat),
            i <= self.src@.len(),
    {
        let start = self.src.line_start(line);
        let end = self.src.line_end(line);
        let mut i: usize = start;
        while i < end && (self.src.char_at(i) == ' ' || self.src.char_at(i) == '\t')
            invariant
                start <= i <= end <= self.src@.len(),
                skip_blanks(self.src@, start as int, end as int) == skip_blanks(
                    self.src@,
                    i as int,
                    end as int,
                ),
            decreases end - i,
        {
            i = i + 1;
        }
        i
    }

    /// Index one past the last code point of line `line`.
    pub fn line_last(&self, line: usize) -> (i: usize)
        requires
            line < line_count(self.src@),
        ensures
            i == line_last(self.src@, line as nat),
            line_start(self.src@, line as nat) <= i <= self.src@.len(),
    {
        self.src.line_end(line)
    }

    /// True when line `line` holds nothing but blanks.
    pub fn is_empty(&self, line: usize) -> (b: bool)
        requires
            line < line_count(self.src@),
        ensures
            b == line_empty(self.src@, line as nat),
    {
        self.line_first(line) >= self.line_last(line)
    }

    /// True when line `line` is indented by four columns or more, which
    /// makes it code.
    pub fn is_code_indented(&self, line: usize) -> (b: bool)
        requires
            line < line_count(self.src@),
        ensures
            b == (line_indent(self.src@, line as nat) >= 4),
    {
        let start = self.src.line_start(line);
        let first = self.line_first(line);
        let mut width: usize = 0;
        let mut i: usize = start;
        while i < first && width < 4
            invariant
                start <= i <= first <= self.src@.len(),
                width == indent_width(self.src@, start as int, i as int),
                width < 8,
            decreases first - i,
        {
            if self.src.char_at(i) == '\t' {
                width = width + 4 - width % 4;
            } else {
                width = width + 1;
            }
            i = i + 1;
        }
        proof {
            lemma_indent_width_grows(self.src@, start as int, i as int, first as int);
        }
        width >= 4
    }

    /// The bytes from code point `from` up to code point `to`.
    pub fn get_span(&self, from: usize, to: usize) -> (r: SourcePos)
        requires
            from <= self.src@.len(),
            to <= self.src@.len(),
        ensures
            r == span(self.src@, from as int, to as int),
    {
        SourcePos::new(self.src.byte_at(from), self.src.byte_at(to))
    }

    /// The bytes of the lines `first` to `last`, from where the text of the
    /// first one starts.
    pub fn get_map(&self, first: usize, last: usize) -> (r: Option<SourcePos>)
        requires
            first < line_count(self.src@),
            last < line_count(self.src@),
        ensures
            r == Some(line_span(self.src@, first as nat, last as nat)),
    {
        let from = self.line_first(first);
        let to = self.line_last(last);
        Some(self.get_span(from, to))
    }

    /// Appends `node` to the nodes that the run has made.
    pub fn push(&mut self, node: Node)
        ensures
            final(self).node.children@ == old(self).node.children@.push(node),
            final(self).node.value == old(self).node.value,
            final(self).node.attrs == old(self).node.attrs,
            final(self).node.srcmap == old(self).node.srcmap,
            final(self).src == old(self).src,
            final(self).md == old(self).md,
            final(self).line == old(self).line,
            final(self).line_max == old(self).line_max,
    {
        self.node.children.push(node);
    }
}

/// True when `after` is `before` with the node `node` appended and the
/// line cursor at `next`.
pub open spec fn advanced<H: LinkHooks>(
    before: BlockState<H>,
    after: BlockState<H>,
    node: NodeView,
    next: int,
) -> bool {
    &&& after.line == next
    &&& after.line_max == before.line_max
    &&& after.src == before.src
    &&& after.md == before.md
    &&& after.node@ == with_children(before.node@, before.node@.children.push(node))
}

/// The rules that the block phase knows.
#[derive(Clone, Copy, Debug, PartialEq, Eq, Structural)]
pub enum BlockRule {
    /// Indented code.
    Code,
    /// Fenced code.
    Fence,
    /// Thematic breaks.
    ThematicBreak,
    /// Headings that start with `#`.
    Heading,
    /// Paragraphs.
    Paragraph,
}

/// True when the rule `rule` ends a paragraph before line `k`: it is a rule
/// for another kind of block, and it matches there. Indented code ends no
/// paragraph.
pub open spec fn rule_interrupts(rule: BlockRule, s: Seq<char>, k: nat) -> bool {
    match rule {
        BlockRule::Code => false,
        BlockRule::Fence => fence_open(s, k) is Some,
        BlockRule::ThematicBreak => hr_at(s, k) is Some,
        BlockRule::Heading => heading_at(s, k) is Some,
        BlockRule::Paragraph => false,
    }
}

/// True when one of the rules `rules` ends a paragraph before line `k`.
pub open spec fn interrupts(rules: Seq<BlockRule>, s: Seq<char>, k: nat) -> bool {
    exists|i: int| 0 <= i < rules.len() && rule_interrupts(#[trigger] rules[i], s, k)
}

/// What the rule `rule` makes of the lines `k..max` of `s`: the node of the
/// block that starts at line `k` and the line after the block; `None` where
/// the rule does not match. `rules` are the rules that are switched on.
pub open spec fn block_match(rule: BlockRule, rules: Seq<BlockRule>, s: Seq<char>, k: nat, max: nat) -> Option<
    (NodeView, nat),
> {
    match rule {
        BlockRule::Code => code_at(s, k, max),
        BlockRule::Fence => fence_at(s, k, max),
        BlockRule::ThematicBreak => match hr_at(s, k) {
            Some(hr) => Some((hr_node(s, k, hr), k + 1)),
            None => None,
        },
        BlockRule::Heading => match heading_at(s, k) {
            Some(h) => Some((heading_node(s, k, h), k + 1)),
            None => None,
        },
        BlockRule::Paragraph => if line_empty(s, k) {
            None
        } else {
            Some(
                (
                    paragraph_node(s, k, paragraph_end(rules, s, k + 1, max)),
                    paragraph_end(rules, s, k + 1, max),
                ),
            )
        },
    }
}

/// What the first of the rules `tried` that matches makes of the lines
/// `k..max`; `None` where none of them matches.
pub open spec fn first_match(
    tried: Seq<BlockRule>,
    rules: Seq<BlockRule>,
    s: Seq<char>,
    k: nat,
    max: nat,
) -> Option<(NodeView, nat)>
    decreases tried.len(),
{
    if tried.len() == 0 {
        None
    } else {
        match block_match(tried[0], rules, s, k, max) {
            Some(m) => Some(m),
            None => first_match(tried.drop_first(), rules, s, k, max),
        }
    }
}

/// The nodes that the block phase makes of the lines `k..max` of `s` with
/// the rules `rules`, tried in their order at each line: the first rule
/// that matches makes the block. Empty lines, and lines at which no rule
/// matches, make nothing.
pub open spec fn blocks_from(rules: Seq<BlockRule>, s: Seq<char>, k: nat, max: nat) -> Seq<NodeView>
    decreases max - k,
{
    if k >= max {
        Seq::empty()
    } else if line_empty(s, k) {
        blocks_from(rules, s, k + 1, max)
    } else {
        match first_match(rules, rules, s, k, max) {
            Some((node, next)) => if k < next <= max {
                seq![node] + blocks_from(rules, s, next, max)
            } else {
                blocks_from(rules, s, k + 1, max)
            },
            None => blocks_from(rules, s, k + 1, max),
        }
    }
}

/// The node of a match.
pub open spec fn made(m: Option<(NodeView, nat)>) -> NodeView {
    let pair = m->0;
    pair.0
}

/// The line behind a match.
pub open spec fn next_line(m: Option<(NodeView, nat)>) -> nat {
    let pair = m->0;
    pair.1
}

/// The rules that `refs` refer to.
pub open spec fn rules_of(refs: Seq<&BlockRule>) -> Seq<BlockRule> {
    Seq::new(refs.len(), |i: int| *refs[i])
}

impl BlockRule {
    /// Runs the rule on `state`. It says whether the rule matches at the
    /// line to read. On a match that is not silent the state holds the new
    /// block and stands behind it; without a match, or silent, the state is
    /// as it was.
    pub fn run<H: LinkHooks>(&self, state: &mut BlockState<H>, silent: bool) -> (matched: bool)
        ensures
            matched == (old(state).at_line() && block_match(
                *self,
                enabled_rules(old(state).md.block.ruler@),
                old(state).src@,
                old(state).line as nat,
                old(state).line_max as nat,
            ) is Some),
            !matched || silent ==> *final(state) == *old(state),
            matched && !silent ==> {
                let m = block_match(
                    *self,
                    enabled_rules(old(state).md.block.ruler@),
                    old(state).src@,
                    old(state).line as nat,
                    old(state).line_max as nat,
                )->0;
                &&& advanced(*old(state), *final(state), m.0, m.1 as int)
                &&& old(state).line < m.1 <= old(state).line_max
            },
    {
        match self {
            BlockRule::Code => crate::plugins::cmark::block::code::rule(state, silent),
            BlockRule::Fence => crate::plugins::cmark::block::fence::rule(state, silent),
            BlockRule::ThematicBreak => crate::plugins::cmark::block::hr::rule(state, silent),
            BlockRule::Heading => crate::plugins::cmark::block::heading::rule(state, silent),
            BlockRule::Paragraph => crate::plugins::cmark::block::paragraph::rule(state, silent),
        }
    }

    /// Runs the rule on `state` without a change of the state, and says
    /// whether it would end a paragraph before the line to read.
    pub fn probe<H: LinkHooks>(&self, state: &mut BlockState<H>) -> (stops: bool)
        ensures
            stops == (old(state).at_line() && rule_interrupts(
                *self,
                old(state).src@,
                old(state).line as nat,
            )),
            *final(state) == *old(state),
    {
        match self {
            BlockRule::Code => false,
            BlockRule::Fence => crate::plugins::cmark::block::fence::rule(state, true),
            BlockRule::ThematicBreak => crate::plugins::cmark::block::hr::rule(state, true),
            BlockRule::Heading => crate::plugins::cmark::block::heading::rule(state, true),
            BlockRule::Paragraph => false,
        }
    }
}

/// Reads the lines from the line cursor of `state` to its last line and
/// appends the blocks that they hold to its node.
pub fn tokenize<H: LinkHooks>(state: &mut BlockState<H>)
    requires
        old(state).line_max <= line_count(old(state).src@),
    ensures
        final(state).src == old(state).src,
        final(state).md == old(state).md,
        final(state).line_max == old(state).line_max,
        final(state).line >= old(state).line_max || final(state).line == old(state).line,
        final(state).node@ == with_children(
            old(state).node@,
            old(state).node@.children + blocks_from(
                enabled_rules(old(state).md.block.ruler@),
                old(state).src@,
                old(state).line as nat,
                old(state).line_max as nat,
            ),
        ),
{
    let md = state.md;
    let refs = md.block.ruler.iterate();
    let ghost rules = enabled_rules(md.block.ruler@);
    let ghost s = state.src@;
    let ghost max = state.line_max as nat;
    let ghost all = old(state).node@.children + blocks_from(
        rules,
        s,
        old(state).line as nat,
        max,
    );
    proof {
        assert(rules_of(refs@) =~= rules);
        assert(state.node@ == with_children(old(state).node@, old(state).node@.children));
    }
    while state.line < state.line_max
        invariant
            state.src == old(state).src,
            state.md == old(state).md,
            state.md == md,
            state.line_max == old(state).line_max,
            state.line_max <= line_count(state.src@),
            state.line >= old(state).line,
            s == state.src@,
            max == state.line_max,
            rules == enabled_rules(md.block.ruler@),
            rules_of(refs@) == rules,
            all == state.node@.children + blocks_from(rules, s, state.line as nat, max),
            with_children(state.node@, old(state).node@.children) == old(state).node@,
        decreases state.line_max - state.line,
    {
        if state.is_empty(state.line) {
            state.line = state.line + 1;
        } else {
            let ghost k = state.line as nat;
            let ghost before = *state;
            let n: usize = refs.len();
            let mut i: usize = 0;
            let mut matched = false;
            proof {
                assert(rules.skip(0) =~= rules);
            }
            while i < n && !matched
                invariant
                    i <= n,
                    n == refs@.len(),
                    rules_of(refs@) == rules,
                    rules == enabled_rules(md.block.ruler@),
                    before.md == md,
                    before.src@ == s,
                    before.line == k,
                    before.line_max == max,
                    before.at_line(),
                    !matched ==> *state == before,
                    !matched ==> first_match(rules, rules, s, k, max) == first_match(
                        rules.skip(i as int),
                        rules,
                        s,
                        k,
                        max,
                    ),
                    matched ==> {
                        let m = first_match(rules, rules, s, k, max);
                        &&& m is Some
                        &&& advanced(before, *state, made(m), next_line(m) as int)
                        &&& k < next_line(m) <= max
                    },
                decreases n - i + (if matched { 0int } else { 1int }),
            {
                proof {
                    assert(rules.skip(i as int)[0] == *refs@[i as int]);
                    assert(rules.skip(i as int).drop_first() =~= rules.skip(i + 1));
                }
                matched = refs[i].run(state, false);
                i = i + 1;
            }
            if !matched {
                proof {
                    assert(rules.skip(n as int) =~= Seq::<BlockRule>::empty());
                }
                state.line = state.line + 1;
            } else {
                proof {
                    let m = first_match(rules, rules, s, k, max)->0;
                    assert(state.node@.children + blocks_from(rules, s, m.1, max) =~= before.node@.children
                        + (seq![m.0] + blocks_from(rules, s, m.1, max)));
                }
            }
        }
    }
    proof {
        assert(blocks_from(rules, s, state.line as nat, max) =~= Seq::<NodeView>::empty());
        assert(state.node@.children + Seq::<NodeView>::empty() =~= state.node@.children);
    }
}

} // verus!
