//! Indented code blocks.
use vstd::prelude::*;
use vstd::string::*;
use crate::common::ruler::{added, registered, RulerError};
use crate::common::sourcemap::{line_count, line_start};
use crate::common::text::{push_range, string_from};
use crate::parser::block::{
    advanced, block_leaf, indent_width, line_empty, line_first, line_indent, line_last, line_span,
    BlockRule, BlockState,
};
use crate::parser::engine::{LinkHooks, MarkdownIt};
use crate::parser::node::{
    rendered, views, with_value, Node, NodeValue, NodeView, Payload, PayloadView,
};
use crate::parser::renderer::{attrs_view, HtmlRenderer};

verus! {

/// The payload of an indented code block.
#[derive(Debug)]
pub struct CodeBlock {
    /// The code, without the indentation.
    pub content: String,
}

impl View for CodeBlock {
    type V = PayloadView;

    open spec fn view(&self) -> PayloadView {
        PayloadView::CodeBlock { content: self.content@ }
    }
}

impl NodeValue for CodeBlock {
    open spec fn is_kind(p: PayloadView) -> bool {
        p is CodeBlock
    }

    fn into_payload(self) -> (p: Payload) {
        Payload::CodeBlock(self)
    }

    fn from_payload(p: &Payload) -> (r: Option<&CodeBlock>) {
        match p {
            Payload::CodeBlock(v) => Some(v),
            _ => None,
        }
    }
}

impl CodeBlock {
    /// Writes the code inside `pre` and `code`, on lines of its own.
    pub fn render(&self, node: &Node, fmt: &mut HtmlRenderer)
        ensures
            final(fmt)@ == rendered(old(fmt)@, with_value(node@, self@)),
        decreases node, 0int,
    {
        proof {
            assert(node@.children =~= views(node.children@));
            reveal_strlit("pre");
            reveal_strlit("code");
            assert("pre"@ =~= seq!['p', 'r', 'e']);
            assert("code"@ =~= seq!['c', 'o', 'd', 'e']);
        }
        let none: Vec<(String, String)> = Vec::new();
        proof {
            assert(attrs_view(none@) =~= Seq::empty());
        }
        fmt.cr();
        fmt.open("pre", &node.attrs);
        fmt.open("code", &none);
        fmt.text(self.content.as_str());
        fmt.close("code");
        fmt.close("pre");
        fmt.cr();
    }
}

/// True when line `k` of `s` is a line of indented code: it is not empty
/// and is indented by four columns or more.
pub open spec fn code_line(s: Seq<char>, k: nat) -> bool {
    !line_empty(s, k) && line_indent(s, k) >= 4
}

/// Index of the first code point from `i` on, and before `to`, before
/// which the blanks from `start` on take four columns or more; `to` where
/// there is none.
pub open spec fn code_start_from(s: Seq<char>, start: int, i: int, to: int) -> int
    decreases to - i,
{
    if i >= to || indent_width(s, start, i) >= 4 {
        i
    } else {
        code_start_from(s, start, i + 1, to)
    }
}

/// Index at which the code of line `k` starts: behind the first four
/// columns of its indentation.
pub open spec fn code_start(s: Seq<char>, k: nat) -> int {
    code_start_from(s, line_start(s, k), line_start(s, k), line_first(s, k))
}

/// The first line from `j` on, and before `max`, that is no line of
/// indented code; `max` where there is none.
pub open spec fn code_end(s: Seq<char>, j: nat, max: nat) -> nat
    decreases max - j,
{
    if j >= max || !code_line(s, j) {
        if j >= max {
            max
        } else {
            j
        }
    } else {
        code_end(s, j + 1, max)
    }
}

/// The code of the lines `k..end` of `s`: each line without the first
/// four columns of its indentation, and a line break behind it.
pub open spec fn code_text(s: Seq<char>, k: nat, end: nat) -> Seq<char>
    decreases end - k,
{
    if end <= k {
        Seq::empty()
    } else {
        code_text(s, k, (end - 1) as nat) + s.subrange(
            code_start(s, (end - 1) as nat),
            line_last(s, (end - 1) as nat),
        ) + seq!['\n']
    }
}

/// What the rule makes of the lines `k..max` of `s`: the node of the block
/// of indented code that starts at line `k`, and the line behind the
/// block. The block reaches to the next line that is empty or indented by
/// less than four columns.
pub open spec fn code_at(s: Seq<char>, k: nat, max: nat) -> Option<(NodeView, nat)> {
    if code_line(s, k) {
        let end = code_end(s, k + 1, max);
        Some(
            (
                block_leaf(
                    PayloadView::CodeBlock { content: code_text(s, k, end) },
                    line_span(s, k, (end - 1) as nat),
                ),
                end,
            ),
        )
    } else {
        None
    }
}

/// The name under which the rule is registered.
pub open spec fn code_rule_name() -> Seq<char> {
    seq!['c', 'o', 'd', 'e']
}

/// Where a block of indented code ends.
pub proof fn lemma_code_end(s: Seq<char>, j: nat, max: nat)
    requires
        j <= max,
    ensures
        j <= code_end(s, j, max) <= max,
    decreases max - j,
{
    if j < max && code_line(s, j) {
        lemma_code_end(s, j + 1, max);
    }
}

/// Registers the rule for indented code with the block phase of `md`, as
/// the last rule. Fails where a rule of that name is registered.
pub fn add<H: LinkHooks>(md: &mut MarkdownIt<H>) -> (r: Result<(), RulerError>)
    ensures
        registered(old(md).block.ruler@, code_rule_name()) ==> r == Err::<(), RulerError>(
            RulerError::DuplicateName,
        ),
        !registered(old(md).block.ruler@, code_rule_name()) ==> r is Ok,
        final(md).block.ruler@ == added(old(md).block.ruler@, code_rule_name(), BlockRule::Code),
        final(md).inline == old(md).inline,
        final(md).core == old(md).core,
        final(md).hooks == old(md).hooks,
        final(md).ext == old(md).ext,
{
    proof {
        reveal_strlit("code");
        assert("code"@ =~= code_rule_name());
    }
    md.block.ruler.add("code", BlockRule::Code)
}

/// True when line `line` of the source of `state` is a line of indented
/// code.
pub fn check<H: LinkHooks>(state: &BlockState<H>, line: usize) -> (b: bool)
    requires
        line < line_count(state.src@),
    ensures
        b == code_line(state.src@, line as nat),
{
    !state.is_empty(line) && state.is_code_indented(line)
}

/// Index at which the code of line `line` of the source of `state`
/// starts.
pub fn start_of<H: LinkHooks>(state: &BlockState<H>, line: usize) -> (i: usize)
    requires
        line < line_count(state.src@),
    ensures
        i == code_start(state.src@, line as nat),
        line_start(state.src@, line as nat) <= i <= line_first(state.src@, line as nat),
        i <= line_last(state.src@, line as nat),
{
    let start = state.src.line_start(line);
    let first = state.line_first(line);
    let ghost s = state.src@;
    let mut width: usize = 0;
    let mut i: usize = start;
    while i < first && width < 4
        invariant
            start <= i <= first <= s.len(),
            s == state.src@,
            width == indent_width(s, start as int, i as int),
            width < 8,
            code_start_from(s, start as int, start as int, first as int) == code_start_from(
                s,
                start as int,
                i as int,
                first as int,
            ),
        decreases first - i,
    {
        if state.src.char_at(i) == '\t' {
            width = width + 4 - width % 4;
        } else {
            width = width + 1;
        }
        i = i + 1;
    }
    i
}

/// The rule for indented code. It matches where the line to read is a
/// line of indented code. On a match that is not silent it appends the
/// node of the block and goes to the line behind it; without a match, or
/// silent, it leaves the state as it is.
pub fn rule<H: LinkHooks>(state: &mut BlockState<H>, silent: bool) -> (matched: bool)
    ensures
        matched == (old(state).at_line() && code_line(old(state).src@, old(state).line as nat)),
        !matched || silent ==> *final(state) == *old(state),
        matched && !silent ==> {
            let m = code_at(old(state).src@, old(state).line as nat, old(state).line_max as nat);
            &&& m matches Some(pair)
            &&& advanced(*old(state), *final(state), pair.0, pair.1 as int)
            &&& old(state).line < pair.1 <= old(state).line_max
        },
{
    if !state.has_line() {
        return false;
    }
    if !check(state, state.line) {
        return false;
    }
    if silent {
        return true;
    }
    let ghost s = state.src@;
    let ghost max = state.line_max as nat;
    let start_line: usize = state.line;
    let mut content: String = String::new();
    let mut next: usize = start_line;
    proof {
        lemma_code_end(s, (start_line + 1) as nat, max);
    }
    while next < state.line_max && (next == start_line || check(state, next))
        invariant
            start_line <= next <= state.line_max <= line_count(s),
            *state == *old(state),
            s == state.src@,
            max == state.line_max,
            start_line == state.line,
            next > start_line ==> code_end(s, (start_line + 1) as nat, max) == code_end(
                s,
                next as nat,
                max,
            ),
            content@ == code_text(s, start_line as nat, next as nat),
        decreases state.line_max - next,
    {
        let from = start_of(state, next);
        let to = state.line_last(next);
        let ghost before = content@;
        push_range(&mut content, state.src.chars(), from, to);
        content.push('\n');
        proof {
            assert(content@ =~= before + s.subrange(from as int, to as int) + seq!['\n']);
        }
        next = next + 1;
    }
    let mut node = Node::new(CodeBlock { content });
    node.srcmap = state.get_map(start_line, next - 1);
    proof {
        assert(node@.attrs =~= Seq::empty());
        assert(node@.children =~= Seq::empty());
    }
    let ghost before = state.node@;
    state.push(node);
    state.line = next;
    proof {
        assert(state.node@.children =~= before.children.push(node@));
    }
    true
}

} // verus!
