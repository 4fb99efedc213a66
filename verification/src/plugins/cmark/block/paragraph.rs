//! Paragraphs.
use vstd::prelude::*;
use vstd::string::*;
use crate::common::ruler::{added, enabled_rules, registered, RulerError};
use crate::common::sourcemap::line_count;
use crate::parser::block::{
    advanced, inline_root, interrupts, line_empty, line_first, line_last, line_span,
    rule_interrupts, rules_of, trim_end, BlockRule, BlockState,
};
use crate::parser::engine::{LinkHooks, MarkdownIt};
use crate::parser::inline::InlineRoot;
use crate::parser::node::{
    rendered, views, with_value, Node, NodeValue, NodeView, Payload, PayloadView,
};
use crate::parser::renderer::HtmlRenderer;

verus! {

/// The payload of a paragraph.
#[derive(Debug)]
pub struct Paragraph;

impl View for Paragraph {
    type V = PayloadView;

    open spec fn view(&self) -> PayloadView {
        PayloadView::Paragraph
    }
}

impl NodeValue for Paragraph {
    open spec fn is_kind(p: PayloadView) -> bool {
        p is Paragraph
    }

    fn into_payload(self) -> (p: Payload) {
        Payload::Paragraph(self)
    }

    fn from_payload(p: &Payload) -> (r: Option<&Paragraph>) {
        match p {
            Payload::Paragraph(v) => Some(v),
            _ => None,
        }
    }
}

impl Paragraph {
    /// Writes the children inside `p`, on lines of their own.
    pub fn render(&self, node: &Node, fmt: &mut HtmlRenderer)
        ensures
            final(fmt)@ == rendered(old(fmt)@, with_value(node@, self@)),
        decreases node, 0int,
    {
        proof {
            assert(node@.children =~= views(node.children@));
            reveal_strlit("p");
            assert("p"@ =~= seq!['p']);
        }
        fmt.cr();
        fmt.open("p", &node.attrs);
        Node::render_all(&node.children, fmt);
        fmt.close("p");
        fmt.cr();
    }
}

/// The line at which a paragraph ends that reaches line `k`: the first
/// line from `k` on that is empty or at which one of the rules `rules`
/// starts another block, or `max` where there is none.
pub open spec fn paragraph_end(rules: Seq<BlockRule>, s: Seq<char>, k: nat, max: nat) -> nat
    decreases max - k,
{
    if k >= max {
        max
    } else if line_empty(s, k) || interrupts(rules, s, k) {
        k
    } else {
        paragraph_end(rules, s, k + 1, max)
    }
}

/// The node of the paragraph that the lines `k..end` of `s` are: its text,
/// from the first code point of the first line that is not blank to the
/// last one of the last line, is a child that the inline phase has yet to
/// read.
pub open spec fn paragraph_node(s: Seq<char>, k: nat, end: nat) -> NodeView {
    let first = line_first(s, k);
    let last = line_last(s, (end - 1) as nat);
    NodeView {
        value: PayloadView::Paragraph,
        attrs: Seq::empty(),
        children: seq![inline_root(s, first, trim_end(s, first, last))],
        srcmap: Some(line_span(s, k, (end - 1) as nat)),
    }
}

/// The name under which the rule is registered.
pub open spec fn paragraph_rule_name() -> Seq<char> {
    seq!['p', 'a', 'r', 'a', 'g', 'r', 'a', 'p', 'h']
}

/// Where a paragraph ends.
pub proof fn lemma_paragraph_end(rules: Seq<BlockRule>, s: Seq<char>, k: nat, max: nat)
    requires
        k <= max,
    ensures
        k <= paragraph_end(rules, s, k, max) <= max,
    decreases max - k,
{
    if k < max && !(line_empty(s, k) || interrupts(rules, s, k)) {
        lemma_paragraph_end(rules, s, k + 1, max);
    }
}

/// Registers the rule for paragraphs with the block phase of `md`, as the
/// last rule. Fails where a rule of that name is registered.
pub fn add<H: LinkHooks>(md: &mut MarkdownIt<H>) -> (r: Result<(), RulerError>)
    ensures
        registered(old(md).block.ruler@, paragraph_rule_name()) ==> r == Err::<(), RulerError>(
            RulerError::DuplicateName,
        ),
        !registered(old(md).block.ruler@, paragraph_rule_name()) ==> r is Ok,
        final(md).block.ruler@ == added(
            old(md).block.ruler@,
            paragraph_rule_name(),
            BlockRule::Paragraph,
        ),
        final(md).inline == old(md).inline,
        final(md).core == old(md).core,
        final(md).hooks == old(md).hooks,
        final(md).ext == old(md).ext,
{
    proof {
        reveal_strlit("paragraph");
        assert("paragraph"@ =~= paragraph_rule_name());
    }
    md.block.ruler.add("paragraph", BlockRule::Paragraph)
}

/// Runs the rules `rules` silently at the line cursor of `state` and says
/// whether one of them starts another block there.
fn interrupted<H: LinkHooks>(state: &mut BlockState<H>, rules: &Vec<&BlockRule>) -> (stops: bool)
    ensures
        stops == (old(state).at_line() && interrupts(
            rules_of(rules@),
            old(state).src@,
            old(state).line as nat,
        )),
        *final(state) == *old(state),
{
    let n: usize = rules.len();
    let mut i: usize = 0;
    while i < n
        invariant
            i <= n,
            n == rules@.len(),
            *state == *old(state),
            forall|j: int|
                0 <= j < i ==> !(state.at_line() && rule_interrupts(
                    #[trigger] rules_of(rules@)[j],
                    state.src@,
                    state.line as nat,
                )),
        decreases n - i,
    {
        if rules[i].probe(state) {
            proof {
                assert(rule_interrupts(rules_of(rules@)[i as int], state.src@, state.line as nat));
            }
            return true;
        }
        i = i + 1;
    }
    false
}

/// The rule for paragraphs. It matches where the line to read is not
/// empty. The paragraph reaches to the next empty line, or to the next line
/// at which a rule that is switched on starts another block, which the
/// rules are asked silently. On a match that is not silent it appends the
/// node of the paragraph and goes to the line behind it; without a match,
/// or silent, it leaves the state as it is.
pub fn rule<H: LinkHooks>(state: &mut BlockState<H>, silent: bool) -> (matched: bool)
    ensures
        matched == (old(state).at_line() && !line_empty(old(state).src@, old(state).line as nat)),
        !matched || silent ==> *final(state) == *old(state),
        matched && !silent ==> advanced(
            *old(state),
            *final(state),
            paragraph_node(
                old(state).src@,
                old(state).line as nat,
                paragraph_end(
                    enabled_rules(old(state).md.block.ruler@),
                    old(state).src@,
                    (old(state).line + 1) as nat,
                    old(state).line_max as nat,
                ),
            ),
            paragraph_end(
                enabled_rules(old(state).md.block.ruler@),
                old(state).src@,
                (old(state).line + 1) as nat,
                old(state).line_max as nat,
            ) as int,
        ),
        matched ==> old(state).line < paragraph_end(
            enabled_rules(old(state).md.block.ruler@),
            old(state).src@,
            (old(state).line + 1) as nat,
            old(state).line_max as nat,
        ) <= old(state).line_max,
{
    if !state.has_line() {
        return false;
    }
    if state.is_empty(state.line) {
        return false;
    }
    let ghost s = state.src@;
    let ghost max = state.line_max as nat;
    let md = state.md;
    let rules = md.block.ruler.iterate();
    let ghost enabled = enabled_rules(md.block.ruler@);
    proof {
        assert(rules_of(rules@) =~= enabled);
        lemma_paragraph_end(enabled, s, (state.line + 1) as nat, max);
    }
    if silent {
        return true;
    }
    let start_line: usize = state.line;
    let mut next: usize = start_line + 1;
    let mut done = false;
    while next < state.line_max && !done
        invariant
            start_line < next <= state.line_max <= line_count(s),
            start_line == old(state).line,
            *state == *old(state),
            s == state.src@,
            max == state.line_max,
            rules_of(rules@) == enabled,
            paragraph_end(enabled, s, (start_line + 1) as nat, max) == paragraph_end(
                enabled,
                s,
                next as nat,
                max,
            ),
            done ==> paragraph_end(enabled, s, next as nat, max) == next,
        decreases state.line_max - next + (if done { 0int } else { 1int }),
    {
        if state.is_empty(next) {
            done = true;
        } else {
            state.line = next;
            let stops = interrupted(state, &rules);
            state.line = start_line;
            if stops {
                done = true;
            } else {
                next = next + 1;
            }
        }
    }
    let first = state.line_first(start_line);
    let last = state.line_last(next - 1);
    let mut end: usize = if last < first { first } else { last };
    while end > first && (state.src.char_at(end - 1) == ' ' || state.src.char_at(end - 1) == '\t')
        invariant
            first <= end <= s.len(),
            s == state.src@,
            trim_end(s, first as int, last as int) == trim_end(s, first as int, end as int),
        decreases end - first,
    {
        end = end - 1;
    }
    let mut text = Node::new(InlineRoot { start: first, end });
    text.srcmap = Some(state.get_span(first, end));
    let mut node = Node::new(Paragraph);
    node.srcmap = state.get_map(start_line, next - 1);
    node.children.push(text);
    proof {
        assert(text@.attrs =~= Seq::empty());
        assert(text@.children =~= Seq::empty());
        assert(node@.attrs =~= Seq::empty());
        assert(node@.children =~= seq![text@]);
        assert(node@ == paragraph_node(s, start_line as nat, next as nat));
    }
    let ghost before = state.node@;
    state.push(node);
    state.line = next;
    proof {
        assert(state.node@.children =~= before.children.push(node@));
    }
    true
}

} // verus!
