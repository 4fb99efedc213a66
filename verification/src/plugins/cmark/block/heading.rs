//! Headings that start with `#`.
use vstd::prelude::*;
use vstd::string::*;
use crate::common::ruler::{added, registered, RulerError};
use crate::common::sourcemap::line_count;
use crate::common::text::digit_char;
use crate::parser::block::{
    advanced, inline_root, is_blank, line_first, line_indent, line_last, line_span, skip_blanks, trim_end, BlockRule, BlockState,
};
use crate::parser::engine::{LinkHooks, MarkdownIt};
use crate::parser::inline::InlineRoot;
use crate::parser::node::heading_tag;
use crate::parser::node::{
    rendered, views, with_value, Node, NodeValue, NodeView, Payload, PayloadView,
};
use crate::parser::renderer::HtmlRenderer;

verus! {

/// The payload of a heading.
#[derive(Debug)]
pub struct ATXHeading {
    /// The level of the heading, 1 to 6.
    pub level: u8,
}

impl View for ATXHeading {
    type V = PayloadView;

    open spec fn view(&self) -> PayloadView {
        PayloadView::ATXHeading { level: self.level }
    }
}

impl NodeValue for ATXHeading {
    open spec fn is_kind(p: PayloadView) -> bool {
        p is ATXHeading
    }

    fn into_payload(self) -> (p: Payload) {
        Payload::ATXHeading(self)
    }

    fn from_payload(p: &Payload) -> (r: Option<&ATXHeading>) {
        match p {
            Payload::ATXHeading(v) => Some(v),
            _ => None,
        }
    }
}

impl ATXHeading {
    /// Writes the children inside `h1` to `h6`, on lines of their own.
    pub fn render(&self, node: &Node, fmt: &mut HtmlRenderer)
        ensures
            final(fmt)@ == rendered(old(fmt)@, with_value(node@, self@)),
        decreases node, 0int,
    {
        proof {
            assert(node@.children =~= views(node.children@));
        }
        let mut tag = String::new();
        tag.push('h');
        tag.push(digit_char(self.level as usize));
        proof {
            assert(tag@ =~= heading_tag(self.level));
        }
        fmt.cr();
        fmt.open(tag.as_str(), &node.attrs);
        Node::render_all(&node.children, fmt);
        fmt.close(tag.as_str());
        fmt.cr();
    }
}

/// Number of `#` that `s[from..to]` starts with.
pub open spec fn hashes(s: Seq<char>, from: int, to: int) -> nat
    decreases to - from,
{
    if from >= to || s[from] != '#' {
        0
    } else {
        1 + hashes(s, from + 1, to)
    }
}

/// A heading as the rule reads it from a line: its level and the code
/// points `start..end` of its text.
pub struct HeadingLine {
    pub level: u8,
    pub start: usize,
    pub end: usize,
}

/// The heading that line `k` of `s` is: the line is indented by less than
/// four columns and starts with one to six `#`, after which the line ends
/// or a blank follows. The text is what stands behind the blanks, up to the
/// last code point that is not blank.
pub open spec fn heading_at(s: Seq<char>, k: nat) -> Option<HeadingLine> {
    let first = line_first(s, k);
    let last = line_last(s, k);
    let level = hashes(s, first, last);
    if line_indent(s, k) >= 4 || level < 1 || level > 6 {
        None
    } else if first + level < last && !is_blank(s[first + level]) {
        None
    } else {
        let start = skip_blanks(s, first + level, last);
        Some(
            HeadingLine {
                level: level as u8,
                start: start as usize,
                end: trim_end(s, start, last) as usize,
            },
        )
    }
}

/// The node of the heading `h` that line `k` of `s` is: its text is a
/// child that the inline phase has yet to read.
pub open spec fn heading_node(s: Seq<char>, k: nat, h: HeadingLine) -> NodeView {
    NodeView {
        value: PayloadView::ATXHeading { level: h.level },
        attrs: Seq::empty(),
        children: seq![inline_root(s, h.start as int, h.end as int)],
        srcmap: Some(line_span(s, k, k)),
    }
}

/// The name under which the rule is registered.
pub open spec fn heading_rule_name() -> Seq<char> {
    seq!['h', 'e', 'a', 'd', 'i', 'n', 'g']
}

/// Registers the rule for headings with the block phase of `md`, as the
/// last rule. Fails where a rule of that name is registered.
pub fn add<H: LinkHooks>(md: &mut MarkdownIt<H>) -> (r: Result<(), RulerError>)
    ensures
        registered(old(md).block.ruler@, heading_rule_name()) ==> r == Err::<(), RulerError>(
            RulerError::DuplicateName,
        ),
        !registered(old(md).block.ruler@, heading_rule_name()) ==> r is Ok,
        final(md).block.ruler@ == added(
            old(md).block.ruler@,
            heading_rule_name(),
            BlockRule::Heading,
        ),
        final(md).inline == old(md).inline,
        final(md).core == old(md).core,
        final(md).hooks == old(md).hooks,
        final(md).ext == old(md).ext,
{
    proof {
        reveal_strlit("heading");
        assert("heading"@ =~= heading_rule_name());
    }
    md.block.ruler.add("heading", BlockRule::Heading)
}

/// The heading that line `line` of the source of `state` is.
#[verifier::loop_isolation(false)]
pub fn check<H: LinkHooks>(state: &BlockState<H>, line: usize) -> (r: Option<HeadingLine>)
    requires
        line < line_count(state.src@),
    ensures
        r == heading_at(state.src@, line as nat),
        r matches Some(h) ==> h.start <= h.end <= state.src@.len(),
{
    if state.is_code_indented(line) {
        return None;
    }
    let first = state.line_first(line);
    let last = state.line_last(line);
    let ghost s = state.src@;
    let mut level: usize = 0;
    let mut i: usize = first;
    while i < last && level < 7 && state.src.char_at(i) == '#'
        invariant
            first <= i <= last <= s.len(),
            i == first + level,
            level <= 7,
            hashes(s, first as int, last as int) == level + hashes(s, i as int, last as int),
        decreases last - i,
    {
        level = level + 1;
        i = i + 1;
    }
    if level < 1 || level > 6 {
        return None;
    }
    if i < last && !(state.src.char_at(i) == ' ' || state.src.char_at(i) == '\t') {
        return None;
    }
    let mut start: usize = i;
    while start < last && (state.src.char_at(start) == ' ' || state.src.char_at(start) == '\t')
        invariant
            i <= start <= last,
            skip_blanks(s, i as int, last as int) == skip_blanks(s, start as int, last as int),
        decreases last - start,
    {
        start = start + 1;
    }
    let mut end: usize = last;
    while end > start && (state.src.char_at(end - 1) == ' ' || state.src.char_at(end - 1) == '\t')
        invariant
            start <= end <= last,
            trim_end(s, start as int, last as int) == trim_end(s, start as int, end as int),
        decreases end - start,
    {
        end = end - 1;
    }
    Some(HeadingLine { level: level as u8, start, end })
}

/// The rule for headings. It matches where the line to read is one. On a
/// match that is not silent it appends the node of the heading and goes to
/// the next line; without a match, or silent, it leaves the state as it is.
pub fn rule<H: LinkHooks>(state: &mut BlockState<H>, silent: bool) -> (matched: bool)
    ensures
        matched == (old(state).at_line() && heading_at(old(state).src@, old(state).line as nat)
            is Some),
        !matched || silent ==> *final(state) == *old(state),
        matched && !silent ==> advanced(
            *old(state),
            *final(state),
            heading_node(
                old(state).src@,
                old(state).line as nat,
                heading_at(old(state).src@, old(state).line as nat)->0,
            ),
            old(state).line + 1,
        ),
        matched ==> old(state).line < old(state).line_max,
{
    if !state.has_line() {
        return false;
    }
    let h = match check(state, state.line) {
        Some(h) => h,
        None => {
            return false;
        },
    };
    if silent {
        return true;
    }
    let mut text = Node::new(InlineRoot { start: h.start, end: h.end });
    text.srcmap = Some(state.get_span(h.start, h.end));
    let mut node = Node::new(ATXHeading { level: h.level });
    node.srcmap = state.get_map(state.line, state.line);
    node.children.push(text);
    proof {
        assert(text@.attrs =~= Seq::empty());
        assert(text@.children =~= Seq::empty());
        assert(node@.attrs =~= Seq::empty());
        assert(node@.children =~= seq![text@]);
        assert(node@ == heading_node(state.src@, state.line as nat, h));
    }
    let ghost before = state.node@;
    state.push(node);
    state.line = state.line + 1;
    proof {
        assert(state.node@.children =~= before.children.push(node@));
    }
    true
}

} // verus!
