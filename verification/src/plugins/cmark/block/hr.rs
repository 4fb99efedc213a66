//! Thematic breaks: a line of three or more `*`, `-` or `_`.
use vstd::prelude::*;
use vstd::string::*;
use crate::common::ruler::{added, registered, RulerError};
use crate::common::sourcemap::{lemma_line_start_increases, line_count, line_start};
use crate::parser::block::{
    advanced, block_leaf, is_blank, lemma_line_bounds, line_first, line_indent, line_last, line_span,
    BlockRule, BlockState,
};
use crate::parser::engine::{LinkHooks, MarkdownIt};
use crate::parser::node::{
    rendered, views, with_value, Node, NodeValue, NodeView, Payload, PayloadView,
};
use crate::parser::renderer::HtmlRenderer;

verus! {

/// The payload of a thematic break.
#[derive(Debug)]
pub struct ThematicBreak {
    /// The marker that the line is made of: `*`, `-` or `_`.
    pub marker: char,
    /// How often the marker stands in the line.
    pub marker_len: usize,
}

impl View for ThematicBreak {
    type V = PayloadView;

    open spec fn view(&self) -> PayloadView {
        PayloadView::ThematicBreak { marker: self.marker, marker_len: self.marker_len }
    }
}

impl NodeValue for ThematicBreak {
    open spec fn is_kind(p: PayloadView) -> bool {
        p is ThematicBreak
    }

    fn into_payload(self) -> (p: Payload) {
        Payload::ThematicBreak(self)
    }

    fn from_payload(p: &Payload) -> (r: Option<&ThematicBreak>) {
        match p {
            Payload::ThematicBreak(v) => Some(v),
            _ => None,
        }
    }
}

impl ThematicBreak {
    /// Writes `hr`, on a line of its own.
    pub fn render(&self, node: &Node, fmt: &mut HtmlRenderer)
        ensures
            final(fmt)@ == rendered(old(fmt)@, with_value(node@, self@)),
        decreases node, 0int,
    {
        proof {
            assert(node@.children =~= views(node.children@));
            reveal_strlit("hr");
            assert("hr"@ =~= seq!['h', 'r']);
        }
        fmt.cr();
        fmt.self_close("hr", &node.attrs);
        fmt.cr();
    }
}

/// True for the three markers that a thematic break can be made of.
pub open spec fn is_marker(c: char) -> bool {
    c == '*' || c == '-' || c == '_'
}

/// How often `marker` stands in `s[from..to]`, where that holds nothing
/// but the marker, blanks and tabs; `None` where it holds anything else.
pub open spec fn marker_count(s: Seq<char>, marker: char, from: int, to: int) -> Option<nat>
    decreases to - from,
{
    if to <= from {
        Some(0)
    } else {
        match marker_count(s, marker, from, to - 1) {
            None => None,
            Some(n) => if s[to - 1] == marker {
                Some(n + 1)
            } else if is_blank(s[to - 1]) {
                Some(n)
            } else {
                None
            },
        }
    }
}

/// The thematic break that line `k` of `s` is: the line is indented by
/// less than four columns, starts with a marker, and holds that marker
/// three times or more and besides it only blanks and tabs.
pub open spec fn hr_at(s: Seq<char>, k: nat) -> Option<ThematicBreak> {
    let first = line_first(s, k);
    let last = line_last(s, k);
    if line_indent(s, k) >= 4 || first >= last || !is_marker(s[first]) {
        None
    } else {
        match marker_count(s, s[first], first, last) {
            Some(n) => if n >= 3 {
                Some(ThematicBreak { marker: s[first], marker_len: n as usize })
            } else {
                None
            },
            None => None,
        }
    }
}

/// The node of the thematic break `hr` that line `k` of `s` is.
pub open spec fn hr_node(s: Seq<char>, k: nat, hr: ThematicBreak) -> NodeView {
    block_leaf(hr@, line_span(s, k, k))
}

/// The name under which the rule is registered.
pub open spec fn hr_rule_name() -> Seq<char> {
    seq!['h', 'r']
}

/// Registers the rule for thematic breaks with the block phase of `md`, as
/// the last rule. Fails where a rule of that name is registered.
pub fn add<H: LinkHooks>(md: &mut MarkdownIt<H>) -> (r: Result<(), RulerError>)
    ensures
        registered(old(md).block.ruler@, hr_rule_name()) ==> r == Err::<(), RulerError>(
            RulerError::DuplicateName,
        ),
        !registered(old(md).block.ruler@, hr_rule_name()) ==> r is Ok,
        final(md).block.ruler@ == added(
            old(md).block.ruler@,
            hr_rule_name(),
            BlockRule::ThematicBreak,
        ),
        final(md).inline == old(md).inline,
        final(md).core == old(md).core,
        final(md).hooks == old(md).hooks,
        final(md).ext == old(md).ext,
{
    proof {
        reveal_strlit("hr");
        assert("hr"@ =~= hr_rule_name());
    }
    md.block.ruler.add("hr", BlockRule::ThematicBreak)
}

/// The thematic break that line `line` of the source of `state` is.
#[verifier::loop_isolation(false)]
pub fn check<H: LinkHooks>(state: &BlockState<H>, line: usize) -> (r: Option<ThematicBreak>)
    requires
        line < line_count(state.src@),
    ensures
        r == hr_at(state.src@, line as nat),
{
    // a line that is indented by four columns or more is code
    if state.is_code_indented(line) {
        return None;
    }
    let first = state.line_first(line);
    let last = state.line_last(line);
    if first >= last {
        return None;
    }
    let marker = state.src.char_at(first);
    if !(marker == '*' || marker == '-' || marker == '_') {
        return None;
    }
    // the markers may stand between blanks, and there are three of them or more
    let mut cnt: usize = 0;
    let mut i: usize = first;
    while i < last
        invariant
            first <= i <= last <= state.src@.len(),
            marker_count(state.src@, marker, first as int, i as int) == Some(cnt as nat),
            cnt <= i - first,
        decreases last - i,
    {
        let ch = state.src.char_at(i);
        if ch == marker {
            cnt = cnt + 1;
        } else if ch != ' ' && ch != '\t' {
            proof {
                lemma_marker_count_none(state.src@, marker, first as int, i + 1, last as int);
            }
            return None;
        }
        i = i + 1;
    }
    if cnt < 3 {
        return None;
    }
    Some(ThematicBreak { marker, marker_len: cnt })
}

/// Once something else than marker and blanks was met, the line is no
/// thematic break, whatever follows.
pub proof fn lemma_marker_count_none(s: Seq<char>, marker: char, from: int, i: int, to: int)
    requires
        from <= i <= to,
        marker_count(s, marker, from, i) is None,
    ensures
        marker_count(s, marker, from, to) is None,
    decreases to - i,
{
    if i < to {
        lemma_marker_count_none(s, marker, from, i, to - 1);
    }
}

/// The rule for thematic breaks. It matches where the line to read is one.
/// On a match that is not silent it appends the node of the break and goes
/// to the next line; without a match, or silent, it leaves the state as it
/// is.
pub fn rule<H: LinkHooks>(state: &mut BlockState<H>, silent: bool) -> (matched: bool)
    ensures
        matched == (old(state).at_line() && hr_at(old(state).src@, old(state).line as nat) is Some),
        !matched || silent ==> *final(state) == *old(state),
        matched && !silent ==> advanced(
            *old(state),
            *final(state),
            hr_node(
                old(state).src@,
                old(state).line as nat,
                hr_at(old(state).src@, old(state).line as nat)->0,
            ),
            old(state).line + 1,
        ),
        matched ==> old(state).line < old(state).line_max,
{
    if !state.has_line() {
        return false;
    }
    let found = check(state, state.line);
    let hr = match found {
        Some(hr) => hr,
        None => {
            return false;
        },
    };
    if silent {
        return true;
    }
    let mut node = Node::new(hr);
    node.srcmap = state.get_map(state.line, state.line);
    proof {
        assert(node@.attrs =~= Seq::empty());
        assert(node@.children =~= Seq::empty());
        assert(node@ == hr_node(state.src@, state.line as nat, hr));
    }
    let ghost before = state.node@;
    state.push(node);
    state.line = state.line + 1;
    proof {
        assert(state.node@.children =~= before.children.push(node@));
    }
    true
}

/// A line that is indented by four columns or more is no thematic break,
/// whatever it holds.
pub proof fn law_indented_is_no_break(s: Seq<char>, k: nat)
    requires
        line_indent(s, k) >= 4,
    ensures
        hr_at(s, k) is None,
{
}

/// A thematic break is made of one of the three markers, which stands in
/// its line three times or more, and the line holds nothing else but
/// blanks.
pub proof fn law_break_is_made_of_markers(s: Seq<char>, k: nat)
    requires
        hr_at(s, k) is Some,
        s.len() <= usize::MAX,
        line_last(s, k) <= s.len(),
    ensures
        is_marker(hr_at(s, k)->0.marker),
        hr_at(s, k)->0.marker_len >= 3,
        line_indent(s, k) < 4,
        forall|i: int|
            line_first(s, k) <= i < line_last(s, k) ==> s[i] == hr_at(s, k)->0.marker || is_blank(
                s[i],
            ),
{
    let first = line_first(s, k);
    let last = line_last(s, k);
    lemma_line_start_increases(s, 0, k);
    if line_start(s, k) <= s.len() {
        lemma_line_bounds(s, k);
    }
    lemma_marker_count_some(s, s[first], first, last);
}

/// A line of three or more of one marker, with blanks between them or
/// not, is a thematic break where it is indented by less than four
/// columns.
pub proof fn law_markers_make_a_break(s: Seq<char>, k: nat)
    requires
        line_indent(s, k) < 4,
        line_first(s, k) < line_last(s, k),
        is_marker(s[line_first(s, k)]),
        marker_count(s, s[line_first(s, k)], line_first(s, k), line_last(s, k)) matches Some(n)
            && 3 <= n <= usize::MAX,
    ensures
        hr_at(s, k) is Some,
        hr_at(s, k)->0.marker == s[line_first(s, k)],
        hr_at(s, k)->0.marker_len == marker_count(
            s,
            s[line_first(s, k)],
            line_first(s, k),
            line_last(s, k),
        )->0,
{
}

proof fn lemma_marker_count_some(s: Seq<char>, marker: char, from: int, to: int)
    requires
        marker_count(s, marker, from, to) is Some,
    ensures
        forall|i: int| from <= i < to ==> s[i] == marker || is_blank(s[i]),
        from <= to ==> marker_count(s, marker, from, to)->0 <= to - from,
    decreases to - from,
{
    if to > from {
        lemma_marker_count_some(s, marker, from, to - 1);
    }
}

} // verus!
