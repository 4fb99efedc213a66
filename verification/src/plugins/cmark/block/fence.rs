//! Fenced code blocks.
use vstd::prelude::*;
use vstd::string::*;
use crate::common::ruler::{added, registered, RulerError};
use crate::common::sourcemap::{lemma_line_start_increases, line_count, line_start};
use crate::common::text::string_of;
use crate::parser::block::{
    advanced, line_first, line_indent, line_last, skip_blanks, span, trim_end, BlockRule,
    BlockState,
};
use crate::parser::engine::{LinkHooks, MarkdownIt};
use crate::parser::node::fence_attrs;
use crate::parser::node::{
    rendered, views, with_value, Node, NodeValue, NodeView, Payload, PayloadView,
};
use crate::parser::renderer::{attrs_view, HtmlRenderer};

verus! {

/// The payload of a fenced code block.
#[derive(Debug)]
pub struct CodeFence {
    /// What stands behind the opening fence: the language of the code.
    pub info: String,
    /// The code between the fences.
    pub content: String,
}

impl View for CodeFence {
    type V = PayloadView;

    open spec fn view(&self) -> PayloadView {
        PayloadView::CodeFence { info: self.info@, content: self.content@ }
    }
}

impl NodeValue for CodeFence {
    open spec fn is_kind(p: PayloadView) -> bool {
        p is CodeFence
    }

    fn into_payload(self) -> (p: Payload) {
        Payload::CodeFence(self)
    }

    fn from_payload(p: &Payload) -> (r: Option<&CodeFence>) {
        match p {
            Payload::CodeFence(v) => Some(v),
            _ => None,
        }
    }
}

impl CodeFence {
    /// Writes the code inside `pre` and `code`, on lines of its own; the
    /// language, where there is one, as a class of `code`.
    pub fn render(&self, node: &Node, fmt: &mut HtmlRenderer)
        ensures
            final(fmt)@ == rendered(old(fmt)@, with_value(node@, self@)),
        decreases node, 0int,
    {
        proof {
            assert(node@.children =~= views(node.children@));
            reveal_strlit("pre");
            reveal_strlit("code");
            reveal_strlit("class");
            reveal_strlit("language-");
            assert("pre"@ =~= seq!['p', 'r', 'e']);
            assert("code"@ =~= seq!['c', 'o', 'd', 'e']);
            assert("class"@ =~= seq!['c', 'l', 'a', 's', 's']);
            assert("language-"@ =~= seq!['l', 'a', 'n', 'g', 'u', 'a', 'g', 'e', '-']);
        }
        let mut code_attrs: Vec<(String, String)> = Vec::new();
        if self.info.as_str().unicode_len() > 0 {
            let mut class = String::from_str("language-");
            class.append(self.info.as_str());
            code_attrs.push((String::from_str("class"), class));
        }
        proof {
            assert(attrs_view(code_attrs@) =~= fence_attrs(self.info@));
        }
        fmt.cr();
        fmt.open("pre", &node.attrs);
        fmt.open("code", &code_attrs);
        fmt.text(self.content.as_str());
        fmt.close("code");
        fmt.close("pre");
        fmt.cr();
    }
}

/// How often `c` stands at the start of `s[from..to]`.
pub open spec fn run_length(s: Seq<char>, c: char, from: int, to: int) -> nat
    decreases to - from,
{
    if from >= to || s[from] != c {
        0
    } else {
        1 + run_length(s, c, from + 1, to)
    }
}

/// The opening fence that a line is: its marker, how often the marker
/// stands there, and the code points `info_start..info_end` of the word
/// behind it.
pub struct FenceLine {
    pub marker: char,
    pub len: usize,
    pub info_start: usize,
    pub info_end: usize,
}

/// The opening fence that line `k` of `s` is: the line is indented by less
/// than four columns and starts with three or more backticks or tildes.
/// What follows them, without the blanks around it, names the language.
pub open spec fn fence_open(s: Seq<char>, k: nat) -> Option<FenceLine> {
    let first = line_first(s, k);
    let last = line_last(s, k);
    let len = run_length(s, s[first], first, last);
    if line_indent(s, k) >= 4 || first >= last || !(s[first] == '`' || s[first] == '~') || len < 3 {
        None
    } else {
        let start = skip_blanks(s, first + len, last);
        Some(
            FenceLine {
                marker: s[first],
                len: len as usize,
                info_start: start as usize,
                info_end: trim_end(s, start, last) as usize,
            },
        )
    }
}

/// True when line `j` of `s` closes a fence of `len` markers `marker`: it
/// is indented by less than four columns and holds as many of the markers
/// or more, and behind them nothing but blanks.
pub open spec fn fence_closes(s: Seq<char>, j: nat, marker: char, len: nat) -> bool {
    let first = line_first(s, j);
    let last = line_last(s, j);
    let found = run_length(s, marker, first, last);
    line_indent(s, j) < 4 && found >= len && skip_blanks(s, first + found, last) >= last
}

/// The first of the lines `j..max` of `s` that closes a fence of `len`
/// markers `marker`, or `max` where none does.
pub open spec fn fence_close(s: Seq<char>, marker: char, len: nat, j: nat, max: nat) -> nat
    decreases max - j,
{
    if j >= max {
        max
    } else if fence_closes(s, j, marker, len) {
        j
    } else {
        fence_close(s, marker, len, j + 1, max)
    }
}

/// The line behind the block whose fence closes at line `close`, or is not
/// closed before `max`.
pub open spec fn fence_next(close: nat, max: nat) -> nat {
    if close < max {
        close + 1
    } else {
        max
    }
}

/// The node of the fenced block of `s` that opens at line `k` with the
/// fence `open` and closes at line `close`, or at the last line before
/// `max` where `close` is `max`. The code is what stands between the two
/// fences, line breaks and all.
pub open spec fn fence_node(s: Seq<char>, k: nat, open: FenceLine, close: nat, max: nat) -> NodeView {
    let from = if k + 1 < max {
        line_start(s, k + 1)
    } else {
        line_last(s, k)
    };
    let to = if close < max {
        line_start(s, close)
    } else {
        line_last(s, (max - 1) as nat)
    };
    NodeView {
        value: PayloadView::CodeFence {
            info: s.subrange(open.info_start as int, open.info_end as int),
            content: s.subrange(from, to),
        },
        attrs: Seq::empty(),
        children: Seq::empty(),
        srcmap: Some(span(s, line_first(s, k), line_last(s, (fence_next(close, max) - 1) as nat))),
    }
}

/// What the rule makes of the lines `k..max` of `s`: the node of the
/// fenced block that opens at line `k` and the line behind the block.
pub open spec fn fence_at(s: Seq<char>, k: nat, max: nat) -> Option<(NodeView, nat)> {
    match fence_open(s, k) {
        Some(open) => {
            let close = fence_close(s, open.marker, open.len as nat, k + 1, max);
            Some((fence_node(s, k, open, close, max), fence_next(close, max)))
        },
        None => None,
    }
}

/// The name under which the rule is registered.
pub open spec fn fence_rule_name() -> Seq<char> {
    seq!['f', 'e', 'n', 'c', 'e']
}

/// Where a fence closes.
pub proof fn lemma_fence_close(s: Seq<char>, marker: char, len: nat, j: nat, max: nat)
    requires
        j <= max,
    ensures
        j <= fence_close(s, marker, len, j, max) <= max,
    decreases max - j,
{
    if j < max && !fence_closes(s, j, marker, len) {
        lemma_fence_close(s, marker, len, j + 1, max);
    }
}

/// Registers the rule for fenced code with the block phase of `md`, as the
/// last rule. Fails where a rule of that name is registered.
pub fn add<H: LinkHooks>(md: &mut MarkdownIt<H>) -> (r: Result<(), RulerError>)
    ensures
        registered(old(md).block.ruler@, fence_rule_name()) ==> r == Err::<(), RulerError>(
            RulerError::DuplicateName,
        ),
        !registered(old(md).block.ruler@, fence_rule_name()) ==> r is Ok,
        final(md).block.ruler@ == added(old(md).block.ruler@, fence_rule_name(), BlockRule::Fence),
        final(md).inline == old(md).inline,
        final(md).core == old(md).core,
        final(md).hooks == old(md).hooks,
        final(md).ext == old(md).ext,
{
    proof {
        reveal_strlit("fence");
        assert("fence"@ =~= fence_rule_name());
    }
    md.block.ruler.add("fence", BlockRule::Fence)
}

/// How often `c` stands at the start of the code points `from..to` of the
/// source of `state`.
fn count_run<H: LinkHooks>(state: &BlockState<H>, c: char, from: usize, to: usize) -> (n: usize)
    requires
        from <= to <= state.src@.len(),
    ensures
        n == run_length(state.src@, c, from as int, to as int),
        from + n <= to,
{
    let mut i: usize = from;
    while i < to && state.src.char_at(i) == c
        invariant
            from <= i <= to <= state.src@.len(),
            run_length(state.src@, c, from as int, to as int) == (i - from) + run_length(
                state.src@,
                c,
                i as int,
                to as int,
            ),
        decreases to - i,
    {
        i = i + 1;
    }
    i - from
}

/// Index of the first code point of `from..to` of the source of `state`
/// that is not blank.
fn after_blanks<H: LinkHooks>(state: &BlockState<H>, from: usize, to: usize) -> (i: usize)
    requires
        from <= to <= state.src@.len(),
    ensures
        i == skip_blanks(state.src@, from as int, to as int),
        from <= i <= to,
{
    let mut i: usize = from;
    while i < to && (state.src.char_at(i) == ' ' || state.src.char_at(i) == '\t')
        invariant
            from <= i <= to <= state.src@.len(),
            skip_blanks(state.src@, from as int, to as int) == skip_blanks(
                state.src@,
                i as int,
                to as int,
            ),
        decreases to - i,
    {
        i = i + 1;
    }
    i
}

/// The opening fence that line `line` of the source of `state` is.
pub fn check<H: LinkHooks>(state: &BlockState<H>, line: usize) -> (r: Option<FenceLine>)
    requires
        line < line_count(state.src@),
    ensures
        r == fence_open(state.src@, line as nat),
        r matches Some(open) ==> open.info_start <= open.info_end <= state.src@.len(),
{
    if state.is_code_indented(line) {
        return None;
    }
    let first = state.line_first(line);
    let last = state.line_last(line);
    if first >= last {
        return None;
    }
    let marker = state.src.char_at(first);
    if !(marker == '`' || marker == '~') {
        return None;
    }
    let len = count_run(state, marker, first, last);
    if len < 3 {
        return None;
    }
    let start = after_blanks(state, first + len, last);
    let ghost s = state.src@;
    let mut end: usize = last;
    while end > start && (state.src.char_at(end - 1) == ' ' || state.src.char_at(end - 1) == '\t')
        invariant
            start <= end <= last <= s.len(),
            s == state.src@,
            trim_end(s, start as int, last as int) == trim_end(s, start as int, end as int),
        decreases end - start,
    {
        end = end - 1;
    }
    Some(FenceLine { marker, len, info_start: start, info_end: end })
}

/// True when line `line` of the source of `state` closes a fence of `len`
/// markers `marker`.
pub fn closes<H: LinkHooks>(state: &BlockState<H>, line: usize, marker: char, len: usize) -> (b: bool)
    requires
        line < line_count(state.src@),
    ensures
        b == fence_closes(state.src@, line as nat, marker, len as nat),
{
    if state.is_code_indented(line) {
        return false;
    }
    let first = state.line_first(line);
    let last = state.line_last(line);
    let found = count_run(state, marker, first, last);
    if found < len {
        return false;
    }
    after_blanks(state, first + found, last) >= last
}

/// The rule for fenced code. It matches where the line to read opens a
/// fence; the block reaches to the line that closes the fence, or to the
/// last line. On a match that is not silent it appends the node of the
/// block and goes to the line behind it; without a match, or silent, it
/// leaves the state as it is.
pub fn rule<H: LinkHooks>(state: &mut BlockState<H>, silent: bool) -> (matched: bool)
    ensures
        matched == (old(state).at_line() && fence_open(old(state).src@, old(state).line as nat)
            is Some),
        !matched || silent ==> *final(state) == *old(state),
        matched && !silent ==> {
            let m = fence_at(old(state).src@, old(state).line as nat, old(state).line_max as nat);
            &&& m matches Some(pair)
            &&& advanced(*old(state), *final(state), pair.0, pair.1 as int)
            &&& old(state).line < pair.1 <= old(state).line_max
        },
{
    if !state.has_line() {
        return false;
    }
    let open = match check(state, state.line) {
        Some(open) => open,
        None => {
            return false;
        },
    };
    if silent {
        return true;
    }
    let ghost s = state.src@;
    let ghost max = state.line_max as nat;
    let start_line: usize = state.line;
    let mut close: usize = start_line + 1;
    proof {
        lemma_fence_close(s, open.marker, open.len as nat, (start_line + 1) as nat, max);
    }
    while close < state.line_max && !closes(state, close, open.marker, open.len)
        invariant
            start_line < close <= state.line_max <= line_count(s),
            *state == *old(state),
            s == state.src@,
            max == state.line_max,
            fence_close(s, open.marker, open.len as nat, (start_line + 1) as nat, max)
                == fence_close(s, open.marker, open.len as nat, close as nat, max),
        decreases state.line_max - close,
    {
        close = close + 1;
    }
    let next: usize = if close < state.line_max {
        close + 1
    } else {
        state.line_max
    };
    let from: usize = if start_line + 1 < state.line_max {
        state.src.line_start(start_line + 1)
    } else {
        state.line_last(start_line)
    };
    let to: usize = if close < state.line_max {
        state.src.line_start(close)
    } else {
        state.line_last(state.line_max - 1)
    };
    proof {
        if start_line + 1 < state.line_max {
            if close < state.line_max {
                lemma_line_start_increases(s, (start_line + 1) as nat, close as nat);
            } else {
                lemma_line_start_increases(s, (start_line + 1) as nat, (max - 1) as nat);
            }
        }
    }
    let content = string_of(state.src.chars(), from, to);
    let info = string_of(state.src.chars(), open.info_start, open.info_end);
    let first = state.line_first(start_line);
    let last = state.line_last(next - 1);
    let mut node = Node::new(CodeFence { info, content });
    node.srcmap = Some(state.get_span(first, last));
    proof {
        assert(node@.attrs =~= Seq::empty());
        assert(node@.children =~= Seq::empty());
        assert(node@ == fence_node(s, start_line as nat, open, close as nat, max));
    }
    let ghost before = state.node@;
    state.push(node);
    state.line = next;
    proof {
        assert(state.node@.children =~= before.children.push(node@));
    }
    true
}

} // verus!
