//! Autolinks: `<https://example.org>` and `<someone@example.org>`.
use vstd::prelude::*;
use vstd::string::*;
use regex::Regex;
use crate::common::ruler::{entry, registered, RulerError};
use crate::common::text::string_of;
use crate::parser::block::{block_leaf, span};
use crate::parser::engine::{LinkHooks, MarkdownIt, SetupError};
use crate::parser::inline::{consumed, InlineRule, InlineState, Text};
use crate::parser::node::{
    rendered, views, with_value, Node, NodeValue, NodeView, Payload, PayloadView,
};
use crate::parser::renderer::{attrs_view, clone_attrs, HtmlRenderer};

verus! {

/// The payload of an autolink.
#[derive(Debug)]
pub struct Autolink {
    /// Where the link leads.
    pub url: String,
}

impl View for Autolink {
    type V = PayloadView;

    open spec fn view(&self) -> PayloadView {
        PayloadView::Autolink { url: self.url@ }
    }
}

impl NodeValue for Autolink {
    open spec fn is_kind(p: PayloadView) -> bool {
        p is Autolink
    }

    fn into_payload(self) -> (p: Payload) {
        Payload::Autolink(self)
    }

    fn from_payload(p: &Payload) -> (r: Option<&Autolink>) {
        match p {
            Payload::Autolink(v) => Some(v),
            _ => None,
        }
    }
}

impl Autolink {
    /// Writes the children inside `a`, whose `href` is the target.
    pub fn render(&self, node: &Node, fmt: &mut HtmlRenderer)
        ensures
            final(fmt)@ == rendered(old(fmt)@, with_value(node@, self@)),
        decreases node, 0int,
    {
        proof {
            assert(node@.children =~= views(node.children@));
            reveal_strlit("a");
            reveal_strlit("href");
            assert("a"@ =~= seq!['a']);
            assert("href"@ =~= seq!['h', 'r', 'e', 'f']);
        }
        let mut attrs = clone_attrs(&node.attrs);
        attrs.push((String::from_str("href"), self.url.clone()));
        proof {
            assert(attrs_view(attrs@) =~= node@.attrs.push((seq!['h', 'r', 'e', 'f'], self.url@)));
        }
        fmt.open("a", &attrs);
        Node::render_all(&node.children, fmt);
        fmt.close("a");
    }
}

/// `regex::Regex`, a compiled regular expression. Nothing of its inside is
/// known here.
#[verifier::external_type_specification]
#[verifier::external_body]
pub struct ExRegex(regex::Regex);

/// `regex::Error`, the reason why a pattern was not compiled.
#[verifier::external_type_specification]
#[verifier::external_body]
pub struct ExRegexError(regex::Error);

/// The pattern that the compiled expression `re` was made from: what
/// `regex::Regex::as_str` returns for it.
pub uninterp spec fn regex_pattern(re: Regex) -> Seq<char>;

/// Whether `regex::Regex::new` compiles `pattern`: true where it returns
/// a compiled expression, false where it returns an error.
pub uninterp spec fn regex_compiles(pattern: Seq<char>) -> bool;

/// Whether the compiled expression `re` matches somewhere in `haystack`:
/// what `regex::Regex::is_match` returns for the two.
pub uninterp spec fn regex_is_match(re: Regex, haystack: Seq<char>) -> bool;

/// `regex::Regex::new`: compiles `pattern`, or says why it cannot; which
/// of the two depends on the pattern alone. The compiled expression keeps
/// the text of its pattern, which `as_str` hands out.
#[verifier::external_body]
fn compile(pattern: &str) -> (r: Result<Regex, regex::Error>)
    ensures
        r is Ok <==> regex_compiles(pattern@),
        r matches Ok(re) ==> regex_pattern(re) == pattern@,
{
    Regex::new(pattern)
}

/// `regex::Regex::as_str`: the text of the pattern that `re` was compiled
/// from.
#[verifier::external_body]
fn pattern_of(re: &Regex) -> (pattern: &str)
    ensures
        pattern@ == regex_pattern(*re),
{
    re.as_str()
}

/// `regex::Regex::is_match`: true if and only if `re` matches somewhere in
/// `haystack`. The answer depends on the two alone.
#[verifier::external_body]
fn is_match(re: &Regex, haystack: &str) -> (b: bool)
    ensures
        b == regex_is_match(*re, haystack@),
{
    re.is_match(haystack)
}

/// The pattern of a link with a scheme: a scheme of 2 to 32 letters,
/// digits, `+`, `.` and `-` that starts with a letter, a colon, and then
/// anything but blanks, control characters, `<` and `>`.
pub const URI_PATTERN: &'static str = "^([a-zA-Z][a-zA-Z0-9+.\\-]{1,31}):([^<>\\x00-\\x20]*)$";

/// The pattern of a mail address.
pub const EMAIL_PATTERN: &'static str =
    "^([a-zA-Z0-9.!#$%&'*+/=?^_`{|}~-]+@[a-zA-Z0-9](?:[a-zA-Z0-9-]{0,61}[a-zA-Z0-9])?(?:\\.[a-zA-Z0-9](?:[a-zA-Z0-9-]{0,61}[a-zA-Z0-9])?)*)$";

/// The scheme that the target of a mail address starts with.
pub open spec fn mailto() -> Seq<char> {
    seq!['m', 'a', 'i', 'l', 't', 'o', ':']
}

/// The rule for autolinks, with its two patterns compiled.
pub struct AutolinkScanner {
    uri: Regex,
    email: Regex,
}

/// Index of the first `<` or `>` in `s[from..to]`, or `to` where there is
/// none.
pub open spec fn bracket(s: Seq<char>, from: int, to: int) -> int
    decreases to - from,
{
    if from >= to {
        to
    } else if s[from] == '<' || s[from] == '>' {
        from
    } else {
        bracket(s, from + 1, to)
    }
}

/// The node of the autolink that stands at `s[pos..close + 1]`: a link to
/// `target` that holds `text` as its one child.
pub open spec fn autolink_node(
    s: Seq<char>,
    pos: int,
    close: int,
    target: Seq<char>,
    text: Seq<char>,
) -> NodeView {
    NodeView {
        value: PayloadView::Autolink { url: target },
        attrs: Seq::empty(),
        children: seq![
            block_leaf(PayloadView::Text { content: text }, span(s, pos + 1, close)),
        ],
        srcmap: Some(span(s, pos, close + 1)),
    }
}

/// The autolink that starts at `s[pos]` and ends before `max`, with the
/// index behind it. There is one where `s[pos]` is `<`, the next `<` or `>`
/// is a `>` before `max`, what stands between the two matches one of the
/// two patterns of `scanner`, and the hooks allow the target. The target is
/// what the hooks make of the text between the brackets, with `mailto:`
/// before it where the text is a mail address and no link with a scheme.
pub open spec fn autolink_at<H: LinkHooks>(
    scanner: AutolinkScanner,
    hooks: H,
    s: Seq<char>,
    pos: int,
    max: int,
) -> Option<(NodeView, int)> {
    let close = bracket(s, pos + 1, max);
    let url = s.subrange(pos + 1, close);
    let is_uri = regex_is_match(scanner.uri(), url);
    let is_email = regex_is_match(scanner.email(), url);
    let target = hooks.normalized(
        if is_uri {
            url
        } else {
            mailto() + url
        },
    );
    if !(0 <= pos < max <= s.len()) || s[pos] != '<' {
        None
    } else if close >= max || s[close] != '>' {
        None
    } else if !is_uri && !is_email {
        None
    } else if !hooks.valid(target) {
        None
    } else {
        Some((autolink_node(s, pos, close, target, hooks.normalized_text(url)), close + 1))
    }
}

/// True when the two patterns of the rule compile.
pub open spec fn patterns_compile() -> bool {
    regex_compiles(URI_PATTERN@) && regex_compiles(EMAIL_PATTERN@)
}

/// The name under which the rule is registered.
pub open spec fn autolink_rule_name() -> Seq<char> {
    seq!['a', 'u', 't', 'o', 'l', 'i', 'n', 'k']
}

/// Registers the rule for autolinks with the inline phase of `md`, as the
/// last rule. Fails where a rule of that name is registered, and where a
/// pattern of the rule cannot be compiled; `md` is then as it was.
pub fn add<H: LinkHooks>(md: &mut MarkdownIt<H>) -> (r: Result<(), SetupError>)
    ensures
        registered(old(md).inline.ruler@, autolink_rule_name()) ==> r == Err::<(), SetupError>(
            SetupError::Ruler(RulerError::DuplicateName),
        ),
        !registered(old(md).inline.ruler@, autolink_rule_name()) && !patterns_compile() ==> r
            == Err::<(), SetupError>(SetupError::Pattern),
        r is Ok <==> !registered(old(md).inline.ruler@, autolink_rule_name())
            && patterns_compile(),
        r is Err ==> final(md).inline.ruler@ == old(md).inline.ruler@,
        r is Ok ==> {
            let rules = final(md).inline.ruler@;
            &&& rules.len() == old(md).inline.ruler@.len() + 1
            &&& rules.drop_last() == old(md).inline.ruler@
            &&& rules.last().name == autolink_rule_name()
            &&& rules.last().enabled
            &&& rules.last().rule matches InlineRule::Autolink(scanner)
            &&& scanner.uri_pattern() == URI_PATTERN@
            &&& scanner.email_pattern() == EMAIL_PATTERN@
        },
        final(md).block == old(md).block,
        final(md).core == old(md).core,
        final(md).hooks == old(md).hooks,
        final(md).ext == old(md).ext,
{
    proof {
        reveal_strlit("autolink");
        assert("autolink"@ =~= autolink_rule_name());
    }
    if md.inline.ruler.contains("autolink") {
        return Err(SetupError::Ruler(RulerError::DuplicateName));
    }
    let scanner = match AutolinkScanner::new() {
        Some(scanner) => scanner,
        None => {
            return Err(SetupError::Pattern);
        },
    };
    let ghost before = md.inline.ruler@;
    let ghost rule = InlineRule::Autolink(scanner);
    let _ = md.inline.ruler.add("autolink", InlineRule::Autolink(scanner));
    proof {
        assert(md.inline.ruler@ == before.push(entry(autolink_rule_name(), rule)));
        assert(md.inline.ruler@.drop_last() =~= before);
    }
    Ok(())
}

impl AutolinkScanner {
    /// The compiled pattern of links with a scheme.
    pub closed spec fn uri(&self) -> Regex {
        self.uri
    }

    /// The compiled pattern of mail addresses.
    pub closed spec fn email(&self) -> Regex {
        self.email
    }

    /// The text of the pattern of links with a scheme.
    pub open spec fn uri_pattern(&self) -> Seq<char> {
        regex_pattern(self.uri())
    }

    /// The text of the pattern of mail addresses.
    pub open spec fn email_pattern(&self) -> Seq<char> {
        regex_pattern(self.email())
    }

    /// The rule with its two patterns compiled; `None` where one of them
    /// cannot be compiled.
    pub fn new() -> (r: Option<AutolinkScanner>)
        ensures
            r is Some <==> patterns_compile(),
            r matches Some(scanner) ==> scanner.uri_pattern() == URI_PATTERN@
                && scanner.email_pattern() == EMAIL_PATTERN@,
    {
        AutolinkScanner::from_compiled(compile(URI_PATTERN), compile(EMAIL_PATTERN))
    }

    /// The rule that holds `uri` as its pattern of links with a scheme and
    /// `email` as its pattern of mail addresses, where both were compiled;
    /// `None` where one of them was not.
    pub fn from_compiled(uri: Result<Regex, regex::Error>, email: Result<Regex, regex::Error>) -> (r:
        Option<AutolinkScanner>)
        ensures
            r is Some <==> uri is Ok && email is Ok,
            r matches Some(scanner) ==> uri matches Ok(first) && email matches Ok(second)
                && scanner.uri() == first && scanner.email() == second,
    {
        match uri {
            Ok(uri) => match email {
                Ok(email) => Some(AutolinkScanner { uri, email }),
                Err(_) => None,
            },
            Err(_) => None,
        }
    }

    /// The texts of the two patterns: that of links with a scheme and that
    /// of mail addresses.
    pub fn patterns(&self) -> (r: (&str, &str))
        ensures
            r.0@ == self.uri_pattern(),
            r.1@ == self.email_pattern(),
    {
        (pattern_of(&self.uri), pattern_of(&self.email))
    }

    /// The target and the visible text of the link that `url`, the text
    /// between the brackets, makes: `None` where the hooks do not allow the
    /// target. `is_uri` says that `url` is a link with a scheme; a mail
    /// address gets `mailto:` before it.
    pub fn link<H: LinkHooks>(hooks: &H, url: &str, is_uri: bool) -> (r: Option<(String, String)>)
        ensures
            r is Some <==> hooks.valid(
                hooks.normalized(
                    if is_uri {
                        url@
                    } else {
                        mailto() + url@
                    },
                ),
            ),
            r matches Some(link) ==> link.0@ == hooks.normalized(
                if is_uri {
                    url@
                } else {
                    mailto() + url@
                },
            ) && link.1@ == hooks.normalized_text(url@),
    {
        let full_url = if is_uri {
            hooks.normalize_link(url)
        } else {
            proof {
                reveal_strlit("mailto:");
                assert("mailto:"@ =~= mailto());
            }
            let address = String::from_str("mailto:").concat(url);
            hooks.normalize_link(address.as_str())
        };
        if !hooks.validate_link(full_url.as_str()) {
            return None;
        }
        let content = hooks.normalize_link_text(url);
        Some((full_url, content))
    }

    /// The rule for autolinks. It matches where an autolink starts at the
    /// cursor. On a match that is not silent it appends the node of the
    /// link, behind the literal text that no node holds yet, and puts the
    /// cursor behind the closing bracket; without a match, or silent, it
    /// leaves the state as it is.
    #[verifier::loop_isolation(false)]
    pub fn run<H: LinkHooks>(&self, state: &mut InlineState<H>, silent: bool) -> (matched: bool)
        ensures
            matched == (old(state).in_run() && autolink_at(
                *self,
                old(state).md.hooks,
                old(state).src@,
                old(state).pos as int,
                old(state).pos_max as int,
            ) is Some),
            !matched || silent ==> *final(state) == *old(state),
            matched && !silent ==> {
                let m = autolink_at(
                    *self,
                    old(state).md.hooks,
                    old(state).src@,
                    old(state).pos as int,
                    old(state).pos_max as int,
                )->0;
                &&& consumed(*old(state), *final(state), m.0, m.1)
                &&& old(state).pos < m.1 <= old(state).pos_max
            },
    {
        if !state.is_in_run() || state.pos >= state.pos_max {
            return false;
        }
        let ghost s = state.src@;
        if state.src.char_at(state.pos) != '<' {
            return false;
        }
        let mut close: usize = state.pos + 1;
        while close < state.pos_max && state.src.char_at(close) != '<' && state.src.char_at(close)
            != '>'
            invariant
                state.pos < close <= state.pos_max <= s.len(),
                bracket(s, state.pos + 1, state.pos_max as int) == bracket(
                    s,
                    close as int,
                    state.pos_max as int,
                ),
            decreases state.pos_max - close,
        {
            close = close + 1;
        }
        if close >= state.pos_max || state.src.char_at(close) != '>' {
            return false;
        }
        let url = string_of(state.src.chars(), state.pos + 1, close);
        let is_autolink = is_match(&self.uri, url.as_str());
        let is_email = is_match(&self.email, url.as_str());
        if !is_autolink && !is_email {
            return false;
        }
        let (full_url, content) = match AutolinkScanner::link(
            &state.md.hooks,
            url.as_str(),
            is_autolink,
        ) {
            Some(link) => link,
            None => {
                return false;
            },
        };
        if !silent {
            let mut node = Node::new(Autolink { url: full_url });
            node.srcmap = state.get_map(state.pos, close + 1);
            let mut inner_node = Node::new(Text { content });
            inner_node.srcmap = state.get_map(state.pos + 1, close);
            proof {
                assert(inner_node@.attrs =~= Seq::empty());
                assert(inner_node@.children =~= Seq::empty());
            }
            node.children.push(inner_node);
            proof {
                assert(node@.attrs =~= Seq::empty());
                assert(node@.children =~= seq![inner_node@]);
                assert(node@ == autolink_node(
                    s,
                    state.pos as int,
                    close as int,
                    full_url@,
                    content@,
                ));
            }
            state.push(node);
            state.pos = close + 1;
        }
        true
    }
}

} // verus!
