//! Syntax highlighting of code blocks.
use vstd::prelude::*;
use vstd::string::*;
use crate::common::ruler::{added, registered, RulerError};
use crate::common::sourcemap::{lemma_line_end, line_end};
use crate::common::text::{string_of, to_chars};
use crate::parser::engine::{LinkHooks, MarkdownIt};
use crate::parser::node::{
    rendered, views, with_value, Node, NodeValue, NodeView, Payload, PayloadView,
};
use crate::parser::node::{walked, with_children, NodeVisitor};
use crate::parser::pipeline::CoreRule;
use crate::parser::renderer::HtmlRenderer;
use crate::plugins::cmark::block::code::CodeBlock;
use crate::plugins::cmark::block::fence::CodeFence;

verus! {

/// The payload of a highlighted block of code: markup that is written as it
/// is.
#[derive(Debug)]
pub struct SyntectSnippet {
    /// The markup of the highlighted code.
    pub html: String,
}

impl View for SyntectSnippet {
    type V = PayloadView;

    open spec fn view(&self) -> PayloadView {
        PayloadView::SyntectSnippet { html: self.html@ }
    }
}

impl NodeValue for SyntectSnippet {
    open spec fn is_kind(p: PayloadView) -> bool {
        p is SyntectSnippet
    }

    fn into_payload(self) -> (p: Payload) {
        Payload::SyntectSnippet(self)
    }

    fn from_payload(p: &Payload) -> (r: Option<&SyntectSnippet>) {
        match p {
            Payload::SyntectSnippet(v) => Some(v),
            _ => None,
        }
    }
}

impl SyntectSnippet {
    /// Writes the markup, unescaped; the children are not rendered.
    pub fn render(&self, node: &Node, fmt: &mut HtmlRenderer)
        ensures
            final(fmt)@ == rendered(old(fmt)@, with_value(node@, self@)),
        decreases node, 0int,
    {
        proof {
            assert(node@.children =~= views(node.children@));
        }
        fmt.text_raw(self.html.as_str());
    }
}

/// `syntect::parsing::SyntaxSet`, a set of syntaxes. Nothing of its inside
/// is known here.
#[verifier::external_type_specification]
#[verifier::external_body]
pub struct ExSyntaxSet(::syntect::parsing::SyntaxSet);

/// `syntect::highlighting::ThemeSet`, a set of themes.
#[verifier::external_type_specification]
#[verifier::external_body]
pub struct ExThemeSet(::syntect::highlighting::ThemeSet);

/// `syntect::parsing::SyntaxReference`, one syntax of a set.
#[verifier::external_type_specification]
#[verifier::external_body]
pub struct ExSyntaxReference(::syntect::parsing::SyntaxReference);

/// `syntect::highlighting::Theme`, one theme of a set.
#[verifier::external_type_specification]
#[verifier::external_body]
pub struct ExTheme(::syntect::highlighting::Theme);

/// `syntect::html::ClassedHTMLGenerator`, which reads code line by line
/// and collects HTML with classes.
#[verifier::external_type_specification]
#[verifier::external_body]
pub struct ExClassedHTMLGenerator<'a>(::syntect::html::ClassedHTMLGenerator<'a>);

/// `syntect::html::ClassStyle`, the way in which classes are named.
#[verifier::external_type_specification]
#[verifier::external_body]
pub struct ExClassStyle(::syntect::html::ClassStyle);

/// `syntect::Error`, the reason why the highlighter failed.
#[verifier::external_type_specification]
#[verifier::external_body]
pub struct ExSyntectError(::syntect::Error);

/// The syntax of `ss` that the short word `token` stands for: what
/// `SyntaxSet::find_syntax_by_token` returns for the two.
pub uninterp spec fn syntax_by_token(ss: ::syntect::parsing::SyntaxSet, token: Seq<char>) -> Option<::syntect::parsing::SyntaxReference>;

/// The syntax of `ss` that is called `name`: what
/// `SyntaxSet::find_syntax_by_name` returns for the two.
pub uninterp spec fn syntax_by_name(ss: ::syntect::parsing::SyntaxSet, name: Seq<char>) -> Option<::syntect::parsing::SyntaxReference>;

/// The theme of `ts` that is called `name`: what a lookup of `name` in the
/// map `ThemeSet::themes` returns.
pub uninterp spec fn theme_by_name(ts: ::syntect::highlighting::ThemeSet, name: Seq<char>) -> Option<::syntect::highlighting::Theme>;

/// `content` as a snippet of HTML with inline styles: what
/// `syntect::html::highlighted_html_for_string` returns for the four,
/// `None` standing for its error.
pub uninterp spec fn styled_html(content: Seq<char>, ss: ::syntect::parsing::SyntaxSet, syntax: ::syntect::parsing::SyntaxReference, theme: ::syntect::highlighting::Theme) -> Option<
    Seq<char>,
>;

/// The syntax, the set and the style that the generator `generator` was
/// made with.
pub uninterp spec fn generator_made(generator: ::syntect::html::ClassedHTMLGenerator<'_>) -> (::syntect::parsing::SyntaxReference, ::syntect::parsing::SyntaxSet, ::syntect::html::ClassStyle);

/// The lines that the generator `generator` has read, in their order;
/// `None` once it has refused a line.
pub uninterp spec fn generator_lines(generator: ::syntect::html::ClassedHTMLGenerator<'_>) -> Option<Seq<Seq<char>>>;

/// Whether a generator made with `made` that has read the lines `read`
/// takes the line `line`: whether
/// `ClassedHTMLGenerator::parse_html_for_line_which_includes_newline`
/// returns `Ok` then.
pub uninterp spec fn line_accepted(made: (::syntect::parsing::SyntaxReference, ::syntect::parsing::SyntaxSet, ::syntect::html::ClassStyle), read: Seq<Seq<char>>, line: Seq<char>) -> bool;

/// The HTML of a generator made with `made` that has read the lines
/// `read`: what `ClassedHTMLGenerator::finalize` returns then.
pub uninterp spec fn classed_html(made: (::syntect::parsing::SyntaxReference, ::syntect::parsing::SyntaxSet, ::syntect::html::ClassStyle), read: Seq<Seq<char>>) -> Seq<char>;

/// True when `syntax` is a syntax of the set `ss`: one of its lookups
/// finds it.
pub open spec fn syntax_of(ss: ::syntect::parsing::SyntaxSet, syntax: ::syntect::parsing::SyntaxReference) -> bool {
    ||| exists|token: Seq<char>| (#[trigger] syntax_by_token(ss, token)) == Some(syntax)
    ||| exists|name: Seq<char>| (#[trigger] syntax_by_name(ss, name)) == Some(syntax)
}

/// `SyntaxSet::load_defaults_newlines`: the syntaxes that come with the
/// highlighter, for lines that end with their line break.
#[verifier::external_body]
fn load_syntaxes() -> ::syntect::parsing::SyntaxSet {
    ::syntect::parsing::SyntaxSet::load_defaults_newlines()
}

/// `ThemeSet::load_defaults`: the themes that come with the highlighter.
#[verifier::external_body]
fn load_themes() -> ::syntect::highlighting::ThemeSet {
    ::syntect::highlighting::ThemeSet::load_defaults()
}

/// `SyntaxSet::find_syntax_by_token`: the syntax of `ss` that the short
/// word `token` stands for, if there is one. The answer depends on the two
/// alone.
#[verifier::external_body]
fn find_syntax_by_token<'a>(ss: &'a ::syntect::parsing::SyntaxSet, token: &str) -> (r: Option<&'a ::syntect::parsing::SyntaxReference>)
    ensures
        match r {
            Some(syntax) => syntax_by_token(*ss, token@) == Some(*syntax),
            None => syntax_by_token(*ss, token@) is None,
        },
{
    ss.find_syntax_by_token(token)
}

/// `SyntaxSet::find_syntax_by_name`: the syntax of `ss` that is called
/// `name`, if there is one. The answer depends on the two alone.
#[verifier::external_body]
fn find_syntax_by_name<'a>(ss: &'a ::syntect::parsing::SyntaxSet, name: &str) -> (r: Option<&'a ::syntect::parsing::SyntaxReference>)
    ensures
        match r {
            Some(syntax) => syntax_by_name(*ss, name@) == Some(*syntax),
            None => syntax_by_name(*ss, name@) is None,
        },
{
    ss.find_syntax_by_name(name)
}

/// The theme of `ts` that is called `name`, if there is one: a lookup in
/// the map `ThemeSet::themes`. The answer depends on the two alone.
#[verifier::external_body]
fn find_theme<'a>(ts: &'a ::syntect::highlighting::ThemeSet, name: &str) -> (r: Option<&'a ::syntect::highlighting::Theme>)
    ensures
        match r {
            Some(theme) => theme_by_name(*ts, name@) == Some(*theme),
            None => theme_by_name(*ts, name@) is None,
        },
{
    ts.themes.get(name)
}

/// `syntect::html::highlighted_html_for_string`: `content` as a snippet of
/// HTML with inline styles, or the highlighter's error. The answer depends
/// on the four arguments alone. The syntax is one of the set, as the
/// highlighter asks.
#[verifier::external_body]
fn highlighted_html(content: &str, ss: &::syntect::parsing::SyntaxSet, syntax: &::syntect::parsing::SyntaxReference, theme: &::syntect::highlighting::Theme) -> (r: Result<
    String,
    ::syntect::Error,
>)
    requires
        syntax_of(*ss, *syntax),
    ensures
        match r {
            Ok(html) => styled_html(content@, *ss, *syntax, *theme) == Some(html@),
            Err(_) => styled_html(content@, *ss, *syntax, *theme) is None,
        },
{
    ::syntect::html::highlighted_html_for_string(content, ss, syntax, theme)
}

/// `ClassedHTMLGenerator::new_with_class_style`: a generator of HTML with
/// classes that was made with the three arguments and has read nothing
/// yet. The syntax is one of the set, as the highlighter asks.
#[verifier::external_body]
fn new_generator<'a>(syntax: &'a ::syntect::parsing::SyntaxReference, ss: &'a ::syntect::parsing::SyntaxSet, class_style: ::syntect::html::ClassStyle) -> (generator: ::syntect::html::ClassedHTMLGenerator<'a>)
    requires
        syntax_of(*ss, *syntax),
    ensures
        generator_made(generator) == (*syntax, *ss, class_style),
        generator_lines(generator) == Some(Seq::<Seq<char>>::empty()),
{
    ::syntect::html::ClassedHTMLGenerator::new_with_class_style(syntax, ss, class_style)
}

/// `ClassedHTMLGenerator::parse_html_for_line_which_includes_newline`:
/// reads one more line into the generator, or hands back the highlighter's
/// error. Whether the line is taken depends on what the generator was made
/// with, on the lines that it has read, and on the line. A line that is
/// taken is read; after a line that is refused nothing is known of the
/// generator but what it was made with.
#[verifier::external_body]
fn parse_line(generator: &mut ::syntect::html::ClassedHTMLGenerator<'_>, line: &str) -> (r: Result<(), ::syntect::Error>)
    requires
        generator_lines(*old(generator)) is Some,
    ensures
        r is Ok <==> line_accepted(
            generator_made(*old(generator)),
            generator_lines(*old(generator))->0,
            line@,
        ),
        generator_made(*final(generator)) == generator_made(*old(generator)),
        r is Ok ==> generator_lines(*final(generator)) == Some(
            generator_lines(*old(generator))->0.push(line@),
        ),
        r is Err ==> generator_lines(*final(generator)) is None,
{
    generator.parse_html_for_line_which_includes_newline(line)
}

/// `ClassedHTMLGenerator::finalize`: the HTML of the lines that the
/// generator has read. It depends on what the generator was made with and
/// on those lines alone.
#[verifier::external_body]
fn finalize(generator: ::syntect::html::ClassedHTMLGenerator<'_>) -> (html: String)
    ensures
        generator_lines(generator) matches Some(read) ==> html@ == classed_html(
            generator_made(generator),
            read,
        ),
{
    generator.finalize()
}

/// How code is highlighted.
#[derive(Clone, Copy)]
pub enum SyntectMode {
    /// With inline styles, in the colours of the theme `theme`.
    InlineStyles { theme: &'static str },
    /// With classes, for a style sheet of the embedding application.
    CssClasses { class_style: ::syntect::html::ClassStyle },
}

/// The settings of the highlighting.
#[derive(Clone, Copy)]
pub struct SyntectSettings(pub SyntectMode);

/// The mode of an engine that was given none: inline styles in the theme
/// `InspiredGitHub`.
pub open spec fn default_mode() -> SyntectMode {
    SyntectMode::InlineStyles { theme: "InspiredGitHub" }
}

impl Default for SyntectSettings {
    fn default() -> (r: SyntectSettings)
        ensures
            r == SyntectSettings(default_mode()),
    {
        SyntectSettings(SyntectMode::InlineStyles { theme: "InspiredGitHub" })
    }
}

/// The name under which the rule is registered.
pub open spec fn syntect_rule_name() -> Seq<char> {
    seq!['s', 'y', 'n', 't', 'e', 'c', 't']
}

/// Registers the rule that highlights code with the rules on the whole
/// tree of `md`, as the last rule. Fails where a rule of that name is
/// registered.
pub fn add<H: LinkHooks>(md: &mut MarkdownIt<H>) -> (r: Result<(), RulerError>)
    ensures
        registered(old(md).core@, syntect_rule_name()) ==> r == Err::<(), RulerError>(
            RulerError::DuplicateName,
        ),
        !registered(old(md).core@, syntect_rule_name()) ==> r is Ok,
        final(md).core@ == added(old(md).core@, syntect_rule_name(), CoreRule::Syntect),
        final(md).block == old(md).block,
        final(md).inline == old(md).inline,
        final(md).hooks == old(md).hooks,
        final(md).ext == old(md).ext,
{
    proof {
        reveal_strlit("syntect");
        assert("syntect"@ =~= syntect_rule_name());
    }
    md.core.add("syntect", CoreRule::Syntect)
}

/// Use inline styles with the given theme.
pub fn set_theme<H: LinkHooks>(md: &mut MarkdownIt<H>, theme: &'static str)
    ensures
        final(md).ext@ == Some(SyntectSettings(SyntectMode::InlineStyles { theme })),
        final(md).block == old(md).block,
        final(md).inline == old(md).inline,
        final(md).core == old(md).core,
        final(md).hooks == old(md).hooks,
{
    md.ext.insert(SyntectSettings(SyntectMode::InlineStyles { theme }));
}

/// Generate spans with classes applied. This is an alternative to a
/// theme; the style sheet is the business of the embedding application.
pub fn use_css_classes<H: LinkHooks>(md: &mut MarkdownIt<H>, class_style: ::syntect::html::ClassStyle)
    ensures
        final(md).ext@ == Some(SyntectSettings(SyntectMode::CssClasses { class_style })),
        final(md).block == old(md).block,
        final(md).inline == old(md).inline,
        final(md).core == old(md).core,
        final(md).hooks == old(md).hooks,
{
    md.ext.insert(SyntectSettings(SyntectMode::CssClasses { class_style }));
}

/// The mode in which the engine `md` highlights: the one it was given, or
/// the default.
pub open spec fn syntect_mode<H: LinkHooks>(md: MarkdownIt<H>) -> SyntectMode {
    match md.ext@ {
        Some(settings) => settings.0,
        None => default_mode(),
    }
}

/// The mode in which the engine `md` highlights: the one it was given, or
/// the default.
pub fn mode_of<H: LinkHooks>(md: &MarkdownIt<H>) -> (mode: SyntectMode)
    ensures
        mode == syntect_mode(*md),
{
    match md.ext.get::<SyntectSettings>() {
        Some(settings) => settings.0,
        None => SyntectSettings::default().0,
    }
}

/// True for the payloads that hold code.
pub open spec fn is_code(p: PayloadView) -> bool {
    p is CodeBlock || p is CodeFence
}

/// The code that the payload `p` holds.
pub open spec fn code_content(p: PayloadView) -> Seq<char> {
    match p {
        PayloadView::CodeBlock { content } => content,
        PayloadView::CodeFence { info, content } => content,
        _ => Seq::empty(),
    }
}

/// The language that the payload `p` names for its code.
pub open spec fn code_language(p: PayloadView) -> Option<Seq<char>> {
    match p {
        PayloadView::CodeFence { info, content } => Some(info),
        _ => None,
    }
}

/// The code that `node` holds and the language that it names for it:
/// an indented block names none, a fenced block the word behind its fence.
/// `None` where the node holds no code.
pub fn code_of(node: &Node) -> (r: Option<(&String, Option<&String>)>)
    ensures
        r is Some <==> is_code(node@.value),
        r matches Some(code) ==> code.0@ == code_content(node@.value) && match code.1 {
            Some(language) => code_language(node@.value) == Some(language@),
            None => code_language(node@.value) is None,
        },
{
    if let Some(data) = node.cast::<CodeBlock>() {
        Some((&data.content, None))
    } else if let Some(data) = node.cast::<CodeFence>() {
        Some((&data.content, Some(&data.info)))
    } else {
        None
    }
}

/// The node `n` after the highlighter was asked for its code and answered
/// `html`: a node that holds code carries the markup in place of the code
/// where there is an answer, and every other node is as it was.
pub open spec fn with_highlight(n: NodeView, html: Option<Seq<char>>) -> NodeView {
    match html {
        Some(html) => if is_code(n.value) {
            with_value(n, PayloadView::SyntectSnippet { html })
        } else {
            n
        },
        None => n,
    }
}

/// Puts the answer of the highlighter in the place of the code of `node`.
/// Without an answer, and on a node that holds no code, nothing changes.
/// Attributes, children and span stay as they are.
pub fn apply(node: &mut Node, html: Option<String>)
    ensures
        final(node)@ == with_highlight(
            old(node)@,
            match html {
                Some(html) => Some(html@),
                None => None,
            },
        ),
        final(node).children == old(node).children,
        final(node).attrs == old(node).attrs,
        final(node).srcmap == old(node).srcmap,
{
    if let Some(html) = html {
        if node.is::<CodeBlock>() || node.is::<CodeFence>() {
            node.replace(SyntectSnippet { html });
        }
    }
}

/// The lines of `s` from index `from` on, each with its line break: all
/// but the last end with one, and the last does where `s` does.
pub open spec fn lines_from(s: Seq<char>, from: int) -> Seq<Seq<char>>
    decreases s.len() - from,
{
    if from < 0 || from >= s.len() {
        Seq::empty()
    } else {
        let stop = line_stop(s, from);
        if stop > from {
            seq![s.subrange(from, stop)] + lines_from(s, stop)
        } else {
            Seq::empty()
        }
    }
}

/// Index behind the line of `s` that starts at `from`, its line break
/// counted.
pub open spec fn line_stop(s: Seq<char>, from: int) -> int {
    if line_end(s, from) < s.len() {
        line_end(s, from) + 1
    } else {
        s.len() as int
    }
}

/// The texts of `lines`.
pub open spec fn texts(lines: Seq<String>) -> Seq<Seq<char>> {
    Seq::new(lines.len(), |i: int| lines[i]@)
}

/// The lines of `content`, each with its line break.
pub fn lines_with_endings(content: &str) -> (lines: Vec<String>)
    ensures
        texts(lines@) == lines_from(content@, 0),
{
    let chars = to_chars(content);
    let ghost s = chars@;
    let n: usize = chars.len();
    let mut lines: Vec<String> = Vec::new();
    let mut from: usize = 0;
    proof {
        assert(texts(lines@) =~= Seq::<Seq<char>>::empty());
        assert(Seq::<Seq<char>>::empty() + lines_from(s, 0) =~= lines_from(s, 0));
    }
    while from < n
        invariant
            from <= n,
            n == s.len(),
            s == chars@,
            lines_from(s, 0) == texts(lines@) + lines_from(s, from as int),
        decreases n - from,
    {
        let mut end: usize = from;
        while end < n && chars[end] != '\n'
            invariant
                from <= end <= n,
                n == s.len(),
                s == chars@,
                line_end(s, from as int) == line_end(s, end as int),
            decreases n - end,
        {
            end = end + 1;
        }
        let stop: usize = if end < n {
            end + 1
        } else {
            n
        };
        proof {
            lemma_line_end(s, from as int);
        }
        let line = string_of(&chars, from, stop);
        let ghost before = texts(lines@);
        lines.push(line);
        proof {
            assert(texts(lines@) =~= before.push(line@));
            assert(texts(lines@) + lines_from(s, stop as int) =~= before + (seq![line@] + lines_from(
                s,
                stop as int,
            )));
        }
        from = stop;
    }
    proof {
        assert(texts(lines@) + Seq::<Seq<char>>::empty() =~= texts(lines@));
    }
    lines
}

/// The name of the syntax that stands for text in no language.
pub open spec fn plain_text_name() -> Seq<char> {
    seq!['P', 'l', 'a', 'i', 'n', ' ', 'T', 'e', 'x', 't']
}

/// The syntax in which code is read that names the language `language`:
/// the syntax of `ss` that the word stands for, and the syntax of plain
/// text where the code names no language or one that `ss` does not know.
/// `None` where `ss` has no syntax of plain text either.
pub open spec fn chosen_syntax(ss: ::syntect::parsing::SyntaxSet, language: Option<Seq<char>>) -> Option<::syntect::parsing::SyntaxReference> {
    match language {
        Some(word) => match syntax_by_token(ss, word) {
            Some(syntax) => Some(syntax),
            None => syntax_by_name(ss, plain_text_name()),
        },
        None => syntax_by_name(ss, plain_text_name()),
    }
}

/// True when a generator made with `made` takes each of the lines `lines`
/// after the ones before it.
pub open spec fn all_accepted(made: (::syntect::parsing::SyntaxReference, ::syntect::parsing::SyntaxSet, ::syntect::html::ClassStyle), lines: Seq<Seq<char>>) -> bool {
    forall|k: int| 0 <= k < lines.len() ==> line_accepted(made, #[trigger] lines.take(k), lines[k])
}

/// The markup that the highlighter answers for the code `content` in the
/// language `language`, with the syntaxes `ss`, the themes `ts` and the
/// mode `mode`; `None` where it has no answer. With inline styles the
/// answer is that of the highlighter for the chosen syntax and the theme
/// of the mode's name, and there is none where `ts` has no such theme.
/// With classes the answer is what the generator holds that has read each
/// line of the code, with its line break, once and in order, and there is
/// none where it refuses a line.
pub open spec fn answer(
    content: Seq<char>,
    language: Option<Seq<char>>,
    ss: ::syntect::parsing::SyntaxSet,
    ts: ::syntect::highlighting::ThemeSet,
    mode: SyntectMode,
) -> Option<Seq<char>> {
    match chosen_syntax(ss, language) {
        None => None,
        Some(syntax) => match mode {
            SyntectMode::InlineStyles { theme } => match theme_by_name(ts, theme@) {
                Some(theme) => styled_html(content, ss, syntax, theme),
                None => None,
            },
            SyntectMode::CssClasses { class_style } => if all_accepted(
                (syntax, ss, class_style),
                lines_from(content, 0),
            ) {
                Some(classed_html((syntax, ss, class_style), lines_from(content, 0)))
            } else {
                None
            },
        },
    }
}

/// The node `n` after a visit of the highlighter with the syntaxes `ss`,
/// the themes `ts` and the mode `mode`: a node that holds code carries the
/// highlighter's answer for it in place of the code, where there is one;
/// every other node, and code without an answer, is as it was.
pub open spec fn highlight_head(n: NodeView, ss: ::syntect::parsing::SyntaxSet, ts: ::syntect::highlighting::ThemeSet, mode: SyntectMode) -> NodeView {
    with_highlight(n, answer(code_content(n.value), code_language(n.value), ss, ts, mode))
}

/// The tree `n` after the highlighting with the syntaxes `ss`, the themes
/// `ts` and the mode `mode`: every node is what a visit makes of it, in
/// its place.
pub open spec fn highlighted_by(n: NodeView, ss: ::syntect::parsing::SyntaxSet, ts: ::syntect::highlighting::ThemeSet, mode: SyntectMode) -> NodeView
    decreases n,
{
    with_children(
        highlight_head(n, ss, ts, mode),
        Seq::new(
            n.children.len(),
            |i: int|
                if 0 <= i < n.children.len() {
                    highlighted_by(n.children[i], ss, ts, mode)
                } else {
                    arbitrary()
                },
        ),
    )
}

/// The visitor that highlights the code of the node it is handed.
pub struct Highlighter<'a> {
    syntaxes: &'a ::syntect::parsing::SyntaxSet,
    themes: &'a ::syntect::highlighting::ThemeSet,
    mode: SyntectMode,
}

impl<'a> Highlighter<'a> {
    /// The syntaxes of the highlighter.
    pub closed spec fn syntaxes(&self) -> ::syntect::parsing::SyntaxSet {
        *self.syntaxes
    }

    /// The themes of the highlighter.
    pub closed spec fn themes(&self) -> ::syntect::highlighting::ThemeSet {
        *self.themes
    }

    /// The mode of the highlighter.
    pub closed spec fn mode(&self) -> SyntectMode {
        self.mode
    }

    /// A highlighter with the syntaxes `syntaxes`, the themes `themes` and
    /// the mode `mode`.
    pub fn new(syntaxes: &'a ::syntect::parsing::SyntaxSet, themes: &'a ::syntect::highlighting::ThemeSet, mode: SyntectMode) -> (r: Highlighter<'a>)
        ensures
            r.syntaxes() == *syntaxes,
            r.themes() == *themes,
            r.mode() == mode,
    {
        Highlighter { syntaxes, themes, mode }
    }

    /// Asks the highlighter for the markup of `content`, which is code in
    /// the language `language`, or plain text where that is `None` or no
    /// language that the highlighter knows. `None` where the highlighter
    /// has no answer: it lacks the theme or the syntax of plain text, or it
    /// fails on the code.
    #[verifier::loop_isolation(false)]
    pub fn highlight(&self, content: &str, language: Option<&str>) -> (html: Option<String>)
        ensures
            match html {
                Some(html) => self.answers(content@, language) == Some(html@),
                None => self.answers(content@, language) is None,
            },
    {
        proof {
            reveal_strlit("Plain Text");
            assert("Plain Text"@ =~= plain_text_name());
        }
        let mut syntax: Option<&::syntect::parsing::SyntaxReference> = None;
        if let Some(language) = language {
            syntax = find_syntax_by_token(self.syntaxes, language);
        }
        let syntax = match syntax {
            Some(syntax) => syntax,
            None => match find_syntax_by_name(self.syntaxes, "Plain Text") {
                Some(syntax) => syntax,
                None => {
                    return None;
                },
            },
        };
        match self.mode {
            SyntectMode::InlineStyles { theme } => {
                let theme = match find_theme(self.themes, theme) {
                    Some(theme) => theme,
                    None => {
                        return None;
                    },
                };
                match highlighted_html(content, self.syntaxes, syntax, theme) {
                    Ok(html) => Some(html),
                    Err(_) => None,
                }
            },
            SyntectMode::CssClasses { class_style } => {
                let mut html_generator = new_generator(syntax, self.syntaxes, class_style);
                let lines = lines_with_endings(content);
                let ghost made = (*syntax, *self.syntaxes, class_style);
                let ghost all = lines_from(content@, 0);
                let n: usize = lines.len();
                let mut i: usize = 0;
                proof {
                    assert(all.take(0) =~= Seq::<Seq<char>>::empty());
                }
                while i < n
                    invariant
                        i <= n,
                        n == lines@.len(),
                        texts(lines@) == all,
                        generator_made(html_generator) == made,
                        generator_lines(html_generator) == Some(all.take(i as int)),
                        forall|k: int|
                            0 <= k < i ==> line_accepted(made, #[trigger] all.take(k), all[k]),
                    decreases n - i,
                {
                    proof {
                        assert(all[i as int] == lines@[i as int]@);
                        assert(all.take(i + 1) =~= all.take(i as int).push(all[i as int]));
                    }
                    if parse_line(&mut html_generator, lines[i].as_str()).is_err() {
                        proof {
                            assert(!line_accepted(made, all.take(i as int), all[i as int]));
                        }
                        return None;
                    }
                    i = i + 1;
                }
                proof {
                    assert(all.take(n as int) =~= all);
                }
                Some(finalize(html_generator))
            },
        }
    }

    /// The markup that the highlighter answers for the code `content` in
    /// the language `language`.
    pub open spec fn answers(&self, content: Seq<char>, language: Option<&str>) -> Option<Seq<char>> {
        answer(
            content,
            match language {
                Some(word) => Some(word@),
                None => None,
            },
            self.syntaxes(),
            self.themes(),
            self.mode(),
        )
    }
}

impl<'a> NodeVisitor for Highlighter<'a> {
    open spec fn visits(&self, before: NodeView, after: NodeView) -> bool {
        after == highlight_head(before, self.syntaxes(), self.themes(), self.mode())
    }

    fn visit(&self, node: &mut Node) {
        let code = match code_of(node) {
            Some((content, language)) => Some(
                (
                    content.clone(),
                    match language {
                        Some(language) => Some(language.clone()),
                        None => None,
                    },
                ),
            ),
            None => None,
        };
        if let Some((content, language)) = code {
            let html = self.highlight(
                content.as_str(),
                match &language {
                    Some(language) => Some(language.as_str()),
                    None => None,
                },
            );
            apply(node, html);
        }
    }
}

/// A walk with the highlighter makes the highlighted tree.
pub proof fn lemma_walked_is_highlighted(v: &Highlighter, before: NodeView, after: NodeView)
    requires
        walked(v, before, after),
    ensures
        after == highlighted_by(before, v.syntaxes(), v.themes(), v.mode()),
    decreases before,
{
    assert forall|i: int| 0 <= i < before.children.len() implies after.children[i]
        == highlighted_by(before.children[i], v.syntaxes(), v.themes(), v.mode()) by {
        assert(walked(v, before.children[i], after.children[i]));
        lemma_walked_is_highlighted(v, before.children[i], after.children[i]);
    }
    assert(after.children =~= highlighted_by(
        before,
        v.syntaxes(),
        v.themes(),
        v.mode(),
    ).children);
}

/// The rule that highlights code.
pub struct SyntectRule;

impl SyntectRule {
    /// Highlights the code of every node of the tree `root` that holds
    /// some, in the mode of the engine `md` and with the syntaxes and
    /// themes that come with the highlighter. A node for which the
    /// highlighter has no answer stays as it is.
    pub fn run<H: LinkHooks>(root: &mut Node, md: &MarkdownIt<H>)
        ensures
            exists|ss: ::syntect::parsing::SyntaxSet, ts: ::syntect::highlighting::ThemeSet|
                final(root)@ == highlighted_by(old(root)@, ss, ts, syntect_mode(*md)),
    {
        let ss = load_syntaxes();
        let ts = load_themes();
        let mode = mode_of(md);
        SyntectRule::run_with(root, &ss, &ts, mode);
        proof {
            assert(root@ == highlighted_by(old(root)@, ss, ts, syntect_mode(*md)));
        }
    }

    /// Highlights the code of every node of the tree `root` that holds
    /// some, with the syntaxes `ss` and the themes `ts`, in the mode
    /// `mode`. A node for which the highlighter has no answer stays as it
    /// is.
    pub fn run_with(root: &mut Node, ss: &::syntect::parsing::SyntaxSet, ts: &::syntect::highlighting::ThemeSet, mode: SyntectMode)
        ensures
            final(root)@ == highlighted_by(old(root)@, *ss, *ts, mode),
    {
        let highlighter = Highlighter::new(ss, ts, mode);
        root.walk_mut(&highlighter);
        proof {
            lemma_walked_is_highlighted(&highlighter, old(root)@, root@);
        }
    }
}

} // verus!
