//! The engine's configuration: the rules of each phase, the link hooks and
//! the settings of the plugins.
use vstd::prelude::*;
use vstd::string::*;
use crate::common::ruler::{entry, Ruler, RuleView, RulerError};
use crate::parser::block::BlockRule;
use crate::parser::extset::MarkdownItExtSet;
use crate::parser::inline::InlineRule;
use crate::parser::pipeline::CoreRule;

verus! {

/// Why a plugin could not be set up.
#[derive(Clone, Copy, Debug, PartialEq, Eq, Structural)]
pub enum SetupError {
    /// A registry refused a rule of the plugin.
    Ruler(RulerError),
    /// A pattern of the plugin could not be compiled.
    Pattern,
}

/// The three decisions on links that the embedding application can take
/// over: how a link target is normalized, whether a target is allowed, and
/// how the visible text of a link is normalized.
pub trait LinkHooks {
    /// The target that `normalize_link` makes of `url`. Unless an
    /// implementation says otherwise, the target is `url` itself.
    open spec fn normalized(&self, url: Seq<char>) -> Seq<char> {
        url
    }

    /// Normalizes the link target `url`.
    fn normalize_link(&self, url: &str) -> (r: String)
        ensures
            r@ == self.normalized(url@),
    ;

    /// True for the targets that `validate_link` allows. Unless an
    /// implementation says otherwise, every target is allowed.
    open spec fn valid(&self, url: Seq<char>) -> bool {
        true
    }

    /// Decides whether the link target `url` is allowed.
    fn validate_link(&self, url: &str) -> (b: bool)
        ensures
            b == self.valid(url@),
    ;

    /// The visible text that `normalize_link_text` makes of `url`. Unless
    /// an implementation says otherwise, the text is `url` itself.
    open spec fn normalized_text(&self, url: Seq<char>) -> Seq<char> {
        url
    }

    /// Normalizes the visible text of a link to `url`.
    fn normalize_link_text(&self, url: &str) -> (r: String)
        ensures
            r@ == self.normalized_text(url@),
    ;
}

/// The hooks of an engine that was given none: targets and texts stay as
/// they are written, and every target is allowed.
pub struct DefaultHooks;

impl LinkHooks for DefaultHooks {
    fn normalize_link(&self, url: &str) -> (r: String) {
        String::from_str(url)
    }

    fn validate_link(&self, url: &str) -> (b: bool) {
        true
    }

    fn normalize_link_text(&self, url: &str) -> (r: String) {
        String::from_str(url)
    }
}

/// The block phase of an engine: its rules.
pub struct BlockParser {
    pub ruler: Ruler<BlockRule>,
}

/// The inline phase of an engine: its rules.
pub struct InlineParser {
    pub ruler: Ruler<InlineRule>,
}

/// The name of the rule that normalizes the source text.
pub open spec fn normalize_rule_name() -> Seq<char> {
    seq!['n', 'o', 'r', 'm', 'a', 'l', 'i', 'z', 'e']
}

/// The name of the rule that runs the block phase.
pub open spec fn block_rule_name() -> Seq<char> {
    seq!['b', 'l', 'o', 'c', 'k']
}

/// The name of the rule that runs the inline phase.
pub open spec fn inline_rule_name() -> Seq<char> {
    seq!['i', 'n', 'l', 'i', 'n', 'e']
}

/// The rules on the whole tree of a new engine: the normalization of the
/// source text, then the block phase, then the inline phase.
pub open spec fn core_rules() -> Seq<RuleView<CoreRule>> {
    seq![
        entry(normalize_rule_name(), CoreRule::Normalize),
        entry(block_rule_name(), CoreRule::Block),
        entry(inline_rule_name(), CoreRule::Inline),
    ]
}

/// An engine: the rules of the three phases, the link hooks and the
/// settings of the plugins. It is built once and read by each parse.
pub struct MarkdownIt<H: LinkHooks = DefaultHooks> {
    /// The block phase.
    pub block: BlockParser,
    /// The inline phase.
    pub inline: InlineParser,
    /// The rules that work on the whole tree, the two phases among them.
    pub core: Ruler<CoreRule>,
    /// The link hooks.
    pub hooks: H,
    /// The settings of the plugins.
    pub ext: MarkdownItExtSet,
}

impl MarkdownIt<DefaultHooks> {
    /// An engine with the default hooks and without rules for any markup.
    pub fn new() -> (md: MarkdownIt<DefaultHooks>)
        ensures
            md.block.ruler@.len() == 0,
            md.inline.ruler@.len() == 0,
            md.core@ == core_rules(),
            md.ext@ == None::<crate::plugins::extra::syntect::SyntectSettings>,
    {
        MarkdownIt::with_hooks(DefaultHooks)
    }
}

impl<H: LinkHooks> MarkdownIt<H> {
    /// An engine with the hooks `hooks` and without rules for any markup.
    pub fn with_hooks(hooks: H) -> (md: MarkdownIt<H>)
        ensures
            md.block.ruler@.len() == 0,
            md.inline.ruler@.len() == 0,
            md.core@ == core_rules(),
            md.hooks == hooks,
            md.ext@ == None::<crate::plugins::extra::syntect::SyntectSettings>,
    {
        let mut core: Ruler<CoreRule> = Ruler::new();
        proof {
            reveal_strlit("normalize");
            reveal_strlit("block");
            reveal_strlit("inline");
            assert("normalize"@ =~= normalize_rule_name());
            assert("block"@ =~= block_rule_name());
            assert("inline"@ =~= inline_rule_name());
        }
        let _ = core.add("normalize", CoreRule::Normalize);
        let _ = core.add("block", CoreRule::Block);
        let _ = core.add("inline", CoreRule::Inline);
        proof {
            assert(core@ =~= core_rules());
        }
        MarkdownIt {
            block: BlockParser { ruler: Ruler::new() },
            inline: InlineParser { ruler: Ruler::new() },
            core,
            hooks,
            ext: MarkdownItExtSet::new(),
        }
    }
}

} // verus!
