//! The rules of the basic markup: thematic breaks, headings, paragraphs and
//! autolinks.
use vstd::prelude::*;
use crate::common::ruler::{entry, registered, RuleView, RulerError};
use crate::parser::block::BlockRule;
use crate::parser::engine::{LinkHooks, MarkdownIt, SetupError};
use crate::parser::inline::InlineRule;
use crate::plugins::cmark::block::code::code_rule_name;
use crate::plugins::cmark::block::fence::fence_rule_name;
use crate::plugins::cmark::block::heading::heading_rule_name;
use crate::plugins::cmark::block::hr::hr_rule_name;
use crate::plugins::cmark::block::paragraph::paragraph_rule_name;
use crate::plugins::cmark::inline::autolink::{
    autolink_rule_name, patterns_compile, EMAIL_PATTERN, URI_PATTERN,
};

pub mod block;
pub mod inline;

verus! {

/// True when one of the rules of the basic markup is registered with `md`.
pub open spec fn any_registered<H: LinkHooks>(md: MarkdownIt<H>) -> bool {
    ||| registered(md.block.ruler@, code_rule_name())
    ||| registered(md.block.ruler@, fence_rule_name())
    ||| registered(md.block.ruler@, hr_rule_name())
    ||| registered(md.block.ruler@, heading_rule_name())
    ||| registered(md.block.ruler@, paragraph_rule_name())
    ||| registered(md.inline.ruler@, autolink_rule_name())
}

/// Registers the rules of the basic markup with `md`: with the block
/// phase, behind the rules that are there, indented code, fenced code,
/// thematic breaks, headings and paragraphs, in that order; with the inline phase autolinks. Fails where
/// one of the names is registered, and where a pattern of the autolinks
/// cannot be compiled; no rule is registered then.
pub fn add<H: LinkHooks>(md: &mut MarkdownIt<H>) -> (r: Result<(), SetupError>)
    ensures
        any_registered(*old(md)) ==> r == Err::<(), SetupError>(
            SetupError::Ruler(RulerError::DuplicateName),
        ),
        !any_registered(*old(md)) && !patterns_compile() ==> r == Err::<(), SetupError>(
            SetupError::Pattern,
        ),
        r is Ok <==> !any_registered(*old(md)) && patterns_compile(),
        r is Err ==> final(md).block.ruler@ == old(md).block.ruler@ && final(md).inline.ruler@
            == old(md).inline.ruler@,
        r is Ok ==> {
            let rules = final(md).inline.ruler@;
            &&& final(md).block.ruler@ == old(md).block.ruler@.push(
                entry(code_rule_name(), BlockRule::Code),
            ).push(entry(fence_rule_name(), BlockRule::Fence)).push(entry(hr_rule_name(), BlockRule::ThematicBreak)).push(entry(heading_rule_name(), BlockRule::Heading)).push(
                entry(paragraph_rule_name(), BlockRule::Paragraph),
            )
            &&& rules.len() == old(md).inline.ruler@.len() + 1
            &&& rules.drop_last() == old(md).inline.ruler@
            &&& rules.last().name == autolink_rule_name()
            &&& rules.last().enabled
            &&& rules.last().rule matches InlineRule::Autolink(scanner)
            &&& scanner.uri_pattern() == URI_PATTERN@
            &&& scanner.email_pattern() == EMAIL_PATTERN@
        },
        final(md).core == old(md).core,
        final(md).hooks == old(md).hooks,
        final(md).ext == old(md).ext,
{
    proof {
        reveal_strlit("code");
        assert("code"@ =~= code_rule_name());
        reveal_strlit("fence");
        assert("fence"@ =~= fence_rule_name());
        reveal_strlit("hr");
        reveal_strlit("heading");
        reveal_strlit("paragraph");
        assert("hr"@ =~= hr_rule_name());
        assert("heading"@ =~= heading_rule_name());
        assert("paragraph"@ =~= paragraph_rule_name());
    }
    if md.block.ruler.contains("code") || md.block.ruler.contains("fence")
        || md.block.ruler.contains("hr")
        || md.block.ruler.contains("heading")
        || md.block.ruler.contains("paragraph") {
        return Err(SetupError::Ruler(RulerError::DuplicateName));
    }
    match crate::plugins::cmark::inline::autolink::add(md) {
        Ok(()) => {},
        Err(e) => {
            return Err(e);
        },
    }
    let ghost start = md.block.ruler@;
    proof {
        assert(code_rule_name().len() == 4 && fence_rule_name().len() == 5 && hr_rule_name().len()
            == 2 && heading_rule_name().len() == 7 && paragraph_rule_name().len() == 9);
    }
    let _ = crate::plugins::cmark::block::code::add(md);
    proof {
        lemma_pushed(start, entry(code_rule_name(), BlockRule::Code), fence_rule_name());
    }
    let ghost one = md.block.ruler@;
    let _ = crate::plugins::cmark::block::fence::add(md);
    proof {
        lemma_pushed(start, entry(code_rule_name(), BlockRule::Code), hr_rule_name());
        lemma_pushed(one, entry(fence_rule_name(), BlockRule::Fence), hr_rule_name());
    }
    let ghost two = md.block.ruler@;
    let _ = crate::plugins::cmark::block::hr::add(md);
    proof {
        lemma_pushed(start, entry(code_rule_name(), BlockRule::Code), heading_rule_name());
        lemma_pushed(one, entry(fence_rule_name(), BlockRule::Fence), heading_rule_name());
        lemma_pushed(two, entry(hr_rule_name(), BlockRule::ThematicBreak), heading_rule_name());
    }
    let ghost three = md.block.ruler@;
    let _ = crate::plugins::cmark::block::heading::add(md);
    proof {
        lemma_pushed(start, entry(code_rule_name(), BlockRule::Code), paragraph_rule_name());
        lemma_pushed(one, entry(fence_rule_name(), BlockRule::Fence), paragraph_rule_name());
        lemma_pushed(two, entry(hr_rule_name(), BlockRule::ThematicBreak), paragraph_rule_name());
        lemma_pushed(three, entry(heading_rule_name(), BlockRule::Heading), paragraph_rule_name());
    }
    let _ = crate::plugins::cmark::block::paragraph::add(md);
    Ok(())
}

/// A name that is not registered is not registered after a rule of
/// another name was appended.
proof fn lemma_pushed(rules: Seq<RuleView<BlockRule>>, e: RuleView<BlockRule>, name: Seq<char>)
    requires
        !registered(rules, name),
        e.name != name,
    ensures
        !registered(rules.push(e), name),
{
    let after = rules.push(e);
    if registered(after, name) {
        let i = choose|i: int| 0 <= i < after.len() && (#[trigger] after[i]).name == name;
        if i < rules.len() {
            assert(rules[i].name == name);
        }
    }
}

} // verus!
