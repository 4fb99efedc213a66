//! Labels that say where in the source a node comes from: the attribute
//! `data-sourcepos="1:1-2:3"` on every node that has a span.
use vstd::prelude::*;
use vstd::string::*;
use crate::common::ruler::{
    applied, entry, find, inserted_after, law_insert_keeps_order, law_registration_places,
    lemma_find, registered, removed, unique, RuleView, RulerError, RulerOp,
};
use crate::common::sourcemap::{
    label, lemma_char_index_is, line_col, positions, push_label, CharMapping,
};
use crate::common::text::{byte_offset, lemma_byte_offset_increases, string_from};
use crate::parser::block::BlockRule;
use crate::parser::engine::{block_rule_name, inline_rule_name, LinkHooks, MarkdownIt};
use crate::parser::node::{walked, with_attr, with_children, Node, NodeView, NodeVisitor, Payload, PayloadView};
use crate::parser::pipeline::{blocked, CoreRule};

verus! {

/// The name of the attribute that holds the label.
pub open spec fn sourcepos_attr() -> Seq<char> {
    seq!['d', 'a', 't', 'a', '-', 's', 'o', 'u', 'r', 'c', 'e', 'p', 'o', 's']
}

/// The name under which the rule is registered.
pub open spec fn sourcepos_rule_name() -> Seq<char> {
    seq!['s', 'o', 'u', 'r', 'c', 'e', 'p', 'o', 's']
}

/// The node `n` with its label as one more attribute, where it has a
/// span: the positions of the span in the source `s`.
pub open spec fn label_head(s: Seq<char>, n: NodeView) -> NodeView {
    match n.srcmap {
        Some(map) => with_attr(
            n,
            sourcepos_attr(),
            label(positions(s, map.start as int, map.end as int)),
        ),
        None => n,
    }
}

/// The tree `n` with a label on every node that has a span.
pub open spec fn labeled(s: Seq<char>, n: NodeView) -> NodeView
    decreases n,
{
    with_children(
        label_head(s, n),
        Seq::new(
            n.children.len(),
            |i: int|
                if 0 <= i < n.children.len() {
                    labeled(s, n.children[i])
                } else {
                    arbitrary()
                },
        ),
    )
}

/// The tree `root` with its labels: those of a root are read from its
/// source text. A tree with another node on top is left as it is.
pub open spec fn source_labeled(root: NodeView) -> NodeView {
    match root.value {
        PayloadView::Root { content } => labeled(content, root),
        _ => root,
    }
}

/// The name of the phase behind which the labels are made: of the block
/// phase and the inline phase the one that stands last in `rules`, or the
/// one that is registered where the other is not. `None` where neither is
/// registered.
pub open spec fn last_phase(rules: Seq<RuleView<CoreRule>>) -> Option<Seq<char>> {
    if registered(rules, block_rule_name()) && registered(rules, inline_rule_name()) {
        if find(rules, block_rule_name()) < find(rules, inline_rule_name()) {
            Some(inline_rule_name())
        } else {
            Some(block_rule_name())
        }
    } else if registered(rules, inline_rule_name()) {
        Some(inline_rule_name())
    } else if registered(rules, block_rule_name()) {
        Some(block_rule_name())
    } else {
        None
    }
}

/// Registers the rule that labels the nodes with the rules on the whole
/// tree of `md`, directly behind the last of the two phases. Fails where
/// neither phase is registered, and where a rule of the name is.
pub fn add<H: LinkHooks>(md: &mut MarkdownIt<H>) -> (r: Result<(), RulerError>)
    ensures
        last_phase(old(md).core@) is None ==> r == Err::<(), RulerError>(RulerError::NotFound),
        last_phase(old(md).core@) is Some && registered(old(md).core@, sourcepos_rule_name()) ==> r
            == Err::<(), RulerError>(RulerError::DuplicateName),
        last_phase(old(md).core@) is Some && !registered(old(md).core@, sourcepos_rule_name())
            ==> r is Ok,
        final(md).core@ == match last_phase(old(md).core@) {
            Some(anchor) => inserted_after(
                old(md).core@,
                anchor,
                sourcepos_rule_name(),
                CoreRule::SyntaxPos,
            ),
            None => old(md).core@,
        },
        final(md).block == old(md).block,
        final(md).inline == old(md).inline,
        final(md).hooks == old(md).hooks,
        final(md).ext == old(md).ext,
{
    proof {
        reveal_strlit("block");
        reveal_strlit("inline");
        reveal_strlit("sourcepos");
        assert("block"@ =~= block_rule_name());
        assert("inline"@ =~= inline_rule_name());
        assert("sourcepos"@ =~= sourcepos_rule_name());
    }
    let block = md.core.position("block");
    let inline = md.core.position("inline");
    let anchor = match (block, inline) {
        (Some(b), Some(i)) => if b < i {
            "inline"
        } else {
            "block"
        },
        (None, Some(_)) => "inline",
        (Some(_), None) => "block",
        (None, None) => {
            return Err(RulerError::NotFound);
        },
    };
    md.core.after(anchor, "sourcepos", CoreRule::SyntaxPos)
}

/// Where the labeling rule was registered it stands behind the block phase
/// and behind the inline phase, as far as they are registered, and it is
/// switched on; every other rule is where it was, so that the registry
/// without the rule is the registry from before.
pub proof fn law_labels_follow_the_phases(rules: Seq<RuleView<CoreRule>>)
    requires
        unique(rules),
        last_phase(rules) is Some,
        !registered(rules, sourcepos_rule_name()),
    ensures
        ({
            let after = inserted_after(
                rules,
                last_phase(rules)->0,
                sourcepos_rule_name(),
                CoreRule::SyntaxPos,
            );
            let at = find(after, sourcepos_rule_name());
            &&& unique(after)
            &&& registered(after, sourcepos_rule_name())
            &&& after[at].enabled
            &&& after[at].rule == CoreRule::SyntaxPos
            &&& registered(rules, block_rule_name()) ==> registered(after, block_rule_name())
                && find(after, block_rule_name()) < at
            &&& registered(rules, inline_rule_name()) ==> registered(after, inline_rule_name())
                && find(after, inline_rule_name()) < at
            &&& removed(after, sourcepos_rule_name()) == rules
        }),
{
    let anchor = last_phase(rules)->0;
    let op = RulerOp::After { anchor, name: sourcepos_rule_name(), rule: CoreRule::SyntaxPos };
    let after = applied(rules, op);
    let e = entry(sourcepos_rule_name(), CoreRule::SyntaxPos);
    let place = find(rules, anchor) + 1;
    assert(block_rule_name().len() != inline_rule_name().len());
    law_registration_places(rules, op);
    assert(after == rules.insert(place, e));
    assert(after[place] == e);
    lemma_find(after, place);
    assert(after.remove(place) =~= rules);
    if registered(rules, block_rule_name()) && anchor != block_rule_name() {
        law_insert_keeps_order(rules, place, e, block_rule_name(), anchor);
    }
    if registered(rules, inline_rule_name()) && anchor != inline_rule_name() {
        law_insert_keeps_order(rules, place, e, inline_rule_name(), anchor);
    }
}

/// The visitor that labels the node it is handed.
pub struct Labeler<'a> {
    /// The index of the source text.
    pub mapping: &'a CharMapping,
}

impl<'a> NodeVisitor for Labeler<'a> {
    open spec fn visits(&self, before: NodeView, after: NodeView) -> bool {
        after == label_head(self.mapping@, before)
    }

    fn visit(&self, node: &mut Node) {
        if let Some(map) = node.srcmap {
            proof {
                reveal_strlit("data-sourcepos");
                assert("data-sourcepos"@ =~= sourcepos_attr());
            }
            let p = map.get_positions(self.mapping);
            let mut text: Vec<char> = Vec::new();
            push_label(&mut text, p);
            let ghost before = node@;
            node.attrs.push((String::from_str("data-sourcepos"), string_from(&text)));
            proof {
                assert(node@.attrs =~= before.attrs.push(
                    (
                        sourcepos_attr(),
                        label(positions(self.mapping@, map.start as int, map.end as int)),
                    ),
                ));
                assert(node@.children =~= before.children);
            }
        }
    }
}

/// A walk with the labeler makes the labeled tree.
pub proof fn lemma_walked_is_labeled(v: &Labeler, before: NodeView, after: NodeView)
    requires
        walked(v, before, after),
    ensures
        after == labeled(v.mapping@, before),
    decreases before,
{
    let s = v.mapping@;
    assert forall|i: int| 0 <= i < before.children.len() implies after.children[i] == labeled(
        s,
        before.children[i],
    ) by {
        assert(walked(v, before.children[i], after.children[i]));
        lemma_walked_is_labeled(v, before.children[i], after.children[i]);
    }
    assert(after.children =~= labeled(s, before).children);
}

/// The rule that labels each node that has a span with its positions in
/// the source.
pub struct SyntaxPosRule;

impl SyntaxPosRule {
    /// Labels the nodes of the tree below the root `root`, which holds
    /// the source text.
    pub fn run<H: LinkHooks>(root: &mut Node, md: &MarkdownIt<H>)
        requires
            old(root)@.value is Root,
        ensures
            final(root)@ == source_labeled(old(root)@),
    {
        let mapping = match &root.value {
            Payload::Root(r) => CharMapping::new(r.content.as_str()),
            _ => {
                return ;
            },
        };
        let labeler = Labeler { mapping: &mapping };
        root.walk_mut(&labeler);
        proof {
            lemma_walked_is_labeled(&labeler, old(root)@, root@);
        }
    }
}

/// The span of a text that is not empty starts at `1:1` and ends where the
/// last code point of the text stands.
pub proof fn law_whole_text_positions(s: Seq<char>)
    requires
        s.len() > 0,
    ensures
        positions(s, 0, byte_offset(s, s.len() as int) as int) == ((1nat, 1nat), line_col(
            s,
            s.len() - 1,
        )),
{
    let n = s.len() as int;
    lemma_byte_offset_increases(s, 0, 1);
    lemma_char_index_is(s, 0, 0);
    lemma_byte_offset_increases(s, n - 1, n);
    lemma_char_index_is(s, byte_offset(s, n) - 1, n - 1);
}

/// After the block phase and the labeling, the root of a text that is not
/// empty carries the label from `1:1` to the line and column of the last
/// code point of the text.
pub proof fn law_root_label(rules: Seq<BlockRule>, root: NodeView, s: Seq<char>)
    requires
        s.len() > 0,
        root.value == (PayloadView::Root { content: s }),
        byte_offset(s, s.len() as int) <= usize::MAX,
    ensures
        source_labeled(blocked(rules, root)).attrs == root.attrs.push(
            (sourcepos_attr(), label(((1nat, 1nat), line_col(s, s.len() - 1)))),
        ),
{
    law_whole_text_positions(s);
}

} // verus!
