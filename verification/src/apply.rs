//! Style application: attaching matched rules, tagged with their origin, to
//! a DOM node's rule list.
//!
//! Selector matching itself is a capability of the DOM host: the host walks
//! every style rule of a sheet, matches its selector text against the tree,
//! and appends [`RuleWithOrigin`] entries to the matched nodes' [`NodeStyleData`]
//! through [`NodeStyleData::add_rule`]. That list is append-only during the
//! style phase and read-only once layout begins; this API exposes no other
//! mutation.

use vstd::prelude::*;
use crate::stylesheet::{CssRule, RuleModel};

verus! {

/// The logical source category of a stylesheet.
#[derive(Clone, Copy, Debug, PartialEq, Eq, Structural)]
pub enum StylesheetOrigin {
    /// The user agent's built-in stylesheet.
    UserAgent,
    /// A stylesheet of the document's author.
    Author,
}

/// Where an attached rule came from.
#[derive(Clone, Copy, Debug, PartialEq, Eq, Structural)]
pub enum RuleOrigin {
    /// A rule of a whole stylesheet of the given origin.
    Sheet(StylesheetOrigin),
}

/// A rule attached to a DOM node, tagged with its origin. Deduplication does
/// not consult the origin; precedence across origins is left to whoever walks
/// the node's list, in attachment order.
#[derive(Clone, Debug)]
pub struct RuleWithOrigin {
    pub origin: RuleOrigin,
    pub rule: CssRule,
}

/// The model of an attached rule.
pub ghost struct RuleWithOriginModel {
    pub origin: RuleOrigin,
    pub rule: RuleModel,
}

impl View for RuleWithOrigin {
    type V = RuleWithOriginModel;

    open spec fn view(&self) -> RuleWithOriginModel {
        RuleWithOriginModel { origin: self.origin, rule: self.rule@ }
    }
}

impl RuleWithOrigin {
    /// Tag a rule of a sheet of the given origin for attachment to a node.
    pub fn new(origin: StylesheetOrigin, rule: &CssRule) -> (r: RuleWithOrigin)
        ensures
            r@.origin == RuleOrigin::Sheet(origin),
            r@.rule == rule@,
    {
        RuleWithOrigin { origin: RuleOrigin::Sheet(origin), rule: rule.duplicate() }
    }
}

/// The ordered list of rules attached to one DOM node over the style phase.
/// Rules only accumulate: every mutation appends, so earlier attachments keep
/// their positions, and multiple stylesheet applications accumulate in call
/// order.
#[derive(Clone, Debug)]
pub struct NodeStyleData {
    rules: Vec<RuleWithOrigin>,
}

impl View for NodeStyleData {
    type V = Seq<RuleWithOriginModel>;

    closed spec fn view(&self) -> Seq<RuleWithOriginModel> {
        self.rules@.map_values(|r: RuleWithOrigin| r@)
    }
}

impl NodeStyleData {
    /// A node with no attached rules.
    pub fn new() -> (r: Self)
        ensures
            r@ == Seq::<RuleWithOriginModel>::empty(),
    {
        let r = NodeStyleData { rules: Vec::new() };
        proof {
            assert(r@ =~= Seq::<RuleWithOriginModel>::empty());
        }
        r
    }

    /// Attach one more rule: strictly an append, everything already attached
    /// stays as it was.
    pub fn add_rule(&mut self, rule: RuleWithOrigin)
        ensures
            final(self)@ == old(self)@.push(rule@),
    {
        let ghost before = self@;
        self.rules.push(rule);
        proof {
            assert(self@ =~= before.push(rule@));
        }
    }

    /// The attached rules, in attachment order.
    pub fn rules(&self) -> (r: &Vec<RuleWithOrigin>)
        ensures
            r@.len() == self@.len(),
            forall|i: int| 0 <= i < r@.len() ==> (#[trigger] r@[i])@ == self@[i],
    {
        &self.rules
    }
}

} // verus!
