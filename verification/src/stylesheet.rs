//! Stylesheets, rules, and the cascade / dedup engine.
//!
//! A [`Stylesheet`] is an ordered sequence of [`CssRule`]s. Insertion through
//! [`Stylesheet::add_rule`] resolves same-selector property conflicts: a
//! later rule's declaration for a property supersedes an earlier rule's
//! declaration of the same property kind under an identical selector list
//! (last write wins, document order). Rules with different selector lists
//! never interact. A rule whose block is left empty is removed altogether.

use vstd::prelude::*;
use crate::dedup;
use crate::dedup::{keep_fn, marks_exactly};
use crate::properties::{
    decl_marked_fn, strip_decls, PropertyDeclaration, PropertyDeclarationBlock,
};

verus! {

/// The mathematical model of a style rule: its selector text and its
/// declarations.
pub ghost struct StyleRuleModel {
    pub selectors: Seq<u8>,
    pub decls: Seq<PropertyDeclaration>,
}

/// The mathematical model of a top-level rule.
pub ghost enum RuleModel {
    Style(StyleRuleModel),
    Unsupported,
}

/// A style rule: a selector list (kept as its serialized text) and a block of
/// property declarations.
#[derive(Clone, Debug)]
pub struct StyleRule {
    /// The serialized selector list, as written in the source, surrounding
    /// white space trimmed. Selector lists are compared for structural
    /// equality: byte-for-byte.
    pub selectors: Vec<u8>,
    /// The `property: value` declarations of the rule's block.
    pub block: PropertyDeclarationBlock,
}

impl View for StyleRule {
    type V = StyleRuleModel;

    open spec fn view(&self) -> StyleRuleModel {
        StyleRuleModel { selectors: self.selectors@, decls: self.block@ }
    }
}

/// A top-level CSS rule: a style rule, or a placeholder for an unsupported
/// construct (a non-style at-rule). Only style rules take part in
/// deduplication and matching.
#[derive(Clone, Debug)]
pub enum CssRule {
    Style(StyleRule),
    Unsupported,
}

impl View for CssRule {
    type V = RuleModel;

    open spec fn view(&self) -> RuleModel {
        match self {
            CssRule::Style(sr) => RuleModel::Style(sr@),
            CssRule::Unsupported => RuleModel::Unsupported,
        }
    }
}

/// The models of a sequence of rules.
pub open spec fn rules_view(rs: Seq<CssRule>) -> Seq<RuleModel> {
    rs.map_values(|r: CssRule| r@)
}

/// One rule under the arrival of a newer rule for selector list `sel` with
/// declarations `nd`: an equal-selector style rule loses every declaration
/// whose kind `nd` declares too; any other rule is untouched.
pub open spec fn strip_rule_model(
    r: RuleModel,
    sel: Seq<u8>,
    nd: Seq<PropertyDeclaration>,
) -> RuleModel {
    match r {
        RuleModel::Style(sr) => if sr.selectors == sel {
            RuleModel::Style(StyleRuleModel { selectors: sr.selectors, decls: strip_decls(sr.decls, nd) })
        } else {
            r
        },
        RuleModel::Unsupported => r,
    }
}

/// Whether a rule is an emptied equal-selector style rule: one that lost its
/// last declaration and is removed from the sheet.
pub open spec fn rule_emptied(r: RuleModel, sel: Seq<u8>) -> bool {
    match r {
        RuleModel::Style(sr) => sr.selectors == sel && sr.decls.len() == 0,
        RuleModel::Unsupported => false,
    }
}

/// [`strip_rule_model`] as a function value, shared by every contract.
pub open spec fn strip_rule_fn(sel: Seq<u8>, nd: Seq<PropertyDeclaration>) -> spec_fn(
    RuleModel,
) -> RuleModel {
    |r: RuleModel| strip_rule_model(r, sel, nd)
}

/// The rules that survive the arrival of a newer rule for `sel`: those not
/// emptied by it.
pub open spec fn keep_rule_fn(sel: Seq<u8>) -> spec_fn(RuleModel) -> bool {
    |r: RuleModel| !rule_emptied(r, sel)
}

/// [`rule_emptied`] over executable rules, the marking predicate of the
/// second removal pass.
pub open spec fn emptied_exec_fn(sel: Seq<u8>) -> spec_fn(CssRule) -> bool {
    |r: CssRule| rule_emptied(r@, sel)
}

/// The effect of inserting `nr` into a sheet: when `nr` is a style rule,
/// every equal-selector rule is stripped of the property kinds `nr`
/// redeclares, rules emptied by that are removed, and `nr` is appended; any
/// other rule is just appended.
pub open spec fn add_rule_model(rules: Seq<RuleModel>, nr: RuleModel) -> Seq<RuleModel> {
    match nr {
        RuleModel::Style(ns) => rules.map_values(strip_rule_fn(ns.selectors, ns.decls)).filter(
            keep_rule_fn(ns.selectors),
        ).push(nr),
        RuleModel::Unsupported => rules.push(nr),
    }
}

/// Whether a rule model is a style rule.
pub open spec fn rule_is_style(r: RuleModel) -> bool {
    match r {
        RuleModel::Style(_) => true,
        RuleModel::Unsupported => false,
    }
}

/// The selector text of a style rule model.
pub open spec fn rule_selectors(r: RuleModel) -> Seq<u8> {
    match r {
        RuleModel::Style(sr) => sr.selectors,
        RuleModel::Unsupported => arbitrary(),
    }
}

/// The declarations of a style rule model.
pub open spec fn rule_decls(r: RuleModel) -> Seq<PropertyDeclaration> {
    match r {
        RuleModel::Style(sr) => sr.decls,
        RuleModel::Unsupported => arbitrary(),
    }
}

/// Whether no property kind declared in `a` is declared in `b`.
pub open spec fn kinds_disjoint(a: Seq<PropertyDeclaration>, b: Seq<PropertyDeclaration>) -> bool {
    forall|j: int|
        0 <= j < a.len() ==> !crate::properties::block_has_kind(
            b,
            crate::properties::decl_kind(#[trigger] a[j]),
        )
}

/// Different-selector non-interference: inserting a style rule into a sheet
/// in which every style rule has a different selector list triggers no
/// deduplication at all — the sheet is merely extended by the new rule,
/// whatever properties anyone declares.
pub proof fn lemma_different_selector_non_interference(rules: Seq<RuleModel>, nr: RuleModel)
    requires
        rule_is_style(nr),
        forall|i: int|
            0 <= i < rules.len() && rule_is_style(#[trigger] rules[i]) ==> rule_selectors(rules[i])
                != rule_selectors(nr),
    ensures
        add_rule_model(rules, nr) == rules.push(nr),
{
    let sel = rule_selectors(nr);
    let nd = rule_decls(nr);
    let m = rules.map_values(strip_rule_fn(sel, nd));
    assert forall|i: int| 0 <= i < rules.len() implies m[i] == rules[i] && !rule_emptied(
        rules[i],
        sel,
    ) by {
        if rule_is_style(rules[i]) {
            assert(rule_selectors(rules[i]) != sel);
        }
    }
    assert(m =~= rules);
    assert(forall|i: int| 0 <= i < m.len() ==> keep_rule_fn(sel)(#[trigger] m[i]));
    dedup::lemma_filter_all(m, keep_rule_fn(sel));
}

/// Disjoint-property non-interference: inserting a style rule whose property
/// kinds are disjoint from those of every non-empty rule with the same
/// selector list removes no declaration and no rule — the sheet is merely
/// extended by the new rule.
pub proof fn lemma_disjoint_property_non_interference(rules: Seq<RuleModel>, nr: RuleModel)
    requires
        rule_is_style(nr),
        forall|i: int|
            0 <= i < rules.len() && rule_is_style(#[trigger] rules[i]) && rule_selectors(rules[i])
                == rule_selectors(nr) ==> rule_decls(rules[i]).len() > 0 && kinds_disjoint(
                rule_decls(rules[i]),
                rule_decls(nr),
            ),
    ensures
        add_rule_model(rules, nr) == rules.push(nr),
{
    let sel = rule_selectors(nr);
    let nd = rule_decls(nr);
    let m = rules.map_values(strip_rule_fn(sel, nd));
    assert forall|i: int| 0 <= i < rules.len() implies m[i] == rules[i] && !rule_emptied(
        rules[i],
        sel,
    ) by {
        match rules[i] {
            RuleModel::Unsupported => {},
            RuleModel::Style(sr) => {
                if sr.selectors == sel {
                    assert(kinds_disjoint(sr.decls, nd));
                    assert(forall|j: int|
                        0 <= j < sr.decls.len() ==> keep_fn(decl_marked_fn(nd))(
                            #[trigger] sr.decls[j],
                        ));
                    dedup::lemma_filter_all(sr.decls, keep_fn(decl_marked_fn(nd)));
                    assert(strip_decls(sr.decls, nd) == sr.decls);
                    assert(m[i] == rules[i]);
                    assert(sr.decls.len() > 0);
                }
            },
        }
    }
    assert(m =~= rules);
    assert(forall|i: int| 0 <= i < m.len() ==> keep_rule_fn(sel)(#[trigger] m[i]));
    dedup::lemma_filter_all(m, keep_rule_fn(sel));
}

/// Rule removal on full obsolescence: when every declaration of the style
/// rule at position `i` is superseded by the inserted rule (same selector
/// list, every kind redeclared), the rule itself disappears from the sheet:
/// inserting into the sheet equals inserting into the sheet with that rule
/// already removed.
#[verifier::rlimit(30)]
pub proof fn lemma_rule_removed_on_full_obsolescence(
    rules: Seq<RuleModel>,
    nr: RuleModel,
    i: int,
)
    requires
        rule_is_style(nr),
        0 <= i < rules.len(),
        rule_is_style(rules[i]),
        rule_selectors(rules[i]) == rule_selectors(nr),
        forall|j: int|
            0 <= j < rule_decls(rules[i]).len() ==> crate::properties::block_has_kind(
                rule_decls(nr),
                crate::properties::decl_kind(#[trigger] rule_decls(rules[i])[j]),
            ),
    ensures
        add_rule_model(rules, nr) == add_rule_model(rules.remove(i), nr),
{
    let sel = rule_selectors(nr);
    let nd = rule_decls(nr);
    let keep = keep_rule_fn(sel);
    let m = rules.map_values(strip_rule_fn(sel, nd));
    let m2 = rules.remove(i).map_values(strip_rule_fn(sel, nd));
    let di = rule_decls(rules[i]);
    assert(forall|j: int| 0 <= j < di.len() ==> !keep_fn(decl_marked_fn(nd))(#[trigger] di[j]));
    dedup::lemma_filter_none(di, keep_fn(decl_marked_fn(nd)));
    assert(strip_decls(di, nd) == Seq::<PropertyDeclaration>::empty());
    assert(rule_emptied(m[i], sel));
    let a = m.subrange(0, i);
    let s = m.subrange(i, i + 1);
    let b = m.subrange(i + 1, m.len() as int);
    assert(m =~= (a + s) + b);
    Seq::filter_distributes_over_add(a + s, b, keep);
    Seq::filter_distributes_over_add(a, s, keep);
    assert(forall|j: int| 0 <= j < s.len() ==> !keep(#[trigger] s[j]));
    dedup::lemma_filter_none(s, keep);
    assert(m.filter(keep) == (a.filter(keep) + Seq::<RuleModel>::empty()) + b.filter(keep));
    assert(a.filter(keep) + Seq::<RuleModel>::empty() =~= a.filter(keep));
    assert(m2 =~= a + b);
    Seq::filter_distributes_over_add(a, b, keep);
    assert(m.filter(keep) == m2.filter(keep));
}

/// Whether two rules may stand together in a deduplicated sheet: two style
/// rules with identical selector lists must declare disjoint property kinds.
pub open spec fn rules_compatible(a: RuleModel, b: RuleModel) -> bool {
    (rule_is_style(a) && rule_is_style(b) && rule_selectors(a) == rule_selectors(b))
        ==> kinds_disjoint(rule_decls(a), rule_decls(b))
}

/// The stylesheet invariant: the sheet never holds two style rules with
/// identical selector lists and overlapping property kinds.
pub open spec fn sheet_deduplicated(rules: Seq<RuleModel>) -> bool {
    forall|i: int, j: int|
        0 <= i < j < rules.len() ==> rules_compatible(#[trigger] rules[i], #[trigger] rules[j])
}

/// A kind declared in a stripped block was declared in the block it came
/// from.
proof fn lemma_strip_kind_subset(
    d: Seq<PropertyDeclaration>,
    nd: Seq<PropertyDeclaration>,
    k: crate::properties::PropertyKind,
)
    requires
        crate::properties::block_has_kind(strip_decls(d, nd), k),
    ensures
        crate::properties::block_has_kind(d, k),
{
    let sd = strip_decls(d, nd);
    let t = choose|t: int| 0 <= t < sd.len() && crate::properties::decl_kind(sd[t]) == k;
    dedup::lemma_filter_member(d, keep_fn(decl_marked_fn(nd)), t);
    let w = choose|w: int| 0 <= w < d.len() && d[w] == sd[t];
    assert(crate::properties::decl_kind(d[w]) == k);
}

/// A stripped block declares no kind that the newer block declares.
proof fn lemma_strip_disjoint_new(d: Seq<PropertyDeclaration>, nd: Seq<PropertyDeclaration>)
    ensures
        kinds_disjoint(strip_decls(d, nd), nd),
{
    let sd = strip_decls(d, nd);
    let q = keep_fn(decl_marked_fn(nd));
    assert forall|t: int|
        0 <= t < sd.len() implies !crate::properties::block_has_kind(
        nd,
        crate::properties::decl_kind(#[trigger] sd[t]),
    ) by {
        Seq::lemma_filter_pred(d, q, t);
        assert(q(sd[t]));
    }
}

/// Inserting a rule preserves the stylesheet invariant: the resulting sheet
/// is again free of same-selector, overlapping-kind style-rule pairs.
pub proof fn lemma_add_rule_preserves_dedup(rules: Seq<RuleModel>, nr: RuleModel)
    requires
        sheet_deduplicated(rules),
    ensures
        sheet_deduplicated(add_rule_model(rules, nr)),
{
    match nr {
        RuleModel::Unsupported => {
            let out = rules.push(nr);
            assert forall|i: int, j: int|
                0 <= i < j < out.len() implies rules_compatible(#[trigger] out[i], #[trigger] out[j]) by {
                if j < rules.len() {
                    assert(rules_compatible(rules[i], rules[j]));
                } else {
                    assert(out[j] == nr);
                }
            }
        },
        RuleModel::Style(ns) => {
            let sel = ns.selectors;
            let nd = ns.decls;
            let keep = keep_rule_fn(sel);
            let m = rules.map_values(strip_rule_fn(sel, nd));
            let f = m.filter(keep);
            // Stripping preserves pairwise compatibility.
            assert forall|w1: int, w2: int|
                0 <= w1 < w2 < m.len() implies rules_compatible(
                #[trigger] m[w1],
                #[trigger] m[w2],
            ) by {
                assert(rules_compatible(rules[w1], rules[w2]));
                lemma_strip_pair_compatible(rules[w1], rules[w2], sel, nd);
            }
            // Every surviving rule is compatible with the new rule.
            assert forall|i: int| 0 <= i < f.len() implies rules_compatible(#[trigger] f[i], nr) by {
                dedup::lemma_filter_member(m, keep, i);
                let w = choose|w: int| 0 <= w < m.len() && m[w] == f[i];
                if rule_is_style(f[i]) && rule_selectors(f[i]) == sel {
                    match rules[w] {
                        RuleModel::Style(sr) => {
                            if sr.selectors == sel {
                                lemma_strip_disjoint_new(sr.decls, nd);
                            }
                        },
                        RuleModel::Unsupported => {},
                    }
                }
            }
            let out = f.push(nr);
            assert forall|i: int, j: int|
                0 <= i < j < out.len() implies rules_compatible(#[trigger] out[i], #[trigger] out[j]) by {
                if j < f.len() {
                    dedup::lemma_filter_pair(m, keep, i, j);
                    let (w1, w2) = choose|w1: int, w2: int|
                        0 <= w1 < w2 < m.len() && m[w1] == f[i] && m[w2] == f[j];
                    assert(rules_compatible(m[w1], m[w2]));
                } else {
                    assert(out[j] == nr);
                    assert(rules_compatible(f[i], nr));
                }
            }
        },
    }
}

/// Stripping two compatible rules under an arriving rule leaves them
/// compatible.
proof fn lemma_strip_pair_compatible(
    a: RuleModel,
    b: RuleModel,
    sel: Seq<u8>,
    nd: Seq<PropertyDeclaration>,
)
    requires
        rules_compatible(a, b),
    ensures
        rules_compatible(strip_rule_model(a, sel, nd), strip_rule_model(b, sel, nd)),
{
    let a2 = strip_rule_model(a, sel, nd);
    let b2 = strip_rule_model(b, sel, nd);
    if rule_is_style(a2) && rule_is_style(b2) && rule_selectors(a2) == rule_selectors(b2) {
        assert(rule_is_style(a) && rule_is_style(b));
        assert(rule_selectors(a2) == rule_selectors(a));
        assert(rule_selectors(b2) == rule_selectors(b));
        assert(kinds_disjoint(rule_decls(a), rule_decls(b)));
        assert forall|t: int|
            0 <= t < rule_decls(a2).len() implies !crate::properties::block_has_kind(
            rule_decls(b2),
            crate::properties::decl_kind(#[trigger] rule_decls(a2)[t]),
        ) by {
            let k = crate::properties::decl_kind(rule_decls(a2)[t]);
            if crate::properties::block_has_kind(rule_decls(b2), k) {
                // The kind is declared both in the stripped `a` and the
                // stripped `b`, hence in `a` and `b` themselves.
                if rule_selectors(b) == sel {
                    lemma_strip_kind_subset(rule_decls(b), nd, k);
                }
                assert(crate::properties::block_has_kind(rule_decls(b), k));
                if rule_selectors(a) == sel {
                    lemma_strip_kind_subset(rule_decls(a), nd, k);
                    let w = choose|w: int|
                        0 <= w < rule_decls(a).len() && crate::properties::decl_kind(
                            rule_decls(a)[w],
                        ) == k;
                    assert(!crate::properties::block_has_kind(rule_decls(b), k));
                } else {
                    let w = choose|w: int|
                        0 <= w < rule_decls(a).len() && crate::properties::decl_kind(
                            rule_decls(a)[w],
                        ) == k;
                    assert(!crate::properties::block_has_kind(rule_decls(b), k));
                }
            }
        }
    }
}

/// Byte-for-byte equality of two selector texts.
fn bytes_eq(a: &Vec<u8>, b: &Vec<u8>) -> (r: bool)
    ensures
        r <==> a@ == b@,
{
    let n = a.len();
    if n != b.len() {
        proof {
            assert(a@ != b@);
        }
        return false;
    }
    let mut j: usize = 0;
    while j < n
        invariant
            j <= n,
            n == a@.len(),
            n == b@.len(),
            forall|t: int| 0 <= t < j ==> a@[t] == b@[t],
        decreases n - j,
    {
        if a[j] != b[j] {
            return false;
        }
        j += 1;
    }
    proof {
        assert(a@ =~= b@);
    }
    true
}

/// A copy of a selector text.
fn copy_bytes(a: &Vec<u8>) -> (r: Vec<u8>)
    ensures
        r@ == a@,
{
    let n = a.len();
    let mut out: Vec<u8> = Vec::new();
    let mut j: usize = 0;
    while j < n
        invariant
            j <= n,
            n == a@.len(),
            out@ == a@.subrange(0, j as int),
        decreases n - j,
    {
        out.push(a[j]);
        proof {
            assert(out@ =~= a@.subrange(0, j + 1 as int));
        }
        j += 1;
    }
    proof {
        assert(out@ =~= a@);
    }
    out
}

impl CssRule {
    /// A deep copy of this rule.
    pub fn duplicate(&self) -> (r: CssRule)
        ensures
            r@ == self@,
    {
        match self {
            CssRule::Unsupported => CssRule::Unsupported,
            CssRule::Style(sr) => CssRule::Style(
                StyleRule { selectors: copy_bytes(&sr.selectors), block: sr.block.duplicate() },
            ),
        }
    }
}

/// An ordered collection of parsed CSS rules from one source, deduplicated on
/// every insertion: it never holds two style rules with identical selectors
/// and overlapping property kinds.
#[derive(Clone, Debug)]
pub struct Stylesheet {
    rules: Vec<CssRule>,
}

impl View for Stylesheet {
    type V = Seq<RuleModel>;

    closed spec fn view(&self) -> Seq<RuleModel> {
        rules_view(self.rules@)
    }
}

impl Stylesheet {
    /// An empty stylesheet.
    pub fn new() -> (r: Self)
        ensures
            r@ == Seq::<RuleModel>::empty(),
    {
        let r = Stylesheet { rules: Vec::new() };
        proof {
            assert(r@ =~= Seq::<RuleModel>::empty());
        }
        r
    }

    /// The rules of the sheet, in order.
    pub fn rules(&self) -> (r: &Vec<CssRule>)
        ensures
            r@.len() == self@.len(),
            forall|i: int| 0 <= i < r@.len() ==> (#[trigger] r@[i])@ == self@[i],
    {
        &self.rules
    }

    /// Insert `new_rule`, resolving same-selector property conflicts in
    /// favour of the new rule and pruning emptied rules, then append it.
    pub fn add_rule(&mut self, new_rule: CssRule)
        ensures
            final(self)@ == add_rule_model(old(self)@, new_rule@),
    {
        let ghost models0 = self@;
        let ghost nrm = new_rule@;
        match new_rule {
            CssRule::Unsupported => {
                self.rules.push(CssRule::Unsupported);
                proof {
                    assert(self@ =~= models0.push(nrm));
                }
            },
            CssRule::Style(ns) => {
                let ghost sel = ns.selectors@;
                let ghost nd = ns.block@;
                let ghost p = emptied_exec_fn(sel);
                let ghost rules0 = self.rules@;
                let mut stripped: Vec<CssRule> = Vec::new();
                let mut obsolete: Vec<usize> = Vec::new();
                let n = self.rules.len();
                let mut i: usize = 0;
                proof {
                    assert(marks_exactly(stripped@, obsolete@, p));
                }
                while i < n
                    invariant
                        i <= n,
                        n == self.rules@.len(),
                        self.rules@ == rules0,
                        stripped@.len() == i,
                        marks_exactly(stripped@, obsolete@, p),
                        p == emptied_exec_fn(sel),
                        sel == ns.selectors@,
                        nd == ns.block@,
                        forall|k: int|
                            0 <= k < i ==> (#[trigger] stripped@[k])@ == strip_rule_model(
                                rules_view(rules0)[k],
                                sel,
                                nd,
                            ),
                    decreases n - i,
                {
                    let ghost s_old = stripped@;
                    let ghost idx_old = obsolete@;
                    match &self.rules[i] {
                        CssRule::Unsupported => {
                            let entry = CssRule::Unsupported;
                            proof {
                                dedup::lemma_marks_push_unmarked(s_old, idx_old, p, entry);
                            }
                            stripped.push(entry);
                        },
                        CssRule::Style(es) => {
                            if bytes_eq(&es.selectors, &ns.selectors) {
                                let mut blk = es.block.duplicate();
                                let idxs = blk.obsolete_indices(&ns.block);
                                blk.remove_obsolete(&idxs, &ns.block);
                                let emptied = blk.declarations().len() == 0;
                                let entry = CssRule::Style(
                                    StyleRule { selectors: copy_bytes(&es.selectors), block: blk },
                                );
                                proof {
                                    assert(entry@ == strip_rule_model(
                                        rules_view(rules0)[i as int],
                                        sel,
                                        nd,
                                    ));
                                    if emptied {
                                        assert(p(entry));
                                        dedup::lemma_marks_push_marked(s_old, idx_old, p, entry);
                                    } else {
                                        assert(!p(entry));
                                        dedup::lemma_marks_push_unmarked(s_old, idx_old, p, entry);
                                    }
                                }
                                if emptied {
                                    obsolete.push(i);
                                }
                                stripped.push(entry);
                            } else {
                                let entry = CssRule::Style(
                                    StyleRule {
                                        selectors: copy_bytes(&es.selectors),
                                        block: es.block.duplicate(),
                                    },
                                );
                                proof {
                                    assert(entry@ == strip_rule_model(
                                        rules_view(rules0)[i as int],
                                        sel,
                                        nd,
                                    ));
                                    assert(!p(entry));
                                    dedup::lemma_marks_push_unmarked(s_old, idx_old, p, entry);
                                }
                                stripped.push(entry);
                            }
                        },
                    }
                    i += 1;
                }
                let ghost stripped_full = stripped@;
                self.rules = stripped;
                dedup::remove_indices(&mut self.rules, &obsolete, Ghost(p));
                proof {
                    vstd::seq_lib::lemma_filter_view_commute(
                        stripped_full,
                        keep_fn(p),
                        keep_rule_fn(sel),
                    );
                    assert(stripped_full.map_values(|x: CssRule| x.view()) =~= rules_view(
                        stripped_full,
                    ));
                    assert(rules_view(stripped_full) =~= rules_view(rules0).map_values(
                        strip_rule_fn(sel, nd),
                    ));
                    assert(stripped_full.filter(keep_fn(p)).map_values(|x: CssRule| x.view())
                        =~= rules_view(stripped_full.filter(keep_fn(p))));
                    assert(rules_view(self.rules@) == rules_view(rules0).map_values(
                        strip_rule_fn(sel, nd),
                    ).filter(keep_rule_fn(sel)));
                }
                let ghost mid = self@;
                self.rules.push(CssRule::Style(ns));
                proof {
                    assert(self@ =~= mid.push(nrm));
                }
            },
        }
    }
}

} // verus!
