//! Property declarations and declaration blocks.
//!
//! A [`PropertyDeclaration`] is one `property: value` pair, a tagged variant
//! per supported CSS property. Two declarations are of the same *property
//! kind* when they carry the same tag, whatever their values; the cascade
//! engine resolves conflicts by kind.

use vstd::prelude::*;
use crate::dedup;
use crate::specified;

verus! {

/// The tag of a property declaration: which CSS property it declares.
#[derive(Clone, Copy, Debug, PartialEq, Eq, Structural)]
pub enum PropertyKind {
    FontSize,
    MarginBottom,
    MarginLeft,
    MarginRight,
    MarginTop,
}

/// One `property: value` pair, carrying the property's specified value.
#[derive(Clone, Copy, Debug, PartialEq, Eq, Structural)]
pub enum PropertyDeclaration {
    FontSize(specified::LengthPercentage),
    MarginBottom(specified::LengthPercentageOrAuto),
    MarginLeft(specified::LengthPercentageOrAuto),
    MarginRight(specified::LengthPercentageOrAuto),
    MarginTop(specified::LengthPercentageOrAuto),
}

/// The property kind a declaration declares.
pub open spec fn decl_kind(d: PropertyDeclaration) -> PropertyKind {
    match d {
        PropertyDeclaration::FontSize(_) => PropertyKind::FontSize,
        PropertyDeclaration::MarginBottom(_) => PropertyKind::MarginBottom,
        PropertyDeclaration::MarginLeft(_) => PropertyKind::MarginLeft,
        PropertyDeclaration::MarginRight(_) => PropertyKind::MarginRight,
        PropertyDeclaration::MarginTop(_) => PropertyKind::MarginTop,
    }
}

/// Whether some declaration in `decls` declares property kind `k`.
pub open spec fn block_has_kind(decls: Seq<PropertyDeclaration>, k: PropertyKind) -> bool {
    exists|j: int| 0 <= j < decls.len() && decl_kind(decls[j]) == k
}

/// The marking predicate of the cascade: a declaration is obsolete when the
/// newer block `newer` declares its property kind too.
pub open spec fn decl_marked_fn(newer: Seq<PropertyDeclaration>) -> spec_fn(
    PropertyDeclaration,
) -> bool {
    |d: PropertyDeclaration| block_has_kind(newer, decl_kind(d))
}

/// The declarations of `decls` whose property kind is *not* declared anywhere
/// in `newer`: what survives of an older block once a newer block for the same
/// selectors arrives.
pub open spec fn strip_decls(
    decls: Seq<PropertyDeclaration>,
    newer: Seq<PropertyDeclaration>,
) -> Seq<PropertyDeclaration> {
    decls.filter(dedup::keep_fn(decl_marked_fn(newer)))
}

impl PropertyDeclaration {
    /// The property kind this declaration declares.
    pub fn kind(&self) -> (k: PropertyKind)
        ensures
            k == decl_kind(*self),
    {
        match *self {
            PropertyDeclaration::FontSize(_) => PropertyKind::FontSize,
            PropertyDeclaration::MarginBottom(_) => PropertyKind::MarginBottom,
            PropertyDeclaration::MarginLeft(_) => PropertyKind::MarginLeft,
            PropertyDeclaration::MarginRight(_) => PropertyKind::MarginRight,
            PropertyDeclaration::MarginTop(_) => PropertyKind::MarginTop,
        }
    }
}

/// An ordered sequence of property declarations: the body of one CSS rule.
#[derive(Clone, Debug)]
pub struct PropertyDeclarationBlock {
    declarations: Vec<PropertyDeclaration>,
}

impl View for PropertyDeclarationBlock {
    type V = Seq<PropertyDeclaration>;

    closed spec fn view(&self) -> Seq<PropertyDeclaration> {
        self.declarations@
    }
}

impl PropertyDeclarationBlock {
    /// An empty block.
    pub fn new() -> (r: Self)
        ensures
            r@ == Seq::<PropertyDeclaration>::empty(),
    {
        PropertyDeclarationBlock { declarations: Vec::new() }
    }

    /// A block holding the given declarations, in order.
    pub fn from_declarations(declarations: Vec<PropertyDeclaration>) -> (r: Self)
        ensures
            r@ == declarations@,
    {
        PropertyDeclarationBlock { declarations }
    }

    /// The declarations, in insertion order.
    pub fn declarations(&self) -> (r: &Vec<PropertyDeclaration>)
        ensures
            r@ == self@,
    {
        &self.declarations
    }

    /// Append a declaration.
    pub fn push_decl(&mut self, d: PropertyDeclaration)
        ensures
            final(self)@ == old(self)@.push(d),
    {
        self.declarations.push(d);
    }

    /// Remove the declaration at `index`.
    pub fn remove_decl(&mut self, index: usize)
        requires
            index < old(self)@.len(),
        ensures
            final(self)@ == old(self)@.remove(index as int),
    {
        self.declarations.remove(index);
    }

    /// Whether some declaration of this block declares property kind `k`.
    pub fn contains_kind(&self, k: PropertyKind) -> (r: bool)
        ensures
            r == block_has_kind(self@, k),
    {
        let n = self.declarations.len();
        let mut j: usize = 0;
        while j < n
            invariant
                j <= n,
                n == self@.len(),
                forall|t: int| 0 <= t < j ==> decl_kind(self@[t]) != k,
            decreases n - j,
        {
            if self.declarations[j].kind() == k {
                return true;
            }
            j += 1;
        }
        false
    }

    /// A deep copy of this block.
    pub fn duplicate(&self) -> (r: Self)
        ensures
            r@ == self@,
    {
        let n = self.declarations.len();
        let mut out: Vec<PropertyDeclaration> = Vec::new();
        let mut j: usize = 0;
        while j < n
            invariant
                j <= n,
                n == self@.len(),
                out@ == self@.subrange(0, j as int),
            decreases n - j,
        {
            out.push(self.declarations[j]);
            proof {
                assert(out@ =~= self@.subrange(0, j + 1 as int));
            }
            j += 1;
        }
        proof {
            assert(out@ =~= self@);
        }
        PropertyDeclarationBlock { declarations: out }
    }

    /// Remove the declarations marked by `idx` — exactly those whose kind
    /// `newer` declares too — highest index first. What is left is the block
    /// stripped of every kind that `newer` supersedes.
    pub fn remove_obsolete(&mut self, idx: &Vec<usize>, newer: &PropertyDeclarationBlock)
        requires
            dedup::marks_exactly(old(self)@, idx@, decl_marked_fn(newer@)),
        ensures
            final(self)@ == strip_decls(old(self)@, newer@),
    {
        dedup::remove_indices(&mut self.declarations, idx, Ghost(decl_marked_fn(newer@)));
    }

    /// The declarations of this block whose property kind `newer` also
    /// declares, as marks for removal: their indices, in increasing order.
    pub fn obsolete_indices(&self, newer: &PropertyDeclarationBlock) -> (idx: Vec<usize>)
        ensures
            dedup::marks_exactly(self@, idx@, decl_marked_fn(newer@)),
    {
        let n = self.declarations.len();
        let mut idx: Vec<usize> = Vec::new();
        let mut j: usize = 0;
        while j < n
            invariant
                j <= n,
                n == self@.len(),
                forall|t1: int, t2: int| 0 <= t1 < t2 < idx@.len() ==> idx@[t1] < idx@[t2],
                forall|t: int| 0 <= t < idx@.len() ==> #[trigger] idx@[t] < j,
                forall|i: int|
                    0 <= i < j
                        ==> (block_has_kind(newer@, decl_kind(#[trigger] self@[i]))
                        <==> idx@.contains(i as usize)),
            decreases n - j,
        {
            let ghost old_idx = idx@;
            let k = self.declarations[j].kind();
            let marked = newer.contains_kind(k);
            if marked {
                idx.push(j);
            }
            proof {
                assert forall|i: int|
                    0 <= i < j + 1 implies (block_has_kind(newer@, decl_kind(#[trigger] self@[i]))
                    <==> idx@.contains(i as usize)) by {
                    if i < j {
                        if idx@.contains(i as usize) {
                            let w = choose|w: int|
                                0 <= w < idx@.len() && idx@[w] == i as usize;
                            if w < old_idx.len() {
                                assert(old_idx[w] == i as usize);
                                assert(old_idx.contains(i as usize));
                            } else {
                                assert(idx@[w] == j);
                                assert(false);
                            }
                        }
                        if old_idx.contains(i as usize) {
                            let w = choose|w: int|
                                0 <= w < old_idx.len() && old_idx[w] == i as usize;
                            assert(idx@[w] == i as usize);
                            assert(idx@.contains(i as usize));
                        }
                    } else {
                        if marked {
                            assert(idx@[idx@.len() - 1] == j);
                            assert(idx@.contains(j));
                        } else {
                            if idx@.contains(j) {
                                let w = choose|w: int|
                                    0 <= w < idx@.len() && idx@[w] == j;
                                assert(idx@[w] < j);
                                assert(false);
                            }
                        }
                    }
                }
            }
            j += 1;
        }
        idx
    }
}

} // verus!
