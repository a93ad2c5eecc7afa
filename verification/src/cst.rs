//! The concrete syntax tree produced by the SMILES parser, together with
//! ghost mirror types (`ChainView` and friends) that spec-level reasoning
//! uses in place of the executable tree.

use vstd::prelude::*;

use crate::element::Element;

verus! {

/// An element symbol as it appears inside a bracket atom: an ordinary
/// (aliphatic) symbol, a lowercase aromatic symbol, or the wildcard `*`.
#[derive(Debug, PartialEq, Eq, Ord, PartialOrd, Copy, Clone, Hash, Structural)]
pub enum Symbol {
    ElementSymbol(Element),
    AromaticSymbol(Element),
    Unknown,
}

/// The full form of a chirality tag on a bracket atom.
#[derive(Debug, PartialEq, Eq, Ord, PartialOrd, Copy, Clone, Hash, Structural)]
pub enum Chirality {
    /// `@`
    Anticlockwise,
    /// `@@`
    Clockwise,
    /// `@TH1`, `@TH2`
    Tetrahedral(u8),
    /// `@AL1`, `@AL2`
    Allenal(u8),
    /// `@SP1`, `@SP2`, `@SP3`
    SquarePlanar(u8),
    /// `@TB1` ... `@TB20`
    TrigonalBipyramidal(u8),
    /// `@OH1` ... `@OH30`
    Octahedral(u8),
}

/// An atom written between `[` and `]`, with its optional isotope,
/// optional chirality, hydrogen count and charge.
#[derive(Debug, PartialEq, Eq, Ord, PartialOrd, Copy, Clone, Hash, Structural)]
pub struct BracketAtom {
    pub isotope: Option<u16>,
    pub symbol: Symbol,
    pub chiral: Option<Chirality>,
    pub hcount: u8,
    pub charge: i8,
}

/// An organic-subset atom written without brackets: one of B, C, N, O, S,
/// P, F, Cl, Br, I.
#[derive(Debug, PartialEq, Eq, Ord, PartialOrd, Copy, Clone, Hash, Structural)]
pub struct AliphaticOrganicAtom {
    pub element: Element,
}

/// Any atom of the chain: bracketed, organic-subset, or the wildcard `*`.
#[derive(Debug, PartialEq, Eq, Ord, PartialOrd, Copy, Clone, Hash, Structural)]
pub enum Atom {
    Bracket(BracketAtom),
    AliphaticOrganic(AliphaticOrganicAtom),
    Unknown,
}

/// A bond between two atoms, written `-`, `=`, `#`, `$`, `:`, `/` or `\`.
#[derive(Debug, PartialEq, Eq, Ord, PartialOrd, Copy, Clone, Hash, Structural)]
pub enum Bond {
    Single,
    Double,
    Triple,
    Quadruple,
    Aromatic,
    Up,
    Down,
}

/// The `.` separator: the atoms on either side are not bonded.
#[derive(Debug, PartialEq, Eq, Ord, PartialOrd, Copy, Clone, Hash, Structural)]
pub struct Dot;

/// Either an explicit bond or the `.` separator.
#[derive(Debug, PartialEq, Eq, Ord, PartialOrd, Copy, Clone, Hash, Structural)]
pub enum BondOrDot {
    Bond(Bond),
    Dot(Dot),
}

/// A ring-closure marker: an optional bond and a ring number 0..=99.
#[derive(Debug, PartialEq, Eq, Ord, PartialOrd, Copy, Clone, Hash, Structural)]
pub struct RingBond {
    pub bond: Option<Bond>,
    pub ring_number: u8,
}

/// A parenthesized branch: an optional leading bond-or-dot and a chain.
#[derive(Debug, Hash)]
pub struct Branch {
    pub bond_or_dot: Option<BondOrDot>,
    pub chain: Chain,
}

/// An atom together with its ring-closure markers and branches.
#[derive(Debug, Hash)]
pub struct BranchedAtom {
    pub atom: Atom,
    pub ring_bonds: Vec<RingBond>,
    pub branches: Vec<Branch>,
}

/// A right-recursive chain: a branched atom, an optional bond-or-dot to the
/// next atom, and an optional tail chain.
#[derive(Debug, Hash)]
pub struct Chain {
    pub chain: Option<Box<Chain>>,
    pub bond_or_dot: Option<BondOrDot>,
    pub branched_atom: BranchedAtom,
}

/// Ghost mirror of `Branch`.
pub struct BranchView {
    pub bond_or_dot: Option<BondOrDot>,
    pub chain: ChainView,
}

/// Ghost mirror of `BranchedAtom`, with sequences in place of vectors.
pub struct BranchedAtomView {
    pub atom: Atom,
    pub ring_bonds: Seq<RingBond>,
    pub branches: Seq<BranchView>,
}

/// Ghost mirror of `Chain`. The right-recursive spine is flattened into a
/// sequence of links; each link is a branched atom together with the
/// bond-or-dot that follows it (if any). A well-formed chain has at least
/// one link.
pub struct ChainView {
    pub links: Seq<(BranchedAtomView, Option<BondOrDot>)>,
}

impl View for Chain {
    type V = ChainView;

    /// The ghost mirror of this chain.
    open spec fn view(&self) -> ChainView
        decreases self,
    {
        ChainView {
            links: seq![(self.branched_atom@, self.bond_or_dot)] + match self.chain {
                Some(t) => (*t)@.links,
                None => Seq::empty(),
            },
        }
    }
}

impl View for BranchedAtom {
    type V = BranchedAtomView;

    /// The ghost mirror of this branched atom.
    open spec fn view(&self) -> BranchedAtomView
        decreases self,
    {
        BranchedAtomView {
            atom: self.atom,
            ring_bonds: self.ring_bonds@,
            branches: branches_view(self.branches@),
        }
    }
}

/// Ghost mirrors of a sequence of branches, element by element.
pub open spec fn branches_view(s: Seq<Branch>) -> Seq<BranchView>
    decreases s,
{
    if s.len() == 0 {
        Seq::empty()
    } else {
        seq![s[0]@] + branches_view(s.drop_first())
    }
}

impl View for Branch {
    type V = BranchView;

    /// The ghost mirror of this branch.
    open spec fn view(&self) -> BranchView
        decreases self,
    {
        BranchView { bond_or_dot: self.bond_or_dot, chain: self.chain@ }
    }
}

/// A chain's ghost mirror always has at least one link.
pub proof fn lemma_chain_view_nonempty(c: Chain)
    ensures
        c@.links.len() >= 1,
{
    match c.chain {
        Some(t) => {
            assert(c@.links == seq![(c.branched_atom@, c.bond_or_dot)] + (*t)@.links);
        },
        None => {
            assert(c@.links == seq![(c.branched_atom@, c.bond_or_dot)] + Seq::<(
                BranchedAtomView,
                Option<BondOrDot>,
            )>::empty());
        },
    }
}

/// The ghost mirrors of a branch sequence, element by element.
pub proof fn lemma_branches_view_elems(s: Seq<Branch>)
    ensures
        branches_view(s).len() == s.len(),
        forall|i: int| 0 <= i < s.len() ==> branches_view(s)[i] == s[i]@,
    decreases s,
{
    if s.len() > 0 {
        lemma_branches_view_elems(s.drop_first());
        assert(branches_view(s) == seq![s[0]@] + branches_view(s.drop_first()));
        assert forall|i: int| 0 <= i < s.len() implies branches_view(s)[i] == s[i]@ by {
            if i > 0 {
                assert(branches_view(s)[i] == branches_view(s.drop_first())[i - 1]);
                assert(s.drop_first()[i - 1] == s[i]);
            }
        }
    }
}

/// Decides equality of ring-bond vectors.
fn eq_ring_bonds(a: &Vec<RingBond>, b: &Vec<RingBond>) -> (r: bool)
    ensures
        r == (a@ == b@),
{
    if a.len() != b.len() {
        return false;
    }
    let mut i: usize = 0;
    while i < a.len()
        invariant
            0 <= i <= a.len(),
            a@.len() == b@.len(),
            forall|j: int| 0 <= j < i ==> a@[j] == b@[j],
        decreases a@.len() - i,
    {
        if a[i] != b[i] {
            return false;
        }
        i = i + 1;
    }
    proof {
        assert(a@ =~= b@);
    }
    true
}

/// Decides structural equality of chains.
fn eq_chain(a: &Chain, b: &Chain) -> (r: bool)
    ensures
        r == (a@ == b@),
    decreases a,
{
    let head_eq = eq_branched_atom(&a.branched_atom, &b.branched_atom);
    let bod_eq = a.bond_or_dot == b.bond_or_dot;
    let tail_eq = match (&a.chain, &b.chain) {
        (None, None) => true,
        (Some(x), Some(y)) => eq_chain(x, y),
        _ => false,
    };
    let r = head_eq && bod_eq && tail_eq;
    proof {
        if r {
            assert(a@.links =~= b@.links);
        } else {
            if a@ == b@ {
                assert(a@.links[0] == b@.links[0]);
                match (&a.chain, &b.chain) {
                    (Some(x), Some(y)) => {
                        assert((**x)@.links =~= a@.links.drop_first());
                        assert((**y)@.links =~= b@.links.drop_first());
                    },
                    (None, None) => {},
                    (Some(x), None) => {
                        lemma_chain_view_nonempty(**x);
                        assert(a@.links.len() > 1);
                        assert(b@.links.len() == 1);
                    },
                    (None, Some(y)) => {
                        lemma_chain_view_nonempty(**y);
                        assert(b@.links.len() > 1);
                        assert(a@.links.len() == 1);
                    },
                }
                assert(false);
            }
        }
    }
    r
}

/// Decides structural equality of branched atoms.
fn eq_branched_atom(a: &BranchedAtom, b: &BranchedAtom) -> (r: bool)
    ensures
        r == (a@ == b@),
    decreases a,
{
    let atom_eq = a.atom == b.atom;
    let rb_eq = eq_ring_bonds(&a.ring_bonds, &b.ring_bonds);
    let br_eq = eq_branches(&a.branches, &b.branches);
    atom_eq && rb_eq && br_eq
}

/// Decides structural equality of branch vectors.
fn eq_branches(a: &Vec<Branch>, b: &Vec<Branch>) -> (r: bool)
    ensures
        r == (branches_view(a@) == branches_view(b@)),
    decreases a,
{
    proof {
        lemma_branches_view_elems(a@);
        lemma_branches_view_elems(b@);
    }
    if a.len() != b.len() {
        return false;
    }
    let mut i: usize = 0;
    while i < a.len()
        invariant
            0 <= i <= a.len(),
            a@.len() == b@.len(),
            branches_view(a@).len() == a@.len(),
            branches_view(b@).len() == b@.len(),
            forall|j: int| 0 <= j < a@.len() ==> branches_view(a@)[j] == a@[j]@,
            forall|j: int| 0 <= j < b@.len() ==> branches_view(b@)[j] == b@[j]@,
            forall|j: int| 0 <= j < i ==> a@[j]@ == b@[j]@,
        decreases a@.len() - i,
    {
        proof {
            assert(decreases_to!(a => a@[i as int]));
        }
        let e = eq_branch(&a[i], &b[i]);
        if !e {
            proof {
                assert(branches_view(a@)[i as int] == a@[i as int]@);
                assert(branches_view(b@)[i as int] == b@[i as int]@);
                assert(branches_view(a@) != branches_view(b@));
            }
            return false;
        }
        i = i + 1;
    }
    proof {
        assert(branches_view(a@) =~= branches_view(b@));
    }
    true
}

/// Decides structural equality of branches.
fn eq_branch(a: &Branch, b: &Branch) -> (r: bool)
    ensures
        r == (a@ == b@),
    decreases a,
{
    let bod_eq = a.bond_or_dot == b.bond_or_dot;
    let chain_eq = eq_chain(&a.chain, &b.chain);
    bod_eq && chain_eq
}

impl PartialEq for Chain {
    /// Chains compare equal exactly when their ghost mirrors are equal.
    fn eq(&self, other: &Chain) -> (r: bool) {
        eq_chain(self, other)
    }
}

impl Eq for Chain {

}

impl vstd::std_specs::cmp::PartialEqSpecImpl for Chain {
    open spec fn obeys_eq_spec() -> bool {
        true
    }

    open spec fn eq_spec(&self, other: &Chain) -> bool {
        self@ == other@
    }
}

impl PartialEq for BranchedAtom {
    /// Branched atoms compare equal exactly when their ghost mirrors are
    /// equal.
    fn eq(&self, other: &BranchedAtom) -> (r: bool) {
        eq_branched_atom(self, other)
    }
}

impl Eq for BranchedAtom {

}

impl vstd::std_specs::cmp::PartialEqSpecImpl for BranchedAtom {
    open spec fn obeys_eq_spec() -> bool {
        true
    }

    open spec fn eq_spec(&self, other: &BranchedAtom) -> bool {
        self@ == other@
    }
}

impl PartialEq for Branch {
    /// Branches compare equal exactly when their ghost mirrors are equal.
    fn eq(&self, other: &Branch) -> (r: bool) {
        eq_branch(self, other)
    }
}

impl Eq for Branch {

}

impl vstd::std_specs::cmp::PartialEqSpecImpl for Branch {
    open spec fn obeys_eq_spec() -> bool {
        true
    }

    open spec fn eq_spec(&self, other: &Branch) -> bool {
        self@ == other@
    }
}

} // verus!
