//! The spec-level model of lowering a chain into a molecular graph:
//! node insertion, linear bonds, ring closures, and implicit-hydrogen
//! filling, described over sequences and maps.

use vstd::prelude::*;

use crate::cst::AliphaticOrganicAtom;
use crate::cst::Bond;
use crate::cst::BondOrDot;
use crate::cst::BracketAtom;
use crate::cst::BranchView;
use crate::cst::BranchedAtomView;
use crate::cst::ChainView;
use crate::cst::Dot;
use crate::cst::RingBond;
use crate::element::Element;

verus! {

/// A node label of the molecular graph: an organic-subset atom, a plain
/// element (used for implicit hydrogens), a bracket atom, or the wildcard.
#[derive(Debug, PartialEq, Eq, Copy, Clone, Hash, Structural)]
pub enum Atom {
    AliphaticOrganic(AliphaticOrganicAtom),
    Element(Element),
    Bracket(BracketAtom),
    Unknown,
}

/// Why lowering a chain to a graph failed.
#[derive(Debug, PartialEq, Eq, Copy, Clone, Hash, Structural)]
pub enum LoweringError {
    /// A ring number was opened and closed with two different explicit bonds.
    RingBondMismatch(u8),
    /// A ring number was still open at the end of the chain.
    UnclosedRingBond(u8),
    /// An organic-subset atom whose element has no valence model here.
    UnsupportedAtom,
    /// An organic-subset atom whose bonds already exceed every allowed
    /// valence of its element.
    UnsupportedValence,
}

/// The node label for a parsed atom.
pub open spec fn atom_label(a: crate::cst::Atom) -> Atom {
    match a {
        crate::cst::Atom::Bracket(ba) => Atom::Bracket(ba),
        crate::cst::Atom::AliphaticOrganic(at) => Atom::AliphaticOrganic(at),
        crate::cst::Atom::Unknown => Atom::Unknown,
    }
}

/// The state threaded through lowering: node labels in insertion order,
/// edges in insertion order, and the open ring-number slots.
pub struct LowState {
    pub nodes: Seq<Atom>,
    pub edges: Seq<(int, int, Bond)>,
    pub rings: Map<int, (int, Option<Bond>)>,
}

/// The bond that joins two adjacent atoms of a chain: the explicit bond if
/// one is written, `Single` if nothing is written, and no bond at all
/// across a dot.
pub open spec fn link_bond(link: Option<BondOrDot>) -> Option<Bond> {
    match link {
        None => Some(Bond::Single),
        Some(BondOrDot::Bond(b)) => Some(b),
        Some(BondOrDot::Dot(d)) => None,
    }
}

/// Processes one ring-closure marker on the atom `cur`: the first sight of
/// a number opens its slot, the second closes it and installs the edge.
pub open spec fn sp_ring_step(st: LowState, cur: int, rb: RingBond) -> Result<
    LowState,
    LoweringError,
> {
    let n = rb.ring_number as int;
    if st.rings.dom().contains(n) {
        let (other, pending) = st.rings[n];
        match (pending, rb.bond) {
            (Some(b1), Some(b2)) => if b1 == b2 {
                Ok(
                    LowState {
                        edges: st.edges.push((other, cur, b1)),
                        rings: st.rings.remove(n),
                        ..st
                    },
                )
            } else {
                Err(LoweringError::RingBondMismatch(rb.ring_number))
            },
            (Some(b1), None) => Ok(
                LowState { edges: st.edges.push((other, cur, b1)), rings: st.rings.remove(n), ..st },
            ),
            (None, Some(b2)) => Ok(
                LowState { edges: st.edges.push((other, cur, b2)), rings: st.rings.remove(n), ..st },
            ),
            (None, None) => Ok(
                LowState {
                    edges: st.edges.push((other, cur, Bond::Single)),
                    rings: st.rings.remove(n),
                    ..st
                },
            ),
        }
    } else {
        Ok(LowState { rings: st.rings.insert(n, (cur, rb.bond)), ..st })
    }
}

/// Processes all ring-closure markers of one atom, in source order.
pub open spec fn sp_ring_steps(st: LowState, cur: int, rbs: Seq<RingBond>) -> Result<
    LowState,
    LoweringError,
>
    decreases rbs.len(),
{
    if rbs.len() == 0 {
        Ok(st)
    } else {
        match sp_ring_step(st, cur, rbs[0]) {
            Ok(st2) => sp_ring_steps(st2, cur, rbs.drop_first()),
            Err(e) => Err(e),
        }
    }
}

/// Lowers the links of a chain: for each link, insert the node, add the
/// linear bond to the previous atom (unless separated by a dot), process
/// ring closures, lower the branches, then continue along the spine.
pub open spec fn sp_lower_links(
    st: LowState,
    links: Seq<(BranchedAtomView, Option<BondOrDot>)>,
    prev: Option<int>,
    link: Option<BondOrDot>,
) -> Result<LowState, LoweringError>
    decreases links, 1int,
{
    if links.len() == 0 {
        Ok(st)
    } else {
        let bav = links[0].0;
        let bod = links[0].1;
        let cur = st.nodes.len() as int;
        let st1 = LowState { nodes: st.nodes.push(atom_label(bav.atom)), ..st };
        let st2 = match prev {
            Some(p) => match link_bond(link) {
                Some(b) => LowState { edges: st1.edges.push((p, cur, b)), ..st1 },
                None => st1,
            },
            None => st1,
        };
        match sp_ring_steps(st2, cur, bav.ring_bonds) {
            Ok(st3) => match sp_lower_branches(st3, bav.branches, cur) {
                Ok(st4) => sp_lower_links(st4, links.drop_first(), Some(cur), bod),
                Err(e) => Err(e),
            },
            Err(e) => Err(e),
        }
    }
}

/// Lowers the branches of one atom, in source order; each branch chain
/// hangs off the atom `cur` through the branch's leading bond-or-dot.
pub open spec fn sp_lower_branches(st: LowState, brs: Seq<BranchView>, cur: int) -> Result<
    LowState,
    LoweringError,
>
    decreases brs, 2int,
{
    if brs.len() == 0 {
        Ok(st)
    } else {
        match sp_lower_links(st, brs[0].chain.links, Some(cur), brs[0].bond_or_dot) {
            Ok(st2) => sp_lower_branches(st2, brs.drop_first(), cur),
            Err(e) => Err(e),
        }
    }
}

/// The order contributed by one bond: double counts 2, triple 3, quadruple
/// 4; aromatic, up and down count 1.
pub open spec fn bond_order(b: Bond) -> int {
    match b {
        Bond::Single => 1,
        Bond::Double => 2,
        Bond::Triple => 3,
        Bond::Quadruple => 4,
        Bond::Aromatic => 1,
        Bond::Up => 1,
        Bond::Down => 1,
    }
}

/// The sum of bond orders over all edges incident to node `i`; a self-loop
/// counts twice.
pub open spec fn bond_sum(edges: Seq<(int, int, Bond)>, i: int) -> int
    decreases edges.len(),
{
    if edges.len() == 0 {
        0
    } else {
        let e = edges.last();
        bond_sum(edges.drop_last(), i) + (if e.0 == i {
            bond_order(e.2)
        } else {
            0
        }) + (if e.1 == i {
            bond_order(e.2)
        } else {
            0
        })
    }
}

/// How many implicit hydrogens the node label `a` receives when its bonds
/// already sum to `sum`: organic-subset atoms are completed to their
/// element's smallest valence that is not below `sum`; bracket atoms
/// receive exactly their written hydrogen count; anything else receives
/// none.
pub open spec fn hydrogen_need(a: Atom, sum: int) -> Result<int, LoweringError> {
    match a {
        Atom::AliphaticOrganic(at) => {
            let n = at.element.num;
            if n == 5 || n == 7 {
                if sum <= 3 {
                    Ok(3 - sum)
                } else {
                    Err(LoweringError::UnsupportedValence)
                }
            } else if n == 6 {
                if sum <= 4 {
                    Ok(4 - sum)
                } else {
                    Err(LoweringError::UnsupportedValence)
                }
            } else if n == 8 {
                if sum <= 2 {
                    Ok(2 - sum)
                } else {
                    Err(LoweringError::UnsupportedValence)
                }
            } else if n == 15 {
                if sum <= 3 {
                    Ok(3 - sum)
                } else if sum <= 5 {
                    Ok(5 - sum)
                } else {
                    Err(LoweringError::UnsupportedValence)
                }
            } else if n == 16 {
                if sum <= 2 {
                    Ok(2 - sum)
                } else if sum <= 4 {
                    Ok(4 - sum)
                } else if sum <= 6 {
                    Ok(6 - sum)
                } else {
                    Err(LoweringError::UnsupportedValence)
                }
            } else if n == 9 || n == 17 || n == 35 || n == 53 {
                if sum <= 1 {
                    Ok(1 - sum)
                } else {
                    Err(LoweringError::UnsupportedValence)
                }
            } else {
                Err(LoweringError::UnsupportedAtom)
            }
        },
        Atom::Bracket(ba) => Ok(ba.hcount as int),
        Atom::Element(e) => Ok(0),
        Atom::Unknown => Ok(0),
    }
}

/// Appends `h` hydrogen nodes, each joined to node `i` by a single bond.
pub open spec fn sp_add_h(acc: (Seq<Atom>, Seq<(int, int, Bond)>), i: int, h: int) -> (
    Seq<Atom>,
    Seq<(int, int, Bond)>,
)
    decreases h,
{
    if h <= 0 {
        acc
    } else {
        sp_add_h(
            (
                acc.0.push(Atom::Element(Element { num: 1 })),
                acc.1.push((i, acc.0.len() as int, Bond::Single)),
            ),
            i,
            h - 1,
        )
    }
}

/// Fills implicit hydrogens for the pre-fill nodes `i..n0`, computing each
/// node's bond sum over the pre-fill edges `edges0`.
pub open spec fn sp_fill(
    acc: (Seq<Atom>, Seq<(int, int, Bond)>),
    edges0: Seq<(int, int, Bond)>,
    i: int,
    n0: int,
) -> Result<(Seq<Atom>, Seq<(int, int, Bond)>), LoweringError>
    decreases n0 - i,
{
    if i < 0 || i >= n0 || acc.0.len() < n0 {
        Ok(acc)
    } else {
        match hydrogen_need(acc.0[i], bond_sum(edges0, i)) {
            Ok(h) => sp_fill(sp_add_h(acc, i, h), edges0, i + 1, n0),
            Err(e) => Err(e),
        }
    }
}

/// The smallest still-open ring number at or above `k`, if any.
pub open spec fn sp_first_open(rings: Map<int, (int, Option<Bond>)>, k: int) -> Option<int>
    decreases 256 - k,
{
    if k < 0 || k >= 256 {
        None
    } else if rings.dom().contains(k) {
        Some(k)
    } else {
        sp_first_open(rings, k + 1)
    }
}

/// The whole lowering of a chain: node insertion with bonds and ring
/// closures, a check that every ring number was closed, then hydrogen
/// filling.
pub open spec fn sp_molecule_graph(c: ChainView) -> Result<
    (Seq<Atom>, Seq<(int, int, Bond)>),
    LoweringError,
> {
    let init = LowState { nodes: Seq::empty(), edges: Seq::empty(), rings: Map::empty() };
    match sp_lower_links(init, c.links, None, None) {
        Ok(st) => match sp_first_open(st.rings, 0) {
            Some(n) => Err(LoweringError::UnclosedRingBond(n as u8)),
            None => sp_fill((st.nodes, st.edges), st.edges, 0, st.nodes.len() as int),
        },
        Err(e) => Err(e),
    }
}

/// The number of atoms in a chain's links.
pub open spec fn count_atoms_links(links: Seq<(BranchedAtomView, Option<BondOrDot>)>) -> int
    decreases links, 1int,
{
    if links.len() == 0 {
        0int
    } else {
        count_atoms_ba(links[0].0) + count_atoms_links(links.drop_first())
    }
}

/// The number of atoms in a branched atom: itself plus its branches.
pub open spec fn count_atoms_ba(bav: BranchedAtomView) -> int
    decreases bav, 3int,
{
    1 + count_atoms_branches(bav.branches)
}

/// The number of atoms under a sequence of branches.
pub open spec fn count_atoms_branches(brs: Seq<BranchView>) -> int
    decreases brs, 2int,
{
    if brs.len() == 0 {
        0int
    } else {
        count_atoms_links(brs[0].chain.links) + count_atoms_branches(brs.drop_first())
    }
}

/// The total count of ring-closure markers in a chain's links.
pub open spec fn count_rings_links(links: Seq<(BranchedAtomView, Option<BondOrDot>)>) -> int
    decreases links, 1int,
{
    if links.len() == 0 {
        0int
    } else {
        links[0].0.ring_bonds.len() + count_rings_branches(links[0].0.branches)
            + count_rings_links(links.drop_first())
    }
}

/// The total count of ring-closure markers under a sequence of branches.
pub open spec fn count_rings_branches(brs: Seq<BranchView>) -> int
    decreases brs, 2int,
{
    if brs.len() == 0 {
        0int
    } else {
        count_rings_links(brs[0].chain.links) + count_rings_branches(brs.drop_first())
    }
}

/// Atom and ring counts over links are never negative.
pub proof fn lemma_counts_nonneg_links(links: Seq<(BranchedAtomView, Option<BondOrDot>)>)
    ensures
        count_atoms_links(links) >= 0,
        count_rings_links(links) >= 0,
    decreases links, 1int,
{
    if links.len() > 0 {
        lemma_counts_nonneg_branches(links[0].0.branches);
        lemma_counts_nonneg_links(links.drop_first());
        assert(count_atoms_links(links) == count_atoms_ba(links[0].0) + count_atoms_links(
            links.drop_first(),
        ));
        assert(count_atoms_ba(links[0].0) == 1 + count_atoms_branches(links[0].0.branches));
        assert(count_rings_links(links) == links[0].0.ring_bonds.len() + count_rings_branches(
            links[0].0.branches,
        ) + count_rings_links(links.drop_first()));
    }
}

/// Atom and ring counts over branches are never negative.
pub proof fn lemma_counts_nonneg_branches(brs: Seq<BranchView>)
    ensures
        count_atoms_branches(brs) >= 0,
        count_rings_branches(brs) >= 0,
    decreases brs, 2int,
{
    if brs.len() > 0 {
        lemma_counts_nonneg_links(brs[0].chain.links);
        lemma_counts_nonneg_branches(brs.drop_first());
        assert(count_atoms_branches(brs) == count_atoms_links(brs[0].chain.links)
            + count_atoms_branches(brs.drop_first()));
        assert(count_rings_branches(brs) == count_rings_links(brs[0].chain.links)
            + count_rings_branches(brs.drop_first()));
    }
}

/// Ring-closure steps keep the nodes and add at most one edge per marker.
pub proof fn lemma_ring_steps_counts(st: LowState, cur: int, rbs: Seq<RingBond>)
    ensures
        sp_ring_steps(st, cur, rbs) matches Ok(st2) ==> st2.nodes == st.nodes && st.edges.len()
            <= st2.edges.len() <= st.edges.len() + rbs.len(),
    decreases rbs.len(),
{
    if rbs.len() > 0 {
        match sp_ring_step(st, cur, rbs[0]) {
            Ok(st2) => {
                lemma_ring_steps_counts(st2, cur, rbs.drop_first());
            },
            Err(e) => {},
        }
    }
}

/// Lowering a chain's links adds exactly its atom count in nodes, and at
/// most one edge per atom plus one per ring marker.
pub proof fn lemma_lower_links_counts(
    st: LowState,
    links: Seq<(BranchedAtomView, Option<BondOrDot>)>,
    prev: Option<int>,
    link: Option<BondOrDot>,
)
    ensures
        sp_lower_links(st, links, prev, link) matches Ok(st2) ==> st2.nodes.len() == st.nodes.len()
            + count_atoms_links(links) && st.edges.len() <= st2.edges.len() <= st.edges.len()
            + count_atoms_links(links) + count_rings_links(links),
    decreases links, 1int,
{
    if links.len() > 0 {
        let bav = links[0].0;
        let bod = links[0].1;
        let cur = st.nodes.len() as int;
        let st1 = LowState { nodes: st.nodes.push(atom_label(bav.atom)), ..st };
        let st2 = match prev {
            Some(p) => match link_bond(link) {
                Some(b) => LowState { edges: st1.edges.push((p, cur, b)), ..st1 },
                None => st1,
            },
            None => st1,
        };
        lemma_counts_nonneg_branches(bav.branches);
        lemma_counts_nonneg_links(links.drop_first());
        match sp_ring_steps(st2, cur, bav.ring_bonds) {
            Ok(st3) => {
                lemma_ring_steps_counts(st2, cur, bav.ring_bonds);
                match sp_lower_branches(st3, bav.branches, cur) {
                    Ok(st4) => {
                        lemma_lower_branches_counts(st3, bav.branches, cur);
                        lemma_lower_links_counts(st4, links.drop_first(), Some(cur), bod);
                        assert(count_atoms_links(links) == count_atoms_ba(links[0].0)
                            + count_atoms_links(links.drop_first()));
                        assert(count_atoms_ba(links[0].0) == 1 + count_atoms_branches(bav.branches));
                        assert(count_rings_links(links) == bav.ring_bonds.len()
                            + count_rings_branches(bav.branches) + count_rings_links(
                            links.drop_first(),
                        ));
                    },
                    Err(e) => {},
                }
            },
            Err(e) => {},
        }
    }
}

/// Lowering branches adds exactly their atom count in nodes, and at most
/// one edge per atom plus one per ring marker.
pub proof fn lemma_lower_branches_counts(st: LowState, brs: Seq<BranchView>, cur: int)
    ensures
        sp_lower_branches(st, brs, cur) matches Ok(st2) ==> st2.nodes.len() == st.nodes.len()
            + count_atoms_branches(brs) && st.edges.len() <= st2.edges.len() <= st.edges.len()
            + count_atoms_branches(brs) + count_rings_branches(brs),
    decreases brs, 2int,
{
    if brs.len() > 0 {
        lemma_counts_nonneg_links(brs[0].chain.links);
        lemma_counts_nonneg_branches(brs.drop_first());
        match sp_lower_links(st, brs[0].chain.links, Some(cur), brs[0].bond_or_dot) {
            Ok(st2) => {
                lemma_lower_links_counts(st, brs[0].chain.links, Some(cur), brs[0].bond_or_dot);
                lemma_lower_branches_counts(st2, brs.drop_first(), cur);
                assert(count_atoms_branches(brs) == count_atoms_links(brs[0].chain.links)
                    + count_atoms_branches(brs.drop_first()));
                assert(count_rings_branches(brs) == count_rings_links(brs[0].chain.links)
                    + count_rings_branches(brs.drop_first()));
            },
            Err(e) => {},
        }
    }
}

/// Appending one edge changes a node's bond sum by that edge's
/// contribution at each endpoint.
pub proof fn lemma_bond_sum_push(edges: Seq<(int, int, Bond)>, e: (int, int, Bond), i: int)
    ensures
        bond_sum(edges.push(e), i) == bond_sum(edges, i) + (if e.0 == i {
            bond_order(e.2)
        } else {
            0int
        }) + (if e.1 == i {
            bond_order(e.2)
        } else {
            0int
        }),
{
    assert(edges.push(e).drop_last() =~= edges);
    assert(edges.push(e).last() == e);
}

/// A bond sum lies between zero and four per edge.
pub proof fn lemma_bond_sum_bound(edges: Seq<(int, int, Bond)>, i: int)
    ensures
        0 <= bond_sum(edges, i) <= 8 * edges.len(),
    decreases edges.len(),
{
    if edges.len() > 0 {
        lemma_bond_sum_bound(edges.drop_last(), i);
    }
}

/// Skipping closed ring numbers does not change the first open one.
pub proof fn lemma_first_open_skip(rings: Map<int, (int, Option<Bond>)>, i: int)
    requires
        0 <= i <= 256,
        forall|j: int| 0 <= j < i ==> !rings.dom().contains(j),
    ensures
        sp_first_open(rings, 0) == sp_first_open(rings, i),
    decreases i,
{
    if i > 0 {
        lemma_first_open_skip(rings, i - 1);
        assert(sp_first_open(rings, i - 1) == sp_first_open(rings, i));
    }
}

/// A node that no edge touches has bond sum zero.
pub proof fn lemma_bond_sum_fresh(edges: Seq<(int, int, Bond)>, i: int)
    requires
        forall|k: int| 0 <= k < edges.len() ==> edges[k].0 != i && edges[k].1 != i,
    ensures
        bond_sum(edges, i) == 0,
    decreases edges.len(),
{
    if edges.len() > 0 {
        assert(edges.last() == edges[edges.len() - 1]);
        lemma_bond_sum_fresh(edges.drop_last(), i);
    }
}

/// Lowering only appends nodes: the nodes already present stay, and when
/// there is a link its head atom's label lands right after them.
pub proof fn lemma_lower_links_prefix(
    st: LowState,
    links: Seq<(BranchedAtomView, Option<BondOrDot>)>,
    prev: Option<int>,
    link: Option<BondOrDot>,
)
    ensures
        sp_lower_links(st, links, prev, link) matches Ok(st2) ==> st2.nodes.take(
            st.nodes.len() as int,
        ) == st.nodes && (links.len() > 0 ==> st2.nodes.len() > st.nodes.len()
            && st2.nodes[st.nodes.len() as int] == atom_label(links[0].0.atom)),
    decreases links, 1int,
{
    if links.len() > 0 {
        let bav = links[0].0;
        let bod = links[0].1;
        let cur = st.nodes.len() as int;
        let st1 = LowState { nodes: st.nodes.push(atom_label(bav.atom)), ..st };
        let st2 = match prev {
            Some(p) => match link_bond(link) {
                Some(b) => LowState { edges: st1.edges.push((p, cur, b)), ..st1 },
                None => st1,
            },
            None => st1,
        };
        match sp_ring_steps(st2, cur, bav.ring_bonds) {
            Ok(st3) => {
                lemma_ring_steps_counts(st2, cur, bav.ring_bonds);
                match sp_lower_branches(st3, bav.branches, cur) {
                    Ok(st4) => {
                        lemma_lower_branches_prefix(st3, bav.branches, cur);
                        lemma_lower_branches_counts(st3, bav.branches, cur);
                        lemma_counts_nonneg_branches(bav.branches);
                        lemma_lower_links_prefix(st4, links.drop_first(), Some(cur), bod);
                        lemma_lower_links_counts(st4, links.drop_first(), Some(cur), bod);
                        lemma_counts_nonneg_links(links.drop_first());
                        match sp_lower_links(st4, links.drop_first(), Some(cur), bod) {
                            Ok(st5) => {
                                assert(st1.nodes.len() <= st4.nodes.len() <= st5.nodes.len());
                                assert(st1.nodes.take(st.nodes.len() as int) =~= st.nodes);
                                assert(st4.nodes.take(st1.nodes.len() as int) == st1.nodes);
                                assert(st5.nodes.take(st4.nodes.len() as int) == st4.nodes);
                                assert(st5.nodes.take(st1.nodes.len() as int) =~= st5.nodes.take(
                                    st4.nodes.len() as int,
                                ).take(st1.nodes.len() as int));
                                assert(st5.nodes.take(st1.nodes.len() as int) == st1.nodes);
                                assert(st5.nodes.take(st.nodes.len() as int) =~= st5.nodes.take(
                                    st1.nodes.len() as int,
                                ).take(st.nodes.len() as int));
                                assert(st5.nodes[cur] == st5.nodes.take(st1.nodes.len() as int)[cur]);
                                assert(st5.nodes[cur] == atom_label(bav.atom));
                            },
                            Err(e) => {},
                        }
                    },
                    Err(e) => {},
                }
            },
            Err(e) => {},
        }
    }
}

/// Lowering branches only appends nodes.
pub proof fn lemma_lower_branches_prefix(st: LowState, brs: Seq<BranchView>, cur: int)
    ensures
        sp_lower_branches(st, brs, cur) matches Ok(st2) ==> st2.nodes.take(st.nodes.len() as int)
            == st.nodes,
    decreases brs, 2int,
{
    if brs.len() > 0 {
        match sp_lower_links(st, brs[0].chain.links, Some(cur), brs[0].bond_or_dot) {
            Ok(stb) => {
                lemma_lower_links_prefix(st, brs[0].chain.links, Some(cur), brs[0].bond_or_dot);
                lemma_lower_links_counts(st, brs[0].chain.links, Some(cur), brs[0].bond_or_dot);
                lemma_counts_nonneg_links(brs[0].chain.links);
                lemma_lower_branches_prefix(stb, brs.drop_first(), cur);
                lemma_lower_branches_counts(stb, brs.drop_first(), cur);
                lemma_counts_nonneg_branches(brs.drop_first());
                match sp_lower_branches(stb, brs.drop_first(), cur) {
                    Ok(st2) => {
                        assert(st.nodes.len() <= stb.nodes.len() <= st2.nodes.len());
                        assert(st2.nodes.take(st.nodes.len() as int) =~= st2.nodes.take(
                            stb.nodes.len() as int,
                        ).take(st.nodes.len() as int));
                    },
                    Err(e) => {},
                }
            },
            Err(e) => {},
        }
    } else {
        assert(st.nodes.take(st.nodes.len() as int) =~= st.nodes);
    }
}

/// A nonempty chain holds at least one atom.
pub proof fn lemma_count_atoms_pos(links: Seq<(BranchedAtomView, Option<BondOrDot>)>)
    requires
        links.len() >= 1,
    ensures
        count_atoms_links(links) >= 1,
{
    lemma_counts_nonneg_branches(links[0].0.branches);
    lemma_counts_nonneg_links(links.drop_first());
    assert(count_atoms_links(links) == count_atoms_ba(links[0].0) + count_atoms_links(
        links.drop_first(),
    ));
    assert(count_atoms_ba(links[0].0) == 1 + count_atoms_branches(links[0].0.branches));
}

/// Lowering preserves the atom count: before hydrogen filling, the graph
/// holds exactly one node per branched atom of the chain.
pub proof fn lemma_lowering_preserves_atom_count(c: ChainView)
    ensures
        sp_lower_links(
            LowState { nodes: Seq::empty(), edges: Seq::empty(), rings: Map::empty() },
            c.links,
            None,
            None,
        ) matches Ok(st) ==> st.nodes.len() == count_atoms_links(c.links),
{
    lemma_lower_links_counts(
        LowState { nodes: Seq::empty(), edges: Seq::empty(), rings: Map::empty() },
        c.links,
        None,
        None,
    );
}

/// Branch order: lowering a chain of the shape `X(Y)(Z)W` inserts the node
/// for `Y`'s first atom before the node for `Z`'s first atom, which in turn
/// comes before the node for `W`: they land at indices 1, 1 + |Y| and
/// 1 + |Y| + |Z|, where |Y| is the branch's atom count.
pub proof fn lemma_branch_order(c: ChainView)
    requires
        c.links.len() == 2,
        c.links[0].0.branches.len() == 2,
        c.links[0].0.branches[0].chain.links.len() >= 1,
        c.links[0].0.branches[1].chain.links.len() >= 1,
        sp_lower_links(
            LowState { nodes: Seq::empty(), edges: Seq::empty(), rings: Map::empty() },
            c.links,
            None,
            None,
        ) is Ok,
    ensures
        ({
            let st = sp_lower_links(
                LowState { nodes: Seq::empty(), edges: Seq::empty(), rings: Map::empty() },
                c.links,
                None,
                None,
            )->Ok_0;
            let y = c.links[0].0.branches[0];
            let z = c.links[0].0.branches[1];
            let iz = 1 + count_atoms_links(y.chain.links);
            let iw = iz + count_atoms_links(z.chain.links);
            &&& 1 < iz < iw < st.nodes.len()
            &&& st.nodes[1] == atom_label(y.chain.links[0].0.atom)
            &&& st.nodes[iz] == atom_label(z.chain.links[0].0.atom)
            &&& st.nodes[iw] == atom_label(c.links[1].0.atom)
        }),
{
    let init = LowState { nodes: Seq::empty(), edges: Seq::empty(), rings: Map::empty() };
    let bav = c.links[0].0;
    let bod = c.links[0].1;
    let y = bav.branches[0];
    let z = bav.branches[1];
    let iz = 1 + count_atoms_links(y.chain.links);
    let iw = iz + count_atoms_links(z.chain.links);
    let st1 = LowState { nodes: init.nodes.push(atom_label(bav.atom)), ..init };
    lemma_count_atoms_pos(y.chain.links);
    lemma_count_atoms_pos(z.chain.links);
    match sp_ring_steps(st1, 0, bav.ring_bonds) {
        Ok(st3) => {
            lemma_ring_steps_counts(st1, 0, bav.ring_bonds);
            assert(st3.nodes == st1.nodes);
            assert(st3.nodes.len() == 1);
            match sp_lower_links(st3, y.chain.links, Some(0), y.bond_or_dot) {
                Ok(sty) => {
                    lemma_lower_links_prefix(st3, y.chain.links, Some(0), y.bond_or_dot);
                    lemma_lower_links_counts(st3, y.chain.links, Some(0), y.bond_or_dot);
                    assert(sty.nodes[1] == atom_label(y.chain.links[0].0.atom));
                    assert(sty.nodes.len() == iz);
                    assert(bav.branches.drop_first()[0] == z);
                    match sp_lower_links(sty, z.chain.links, Some(0), z.bond_or_dot) {
                        Ok(stz) => {
                            lemma_lower_links_prefix(sty, z.chain.links, Some(0), z.bond_or_dot);
                            lemma_lower_links_counts(sty, z.chain.links, Some(0), z.bond_or_dot);
                            assert(stz.nodes[iz] == atom_label(z.chain.links[0].0.atom));
                            assert(stz.nodes.len() == iw);
                            assert(stz.nodes.take(iz) == sty.nodes);
                            assert(stz.nodes[1] == stz.nodes.take(iz)[1]);
                            assert(bav.branches.drop_first().drop_first() =~= Seq::<
                                BranchView,
                            >::empty());
                            assert(sp_lower_branches(
                                stz,
                                bav.branches.drop_first().drop_first(),
                                0,
                            ) == Ok::<LowState, LoweringError>(stz));
                            assert(sp_lower_branches(sty, bav.branches.drop_first(), 0) == Ok::<
                                LowState,
                                LoweringError,
                            >(stz));
                            assert(sp_lower_branches(st3, bav.branches, 0) == Ok::<
                                LowState,
                                LoweringError,
                            >(stz));
                            let tail = c.links.drop_first();
                            assert(tail[0] == c.links[1]);
                            assert(tail.len() == 1);
                            match sp_lower_links(stz, tail, Some(0), bod) {
                                Ok(st5) => {
                                    lemma_lower_links_prefix(stz, tail, Some(0), bod);
                                    assert(st5.nodes[iw] == atom_label(c.links[1].0.atom));
                                    assert(st5.nodes.len() > iw);
                                    assert(st5.nodes.take(iw) == stz.nodes);
                                    assert(st5.nodes[1] == st5.nodes.take(iw)[1]);
                                    assert(st5.nodes[iz] == st5.nodes.take(iw)[iz]);
                                    assert(sp_lower_links(init, c.links, None, None) == Ok::<
                                        LowState,
                                        LoweringError,
                                    >(st5));
                                },
                                Err(e) => {},
                            }
                        },
                        Err(e) => {},
                    }
                },
                Err(e) => {},
            }
        },
        Err(e) => {},
    }
}

/// Whether a chain's links carry no ring-closure markers at all.
pub open spec fn no_rings_links(links: Seq<(BranchedAtomView, Option<BondOrDot>)>) -> bool
    decreases links, 1int,
{
    if links.len() == 0 {
        true
    } else {
        &&& links[0].0.ring_bonds.len() == 0
        &&& no_rings_branches(links[0].0.branches)
        &&& no_rings_links(links.drop_first())
    }
}

/// Whether a sequence of branches carries no ring-closure markers.
pub open spec fn no_rings_branches(brs: Seq<BranchView>) -> bool
    decreases brs, 2int,
{
    if brs.len() == 0 {
        true
    } else {
        &&& no_rings_links(brs[0].chain.links)
        &&& no_rings_branches(brs.drop_first())
    }
}

/// Whether both endpoints of an edge lie in `[lo, hi)`, or may be the
/// previous atom `pv`.
pub open spec fn edge_in_range(e: (int, int, Bond), lo: int, hi: int, pv: Option<int>) -> bool {
    &&& (lo <= e.0 < hi || pv == Some(e.0))
    &&& (lo <= e.1 < hi || pv == Some(e.1))
}

/// Without ring closures, lowering only adds edges among the nodes it
/// inserts, plus at most the link back to the previous atom; across a dot,
/// or with no previous atom, even that link is absent.
pub proof fn lemma_lower_links_edge_range(
    st: LowState,
    links: Seq<(BranchedAtomView, Option<BondOrDot>)>,
    prev: Option<int>,
    link: Option<BondOrDot>,
)
    requires
        no_rings_links(links),
    ensures
        sp_lower_links(st, links, prev, link) matches Ok(st2) ==> ({
            &&& st2.nodes.len() >= st.nodes.len()
            &&& st2.edges.len() >= st.edges.len()
            &&& st2.edges.take(st.edges.len() as int) == st.edges
            &&& forall|k: int|
                st.edges.len() <= k < st2.edges.len() ==> edge_in_range(
                    #[trigger] st2.edges[k],
                    st.nodes.len() as int,
                    st2.nodes.len() as int,
                    prev,
                )
            &&& (prev is None || link_bond(link) is None) ==> forall|k: int|
                st.edges.len() <= k < st2.edges.len() ==> edge_in_range(
                    #[trigger] st2.edges[k],
                    st.nodes.len() as int,
                    st2.nodes.len() as int,
                    None,
                )
        }),
    decreases links, 1int,
{
    if links.len() > 0 {
        let bav = links[0].0;
        let bod = links[0].1;
        let cur = st.nodes.len() as int;
        let st1 = LowState { nodes: st.nodes.push(atom_label(bav.atom)), ..st };
        let st2 = match prev {
            Some(p) => match link_bond(link) {
                Some(b) => LowState { edges: st1.edges.push((p, cur, b)), ..st1 },
                None => st1,
            },
            None => st1,
        };
        assert(bav.ring_bonds.len() == 0);
        assert(sp_ring_steps(st2, cur, bav.ring_bonds) == Ok::<LowState, LoweringError>(st2));
        match sp_lower_branches(st2, bav.branches, cur) {
            Ok(st4) => {
                lemma_lower_branches_edge_range(st2, bav.branches, cur);
                lemma_lower_branches_counts(st2, bav.branches, cur);
                lemma_counts_nonneg_branches(bav.branches);
                match sp_lower_links(st4, links.drop_first(), Some(cur), bod) {
                    Ok(st5) => {
                        lemma_lower_links_edge_range(st4, links.drop_first(), Some(cur), bod);
                        lemma_lower_links_counts(st4, links.drop_first(), Some(cur), bod);
                        lemma_counts_nonneg_links(links.drop_first());
                        assert(st5.edges.take(st.edges.len() as int) =~= st5.edges.take(
                            st4.edges.len() as int,
                        ).take(st.edges.len() as int));
                        assert(st5.edges.take(st.edges.len() as int) =~= st2.edges.take(
                            st.edges.len() as int,
                        ));
                        assert forall|k: int|
                            st.edges.len() <= k < st5.edges.len() implies edge_in_range(
                            #[trigger] st5.edges[k],
                            st.nodes.len() as int,
                            st5.nodes.len() as int,
                            prev,
                        ) by {
                            if k < st2.edges.len() {
                                assert(st5.edges[k] == st5.edges.take(st4.edges.len() as int)[k]);
                                assert(st5.edges[k] == st2.edges[k]);
                            } else if k < st4.edges.len() {
                                assert(st5.edges[k] == st5.edges.take(st4.edges.len() as int)[k]);
                                assert(st5.edges[k] == st4.edges[k]);
                                assert(edge_in_range(
                                    st4.edges[k],
                                    st2.nodes.len() as int,
                                    st4.nodes.len() as int,
                                    Some(cur),
                                ));
                            } else {
                                assert(edge_in_range(
                                    st5.edges[k],
                                    st4.nodes.len() as int,
                                    st5.nodes.len() as int,
                                    Some(cur),
                                ));
                            }
                        }
                        if prev is None || link_bond(link) is None {
                            assert forall|k: int|
                                st.edges.len() <= k < st5.edges.len() implies edge_in_range(
                                #[trigger] st5.edges[k],
                                st.nodes.len() as int,
                                st5.nodes.len() as int,
                                None,
                            ) by {
                                if k < st2.edges.len() {
                                    assert(st5.edges[k] == st5.edges.take(
                                        st4.edges.len() as int,
                                    )[k]);
                                    assert(st5.edges[k] == st2.edges[k]);
                                    assert(st2.edges.len() == st.edges.len());
                                    assert(false);
                                } else if k < st4.edges.len() {
                                    assert(st5.edges[k] == st5.edges.take(
                                        st4.edges.len() as int,
                                    )[k]);
                                    assert(st5.edges[k] == st4.edges[k]);
                                    assert(edge_in_range(
                                        st4.edges[k],
                                        st2.nodes.len() as int,
                                        st4.nodes.len() as int,
                                        Some(cur),
                                    ));
                                } else {
                                    assert(edge_in_range(
                                        st5.edges[k],
                                        st4.nodes.len() as int,
                                        st5.nodes.len() as int,
                                        Some(cur),
                                    ));
                                }
                            }
                        }
                    },
                    Err(e) => {},
                }
            },
            Err(e) => {},
        }
    } else {
        assert(st.edges.take(st.edges.len() as int) =~= st.edges);
    }
}

/// Without ring closures, lowering branches only adds edges among the
/// nodes it inserts, plus at most links back to the branch point `cur`.
pub proof fn lemma_lower_branches_edge_range(st: LowState, brs: Seq<BranchView>, cur: int)
    requires
        no_rings_branches(brs),
    ensures
        sp_lower_branches(st, brs, cur) matches Ok(st2) ==> ({
            &&& st2.nodes.len() >= st.nodes.len()
            &&& st2.edges.len() >= st.edges.len()
            &&& st2.edges.take(st.edges.len() as int) == st.edges
            &&& forall|k: int|
                st.edges.len() <= k < st2.edges.len() ==> edge_in_range(
                    #[trigger] st2.edges[k],
                    st.nodes.len() as int,
                    st2.nodes.len() as int,
                    Some(cur),
                )
        }),
    decreases brs, 2int,
{
    if brs.len() > 0 {
        match sp_lower_links(st, brs[0].chain.links, Some(cur), brs[0].bond_or_dot) {
            Ok(stb) => {
                lemma_lower_links_edge_range(st, brs[0].chain.links, Some(cur), brs[0].bond_or_dot);
                lemma_lower_links_counts(st, brs[0].chain.links, Some(cur), brs[0].bond_or_dot);
                lemma_counts_nonneg_links(brs[0].chain.links);
                match sp_lower_branches(stb, brs.drop_first(), cur) {
                    Ok(st2) => {
                        lemma_lower_branches_edge_range(stb, brs.drop_first(), cur);
                        lemma_lower_branches_counts(stb, brs.drop_first(), cur);
                        lemma_counts_nonneg_branches(brs.drop_first());
                        assert(st2.edges.take(st.edges.len() as int) =~= st2.edges.take(
                            stb.edges.len() as int,
                        ).take(st.edges.len() as int));
                        assert forall|k: int|
                            st.edges.len() <= k < st2.edges.len() implies edge_in_range(
                            #[trigger] st2.edges[k],
                            st.nodes.len() as int,
                            st2.nodes.len() as int,
                            Some(cur),
                        ) by {
                            if k < stb.edges.len() {
                                assert(st2.edges[k] == st2.edges.take(stb.edges.len() as int)[k]);
                                assert(st2.edges[k] == stb.edges[k]);
                                assert(edge_in_range(
                                    stb.edges[k],
                                    st.nodes.len() as int,
                                    stb.nodes.len() as int,
                                    Some(cur),
                                ));
                            } else {
                                assert(edge_in_range(
                                    st2.edges[k],
                                    stb.nodes.len() as int,
                                    st2.nodes.len() as int,
                                    Some(cur),
                                ));
                            }
                        }
                    },
                    Err(e) => {},
                }
            },
            Err(e) => {},
        }
    } else {
        assert(st.edges.take(st.edges.len() as int) =~= st.edges);
    }
}

/// Appending hydrogens appends matching nodes and edges in lockstep: each
/// new edge joins the given atom to the hydrogen node made with it.
pub proof fn lemma_add_h_shape(acc: (Seq<Atom>, Seq<(int, int, Bond)>), i: int, h: int)
    ensures
        ({
            let r = sp_add_h(acc, i, h);
            let n = if h >= 0 { h } else { 0int };
            &&& r.0.len() == acc.0.len() + n
            &&& r.1.len() == acc.1.len() + n
            &&& r.0.take(acc.0.len() as int) == acc.0
            &&& r.1.take(acc.1.len() as int) == acc.1
            &&& forall|k: int|
                acc.1.len() <= k < r.1.len() ==> (#[trigger] r.1[k]).0 == i && r.1[k].1
                    == acc.0.len() + (k - acc.1.len())
        }),
    decreases h,
{
    if h > 0 {
        let acc2 = (
            acc.0.push(Atom::Element(Element { num: 1 })),
            acc.1.push((i, acc.0.len() as int, Bond::Single)),
        );
        lemma_add_h_shape(acc2, i, h - 1);
        let r = sp_add_h(acc, i, h);
        assert(r.0.take(acc.0.len() as int) =~= r.0.take(acc2.0.len() as int).take(
            acc.0.len() as int,
        ));
        assert(acc2.0.take(acc.0.len() as int) =~= acc.0);
        assert(r.1.take(acc.1.len() as int) =~= r.1.take(acc2.1.len() as int).take(
            acc.1.len() as int,
        ));
        assert(acc2.1.take(acc.1.len() as int) =~= acc.1);
        assert forall|k: int|
            acc.1.len() <= k < r.1.len() implies (#[trigger] r.1[k]).0 == i && r.1[k].1
            == acc.0.len() + (k - acc.1.len()) by {
            if k < acc2.1.len() {
                assert(r.1[k] == r.1.take(acc2.1.len() as int)[k]);
                assert(r.1[k] == acc2.1[k]);
                assert(acc2.1[k] == (i, acc.0.len() as int, Bond::Single));
            }
        }
    } else {
        assert(sp_add_h(acc, i, h) == acc);
        assert(acc.0.take(acc.0.len() as int) =~= acc.0);
        assert(acc.1.take(acc.1.len() as int) =~= acc.1);
    }
}

/// Hydrogen filling keeps what is already there and adds only edges from
/// a pre-fill atom to a fresh hydrogen node, each hydrogen getting
/// exactly one edge.
pub proof fn lemma_fill_edges(
    acc: (Seq<Atom>, Seq<(int, int, Bond)>),
    edges0: Seq<(int, int, Bond)>,
    i: int,
    n0: int,
)
    ensures
        sp_fill(acc, edges0, i, n0) matches Ok(r) ==> ({
            &&& r.0.len() >= acc.0.len()
            &&& r.1.len() >= acc.1.len()
            &&& r.0.take(acc.0.len() as int) == acc.0
            &&& r.1.take(acc.1.len() as int) == acc.1
            &&& forall|k: int|
                acc.1.len() <= k < r.1.len() ==> 0 <= (#[trigger] r.1[k]).0 < n0 && acc.0.len()
                    <= r.1[k].1 < r.0.len()
            &&& forall|k1: int, k2: int|
                acc.1.len() <= k1 < k2 < r.1.len() ==> (#[trigger] r.1[k1]).1 < (
                #[trigger] r.1[k2]).1
        }),
    decreases n0 - i,
{
    if !(i < 0 || i >= n0 || acc.0.len() < n0) {
        match hydrogen_need(acc.0[i], bond_sum(edges0, i)) {
            Ok(h) => {
                let acc2 = sp_add_h(acc, i, h);
                lemma_add_h_shape(acc, i, h);
                lemma_fill_edges(acc2, edges0, i + 1, n0);
                match sp_fill(acc2, edges0, i + 1, n0) {
                    Ok(r) => {
                        assert(r.0.take(acc.0.len() as int) =~= r.0.take(acc2.0.len() as int).take(
                            acc.0.len() as int,
                        ));
                        assert(r.1.take(acc.1.len() as int) =~= r.1.take(acc2.1.len() as int).take(
                            acc.1.len() as int,
                        ));
                        assert forall|k: int|
                            acc.1.len() <= k < r.1.len() implies 0 <= (#[trigger] r.1[k]).0 < n0
                            && acc.0.len() <= r.1[k].1 < r.0.len() by {
                            if k < acc2.1.len() {
                                assert(r.1[k] == r.1.take(acc2.1.len() as int)[k]);
                                assert(r.1[k] == acc2.1[k]);
                            }
                        }
                        assert forall|k1: int, k2: int|
                            acc.1.len() <= k1 < k2 < r.1.len() implies (#[trigger] r.1[k1]).1 < (
                        #[trigger] r.1[k2]).1 by {
                            if k2 < acc2.1.len() {
                                assert(r.1[k1] == r.1.take(acc2.1.len() as int)[k1]);
                                assert(r.1[k2] == r.1.take(acc2.1.len() as int)[k2]);
                                assert(r.1[k1] == acc2.1[k1] && r.1[k2] == acc2.1[k2]);
                            } else if k1 < acc2.1.len() {
                                assert(r.1[k1] == r.1.take(acc2.1.len() as int)[k1]);
                                assert(r.1[k1] == acc2.1[k1]);
                                assert(r.1[k1].1 < acc2.0.len());
                                assert(acc2.0.len() <= r.1[k2].1);
                            }
                        }
                    },
                    Err(e) => {},
                }
            },
            Err(e) => {},
        }
    } else {
        match sp_fill(acc, edges0, i, n0) {
            Ok(r) => {
                assert(r == acc);
                assert(r.0.take(acc.0.len() as int) =~= acc.0);
                assert(r.1.take(acc.1.len() as int) =~= acc.1);
            },
            Err(e) => {},
        }
    }
}

/// Whether `v` lies on the near side of the cut `kk`, counting the
/// previous atom as near.
pub open spec fn cut_low(v: int, lo: int, kk: int, pv: Option<int>) -> bool {
    lo <= v < kk || pv == Some(v)
}

/// Whether `v` lies on the far side of the cut `kk`.
pub open spec fn cut_high(v: int, kk: int, hi: int) -> bool {
    kk <= v < hi
}

/// Atom counts decompose over a prefix of the links.
pub proof fn lemma_count_take_decomp(
    links: Seq<(BranchedAtomView, Option<BondOrDot>)>,
    m: int,
)
    requires
        0 <= m,
        m + 1 <= links.len(),
    ensures
        count_atoms_links(links.take(m + 1)) == count_atoms_ba(links[0].0) + count_atoms_links(
            links.drop_first().take(m),
        ),
{
    assert(links.take(m + 1)[0] == links[0]);
    assert(links.take(m + 1).drop_first() =~= links.drop_first().take(m));
}

/// Without ring closures, a dot after link `m` cuts the lowered edges in
/// two: every edge stays among the atoms up to and including link `m` (or
/// the previous atom), or among the atoms after it.
pub proof fn lemma_lower_links_dot_cut(
    st: LowState,
    links: Seq<(BranchedAtomView, Option<BondOrDot>)>,
    prev: Option<int>,
    link: Option<BondOrDot>,
    m: int,
)
    requires
        no_rings_links(links),
        0 <= m < links.len(),
        links[m].1 == Some(BondOrDot::Dot(Dot)),
    ensures
        sp_lower_links(st, links, prev, link) matches Ok(st2) ==> ({
            let kk = st.nodes.len() + count_atoms_links(links.take(m + 1));
            &&& st.nodes.len() < kk <= st2.nodes.len()
            &&& st2.edges.take(st.edges.len() as int) == st.edges
            &&& forall|k: int|
                st.edges.len() <= k < st2.edges.len() ==> (cut_low(
                    (#[trigger] st2.edges[k]).0,
                    st.nodes.len() as int,
                    kk,
                    prev,
                ) && cut_low(st2.edges[k].1, st.nodes.len() as int, kk, prev)) || (cut_high(
                    st2.edges[k].0,
                    kk,
                    st2.nodes.len() as int,
                ) && cut_high(st2.edges[k].1, kk, st2.nodes.len() as int))
        }),
    decreases m,
{
    let bav = links[0].0;
    let bod = links[0].1;
    let cur = st.nodes.len() as int;
    let st1 = LowState { nodes: st.nodes.push(atom_label(bav.atom)), ..st };
    let st2 = match prev {
        Some(p) => match link_bond(link) {
            Some(b) => LowState { edges: st1.edges.push((p, cur, b)), ..st1 },
            None => st1,
        },
        None => st1,
    };
    assert(bav.ring_bonds.len() == 0);
    assert(sp_ring_steps(st2, cur, bav.ring_bonds) == Ok::<LowState, LoweringError>(st2));
    lemma_count_take_decomp(links, m);
    lemma_counts_nonneg_branches(bav.branches);
    match sp_lower_branches(st2, bav.branches, cur) {
        Ok(st4) => {
            lemma_lower_branches_edge_range(st2, bav.branches, cur);
            lemma_lower_branches_counts(st2, bav.branches, cur);
            match sp_lower_links(st4, links.drop_first(), Some(cur), bod) {
                Ok(st5) => {
                    let kk = st.nodes.len() + count_atoms_links(links.take(m + 1));
                    lemma_lower_links_counts(st4, links.drop_first(), Some(cur), bod);
                    lemma_counts_nonneg_links(links.drop_first());
                    assert(st5.edges.take(st.edges.len() as int) =~= st5.edges.take(
                        st4.edges.len() as int,
                    ).take(st.edges.len() as int));
                    if m == 0 {
                        assert(links.take(1).drop_first() =~= Seq::<
                            (BranchedAtomView, Option<BondOrDot>),
                        >::empty());
                        assert(count_atoms_links(links.take(1)) == count_atoms_ba(bav));
                        assert(kk == st4.nodes.len());
                        assert(bod == Some(BondOrDot::Dot(Dot)));
                        lemma_lower_links_edge_range(st4, links.drop_first(), Some(cur), bod);
                        assert forall|k: int|
                            st.edges.len() <= k < st5.edges.len() implies (cut_low(
                            (#[trigger] st5.edges[k]).0,
                            st.nodes.len() as int,
                            kk,
                            prev,
                        ) && cut_low(st5.edges[k].1, st.nodes.len() as int, kk, prev)) || (cut_high(
                            st5.edges[k].0,
                            kk,
                            st5.nodes.len() as int,
                        ) && cut_high(st5.edges[k].1, kk, st5.nodes.len() as int)) by {
                            if k < st4.edges.len() {
                                assert(st5.edges[k] == st5.edges.take(st4.edges.len() as int)[k]);
                                if k >= st2.edges.len() {
                                    assert(st5.edges[k] == st4.edges[k]);
                                    assert(edge_in_range(
                                        st4.edges[k],
                                        st2.nodes.len() as int,
                                        st4.nodes.len() as int,
                                        Some(cur),
                                    ));
                                } else {
                                    assert(st5.edges[k] == st2.edges[k]);
                                }
                            } else {
                                assert(edge_in_range(
                                    st5.edges[k],
                                    st4.nodes.len() as int,
                                    st5.nodes.len() as int,
                                    None,
                                ));
                            }
                        }
                    } else {
                        assert(links.drop_first()[m - 1] == links[m]);
                        assert(no_rings_links(links.drop_first()));
                        lemma_lower_links_dot_cut(st4, links.drop_first(), Some(cur), bod, m - 1);
                        let kk2 = st4.nodes.len() + count_atoms_links(
                            links.drop_first().take(m),
                        );
                        assert(kk2 == kk);
                        lemma_count_atoms_pos(links.drop_first().take(m));
                        assert forall|k: int|
                            st.edges.len() <= k < st5.edges.len() implies (cut_low(
                            (#[trigger] st5.edges[k]).0,
                            st.nodes.len() as int,
                            kk,
                            prev,
                        ) && cut_low(st5.edges[k].1, st.nodes.len() as int, kk, prev)) || (cut_high(
                            st5.edges[k].0,
                            kk,
                            st5.nodes.len() as int,
                        ) && cut_high(st5.edges[k].1, kk, st5.nodes.len() as int)) by {
                            if k < st4.edges.len() {
                                assert(st5.edges[k] == st5.edges.take(st4.edges.len() as int)[k]);
                                if k >= st2.edges.len() {
                                    assert(st5.edges[k] == st4.edges[k]);
                                    assert(edge_in_range(
                                        st4.edges[k],
                                        st2.nodes.len() as int,
                                        st4.nodes.len() as int,
                                        Some(cur),
                                    ));
                                } else {
                                    assert(st5.edges[k] == st2.edges[k]);
                                }
                            } else {
                                assert((cut_low(
                                    st5.edges[k].0,
                                    st4.nodes.len() as int,
                                    kk2,
                                    Some(cur),
                                ) && cut_low(st5.edges[k].1, st4.nodes.len() as int, kk2, Some(cur)))
                                    || (cut_high(st5.edges[k].0, kk2, st5.nodes.len() as int)
                                    && cut_high(st5.edges[k].1, kk2, st5.nodes.len() as int)));
                            }
                        }
                    }
                },
                Err(e) => {},
            }
        },
        Err(e) => {},
    }
}

} // verus!
