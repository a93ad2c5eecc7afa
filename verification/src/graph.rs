//! The molecular graph: an undirected multigraph of atoms and bonds, built
//! by lowering a parsed chain, stored in a `petgraph` graph behind a small
//! trusted surface.

use vstd::prelude::*;

use petgraph::visit::EdgeRef;

use crate::cst::Bond;
use crate::cst::Chain;
use crate::lower::bond_sum;
use crate::lower::sp_add_h;
use crate::lower::sp_fill;
use crate::lower::sp_first_open;
use crate::lower::sp_lower_branches;
use crate::lower::sp_lower_links;
use crate::lower::sp_molecule_graph;
use crate::lower::sp_ring_step;
use crate::lower::sp_ring_steps;
use crate::lower::LowState;

pub use crate::lower::Atom;
pub use crate::lower::LoweringError;

verus! {

/// Declares petgraph's `Graph` container to the verifier; its values are
/// opaque and are spoken of only through `graph_nodes` and `graph_edges`.
#[verifier::external_type_specification]
#[verifier::external_body]
#[verifier::reject_recursive_types(N)]
#[verifier::reject_recursive_types(E)]
#[verifier::reject_recursive_types(Ty)]
#[verifier::reject_recursive_types(Ix)]
pub struct ExGraph<N, E, Ty, Ix>(petgraph::graph::Graph<N, E, Ty, Ix>);

/// Declares petgraph's `Undirected` marker type to the verifier.
#[verifier::external_type_specification]
#[verifier::external_body]
pub struct ExUndirected(petgraph::Undirected);

/// The node labels a graph holds, in node-index order.
pub uninterp spec fn graph_nodes(
    g: petgraph::graph::Graph<Atom, Bond, petgraph::Undirected>,
) -> Seq<Atom>;

/// The edges a graph holds, in edge-index order, each as the two node
/// indices given when it was added, with its bond label.
pub uninterp spec fn graph_edges(
    g: petgraph::graph::Graph<Atom, Bond, petgraph::Undirected>,
) -> Seq<(int, int, Bond)>;

/// Relies on petgraph::graph::Graph::new_undirected: it creates a graph
/// with no nodes and no edges.
#[verifier::external_body]
fn pg_new() -> (g: petgraph::graph::Graph<Atom, Bond, petgraph::Undirected>)
    ensures
        graph_nodes(g) == Seq::<Atom>::empty(),
        graph_edges(g) == Seq::<(int, int, Bond)>::empty(),
{
    petgraph::graph::Graph::new_undirected()
}

/// Relies on petgraph::graph::Graph::add_node: it appends a node and
/// returns its index; indices are assigned densely in insertion order, and
/// the call panics only at the index type's maximum node count.
#[verifier::external_body]
fn pg_add_node(
    g: &mut petgraph::graph::Graph<Atom, Bond, petgraph::Undirected>,
    w: Atom,
) -> (idx: usize)
    requires
        graph_nodes(*old(g)).len() < 0xFFFF_FFFFusize,
    ensures
        graph_nodes(*final(g)) == graph_nodes(*old(g)).push(w),
        graph_edges(*final(g)) == graph_edges(*old(g)),
        idx == graph_nodes(*old(g)).len(),
{
    g.add_node(w).index()
}

/// Relies on petgraph::graph::Graph::add_edge: it appends an edge between
/// two existing nodes, keeping the endpoint order given; the call panics
/// only on a missing node or at the index type's maximum edge count.
#[verifier::external_body]
fn pg_add_edge(
    g: &mut petgraph::graph::Graph<Atom, Bond, petgraph::Undirected>,
    a: usize,
    b: usize,
    w: Bond,
)
    requires
        a < graph_nodes(*old(g)).len(),
        b < graph_nodes(*old(g)).len(),
        graph_edges(*old(g)).len() < 0xFFFF_FFFFusize,
    ensures
        graph_nodes(*final(g)) == graph_nodes(*old(g)),
        graph_edges(*final(g)) == graph_edges(*old(g)).push((a as int, b as int, w)),
{
    g.add_edge(
        petgraph::graph::NodeIndex::new(a),
        petgraph::graph::NodeIndex::new(b),
        w,
    );
}

/// Relies on petgraph::graph::Graph::node_count: the number of nodes.
#[verifier::external_body]
fn pg_node_count(g: &petgraph::graph::Graph<Atom, Bond, petgraph::Undirected>) -> (n: usize)
    ensures
        n == graph_nodes(*g).len(),
{
    g.node_count()
}

/// Relies on petgraph::graph::Graph::edge_count: the number of edges.
#[verifier::external_body]
fn pg_edge_count(g: &petgraph::graph::Graph<Atom, Bond, petgraph::Undirected>) -> (n: usize)
    ensures
        n == graph_edges(*g).len(),
{
    g.edge_count()
}

/// Relies on petgraph::graph::Graph::node_weight: the label of node `i`.
#[verifier::external_body]
fn pg_node_weight(
    g: &petgraph::graph::Graph<Atom, Bond, petgraph::Undirected>,
    i: usize,
) -> (w: Atom)
    requires
        i < graph_nodes(*g).len(),
    ensures
        w == graph_nodes(*g)[i as int],
{
    *g.node_weight(petgraph::graph::NodeIndex::new(i)).unwrap()
}

/// Relies on petgraph::graph::Graph::edge_references: it yields the edges
/// in edge-index order, each keeping the endpoint order it was added with.
#[verifier::external_body]
fn pg_edge_list(
    g: &petgraph::graph::Graph<Atom, Bond, petgraph::Undirected>,
) -> (v: Vec<(usize, usize, Bond)>)
    ensures
        v@.len() == graph_edges(*g).len(),
        forall|k: int|
            0 <= k < v@.len() ==> graph_edges(*g)[k] == (
                v@[k].0 as int,
                v@[k].1 as int,
                v@[k].2,
            ),
{
    g.edge_references().map(|e| (e.source().index(), e.target().index(), *e.weight())).collect()
}

/// An undirected molecular multigraph: nodes carry `Atom` labels and edges
/// carry `Bond` labels. Node identity is the dense insertion index.
pub struct MoleculeGraph {
    g: petgraph::graph::Graph<Atom, Bond, petgraph::Undirected>,
}

impl MoleculeGraph {
    /// The node labels, in insertion order.
    pub closed spec fn nodes(&self) -> Seq<Atom> {
        graph_nodes(self.g)
    }

    /// The edges, in insertion order.
    pub closed spec fn edges(&self) -> Seq<(int, int, Bond)> {
        graph_edges(self.g)
    }

    /// The number of atoms in the graph.
    pub fn node_count(&self) -> (n: usize)
        ensures
            n == self.nodes().len(),
    {
        pg_node_count(&self.g)
    }

    /// The number of bonds in the graph.
    pub fn edge_count(&self) -> (n: usize)
        ensures
            n == self.edges().len(),
    {
        pg_edge_count(&self.g)
    }

    /// The label of the node with index `i`.
    pub fn node_atom(&self, i: usize) -> (w: Atom)
        requires
            i < self.nodes().len(),
        ensures
            w == self.nodes()[i as int],
    {
        pg_node_weight(&self.g, i)
    }

    /// All edges, each as the two node indices it was added with and its
    /// bond label.
    pub fn edge_list(&self) -> (v: Vec<(usize, usize, Bond)>)
        ensures
            v@.len() == self.edges().len(),
            forall|k: int|
                0 <= k < v@.len() ==> self.edges()[k] == (v@[k].0 as int, v@[k].1 as int, v@[k].2),
    {
        pg_edge_list(&self.g)
    }
}

/// The map of open ring slots held by the executable ring vector.
pub open spec fn rings_map(v: Seq<Option<(usize, Option<Bond>)>>) -> Map<int, (int, Option<Bond>)> {
    Map::new(
        |k: int| 0 <= k < v.len() && v[k] is Some,
        |k: int| ((v[k]->0).0 as int, (v[k]->0).1),
    )
}

/// The spec-level lowering state that the executable state denotes.
pub open spec fn low_state(
    g: petgraph::graph::Graph<Atom, Bond, petgraph::Undirected>,
    rings: Seq<Option<(usize, Option<Bond>)>>,
) -> LowState {
    LowState { nodes: graph_nodes(g), edges: graph_edges(g), rings: rings_map(rings) }
}

/// Well-formedness of the executable lowering state: the bond sums track
/// the edges, edges touch existing nodes only, and ring slots point at
/// existing nodes.
pub open spec fn wf_state(
    g: petgraph::graph::Graph<Atom, Bond, petgraph::Undirected>,
    sums: Seq<u64>,
    rings: Seq<Option<(usize, Option<Bond>)>>,
) -> bool {
    &&& sums.len() == graph_nodes(g).len()
    &&& forall|i: int| 0 <= i < sums.len() ==> sums[i] as int == bond_sum(graph_edges(g), i)
    &&& forall|k: int|
        0 <= k < graph_edges(g).len() ==> 0 <= #[trigger] graph_edges(g)[k].0 < graph_nodes(g).len()
            && 0 <= graph_edges(g)[k].1 < graph_nodes(g).len()
    &&& rings.len() == 256
    &&& forall|k: int|
        0 <= k < 256 && #[trigger] rings[k] is Some ==> ((rings[k]->0).0 as int) < graph_nodes(
            g,
        ).len()
}

/// The spec-level view of an optional previous-node index.
pub open spec fn opt_int(p: Option<usize>) -> Option<int> {
    match p {
        Some(x) => Some(x as int),
        None => None,
    }
}

/// The order a bond contributes to a valence sum.
fn order_of(b: Bond) -> (o: u64)
    ensures
        o as int == crate::lower::bond_order(b),
        o <= 4,
{
    match b {
        Bond::Single => 1,
        Bond::Double => 2,
        Bond::Triple => 3,
        Bond::Quadruple => 4,
        Bond::Aromatic => 1,
        Bond::Up => 1,
        Bond::Down => 1,
    }
}

/// The node label for a parsed atom.
fn atom_label_exec(a: &crate::cst::Atom) -> (r: Atom)
    ensures
        r == crate::lower::atom_label(*a),
{
    match a {
        crate::cst::Atom::Bracket(ba) => Atom::Bracket(*ba),
        crate::cst::Atom::AliphaticOrganic(at) => Atom::AliphaticOrganic(*at),
        crate::cst::Atom::Unknown => Atom::Unknown,
    }
}

/// The linking bond across a bond-or-dot, if an edge is to be added at all.
fn link_bond_exec(link: Option<crate::cst::BondOrDot>) -> (r: Option<Bond>)
    ensures
        r == crate::lower::link_bond(link),
{
    match link {
        None => Some(Bond::Single),
        Some(crate::cst::BondOrDot::Bond(b)) => Some(b),
        Some(crate::cst::BondOrDot::Dot(d)) => None,
    }
}

/// Adds an edge and keeps the per-node bond sums in step with it.
fn add_edge_summed(
    g: &mut petgraph::graph::Graph<Atom, Bond, petgraph::Undirected>,
    sums: &mut Vec<u64>,
    a: usize,
    b: usize,
    w: Bond,
)
    requires
        old(sums)@.len() == graph_nodes(*old(g)).len(),
        forall|i: int|
            0 <= i < old(sums)@.len() ==> old(sums)@[i] as int == bond_sum(
                graph_edges(*old(g)),
                i,
            ),
        a < graph_nodes(*old(g)).len(),
        b < graph_nodes(*old(g)).len(),
        graph_edges(*old(g)).len() < 0xFFFF_FFFEusize,
    ensures
        graph_nodes(*final(g)) == graph_nodes(*old(g)),
        graph_edges(*final(g)) == graph_edges(*old(g)).push((a as int, b as int, w)),
        final(sums)@.len() == old(sums)@.len(),
        forall|i: int|
            0 <= i < final(sums)@.len() ==> final(sums)@[i] as int == bond_sum(
                graph_edges(*final(g)),
                i,
            ),
{
    proof {
        crate::lower::lemma_bond_sum_bound(graph_edges(*g), a as int);
        crate::lower::lemma_bond_sum_bound(graph_edges(*g), b as int);
    }
    let ghost edges0 = graph_edges(*g);
    pg_add_edge(g, a, b, w);
    let o = order_of(w);
    let sa = sums[a];
    sums.set(a, sa + o);
    let sb = sums[b];
    sums.set(b, sb + o);
    proof {
        assert forall|i: int|
            0 <= i < sums@.len() implies sums@[i] as int == bond_sum(graph_edges(*g), i) by {
            crate::lower::lemma_bond_sum_push(edges0, (a as int, b as int, w), i);
        }
    }
}

/// Performs one ring-closure step on the atom `cur`.
fn ring_step(
    g: &mut petgraph::graph::Graph<Atom, Bond, petgraph::Undirected>,
    sums: &mut Vec<u64>,
    rings: &mut Vec<Option<(usize, Option<Bond>)>>,
    cur: usize,
    rb: crate::cst::RingBond,
) -> (r: Result<(), LoweringError>)
    requires
        wf_state(*old(g), old(sums)@, old(rings)@),
        cur < graph_nodes(*old(g)).len(),
        graph_edges(*old(g)).len() < 0xFFFF_FFFEusize,
    ensures
        wf_state(*final(g), final(sums)@, final(rings)@),
        graph_nodes(*final(g)) == graph_nodes(*old(g)),
        graph_edges(*old(g)).len() <= graph_edges(*final(g)).len() <= graph_edges(*old(g)).len()
            + 1,
        (match sp_ring_step(low_state(*old(g), old(rings)@), cur as int, rb) {
            Ok(st2) => r is Ok && low_state(*final(g), final(rings)@) == st2,
            Err(e) => r == Err::<(), LoweringError>(e),
        }),
{
    let ghost st0 = low_state(*g, rings@);
    let idx = rb.ring_number as usize;
    let slot = rings[idx];
    match slot {
        Some((other, pending)) => {
            let bond_res = match (pending, rb.bond) {
                (Some(b1), Some(b2)) => {
                    if b1 == b2 {
                        Ok(b1)
                    } else {
                        Err(LoweringError::RingBondMismatch(rb.ring_number))
                    }
                },
                (Some(b1), None) => Ok(b1),
                (None, Some(b2)) => Ok(b2),
                (None, None) => Ok(Bond::Single),
            };
            match bond_res {
                Ok(b) => {
                    add_edge_summed(g, sums, other, cur, b);
                    rings.set(idx, None);
                    proof {
                        assert(rings_map(rings@) =~= st0.rings.remove(idx as int));
                        assert(low_state(*g, rings@) == sp_ring_step(st0, cur as int, rb)->Ok_0);
                    }
                    Ok(())
                },
                Err(e) => Err(e),
            }
        },
        None => {
            rings.set(idx, Some((cur, rb.bond)));
            proof {
                assert(rings_map(rings@) =~= st0.rings.insert(idx as int, (cur as int, rb.bond)));
                assert(low_state(*g, rings@) == sp_ring_step(st0, cur as int, rb)->Ok_0);
            }
            Ok(())
        },
    }
}

/// Lowers one chain onto the graph: inserts its atoms left to right, adds
/// the linear bonds, resolves ring closures, and descends into branches
/// before continuing along the spine.
#[verifier::loop_isolation(false)]
fn add_chain(
    g: &mut petgraph::graph::Graph<Atom, Bond, petgraph::Undirected>,
    sums: &mut Vec<u64>,
    rings: &mut Vec<Option<(usize, Option<Bond>)>>,
    c: &Chain,
    prev: Option<usize>,
    link: Option<crate::cst::BondOrDot>,
) -> (r: Result<(), LoweringError>)
    requires
        wf_state(*old(g), old(sums)@, old(rings)@),
        prev matches Some(p) ==> p < graph_nodes(*old(g)).len(),
        graph_nodes(*old(g)).len() + crate::lower::count_atoms_links(c@.links) <= 10_000_001,
        graph_edges(*old(g)).len() + crate::lower::count_atoms_links(c@.links)
            + crate::lower::count_rings_links(c@.links) <= 20_000_002,
    ensures
        wf_state(*final(g), final(sums)@, final(rings)@),
        (match sp_lower_links(low_state(*old(g), old(rings)@), c@.links, opt_int(prev), link) {
            Ok(st2) => r is Ok && low_state(*final(g), final(rings)@) == st2,
            Err(e) => r == Err::<(), LoweringError>(e),
        }),
    decreases *c,
{
    proof {
        crate::lower::lemma_counts_nonneg_links(c@.links);
        crate::lower::lemma_counts_nonneg_branches(c@.links[0].0.branches);
        match &c.chain {
            Some(t) => {
                assert(c@.links =~= seq![(c.branched_atom@, c.bond_or_dot)] + (**t)@.links);
                crate::lower::lemma_counts_nonneg_links((**t)@.links);
            },
            None => {
                assert(c@.links =~= seq![(c.branched_atom@, c.bond_or_dot)] + Seq::<
                    (crate::cst::BranchedAtomView, Option<crate::cst::BondOrDot>),
                >::empty());
            },
        }
    }
    let ghost st0 = low_state(*g, rings@);
    let ghost links = c@.links;
    let ghost bav = c.branched_atom@;

    // Insert the node for the head atom.
    let cur = pg_add_node(g, atom_label_exec(&c.branched_atom.atom));
    sums.push(0);
    proof {
        assert forall|i: int|
            0 <= i < sums@.len() implies sums@[i] as int == bond_sum(graph_edges(*g), i) by {
            if i == cur as int {
                crate::lower::lemma_bond_sum_fresh(graph_edges(*g), i);
            }
        }
    }
    let ghost st1 = LowState { nodes: st0.nodes.push(crate::lower::atom_label(bav.atom)), ..st0 };
    proof {
        assert(low_state(*g, rings@) == st1);
    }

    // The linear bond to the previous atom, unless a dot separates them.
    match prev {
        Some(p) => {
            match link_bond_exec(link) {
                Some(b) => {
                    add_edge_summed(g, sums, p, cur, b);
                },
                None => {},
            }
        },
        None => {},
    }
    let ghost st2 = match opt_int(prev) {
        Some(p) => match crate::lower::link_bond(link) {
            Some(b) => LowState { edges: st1.edges.push((p, cur as int, b)), ..st1 },
            None => st1,
        },
        None => st1,
    };
    proof {
        assert(low_state(*g, rings@) == st2);
    }

    // Ring-closure markers, in source order.
    let rbs = &c.branched_atom.ring_bonds;
    let ghost rbs_v = bav.ring_bonds;
    proof {
        assert(rbs_v == rbs@);
        assert(links[0] == (bav, c.bond_or_dot));
        assert(links.len() >= 1);
        assert(crate::lower::count_atoms_links(links) == crate::lower::count_atoms_ba(links[0].0)
            + crate::lower::count_atoms_links(links.drop_first()));
        assert(crate::lower::count_atoms_ba(bav) == 1 + crate::lower::count_atoms_branches(
            bav.branches,
        ));
        assert(crate::lower::count_rings_links(links) == links[0].0.ring_bonds.len() as int
            + crate::lower::count_rings_branches(links[0].0.branches)
            + crate::lower::count_rings_links(links.drop_first()));
        crate::lower::lemma_counts_nonneg_links(links.drop_first());
        crate::lower::lemma_counts_nonneg_branches(bav.branches);
        assert(rbs_v.skip(0) =~= rbs_v);
        assert(rbs_v.len() <= 20_000_002);
    }
    let mut i: usize = 0;
    while i < rbs.len()
        invariant
            i <= rbs@.len(),
            rbs@ == rbs_v,
            wf_state(*g, sums@, rings@),
            graph_nodes(*g) == st2.nodes,
            cur as int == st2.nodes.len() - 1,
            st2.edges.len() <= graph_edges(*g).len() <= st2.edges.len() + i,
            sp_ring_steps(st2, cur as int, rbs_v) == sp_ring_steps(
                low_state(*g, rings@),
                cur as int,
                rbs_v.skip(i as int),
            ),
        decreases rbs@.len() - i,
    {
        let ghost pre = low_state(*g, rings@);
        let rb = rbs[i];
        proof {
            assert(rbs_v.skip(i as int)[0] == rb);
            assert(rbs_v.skip(i as int).drop_first() =~= rbs_v.skip(i as int + 1));
        }
        match ring_step(g, sums, rings, cur, rb) {
            Ok(()) => {},
            Err(e) => {
                proof {
                    assert(sp_ring_steps(pre, cur as int, rbs_v.skip(i as int)) == Err::<
                        LowState,
                        LoweringError,
                    >(e));
                    assert(sp_lower_links(st0, links, opt_int(prev), link) == Err::<
                        LowState,
                        LoweringError,
                    >(e));
                }
                return Err(e);
            },
        }
        i = i + 1;
    }
    proof {
        assert(rbs_v.skip(rbs_v.len() as int) =~= Seq::<crate::cst::RingBond>::empty());
        assert(sp_ring_steps(st2, cur as int, rbs_v) == Ok::<LowState, LoweringError>(
            low_state(*g, rings@),
        ));
    }
    let ghost st3 = low_state(*g, rings@);

    // Branches, in source order.
    let brs = &c.branched_atom.branches;
    let ghost brs_v = bav.branches;
    proof {
        crate::cst::lemma_branches_view_elems(brs@);
        assert(brs_v == crate::cst::branches_view(brs@));
    }
    proof {
        assert(brs_v.skip(0) =~= brs_v);
    }
    let mut j: usize = 0;
    while j < brs.len()
        invariant
            j <= brs@.len(),
            brs_v == crate::cst::branches_view(brs@),
            brs_v.len() == brs@.len(),
            forall|k: int| 0 <= k < brs@.len() ==> brs_v[k] == brs@[k]@,
            wf_state(*g, sums@, rings@),
            cur < graph_nodes(*g).len(),
            graph_nodes(*g).len() + crate::lower::count_atoms_branches(brs_v.skip(j as int))
                + crate::lower::count_atoms_links(links.drop_first()) <= 10_000_001,
            graph_edges(*g).len() + crate::lower::count_atoms_branches(brs_v.skip(j as int))
                + crate::lower::count_rings_branches(brs_v.skip(j as int))
                + crate::lower::count_atoms_links(links.drop_first())
                + crate::lower::count_rings_links(links.drop_first()) <= 20_000_002,
            sp_lower_branches(st3, brs_v, cur as int) == sp_lower_branches(
                low_state(*g, rings@),
                brs_v.skip(j as int),
                cur as int,
            ),
        decreases brs@.len() - j,
    {
        let ghost pre = low_state(*g, rings@);
        proof {
            assert(brs_v.skip(j as int)[0] == brs@[j as int]@);
            assert(brs_v.skip(j as int).drop_first() =~= brs_v.skip(j as int + 1));
            crate::lower::lemma_counts_nonneg_links(brs_v[j as int].chain.links);
            crate::lower::lemma_counts_nonneg_branches(brs_v.skip(j as int + 1));
            crate::lower::lemma_counts_nonneg_links(links.drop_first());
            assert(crate::lower::count_atoms_branches(brs_v.skip(j as int))
                == crate::lower::count_atoms_links(brs_v[j as int].chain.links)
                + crate::lower::count_atoms_branches(brs_v.skip(j as int + 1)));
            assert(crate::lower::count_rings_branches(brs_v.skip(j as int))
                == crate::lower::count_rings_links(brs_v[j as int].chain.links)
                + crate::lower::count_rings_branches(brs_v.skip(j as int + 1)));
            assert(decreases_to!(*c => c.branched_atom));
            assert(decreases_to!(c.branched_atom => c.branched_atom.branches));
            assert(decreases_to!(c.branched_atom.branches => c.branched_atom.branches@));
            assert(decreases_to!(c.branched_atom.branches@ => c.branched_atom.branches@[j as int]));
            assert(decreases_to!(c.branched_atom.branches@[j as int] => c.branched_atom.branches@[j as int].chain));
            assert(decreases_to!(*c => c.branched_atom.branches@[j as int].chain));
        }
        let br = &brs[j];
        match add_chain(g, sums, rings, &br.chain, Some(cur), br.bond_or_dot) {
            Ok(()) => {
                proof {
                    crate::lower::lemma_lower_links_counts(
                        pre,
                        brs_v[j as int].chain.links,
                        Some(cur as int),
                        brs_v[j as int].bond_or_dot,
                    );
                }
            },
            Err(e) => {
                proof {
                    assert(sp_lower_branches(pre, brs_v.skip(j as int), cur as int) == Err::<
                        LowState,
                        LoweringError,
                    >(e));
                    assert(sp_lower_links(st0, links, opt_int(prev), link) == Err::<
                        LowState,
                        LoweringError,
                    >(e));
                }
                return Err(e);
            },
        }
        j = j + 1;
    }
    proof {
        assert(brs_v.skip(brs_v.len() as int) =~= Seq::<crate::cst::BranchView>::empty());
        assert(sp_lower_branches(st3, brs_v, cur as int) == Ok::<LowState, LoweringError>(
            low_state(*g, rings@),
        ));
    }
    let ghost st4 = low_state(*g, rings@);

    // Continue along the spine.
    match &c.chain {
        Some(t) => {
            proof {
                assert(decreases_to!(*c => c.chain->0));
                assert(links.drop_first() =~= (**t)@.links);
            }
            let res = add_chain(g, sums, rings, t, Some(cur), c.bond_or_dot);
            proof {
                assert(sp_lower_links(st0, links, opt_int(prev), link) == sp_lower_links(
                    st4,
                    links.drop_first(),
                    Some(cur as int),
                    c.bond_or_dot,
                ));
            }
            res
        },
        None => {
            proof {
                assert(links.drop_first() =~= Seq::<
                    (crate::cst::BranchedAtomView, Option<crate::cst::BondOrDot>),
                >::empty());
                assert(sp_lower_links(st4, links.drop_first(), Some(cur as int), c.bond_or_dot)
                    == Ok::<LowState, LoweringError>(st4));
                assert(sp_lower_links(st0, links, opt_int(prev), link) == Ok::<
                    LowState,
                    LoweringError,
                >(st4));
            }
            Ok(())
        },
    }
}

/// How many hydrogens the node label `a` receives, given its bond sum.
fn hydrogen_need_exec(a: Atom, sum: u64) -> (r: Result<u64, LoweringError>)
    ensures
        (match crate::lower::hydrogen_need(a, sum as int) {
            Ok(h) => r matches Ok(x) && x as int == h && 0 <= h <= 255,
            Err(e) => r == Err::<u64, LoweringError>(e),
        }),
{
    match a {
        Atom::AliphaticOrganic(at) => {
            let n = at.element.num;
            if n == 5 || n == 7 {
                if sum <= 3 {
                    Ok(3 - sum)
                } else {
                    Err(LoweringError::UnsupportedValence)
                }
            } else if n == 6 {
                if sum <= 4 {
                    Ok(4 - sum)
                } else {
                    Err(LoweringError::UnsupportedValence)
                }
            } else if n == 8 {
                if sum <= 2 {
                    Ok(2 - sum)
                } else {
                    Err(LoweringError::UnsupportedValence)
                }
            } else if n == 15 {
                if sum <= 3 {
                    Ok(3 - sum)
                } else if sum <= 5 {
                    Ok(5 - sum)
                } else {
                    Err(LoweringError::UnsupportedValence)
                }
            } else if n == 16 {
                if sum <= 2 {
                    Ok(2 - sum)
                } else if sum <= 4 {
                    Ok(4 - sum)
                } else if sum <= 6 {
                    Ok(6 - sum)
                } else {
                    Err(LoweringError::UnsupportedValence)
                }
            } else if n == 9 || n == 17 || n == 35 || n == 53 {
                if sum <= 1 {
                    Ok(1 - sum)
                } else {
                    Err(LoweringError::UnsupportedValence)
                }
            } else {
                Err(LoweringError::UnsupportedAtom)
            }
        },
        Atom::Bracket(ba) => Ok(ba.hcount as u64),
        Atom::Element(e) => Ok(0),
        Atom::Unknown => Ok(0),
    }
}

/// Fills implicit hydrogens: every node present before filling receives the hydrogen
/// nodes its label and bond sum call for, each joined by a single bond.
#[verifier::loop_isolation(false)]
fn fill_hydrogens(
    g: &mut petgraph::graph::Graph<Atom, Bond, petgraph::Undirected>,
    sums: Vec<u64>,
) -> (r: Result<(), LoweringError>)
    requires
        sums@.len() == graph_nodes(*old(g)).len(),
        forall|i: int|
            0 <= i < sums@.len() ==> sums@[i] as int == bond_sum(graph_edges(*old(g)), i),
        graph_nodes(*old(g)).len() <= 10_000_001,
        graph_edges(*old(g)).len() <= 20_000_002,
    ensures
        (match sp_fill(
            (graph_nodes(*old(g)), graph_edges(*old(g))),
            graph_edges(*old(g)),
            0,
            graph_nodes(*old(g)).len() as int,
        ) {
            Ok((ns, es)) => r is Ok && graph_nodes(*final(g)) == ns && graph_edges(*final(g))
                == es,
            Err(e) => r == Err::<(), LoweringError>(e),
        }),
{
    let n0 = pg_node_count(g);
    let ghost nodes0 = graph_nodes(*g);
    let ghost edges0 = graph_edges(*g);
    let mut i: usize = 0;
    while i < n0
        invariant
            i <= n0,
            graph_nodes(*g).len() <= nodes0.len() + 256 * i,
            graph_edges(*g).len() <= edges0.len() + 256 * i,
            n0 <= graph_nodes(*g).len(),
            graph_nodes(*g).take(n0 as int) == nodes0,
            sp_fill((nodes0, edges0), edges0, 0, n0 as int) == sp_fill(
                (graph_nodes(*g), graph_edges(*g)),
                edges0,
                i as int,
                n0 as int,
            ),
        decreases n0 - i,
    {
        let ghost acc0 = (graph_nodes(*g), graph_edges(*g));
        let a = pg_node_weight(g, i);
        proof {
            assert(graph_nodes(*g)[i as int] == nodes0[i as int]);
        }
        match hydrogen_need_exec(a, sums[i]) {
            Ok(h) => {
                let ghost hh = crate::lower::hydrogen_need(a, sums@[i as int] as int)->Ok_0;
                let mut k: u64 = 0;
                while k < h
                    invariant
                        k <= h,
                        h as int == hh,
                        0 <= hh <= 255,
                        i < n0 <= graph_nodes(*g).len(),
                        graph_nodes(*g).len() == acc0.0.len() + k,
                        graph_edges(*g).len() == acc0.1.len() + k,
                        graph_nodes(*g).take(n0 as int) == nodes0,
                        sp_add_h(acc0, i as int, hh) == sp_add_h(
                            (graph_nodes(*g), graph_edges(*g)),
                            i as int,
                            hh - k,
                        ),
                    decreases h - k,
                {
                    let hn = pg_add_node(g, Atom::Element(crate::element::Element { num: 1 }));
                    pg_add_edge(g, i, hn, Bond::Single);
                    proof {
                        assert(graph_nodes(*g).take(n0 as int) =~= nodes0);
                    }
                    k = k + 1;
                }
                proof {
                    assert(sp_add_h(acc0, i as int, hh) == (graph_nodes(*g), graph_edges(*g)));
                    assert(sp_fill(acc0, edges0, i as int, n0 as int) == sp_fill(
                        (graph_nodes(*g), graph_edges(*g)),
                        edges0,
                        i as int + 1,
                        n0 as int,
                    ));
                }
            },
            Err(e) => {
                proof {
                    assert(sp_fill(acc0, edges0, i as int, n0 as int) == Err::<
                        (Seq<Atom>, Seq<(int, int, Bond)>),
                        LoweringError,
                    >(e));
                }
                return Err(e);
            },
        }
        i = i + 1;
    }
    proof {
        assert(sp_fill((graph_nodes(*g), graph_edges(*g)), edges0, n0 as int, n0 as int) == Ok::<
            (Seq<Atom>, Seq<(int, int, Bond)>),
            LoweringError,
        >((graph_nodes(*g), graph_edges(*g))));
    }
    Ok(())
}

impl MoleculeGraph {
    /// Lowers a parsed chain into its molecular graph: atoms become nodes
    /// in source order, bonds and ring closures become edges, and implicit
    /// hydrogens are filled in; errors surface unresolved or conflicting
    /// ring closures and unsupported valences.
    #[verifier::loop_isolation(false)]
    pub fn from_chain(chain: Chain) -> (r: Result<MoleculeGraph, LoweringError>)
        requires
            crate::lower::count_atoms_links(chain@.links) + crate::lower::count_rings_links(
                chain@.links,
            ) <= 10_000_000,
        ensures
            (match sp_molecule_graph(chain@) {
                Ok((ns, es)) => r matches Ok(mg) && mg.nodes() == ns && mg.edges() == es,
                Err(e) => r == Err::<MoleculeGraph, LoweringError>(e),
            }),
    {
        proof {
            crate::lower::lemma_counts_nonneg_links(chain@.links);
        }
        let mut g = pg_new();
        let mut sums: Vec<u64> = Vec::new();
        let mut rings: Vec<Option<(usize, Option<Bond>)>> = Vec::new();
        let mut j: usize = 0;
        while j < 256
            invariant
                rings@.len() == j,
                j <= 256,
                forall|k: int| 0 <= k < j ==> rings@[k] is None,
            decreases 256 - j,
        {
            rings.push(None);
            j = j + 1;
        }
        let ghost init = LowState {
            nodes: Seq::empty(),
            edges: Seq::empty(),
            rings: Map::empty(),
        };
        proof {
            assert(rings_map(rings@) =~= Map::<int, (int, Option<Bond>)>::empty());
            assert(low_state(g, rings@) == init);
        }
        match add_chain(&mut g, &mut sums, &mut rings, &chain, None, None) {
            Ok(()) => {
                let ghost st = sp_lower_links(init, chain@.links, None, None)->Ok_0;
                proof {
                    assert(low_state(g, rings@) == st);
                }
                let mut idx: usize = 0;
                while idx < 256
                    invariant
                        idx <= 256,
                        forall|k: int| 0 <= k < idx ==> !st.rings.dom().contains(k),
                    decreases 256 - idx,
                {
                    if rings[idx].is_some() {
                        proof {
                            crate::lower::lemma_first_open_skip(st.rings, idx as int);
                            assert(st.rings.dom().contains(idx as int));
                            assert(sp_first_open(st.rings, idx as int) == Some(idx as int));
                        }
                        return Err(LoweringError::UnclosedRingBond(idx as u8));
                    }
                    proof {
                        assert(!st.rings.dom().contains(idx as int));
                    }
                    idx = idx + 1;
                }
                proof {
                    crate::lower::lemma_first_open_skip(st.rings, 256);
                    assert(sp_first_open(st.rings, 0) is None);
                    crate::lower::lemma_lower_links_counts(init, chain@.links, None, None);
                }
                match fill_hydrogens(&mut g, sums) {
                    Ok(()) => Ok(MoleculeGraph { g }),
                    Err(e) => Err(e),
                }
            },
            Err(e) => Err(e),
        }
    }
}

/// Whether the label is an aliphatic carbon.
pub open spec fn is_carbon_atom(a: Atom) -> bool {
    match a {
        Atom::AliphaticOrganic(at) => at.element.num == 6,
        _ => false,
    }
}

/// Whether the edge `e` joins nodes `a` and `b` (in either direction).
pub open spec fn edge_connects(e: (int, int, Bond), a: int, b: int) -> bool {
    (e.0 == a && e.1 == b) || (e.0 == b && e.1 == a)
}

/// Whether some edge joins nodes `a` and `b`.
pub open spec fn adjacent(edges: Seq<(int, int, Bond)>, a: int, b: int) -> bool {
    exists|k: int| 0 <= k < edges.len() && edge_connects(#[trigger] edges[k], a, b)
}

/// Whether `p` is a walk through aliphatic-carbon nodes: nonempty, every
/// node an existing carbon, and consecutive nodes joined by an edge.
pub open spec fn is_carbon_path(
    nodes: Seq<Atom>,
    edges: Seq<(int, int, Bond)>,
    p: Seq<usize>,
) -> bool {
    &&& p.len() >= 1
    &&& forall|i: int|
        0 <= i < p.len() ==> (#[trigger] p[i]) < nodes.len() && is_carbon_atom(nodes[p[i] as int])
    &&& forall|i: int| 0 <= i < p.len() - 1 ==> adjacent(edges, #[trigger] p[i] as int, p[i + 1] as int)
}

/// Every carbon walk from `x` to `y` is matched by one of length at most
/// `len` with the same endpoints.
pub open spec fn pair_covered(
    nodes: Seq<Atom>,
    edges: Seq<(int, int, Bond)>,
    x: usize,
    y: usize,
    len: int,
) -> bool {
    forall|q: Seq<usize>|
        #[trigger] is_carbon_path(nodes, edges, q) && q[0] == x && q[q.len() - 1] == y
            ==> exists|q2: Seq<usize>|
            is_carbon_path(nodes, edges, q2) && q2[0] == x && q2[q2.len() - 1] == y && q2.len()
                <= len
}

/// Whether the label is an aliphatic carbon.
fn carbon_check(a: &Atom) -> (r: bool)
    ensures
        r == is_carbon_atom(*a),
{
    match a {
        Atom::AliphaticOrganic(at) => at.element.num == 6,
        _ => false,
    }
}

/// Relies on petgraph::algo::astar with unit edge costs and a zero
/// heuristic (Dijkstra) over a NodeFiltered view that keeps aliphatic
/// carbon nodes: the result is a path of minimal length from `a` to `b`
/// within the carbon-induced subgraph, or `None` exactly when `b` is not
/// reachable from `a` there.
#[verifier::external_body]
fn pg_carbon_astar(
    g: &petgraph::graph::Graph<Atom, Bond, petgraph::Undirected>,
    a: usize,
    b: usize,
) -> (r: Option<Vec<usize>>)
    requires
        a < graph_nodes(*g).len(),
        b < graph_nodes(*g).len(),
        is_carbon_atom(graph_nodes(*g)[a as int]),
        is_carbon_atom(graph_nodes(*g)[b as int]),
    ensures
        (match r {
            Some(p) => is_carbon_path(graph_nodes(*g), graph_edges(*g), p@) && p@[0] == a
                && p@[p@.len() - 1] == b && forall|q: Seq<usize>|
                #[trigger] is_carbon_path(graph_nodes(*g), graph_edges(*g), q) && q[0] == a
                    && q[q.len() - 1] == b ==> p@.len() <= q.len(),
            None => forall|q: Seq<usize>|
                !(#[trigger] is_carbon_path(graph_nodes(*g), graph_edges(*g), q) && q[0] == a
                    && q[q.len() - 1] == b),
        }),
{
    let filtered = petgraph::visit::NodeFiltered::from_fn(
        g,
        |ix: petgraph::graph::NodeIndex| carbon_check(g.node_weight(ix).unwrap()),
    );
    let start = petgraph::graph::NodeIndex::new(a);
    let goal = petgraph::graph::NodeIndex::new(b);
    let res = petgraph::algo::astar(&filtered, start, |f| f == goal, |_| 1usize, |_| 0usize);
    res.map(|pr| pr.1.into_iter().map(|ix| ix.index()).collect())
}

/// The length of the best path found so far.
pub open spec fn best_len(b: Option<Vec<usize>>) -> int {
    match b {
        Some(p) => p@.len() as int,
        None => 0int,
    }
}

impl MoleculeGraph {
    /// A longest shortest path through the aliphatic-carbon subgraph, as a
    /// sequence of node indices: empty exactly when the graph holds no
    /// aliphatic carbon; otherwise a shortest carbon path between its own
    /// endpoints that no carbon pair's distance exceeds.
    #[verifier::loop_isolation(false)]
    pub fn find_main_carbon_chain(&self) -> (r: Vec<usize>)
        ensures
            (r@.len() == 0) <==> (forall|i: int|
                0 <= i < self.nodes().len() ==> !is_carbon_atom(#[trigger] self.nodes()[i])),
            r@.len() >= 1 ==> is_carbon_path(self.nodes(), self.edges(), r@),
            forall|x: usize, y: usize|
                pair_covered(self.nodes(), self.edges(), x, y, r@.len() as int),
            r@.len() >= 1 ==> forall|q: Seq<usize>|
                #[trigger] is_carbon_path(self.nodes(), self.edges(), q) && q[0] == r@[0]
                    && q[q.len() - 1] == r@[r@.len() - 1] ==> r@.len() <= q.len(),
    {
        let ghost nodes = self.nodes();
        let ghost edges = self.edges();
        let n = self.node_count();
        let mut best: Option<Vec<usize>> = None;
        let mut a: usize = 0;
        while a < n
            invariant
                a <= n,
                (match best {
                    Some(p) => p@.len() >= 1 && is_carbon_path(nodes, edges, p@) && (forall|
                        q: Seq<usize>,
                    |
                        #[trigger] is_carbon_path(nodes, edges, q) && q[0] == p@[0] && q[q.len()
                            - 1] == p@[p@.len() - 1] ==> p@.len() <= q.len()),
                    None => true,
                }),
                forall|x: usize, y: usize|
                    x < n && y < n && x != y && (x as int) < a as int && #[trigger] is_carbon_atom(
                        nodes[x as int],
                    ) && #[trigger] is_carbon_atom(nodes[y as int]) ==> pair_covered(
                        nodes,
                        edges,
                        x,
                        y,
                        best_len(best),
                    ),
            decreases n - a,
        {
            let aa = self.node_atom(a);
            if carbon_check(&aa) {
                let mut b: usize = 0;
                while b < n
                    invariant
                        b <= n,
                        (match best {
                            Some(p) => p@.len() >= 1 && is_carbon_path(nodes, edges, p@) && (
                            forall|q: Seq<usize>|
                                #[trigger] is_carbon_path(nodes, edges, q) && q[0] == p@[0]
                                    && q[q.len() - 1] == p@[p@.len() - 1] ==> p@.len() <= q.len()),
                            None => true,
                        }),
                        forall|x: usize, y: usize|
                            x < n && y < n && x != y && ((x as int) < a as int || (x == a && (
                            y as int) < b as int)) && #[trigger] is_carbon_atom(nodes[x as int])
                                && #[trigger] is_carbon_atom(nodes[y as int]) ==> pair_covered(
                                nodes,
                                edges,
                                x,
                                y,
                                best_len(best),
                            ),
                    decreases n - b,
                {
                    let ghost best0 = best;
                    if b != a {
                        let ba = self.node_atom(b);
                        if carbon_check(&ba) {
                            match pg_carbon_astar(&self.g, a, b) {
                                Some(p) => {
                                    let replace = match &best {
                                        Some(bp) => p.len() > bp.len(),
                                        None => true,
                                    };
                                    if replace {
                                        best = Some(p);
                                    }
                                    proof {
                                        assert forall|x: usize, y: usize|
                                            x < n && y < n && x != y && ((x as int) < a as int || (
                                            x == a && (y as int) < b as int + 1))
                                                && #[trigger] is_carbon_atom(nodes[x as int])
                                                && #[trigger] is_carbon_atom(
                                                nodes[y as int],
                                            ) implies pair_covered(
                                            nodes,
                                            edges,
                                            x,
                                            y,
                                            best_len(best),
                                        ) by {
                                            if (x as int) < a as int || (x == a && (y as int) < b as int) {
                                                assert(pair_covered(nodes, edges, x, y, best_len(best0)));
                                                assert(best_len(best0) <= best_len(best));
                                            }
                                        }
                                    }
                                },
                                None => {},
                            }
                        }
                    }
                    b = b + 1;
                }
            }
            a = a + 1;
        }
        match best {
            Some(p) => {
                proof {
                    assert forall|x: usize, y: usize| #[trigger] pair_covered(
                        nodes,
                        edges,
                        x,
                        y,
                        p@.len() as int,
                    ) by {
                        assert forall|q: Seq<usize>|
                            #[trigger] is_carbon_path(nodes, edges, q) && q[0] == x && q[q.len()
                                - 1] == y implies exists|q2: Seq<usize>|
                            is_carbon_path(nodes, edges, q2) && q2[0] == x && q2[q2.len() - 1] == y
                                && q2.len() <= p@.len() as int by {
                            if x == y {
                                let w = seq![x];
                                assert(is_carbon_path(nodes, edges, w) && w[0] == x && w[w.len()
                                    - 1] == y && w.len() <= p@.len() as int);
                            } else {
                                assert(pair_covered(nodes, edges, x, y, best_len(best)));
                            }
                        }
                    }
                }
                proof {
                    assert(p@[0] < nodes.len() && is_carbon_atom(nodes[p@[0] as int]));
                }
                p
            },
            None => {
                let mut i: usize = 0;
                while i < n
                    invariant
                        i <= n,
                        best is None,
                        forall|k: int| 0 <= k < i ==> !is_carbon_atom(#[trigger] nodes[k]),
                        forall|x: usize, y: usize|
                            x < n && y < n && x != y && #[trigger] is_carbon_atom(nodes[x as int])
                                && #[trigger] is_carbon_atom(nodes[y as int]) ==> pair_covered(
                                nodes,
                                edges,
                                x,
                                y,
                                0,
                            ),
                    decreases n - i,
                {
                    let ia = self.node_atom(i);
                    if carbon_check(&ia) {
                        let mut single: Vec<usize> = Vec::new();
                        single.push(i);
                        proof {
                            assert(single@ =~= seq![i]);
                            assert(is_carbon_path(nodes, edges, single@));
                            assert forall|x: usize, y: usize| #[trigger] pair_covered(
                                nodes,
                                edges,
                                x,
                                y,
                                1int,
                            ) by {
                                assert forall|q: Seq<usize>|
                                    #[trigger] is_carbon_path(nodes, edges, q) && q[0] == x
                                        && q[q.len() - 1] == y implies exists|q2: Seq<usize>|
                                    is_carbon_path(nodes, edges, q2) && q2[0] == x && q2[q2.len()
                                        - 1] == y && q2.len() <= 1int by {
                                    if x == y {
                                        let w = seq![x];
                                        assert(is_carbon_path(nodes, edges, w) && w[0] == x
                                            && w[w.len() - 1] == y && w.len() <= 1int);
                                    } else {
                                        assert(pair_covered(nodes, edges, x, y, 0));
                                        assert(false);
                                    }
                                }
                            }
                        }
                        return single;
                    }
                    i = i + 1;
                }
                proof {
                    assert(forall|i: int| 0 <= i < nodes.len() ==> !is_carbon_atom(
                        #[trigger] nodes[i],
                    ));
                    assert forall|x: usize, y: usize| #[trigger] pair_covered(
                        nodes,
                        edges,
                        x,
                        y,
                        0int,
                    ) by {
                        assert forall|q: Seq<usize>|
                            #[trigger] is_carbon_path(nodes, edges, q) && q[0] == x && q[q.len()
                                - 1] == y implies exists|q2: Seq<usize>|
                            is_carbon_path(nodes, edges, q2) && q2[0] == x && q2[q2.len() - 1] == y
                                && q2.len() <= 0int by {
                            assert(!is_carbon_atom(nodes[q[0] as int]));
                            assert(false);
                        }
                    }
                }
                Vec::new()
            },
        }
    }
}

/// A walk through the graph: nonempty, with consecutive nodes joined by an
/// edge.
pub open spec fn is_walk(edges: Seq<(int, int, Bond)>, p: Seq<int>) -> bool {
    &&& p.len() >= 1
    &&& forall|i: int| 0 <= i < p.len() - 1 ==> adjacent(edges, #[trigger] p[i], p[i + 1])
}

/// Whether every edge stays on one side of the node predicate `f`.
pub open spec fn edges_respect(edges: Seq<(int, int, Bond)>, f: spec_fn(int) -> bool) -> bool {
    forall|j: int| 0 <= j < edges.len() ==> (f((#[trigger] edges[j]).0) <==> f(edges[j].1))
}

/// When every edge stays on one side of `f`, so does every walk.
pub proof fn lemma_walk_same_side(edges: Seq<(int, int, Bond)>, p: Seq<int>, f: spec_fn(int) -> bool)
    requires
        edges_respect(edges, f),
        is_walk(edges, p),
    ensures
        f(p[0]) <==> f(p[p.len() - 1]),
    decreases p.len(),
{
    if p.len() >= 2 {
        assert(adjacent(edges, p[0], p[1]));
        let j = choose|j: int| 0 <= j < edges.len() && edge_connects(#[trigger] edges[j], p[0], p[1]);
        assert(f(p[0]) <==> f(p[1]));
        let q = p.drop_first();
        assert forall|i: int| 0 <= i < q.len() - 1 implies adjacent(edges, #[trigger] q[i], q[i + 1]) by {
            assert(q[i] == p[i + 1] && q[i + 1] == p[i + 2]);
        }
        lemma_walk_same_side(edges, q, f);
        assert(q[0] == p[1] && q[q.len() - 1] == p[p.len() - 1]);
    }
}

/// Atom counts split at any prefix of the links.
pub proof fn lemma_count_split(
    links: Seq<(crate::cst::BranchedAtomView, Option<crate::cst::BondOrDot>)>,
    t: int,
)
    requires
        0 <= t <= links.len(),
    ensures
        crate::lower::count_atoms_links(links) == crate::lower::count_atoms_links(links.take(t))
            + crate::lower::count_atoms_links(links.skip(t)),
    decreases t,
{
    if t == 0 {
        assert(links.take(0) =~= Seq::<
            (crate::cst::BranchedAtomView, Option<crate::cst::BondOrDot>),
        >::empty());
        assert(links.skip(0) =~= links);
    } else {
        lemma_count_split(links.drop_first(), t - 1);
        assert(links.take(t)[0] == links[0]);
        assert(links.take(t).drop_first() =~= links.drop_first().take(t - 1));
        assert(links.skip(t) =~= links.drop_first().skip(t - 1));
        assert(crate::lower::count_atoms_links(links) == crate::lower::count_atoms_ba(links[0].0)
            + crate::lower::count_atoms_links(links.drop_first()));
        assert(crate::lower::count_atoms_links(links.take(t)) == crate::lower::count_atoms_ba(
            links[0].0,
        ) + crate::lower::count_atoms_links(links.take(t).drop_first()));
    }
}

/// A dot splits components: lowering a chain `A.B` without ring-closure
/// markers, with the dot after spine link `m`, yields a graph in which no
/// walk joins the chain's first atom (node 0) to the first atom of `B`
/// (the node right after `A`'s atoms), so the graph has at least two
/// connected components.
pub proof fn lemma_dot_splits_components(c: crate::cst::ChainView, m: int)
    requires
        0 <= m,
        m + 1 < c.links.len(),
        c.links[m].1 == Some(crate::cst::BondOrDot::Dot(crate::cst::Dot)),
        crate::lower::no_rings_links(c.links),
        sp_molecule_graph(c) is Ok,
    ensures
        ({
            let r = sp_molecule_graph(c)->Ok_0;
            let kk = crate::lower::count_atoms_links(c.links.take(m + 1));
            forall|p: Seq<int>| is_walk(r.1, p) && p[0] == 0 ==> p[p.len() - 1] != kk
        }),
{
    let init = LowState { nodes: Seq::empty(), edges: Seq::empty(), rings: Map::empty() };
    match sp_lower_links(init, c.links, None, None) {
        Ok(st) => {
            crate::lower::lemma_lower_links_dot_cut(init, c.links, None, None, m);
            crate::lower::lemma_lower_links_counts(init, c.links, None, None);
            lemma_count_split(c.links, m + 1);
            crate::lower::lemma_count_atoms_pos(c.links.skip(m + 1));
            let kk = crate::lower::count_atoms_links(c.links.take(m + 1));
            let n0 = st.nodes.len() as int;
            assert(0 < kk < n0);
            // Every pre-fill edge stays within A's nodes or within B's.
            assert forall|j: int|
                0 <= j < st.edges.len() implies (0 <= (#[trigger] st.edges[j]).0 < kk && 0
                <= st.edges[j].1 < kk) || (kk <= st.edges[j].0 < n0 && kk <= st.edges[j].1
                < n0) by {
                assert((crate::lower::cut_low(st.edges[j].0, 0, kk, None)
                    && crate::lower::cut_low(st.edges[j].1, 0, kk, None)) || (
                crate::lower::cut_high(st.edges[j].0, kk, n0) && crate::lower::cut_high(
                    st.edges[j].1,
                    kk,
                    n0,
                )));
            }
            // Hydrogen filling keeps the split: each hydrogen hangs off
            // exactly one pre-fill atom.
            match crate::lower::sp_first_open(st.rings, 0) {
                Some(n) => {},
                None => {
                    let r = sp_molecule_graph(c)->Ok_0;
                    crate::lower::lemma_fill_edges((st.nodes, st.edges), st.edges, 0, n0);
                    let es = r.1;
                    let e0 = st.edges.len() as int;
                    let f = |v: int|
                        if v < kk {
                            true
                        } else if v < n0 {
                            false
                        } else {
                            exists|j: int|
                                e0 <= j < es.len() && (#[trigger] es[j]).1 == v && es[j].0 < kk
                        };
                    assert forall|j: int|
                        0 <= j < es.len() implies (f((#[trigger] es[j]).0) <==> f(es[j].1)) by {
                        if j < e0 {
                            assert(es[j] == es.take(e0)[j]);
                            assert(es[j] == st.edges[j]);
                        } else {
                            let par = es[j].0;
                            let hn = es[j].1;
                            assert(0 <= par < n0 && n0 <= hn);
                            if par < kk {
                                assert(e0 <= j < es.len() && es[j].1 == hn && es[j].0 < kk);
                                assert(f(hn));
                            } else {
                                if f(hn) {
                                    let j2 = choose|j2: int|
                                        e0 <= j2 < es.len() && (#[trigger] es[j2]).1 == hn
                                            && es[j2].0 < kk;
                                    assert(j2 == j);
                                    assert(false);
                                }
                            }
                        }
                    }
                    assert(edges_respect(es, f));
                    assert forall|p: Seq<int>|
                        is_walk(r.1, p) && p[0] == 0 implies p[p.len() - 1] != kk by {
                        lemma_walk_same_side(es, p, f);
                        assert(f(0));
                        assert(!f(kk));
                    }
                },
            }
        },
        Err(e) => {},
    }
}

} // verus!
