use std::collections::hash_map::DefaultHasher;
use std::hash::Hash;
use std::hash::Hasher;

use smiles_parser::chain;
use smiles_parser::graph::Atom as GraphAtom;
use smiles_parser::graph::LoweringError;
use smiles_parser::graph::MoleculeGraph;
use smiles_parser::AliphaticOrganicAtom;
use smiles_parser::Atom;
use smiles_parser::Bond;
use smiles_parser::BranchedAtom;
use smiles_parser::Chain;
use smiles_parser::Element;

fn parse_all(input: &[u8]) -> Chain {
    let (rest, c) = chain(input).unwrap();
    assert!(rest.is_empty());
    c
}

fn graph_of(input: &[u8]) -> MoleculeGraph {
    MoleculeGraph::from_chain(parse_all(input)).unwrap()
}

fn is_carbon(a: &GraphAtom) -> bool {
    match a {
        GraphAtom::AliphaticOrganic(at) => at.element.atomic_number() == 6,
        _ => false,
    }
}

fn is_hydrogen_node(a: &GraphAtom) -> bool {
    match a {
        GraphAtom::Element(e) => e.atomic_number() == 1,
        _ => false,
    }
}

#[test]
fn empty_input_is_a_parse_failure() {
    assert!(chain(b"").is_err());
    assert!(smiles_parser::atom(b"").is_err());
}

#[test]
fn wildcard_alone_is_a_one_atom_chain() {
    let c = parse_all(b"*");
    assert_eq!(c.branched_atom.atom, Atom::Unknown);
    assert!(c.bond_or_dot.is_none());
    assert!(c.chain.is_none());
}

#[test]
fn bracket_tail_consumed_by_chain() {
    // Parsing `bracket_atom` directly leaves `CC`; parsing `chain` takes it.
    let (rest, _) = smiles_parser::bracket_atom(b"[16CH+3]CC").unwrap();
    assert_eq!(rest, b"CC");
    let (rest, _) = chain(b"[16CH+3]CC").unwrap();
    assert!(rest.is_empty());
}

#[test]
fn equal_chains_compare_equal_and_hash_equal() {
    let a = parse_all(b"C1CCC2(CC1)CO2");
    let b = parse_all(b"C1CCC2(CC1)CO2");
    assert_eq!(a, b);
    let mut ha = DefaultHasher::new();
    a.hash(&mut ha);
    let mut hb = DefaultHasher::new();
    b.hash(&mut hb);
    assert_eq!(ha.finish(), hb.finish());
}

#[test]
fn charge_runs_sum_signed() {
    let (_, ba) = smiles_parser::bracket_atom(b"[C+--]").unwrap();
    assert_eq!(ba.charge, -1);
    let (_, ba) = smiles_parser::bracket_atom(b"[C+2-1]").unwrap();
    assert_eq!(ba.charge, 1);
}

#[test]
fn methane_fills_four_hydrogens() {
    let g = graph_of(b"C");
    assert_eq!(g.node_count(), 5);
    assert_eq!(g.edge_count(), 4);
    let edges = g.edge_list();
    for (k, e) in edges.iter().enumerate() {
        assert_eq!(*e, (0, k + 1, Bond::Single));
    }
}

#[test]
fn ethene_edge_list_in_insertion_order() {
    let g = graph_of(b"C=C");
    assert_eq!(g.node_count(), 6);
    assert_eq!(
        g.edge_list(),
        vec![
            (0, 1, Bond::Double),
            (0, 2, Bond::Single),
            (0, 3, Bond::Single),
            (1, 4, Bond::Single),
            (1, 5, Bond::Single),
        ]
    );
}

#[test]
fn atom_count_is_preserved_before_hydrogen_filling() {
    // Hydrogen filling only appends plain-element nodes, so the non-element
    // nodes are exactly the branched atoms of the syntax tree.
    let g = graph_of(b"CC(C)C");
    let mut heavy = 0;
    for i in 0..g.node_count() {
        if !is_hydrogen_node(&g.node_atom(i)) {
            heavy += 1;
        }
    }
    assert_eq!(heavy, 4);
}

#[test]
fn isobutane_central_carbon_neighbors() {
    // The central carbon of CC(C)C has three carbon neighbors and one
    // hydrogen after valence closure.
    let g = graph_of(b"CC(C)C");
    let mut carbon_neighbors = 0;
    let mut hydrogen_neighbors = 0;
    for (a, b, bond) in g.edge_list() {
        assert_eq!(bond, Bond::Single);
        let other = if a == 1 {
            Some(b)
        } else if b == 1 {
            Some(a)
        } else {
            None
        };
        if let Some(o) = other {
            if is_carbon(&g.node_atom(o)) {
                carbon_neighbors += 1;
            }
            if is_hydrogen_node(&g.node_atom(o)) {
                hydrogen_neighbors += 1;
            }
        }
    }
    assert_eq!(carbon_neighbors, 3);
    assert_eq!(hydrogen_neighbors, 1);
}

#[test]
fn branches_are_lowered_before_the_tail() {
    // In C(F)(Cl)Br the branch atoms take the node indices right after
    // their branch point, and the chain's tail comes last.
    let g = graph_of(b"C(F)(Cl)Br");
    let atom_at = |i: usize| match g.node_atom(i) {
        GraphAtom::AliphaticOrganic(at) => at.element.atomic_number(),
        _ => 0,
    };
    assert_eq!(atom_at(0), 6);
    assert_eq!(atom_at(1), 9);
    assert_eq!(atom_at(2), 17);
    assert_eq!(atom_at(3), 35);
}

#[test]
fn oxaspiro_ring_closure_edges() {
    // 1-oxaspiro[2.5]octane: a 6-ring and a 3-ring sharing one atom; the
    // oxygen has exactly two bonds.
    let g = graph_of(b"C1CCC2(CC1)CO2");
    let mut oxygen = None;
    for i in 0..g.node_count() {
        if let GraphAtom::AliphaticOrganic(at) = g.node_atom(i) {
            if at.element.atomic_number() == 8 {
                assert!(oxygen.is_none());
                oxygen = Some(i);
            }
        }
    }
    let oxygen = oxygen.unwrap();
    let mut oxygen_degree = 0;
    for (a, b, _) in g.edge_list() {
        if a == oxygen || b == oxygen {
            oxygen_degree += 1;
        }
    }
    assert_eq!(oxygen_degree, 2);
    // 8 heavy atoms and 9 ring/chain bonds among them (two cycles).
    let heavy = (0..g.node_count())
        .filter(|i| !is_hydrogen_node(&g.node_atom(*i)))
        .count();
    assert_eq!(heavy, 8);
    let heavy_edges = g
        .edge_list()
        .into_iter()
        .filter(|(a, b, _)| !is_hydrogen_node(&g.node_atom(*a)) && !is_hydrogen_node(&g.node_atom(*b)))
        .count();
    assert_eq!(heavy_edges, 9);
}

#[test]
fn sodium_chloride_has_no_edge() {
    let g = graph_of(b"[Na+].[Cl-]");
    assert_eq!(g.node_count(), 2);
    assert_eq!(g.edge_count(), 0);
    match g.node_atom(0) {
        GraphAtom::Bracket(ba) => {
            assert_eq!(ba.charge, 1);
        },
        _ => panic!(),
    }
    match g.node_atom(1) {
        GraphAtom::Bracket(ba) => {
            assert_eq!(ba.charge, -1);
        },
        _ => panic!(),
    }
}

#[test]
fn dot_disconnects_carbons() {
    let g = graph_of(b"C.C");
    // No edge joins the two carbons: every edge goes to a hydrogen.
    for (a, b, _) in g.edge_list() {
        assert!(is_hydrogen_node(&g.node_atom(a)) || is_hydrogen_node(&g.node_atom(b)));
    }
}

#[test]
fn unclosed_ring_is_rejected() {
    let c = parse_all(b"C1CC");
    assert_eq!(
        MoleculeGraph::from_chain(c).err(),
        Some(LoweringError::UnclosedRingBond(1))
    );
}

#[test]
fn conflicting_ring_bonds_are_rejected() {
    let c = parse_all(b"C=1CCC#1");
    assert_eq!(
        MoleculeGraph::from_chain(c).err(),
        Some(LoweringError::RingBondMismatch(1))
    );
}

#[test]
fn excess_valence_is_rejected() {
    // An oxygen with three single bonds exceeds every oxygen valence.
    let c = parse_all(b"O(C)(C)C");
    assert_eq!(
        MoleculeGraph::from_chain(c).err(),
        Some(LoweringError::UnsupportedValence)
    );
}

#[test]
fn unsupported_element_is_rejected() {
    // An organic-subset atom built by hand with an element outside the
    // subset has no valence model.
    let c = Chain {
        chain: None,
        bond_or_dot: None,
        branched_atom: BranchedAtom {
            atom: Atom::AliphaticOrganic(AliphaticOrganicAtom {
                element: Element::from_atomic_number(99).unwrap(),
            }),
            ring_bonds: vec![],
            branches: vec![],
        },
    };
    assert_eq!(
        MoleculeGraph::from_chain(c).err(),
        Some(LoweringError::UnsupportedAtom)
    );
}

#[test]
fn ring_bond_agreeing_annotations_close() {
    let g = graph_of(b"C=1CCCCC=1");
    let edges = g.edge_list();
    assert!(edges.contains(&(0, 5, Bond::Double)));
}

#[test]
fn main_carbon_chain_of_isobutane() {
    let g = graph_of(b"CC(C)C");
    let path = g.find_main_carbon_chain();
    assert_eq!(path.len(), 3);
    for i in &path {
        assert!(is_carbon(&g.node_atom(*i)));
    }
    // The middle node of every three-carbon path in isobutane is the
    // branch point.
    assert_eq!(path[1], 1);
}

#[test]
fn main_carbon_chain_of_single_carbon() {
    let g = graph_of(b"C");
    assert_eq!(g.find_main_carbon_chain(), vec![0]);
}

#[test]
fn main_carbon_chain_without_carbons_is_empty() {
    let g = graph_of(b"[Na+].[Cl-]");
    assert_eq!(g.find_main_carbon_chain(), Vec::<usize>::new());
}

#[test]
fn main_carbon_chain_skips_the_oxygen() {
    // In CCOCC the oxygen splits the carbons: the longest carbon path has
    // two atoms.
    let g = graph_of(b"CCOCC");
    assert_eq!(g.find_main_carbon_chain().len(), 2);
}

#[test]
fn valid_inputs_parse_completely() {
    for s in [
        b"F[As@TB15](Cl)(S)(Br)N".as_slice(),
        b"C1CCC2(CC1)CO2",
        b"[16CH+3]CC",
        b"[Na+].[Cl-]",
        b"N[C@@H](C)C(=O)O",
    ] {
        let r = chain(s);
        assert!(r.is_ok());
        assert!(r.unwrap().0.is_empty());
    }
}

#[test]
fn longest_match_chirality_tags() {
    let (rest, c) = smiles_parser::chirality(b"@OH30").unwrap();
    assert!(rest.is_empty());
    assert_eq!(c, smiles_parser::Chirality::Octahedral(30));
    let (rest, c) = smiles_parser::chirality(b"@OH21X").unwrap();
    assert_eq!(rest, b"X");
    assert_eq!(c, smiles_parser::Chirality::Octahedral(21));
}
