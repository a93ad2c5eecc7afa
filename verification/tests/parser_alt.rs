use smiles_parser::atom;
use smiles_parser::bond_digits;
use smiles_parser::bracket_atom;
use smiles_parser::chain;
use smiles_parser::isotope_opt;
use smiles_parser::symbol;
use smiles_parser::AliphaticOrganicAtom;
use smiles_parser::Atom;
use smiles_parser::Bond;
use smiles_parser::BondOrDot;
use smiles_parser::BracketAtom;
use smiles_parser::BranchedAtom;
use smiles_parser::Chain;
use smiles_parser::Element;
use smiles_parser::Symbol;

fn elem(n: u8) -> Element {
    Element::from_atomic_number(n).unwrap()
}

#[test]
fn lib_symbol_cases() {
    assert_eq!(Ok(("".as_bytes(), Symbol::Unknown)), symbol(b"*"));
    assert_eq!(
        Ok(("".as_bytes(), Symbol::ElementSymbol(elem(2)))),
        symbol(b"He")
    );
}

#[test]
fn lib_isotope_opt_cases() {
    assert_eq!(Ok(("".as_bytes(), Some(0u16))), isotope_opt(b"0"));
    assert_eq!(Ok(("".as_bytes(), Some(125u16))), isotope_opt(b"125"));
    assert_eq!(Ok(("X".as_bytes(), Some(125u16))), isotope_opt(b"125X"));
    assert_eq!(Ok(("7".as_bytes(), Some(125u16))), isotope_opt(b"1257"));
}

#[test]
fn lib_bracket_atom_cases() {
    assert_eq!(
        Ok((
            "".as_bytes(),
            BracketAtom {
                isotope: Some(16),
                symbol: Symbol::ElementSymbol(elem(6)),
                chiral: None,
                hcount: 0,
                charge: -2,
            }
        )),
        bracket_atom(b"[16C--]")
    );
    assert_eq!(
        Ok((
            "CC".as_bytes(),
            BracketAtom {
                isotope: Some(16),
                symbol: Symbol::ElementSymbol(elem(6)),
                chiral: None,
                hcount: 1,
                charge: 3,
            }
        )),
        bracket_atom(b"[16CH+3]CC")
    );
}

#[test]
fn lib_ring_bond_digit_cases() {
    assert_eq!(Ok(("".as_bytes(), 0u8)), bond_digits(b"0"));
    assert_eq!(Ok(("".as_bytes(), 12u8)), bond_digits(b"%12"));
    assert_eq!(Ok(("5".as_bytes(), 12u8)), bond_digits(b"%125"));
}

#[test]
fn lib_atom_cases() {
    assert_eq!(
        Ok((
            "".as_bytes(),
            Atom::Bracket(BracketAtom {
                isotope: Some(16),
                symbol: Symbol::ElementSymbol(elem(6)),
                chiral: None,
                hcount: 0,
                charge: 0,
            })
        )),
        atom(b"[16C]")
    );
    assert_eq!(Ok(("".as_bytes(), Atom::Unknown)), atom(b"*"));
}

#[test]
fn lib_chain_ethane() {
    assert_eq!(
        Ok((
            "".as_bytes(),
            Chain {
                chain: Some(Box::new(Chain {
                    chain: None,
                    bond_or_dot: None,
                    branched_atom: BranchedAtom {
                        atom: Atom::AliphaticOrganic(AliphaticOrganicAtom { element: elem(6) }),
                        ring_bonds: vec![],
                        branches: vec![]
                    }
                })),
                bond_or_dot: None,
                branched_atom: BranchedAtom {
                    atom: Atom::AliphaticOrganic(AliphaticOrganicAtom { element: elem(6) }),
                    ring_bonds: vec![],
                    branches: vec![]
                }
            }
        )),
        chain(b"CC")
    );
}

#[test]
fn lib_chain_fluoromethane() {
    assert_eq!(
        Ok((
            "".as_bytes(),
            Chain {
                chain: Some(Box::new(Chain {
                    chain: None,
                    bond_or_dot: None,
                    branched_atom: BranchedAtom {
                        atom: Atom::AliphaticOrganic(AliphaticOrganicAtom { element: elem(9) }),
                        ring_bonds: vec![],
                        branches: vec![]
                    }
                })),
                bond_or_dot: None,
                branched_atom: BranchedAtom {
                    atom: Atom::AliphaticOrganic(AliphaticOrganicAtom { element: elem(6) }),
                    ring_bonds: vec![],
                    branches: vec![]
                }
            }
        )),
        chain(b"CF")
    );
}

#[test]
fn lib_chain_ethene() {
    assert_eq!(
        Ok((
            "".as_bytes(),
            Chain {
                chain: Some(Box::new(Chain {
                    chain: None,
                    bond_or_dot: None,
                    branched_atom: BranchedAtom {
                        atom: Atom::AliphaticOrganic(AliphaticOrganicAtom { element: elem(6) }),
                        ring_bonds: vec![],
                        branches: vec![]
                    }
                })),
                bond_or_dot: Some(BondOrDot::Bond(Bond::Double)),
                branched_atom: BranchedAtom {
                    atom: Atom::AliphaticOrganic(AliphaticOrganicAtom { element: elem(6) }),
                    ring_bonds: vec![],
                    branches: vec![]
                }
            }
        )),
        chain(b"C=C")
    );
}

// 1-Oxaspiro[2.5]octane
#[test]
fn lib_ring_and_branch_chain() {
    let chain = chain(b"C1CCC2(CC1)CO2");
    assert!(chain.is_ok());
    assert!(chain.unwrap().0.is_empty());
}

// Isobutane
#[test]
fn lib_branch_isobutane() {
    let chain = chain(b"CC(C)C");
    assert!(chain.is_ok());
    assert!(chain.unwrap().0.is_empty());
}

// Neopentane
#[test]
fn lib_branch_neopentane() {
    let chain = chain(b"CC(C)(C)C");
    assert!(chain.is_ok());
    assert!(chain.unwrap().0.is_empty());
}

// Cyclopropyloxirane
#[test]
fn lib_rings_chain() {
    let chain = chain(b"C1CC1C2CO2");
    println!("{:?}", chain);
    assert!(chain.is_ok());
    assert!(chain.unwrap().0.is_empty());
}
