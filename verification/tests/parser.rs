use smiles_parser::atom;
use smiles_parser::bond_digits;
use smiles_parser::bracket_atom;
use smiles_parser::chain;
use smiles_parser::chirality;
use smiles_parser::isotope_opt;
use smiles_parser::symbol;
use smiles_parser::AliphaticOrganicAtom;
use smiles_parser::Atom;
use smiles_parser::Bond;
use smiles_parser::BondOrDot;
use smiles_parser::BracketAtom;
use smiles_parser::Branch;
use smiles_parser::BranchedAtom;
use smiles_parser::Chain;
use smiles_parser::Chirality;
use smiles_parser::Dot;
use smiles_parser::Element;
use smiles_parser::Symbol;

fn el(n: u8) -> Element {
    Element::from_atomic_number(n).unwrap()
}

#[test]
fn symbol_cases() {
    assert_eq!(Ok(("".as_bytes(), Symbol::Unknown)), symbol(b"*"));
    assert_eq!(
        Ok(("".as_bytes(), Symbol::ElementSymbol(el(2)))),
        symbol(b"He")
    );
}

#[test]
fn isotope_opt_cases() {
    assert_eq!(Ok(("".as_bytes(), Some(0u16))), isotope_opt(b"0"));
    assert_eq!(Ok(("".as_bytes(), Some(125u16))), isotope_opt(b"125"));
    assert_eq!(Ok(("X".as_bytes(), Some(125u16))), isotope_opt(b"125X"));
    assert_eq!(Ok(("7".as_bytes(), Some(125u16))), isotope_opt(b"1257"));
}

#[test]
fn bracket_atom_cases() {
    assert_eq!(
        Ok((
            "".as_bytes(),
            BracketAtom {
                isotope: Some(16),
                symbol: Symbol::ElementSymbol(el(6)),
                chiral: None,
                hcount: 0,
                charge: -2,
            }
        )),
        bracket_atom(b"[16C--]")
    );
    assert_eq!(
        Ok((
            "CC".as_bytes(),
            BracketAtom {
                isotope: Some(16),
                symbol: Symbol::ElementSymbol(el(6)),
                chiral: None,
                hcount: 1,
                charge: 3,
            }
        )),
        bracket_atom(b"[16CH+3]CC")
    );
}

#[test]
fn ring_bond_digit_cases() {
    assert_eq!(Ok(("".as_bytes(), 0u8)), bond_digits(b"0"));
    assert_eq!(Ok(("".as_bytes(), 12u8)), bond_digits(b"%12"));
    assert_eq!(Ok(("5".as_bytes(), 12u8)), bond_digits(b"%125"));
}

#[test]
fn chirality_cases() {
    assert_eq!(
        Ok(("".as_bytes(), Chirality::Anticlockwise)),
        chirality(b"@")
    );
    assert_eq!(
        Ok(("".as_bytes(), Chirality::Tetrahedral(1))),
        chirality(b"@TH1")
    );
    assert_eq!(
        Ok(("".as_bytes(), Chirality::Allenal(2))),
        chirality(b"@AL2")
    );
    assert_eq!(
        Ok(("".as_bytes(), Chirality::SquarePlanar(3))),
        chirality(b"@SP3")
    );
    assert_eq!(
        Ok(("".as_bytes(), Chirality::TrigonalBipyramidal(1))),
        chirality(b"@TB1")
    );
    assert_eq!(
        Ok(("".as_bytes(), Chirality::TrigonalBipyramidal(11))),
        chirality(b"@TB11")
    );
    assert_eq!(
        Ok(("".as_bytes(), Chirality::Octahedral(1))),
        chirality(b"@OH1")
    );
    assert_eq!(
        Ok(("".as_bytes(), Chirality::Octahedral(11))),
        chirality(b"@OH11")
    );
}

#[test]
fn atom_cases() {
    assert_eq!(
        Ok((
            "".as_bytes(),
            Atom::Bracket(BracketAtom {
                isotope: Some(16),
                symbol: Symbol::ElementSymbol(el(6)),
                chiral: None,
                hcount: 0,
                charge: 0,
            })
        )),
        atom(b"[16C]")
    );
    assert_eq!(Ok(("".as_bytes(), Atom::Unknown)), atom(b"*"));
}

#[test]
fn chain_ethane() {
    assert_eq!(
        Ok((
            "".as_bytes(),
            Chain {
                chain: Some(Box::new(Chain {
                    chain: None,
                    bond_or_dot: None,
                    branched_atom: BranchedAtom {
                        atom: Atom::AliphaticOrganic(AliphaticOrganicAtom { element: el(6) }),
                        ring_bonds: vec![],
                        branches: vec![]
                    }
                })),
                bond_or_dot: None,
                branched_atom: BranchedAtom {
                    atom: Atom::AliphaticOrganic(AliphaticOrganicAtom { element: el(6) }),
                    ring_bonds: vec![],
                    branches: vec![]
                }
            }
        )),
        chain(b"CC")
    );
}

#[test]
fn chain_fluoromethane() {
    assert_eq!(
        Ok((
            "".as_bytes(),
            Chain {
                chain: Some(Box::new(Chain {
                    chain: None,
                    bond_or_dot: None,
                    branched_atom: BranchedAtom {
                        atom: Atom::AliphaticOrganic(AliphaticOrganicAtom { element: el(9) }),
                        ring_bonds: vec![],
                        branches: vec![]
                    }
                })),
                bond_or_dot: None,
                branched_atom: BranchedAtom {
                    atom: Atom::AliphaticOrganic(AliphaticOrganicAtom { element: el(6) }),
                    ring_bonds: vec![],
                    branches: vec![]
                }
            }
        )),
        chain(b"CF")
    );
}

#[test]
fn chain_ethene() {
    assert_eq!(
        Ok((
            "".as_bytes(),
            Chain {
                chain: Some(Box::new(Chain {
                    chain: None,
                    bond_or_dot: None,
                    branched_atom: BranchedAtom {
                        atom: Atom::AliphaticOrganic(AliphaticOrganicAtom { element: el(6) }),
                        ring_bonds: vec![],
                        branches: vec![]
                    }
                })),
                bond_or_dot: Some(BondOrDot::Bond(Bond::Double)),
                branched_atom: BranchedAtom {
                    atom: Atom::AliphaticOrganic(AliphaticOrganicAtom { element: el(6) }),
                    ring_bonds: vec![],
                    branches: vec![]
                }
            }
        )),
        chain(b"C=C")
    );
}

// 1-Oxaspiro[2.5]octane
#[test]
fn ring_and_branch_chain() {
    let chain = chain(b"C1CCC2(CC1)CO2");
    assert!(chain.is_ok());
    assert!(chain.unwrap().0.is_empty());
}

// Isobutane
#[test]
fn branch_isobutane() {
    let chain = chain(b"CC(C)C");
    assert!(chain.is_ok());
    assert!(chain.unwrap().0.is_empty());
}

// Neopentane
#[test]
fn branch_neopentane() {
    let chain = chain(b"CC(C)(C)C");
    assert!(chain.is_ok());
    assert!(chain.unwrap().0.is_empty());
}

// Cyclopropyloxirane
#[test]
fn rings_chain() {
    let chain = chain(b"C1CC1C2CO2");
    println!("{:?}", chain);
    assert!(chain.is_ok());
    assert!(chain.unwrap().0.is_empty());
}

#[test]
fn chain_trigonal_bipyramidal() {
    assert_eq!(
        Ok((
            "".as_bytes(),
            Chain {
                chain: Some(Box::new(Chain {
                    chain: Some(Box::new(Chain {
                        chain: None,
                        bond_or_dot: None,
                        branched_atom: BranchedAtom {
                            atom: Atom::AliphaticOrganic(AliphaticOrganicAtom { element: el(7) }),
                            ring_bonds: vec![],
                            branches: vec![]
                        }
                    })),
                    bond_or_dot: None,
                    branched_atom: BranchedAtom {
                        atom: Atom::Bracket(BracketAtom {
                            isotope: None,
                            symbol: Symbol::ElementSymbol(el(33)),
                            chiral: Some(Chirality::TrigonalBipyramidal(15)),
                            hcount: 0,
                            charge: 0,
                        }),
                        ring_bonds: vec![],
                        branches: vec![
                            Branch {
                                bond_or_dot: None,
                                chain: Chain {
                                    chain: None,
                                    bond_or_dot: None,
                                    branched_atom: BranchedAtom {
                                        atom: Atom::AliphaticOrganic(AliphaticOrganicAtom {
                                            element: el(17)
                                        }),
                                        ring_bonds: vec![],
                                        branches: vec![]
                                    }
                                },
                            },
                            Branch {
                                bond_or_dot: None,
                                chain: Chain {
                                    chain: None,
                                    bond_or_dot: None,
                                    branched_atom: BranchedAtom {
                                        atom: Atom::AliphaticOrganic(AliphaticOrganicAtom {
                                            element: el(16)
                                        }),
                                        ring_bonds: vec![],
                                        branches: vec![]
                                    }
                                },
                            },
                            Branch {
                                bond_or_dot: None,
                                chain: Chain {
                                    chain: None,
                                    bond_or_dot: None,
                                    branched_atom: BranchedAtom {
                                        atom: Atom::AliphaticOrganic(AliphaticOrganicAtom {
                                            element: el(35)
                                        }),
                                        ring_bonds: vec![],
                                        branches: vec![]
                                    }
                                },
                            },
                        ]
                    }
                })),
                bond_or_dot: None,
                branched_atom: BranchedAtom {
                    atom: Atom::AliphaticOrganic(AliphaticOrganicAtom { element: el(9) }),
                    ring_bonds: vec![],
                    branches: vec![]
                }
            }
        )),
        chain(b"F[As@TB15](Cl)(S)(Br)N")
    );
}

#[test]
fn chain_sodium_chloride() {
    assert_eq!(
        Ok((
            "".as_bytes(),
            Chain {
                chain: Some(Box::new(Chain {
                    chain: None,
                    bond_or_dot: None,
                    branched_atom: BranchedAtom {
                        atom: Atom::Bracket(BracketAtom {
                            isotope: None,
                            symbol: Symbol::ElementSymbol(el(17)),
                            chiral: None,
                            hcount: 0,
                            charge: -1,
                        }),
                        ring_bonds: vec![],
                        branches: vec![]
                    }
                })),
                bond_or_dot: Some(BondOrDot::Dot(Dot)),
                branched_atom: BranchedAtom {
                    atom: Atom::Bracket(BracketAtom {
                        isotope: None,
                        symbol: Symbol::ElementSymbol(el(11)),
                        chiral: None,
                        hcount: 0,
                        charge: 1,
                    }),
                    ring_bonds: vec![],
                    branches: vec![]
                }
            }
        )),
        chain(b"[Na+].[Cl-]")
    );
}
