use smiles_parser::bond_digits;
use smiles_parser::bracket_atom;
use smiles_parser::chain;
use smiles_parser::symbol;
use smiles_parser::Element;
use smiles_parser::Symbol;

fn num(n: u8) -> Element {
    Element::from_atomic_number(n).unwrap()
}

#[test]
fn two_letter_symbols_win_over_one_letter() {
    // Sc is scandium, not sulfur followed by an aromatic carbon.
    assert_eq!(
        Ok(("".as_bytes(), Symbol::ElementSymbol(num(21)))),
        symbol(b"Sc")
    );
    // Outside brackets, a lowercase letter cannot continue the chain.
    let (rest, _) = chain(b"Sc").unwrap();
    assert_eq!(rest, b"c");
}

#[test]
fn aromatic_symbols_parse_inside_brackets() {
    assert_eq!(
        Ok(("".as_bytes(), Symbol::AromaticSymbol(num(34)))),
        symbol(b"se")
    );
    assert_eq!(
        Ok(("".as_bytes(), Symbol::AromaticSymbol(num(33)))),
        symbol(b"as")
    );
    let (_, ba) = bracket_atom(b"[c]").unwrap();
    assert_eq!(ba.symbol, Symbol::AromaticSymbol(num(6)));
    assert!(symbol(b"a").is_err());
}

#[test]
fn hcount_defaults_and_digit() {
    let (_, ba) = bracket_atom(b"[CH]").unwrap();
    assert_eq!(ba.hcount, 1);
    let (_, ba) = bracket_atom(b"[CH4]").unwrap();
    assert_eq!(ba.hcount, 4);
    let (_, ba) = bracket_atom(b"[C]").unwrap();
    assert_eq!(ba.hcount, 0);
}

#[test]
fn charge_clamps_at_the_i8_range() {
    let (_, ba) = bracket_atom(b"[C+99+99]").unwrap();
    assert_eq!(ba.charge, 127);
    let (_, ba) = bracket_atom(b"[C-99-99]").unwrap();
    assert_eq!(ba.charge, -128);
}

#[test]
fn isotope_three_digit_boundary() {
    let (_, ba) = bracket_atom(b"[999U]").unwrap();
    assert_eq!(ba.isotope, Some(999));
}

#[test]
fn percent_ring_number_zero() {
    assert_eq!(Ok(("".as_bytes(), 0u8)), bond_digits(b"%00"));
    assert!(bond_digits(b"%1").is_err());
    assert!(bond_digits(b"x").is_err());
}
