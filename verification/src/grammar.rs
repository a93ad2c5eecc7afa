//! The SMILES grammar as spec-level parsing functions over byte sequences.
//!
//! Each function consumes a prefix of `s` starting at `pos` and yields the
//! recognized value together with the position just past it, or `None` when
//! the production does not match there. Executable parsers in `parse` are
//! proved to return exactly what these functions describe.

use vstd::prelude::*;

use crate::cst::Atom;
use crate::cst::AliphaticOrganicAtom;
use crate::cst::Bond;
use crate::cst::BondOrDot;
use crate::cst::BracketAtom;
use crate::cst::BranchView;
use crate::cst::BranchedAtomView;
use crate::cst::ChainView;
use crate::cst::Chirality;
use crate::cst::Dot;
use crate::cst::RingBond;
use crate::cst::Symbol;
use crate::element::Element;
use crate::element::one_letter_element;
use crate::element::two_letter_element;

verus! {

/// Whether `c` is an ASCII decimal digit.
pub open spec fn is_digit_byte(c: u8) -> bool {
    48 <= c <= 57
}

/// The numeric value of an ASCII decimal digit.
pub open spec fn digit_val(c: u8) -> int {
    c - 48
}

/// Signed addition on `i8`, clamped to the representable range.
pub open spec fn sat_add_i8(a: i8, b: i8) -> i8 {
    if a + b > 127 {
        127i8
    } else if a + b < -128 {
        (-128) as i8
    } else {
        (a + b) as i8
    }
}

/// A bond marker: `-`, `=`, `#`, `$`, `:`, `/` or `\`.
pub open spec fn sp_bond(s: Seq<u8>, pos: int) -> Option<(Bond, int)> {
    if 0 <= pos < s.len() {
        let c = s[pos];
        if c == 45u8 {
            Some((Bond::Single, pos + 1))
        } else if c == 61u8 {
            Some((Bond::Double, pos + 1))
        } else if c == 35u8 {
            Some((Bond::Triple, pos + 1))
        } else if c == 36u8 {
            Some((Bond::Quadruple, pos + 1))
        } else if c == 58u8 {
            Some((Bond::Aromatic, pos + 1))
        } else if c == 47u8 {
            Some((Bond::Up, pos + 1))
        } else if c == 92u8 {
            Some((Bond::Down, pos + 1))
        } else {
            None
        }
    } else {
        None
    }
}

/// A bond marker or the `.` separator; bonds are tried first.
pub open spec fn sp_bond_or_dot(s: Seq<u8>, pos: int) -> Option<(BondOrDot, int)> {
    match sp_bond(s, pos) {
        Some((b, p)) => Some((BondOrDot::Bond(b), p)),
        None => if 0 <= pos < s.len() && s[pos] == 46u8 {
            Some((BondOrDot::Dot(Dot), pos + 1))
        } else {
            None
        },
    }
}

/// A ring number: one decimal digit, or `%` followed by exactly two digits.
pub open spec fn sp_bond_digits(s: Seq<u8>, pos: int) -> Option<(u8, int)> {
    if 0 <= pos < s.len() && is_digit_byte(s[pos]) {
        Some((digit_val(s[pos]) as u8, pos + 1))
    } else if 0 <= pos && pos + 3 <= s.len() && s[pos] == 37u8 && is_digit_byte(s[pos + 1])
        && is_digit_byte(s[pos + 2]) {
        Some(((10 * digit_val(s[pos + 1]) + digit_val(s[pos + 2])) as u8, pos + 3))
    } else {
        None
    }
}

/// A ring-closure marker: an optional bond followed by a ring number.
pub open spec fn sp_ring_bond(s: Seq<u8>, pos: int) -> Option<(RingBond, int)> {
    match sp_bond(s, pos) {
        Some((b, p)) => match sp_bond_digits(s, p) {
            Some((n, p2)) => Some((RingBond { bond: Some(b), ring_number: n }, p2)),
            None => None,
        },
        None => match sp_bond_digits(s, pos) {
            Some((n, p2)) => Some((RingBond { bond: None, ring_number: n }, p2)),
            None => None,
        },
    }
}

/// Zero or more ring-closure markers.
pub open spec fn sp_ring_bonds(s: Seq<u8>, pos: int) -> (Seq<RingBond>, int)
    decreases s.len() - pos,
{
    match sp_ring_bond(s, pos) {
        Some((rb, p)) => if pos < p <= s.len() {
            let (rest, e) = sp_ring_bonds(s, p);
            (seq![rb] + rest, e)
        } else {
            (Seq::empty(), pos)
        },
        None => (Seq::empty(), pos),
    }
}

/// An isotope prefix: one to three decimal digits, greedily.
pub open spec fn sp_isotope(s: Seq<u8>, pos: int) -> (Option<u16>, int) {
    if 0 <= pos < s.len() && is_digit_byte(s[pos]) {
        if pos + 1 < s.len() && is_digit_byte(s[pos + 1]) {
            if pos + 2 < s.len() && is_digit_byte(s[pos + 2]) {
                (
                    Some((100 * digit_val(s[pos]) + 10 * digit_val(s[pos + 1]) + digit_val(
                        s[pos + 2],
                    )) as u16),
                    pos + 3,
                )
            } else {
                (Some((10 * digit_val(s[pos]) + digit_val(s[pos + 1])) as u16), pos + 2)
            }
        } else {
            (Some(digit_val(s[pos]) as u16), pos + 1)
        }
    } else {
        (None, pos)
    }
}

/// A hydrogen count: `H` with an optional single digit; `H` alone means 1,
/// no `H` means 0.
pub open spec fn sp_hcount(s: Seq<u8>, pos: int) -> (u8, int) {
    if 0 <= pos < s.len() && s[pos] == 72u8 {
        if pos + 1 < s.len() && is_digit_byte(s[pos + 1]) {
            (digit_val(s[pos + 1]) as u8, pos + 2)
        } else {
            (1u8, pos + 1)
        }
    } else {
        (0u8, pos)
    }
}

/// One signed charge run: `+` or `-` with an optional one- or two-digit
/// magnitude (default 1).
pub open spec fn sp_charge_run(s: Seq<u8>, pos: int) -> Option<(i8, int)> {
    if 0 <= pos < s.len() && (s[pos] == 43u8 || s[pos] == 45u8) {
        let plus = s[pos] == 43u8;
        if pos + 1 < s.len() && is_digit_byte(s[pos + 1]) {
            if pos + 2 < s.len() && is_digit_byte(s[pos + 2]) {
                let m = 10 * digit_val(s[pos + 1]) + digit_val(s[pos + 2]);
                Some(((if plus { m } else { -m }) as i8, pos + 3))
            } else {
                let m = digit_val(s[pos + 1]);
                Some(((if plus { m } else { -m }) as i8, pos + 2))
            }
        } else {
            Some((if plus { 1i8 } else { -1i8 }, pos + 1))
        }
    } else {
        None
    }
}

/// The total charge: the clamped signed sum of all charge runs, folded
/// left-to-right onto `acc`.
pub open spec fn sp_charge(s: Seq<u8>, pos: int, acc: i8) -> (i8, int)
    decreases s.len() - pos,
{
    match sp_charge_run(s, pos) {
        Some((v, p)) => if pos < p <= s.len() {
            sp_charge(s, p, sat_add_i8(acc, v))
        } else {
            (acc, pos)
        },
        None => (acc, pos),
    }
}

/// An element symbol inside a bracket atom: `*`, a two-letter element
/// symbol, a one-letter element symbol, or an aromatic symbol; two-letter
/// symbols win over one-letter ones.
pub open spec fn sp_symbol(s: Seq<u8>, pos: int) -> Option<(Symbol, int)> {
    if 0 <= pos < s.len() {
        if s[pos] == 42u8 {
            Some((Symbol::Unknown, pos + 1))
        } else if pos + 2 <= s.len() && two_letter_element(s[pos], s[pos + 1]).is_some() {
            Some(
                (
                    Symbol::ElementSymbol(Element { num: two_letter_element(s[pos], s[pos + 1])->0 }),
                    pos + 2,
                ),
            )
        } else if one_letter_element(s[pos]).is_some() {
            Some((Symbol::ElementSymbol(Element { num: one_letter_element(s[pos])->0 }), pos + 1))
        } else if pos + 2 <= s.len() && s[pos] == 115u8 && s[pos + 1] == 101u8 {
            Some((Symbol::AromaticSymbol(Element { num: 34 }), pos + 2))
        } else if pos + 2 <= s.len() && s[pos] == 97u8 && s[pos + 1] == 115u8 {
            Some((Symbol::AromaticSymbol(Element { num: 33 }), pos + 2))
        } else if s[pos] == 98u8 {
            Some((Symbol::AromaticSymbol(Element { num: 5 }), pos + 1))
        } else if s[pos] == 99u8 {
            Some((Symbol::AromaticSymbol(Element { num: 6 }), pos + 1))
        } else if s[pos] == 110u8 {
            Some((Symbol::AromaticSymbol(Element { num: 7 }), pos + 1))
        } else if s[pos] == 111u8 {
            Some((Symbol::AromaticSymbol(Element { num: 8 }), pos + 1))
        } else if s[pos] == 112u8 {
            Some((Symbol::AromaticSymbol(Element { num: 15 }), pos + 1))
        } else if s[pos] == 115u8 {
            Some((Symbol::AromaticSymbol(Element { num: 16 }), pos + 1))
        } else {
            None
        }
    } else {
        None
    }
}

/// A chirality tag, longest form first: `@TH1`..`@TH2`, `@AL1`..`@AL2`,
/// `@SP1`..`@SP3`, `@TB1`..`@TB20`, `@OH1`..`@OH30`, `@@`, `@`.
pub open spec fn sp_chirality(s: Seq<u8>, pos: int) -> Option<(Chirality, int)> {
    if 0 <= pos < s.len() && s[pos] == 64u8 {
        if pos + 4 <= s.len() && s[pos + 1] == 84u8 && s[pos + 2] == 72u8 && (s[pos + 3] == 49u8
            || s[pos + 3] == 50u8) {
            Some((Chirality::Tetrahedral(digit_val(s[pos + 3]) as u8), pos + 4))
        } else if pos + 4 <= s.len() && s[pos + 1] == 65u8 && s[pos + 2] == 76u8 && (s[pos + 3]
            == 49u8 || s[pos + 3] == 50u8) {
            Some((Chirality::Allenal(digit_val(s[pos + 3]) as u8), pos + 4))
        } else if pos + 4 <= s.len() && s[pos + 1] == 83u8 && s[pos + 2] == 80u8 && (s[pos + 3]
            == 49u8 || s[pos + 3] == 50u8 || s[pos + 3] == 51u8) {
            Some((Chirality::SquarePlanar(digit_val(s[pos + 3]) as u8), pos + 4))
        } else if pos + 5 <= s.len() && s[pos + 1] == 84u8 && s[pos + 2] == 66u8 && is_digit_byte(
            s[pos + 3],
        ) && is_digit_byte(s[pos + 4]) && 10 <= 10 * digit_val(s[pos + 3]) + digit_val(s[pos + 4])
            <= 20 {
            Some(
                (
                    Chirality::TrigonalBipyramidal(
                        (10 * digit_val(s[pos + 3]) + digit_val(s[pos + 4])) as u8,
                    ),
                    pos + 5,
                ),
            )
        } else if pos + 4 <= s.len() && s[pos + 1] == 84u8 && s[pos + 2] == 66u8 && is_digit_byte(
            s[pos + 3],
        ) && 1 <= digit_val(s[pos + 3]) <= 9 {
            Some((Chirality::TrigonalBipyramidal(digit_val(s[pos + 3]) as u8), pos + 4))
        } else if pos + 5 <= s.len() && s[pos + 1] == 79u8 && s[pos + 2] == 72u8 && is_digit_byte(
            s[pos + 3],
        ) && is_digit_byte(s[pos + 4]) && 10 <= 10 * digit_val(s[pos + 3]) + digit_val(s[pos + 4])
            <= 30 {
            Some(
                (
                    Chirality::Octahedral((10 * digit_val(s[pos + 3]) + digit_val(s[pos + 4])) as u8),
                    pos + 5,
                ),
            )
        } else if pos + 4 <= s.len() && s[pos + 1] == 79u8 && s[pos + 2] == 72u8 && is_digit_byte(
            s[pos + 3],
        ) && 1 <= digit_val(s[pos + 3]) <= 9 {
            Some((Chirality::Octahedral(digit_val(s[pos + 3]) as u8), pos + 4))
        } else if pos + 2 <= s.len() && s[pos + 1] == 64u8 {
            Some((Chirality::Clockwise, pos + 2))
        } else {
            Some((Chirality::Anticlockwise, pos + 1))
        }
    } else {
        None
    }
}

/// A bracket atom: `[` isotope? symbol chirality? hcount charge `]`.
pub open spec fn sp_bracket_atom(s: Seq<u8>, pos: int) -> Option<(BracketAtom, int)> {
    if 0 <= pos < s.len() && s[pos] == 91u8 {
        let (iso, p1) = sp_isotope(s, pos + 1);
        match sp_symbol(s, p1) {
            Some((sym, p2)) => {
                let (chi, p3) = match sp_chirality(s, p2) {
                    Some((c, p)) => (Some(c), p),
                    None => (None, p2),
                };
                let (hc, p4) = sp_hcount(s, p3);
                let (ch, p5) = sp_charge(s, p4, 0i8);
                if 0 <= p5 < s.len() && s[p5] == 93u8 {
                    Some(
                        (
                            BracketAtom {
                                isotope: iso,
                                symbol: sym,
                                chiral: chi,
                                hcount: hc,
                                charge: ch,
                            },
                            p5 + 1,
                        ),
                    )
                } else {
                    None
                }
            },
            None => None,
        }
    } else {
        None
    }
}

/// An organic-subset atom written without brackets; `Cl` and `Br` win over
/// the one-letter symbols.
pub open spec fn sp_aliphatic_organic(s: Seq<u8>, pos: int) -> Option<(
    AliphaticOrganicAtom,
    int,
)> {
    if 0 <= pos < s.len() {
        if pos + 2 <= s.len() && s[pos] == 67u8 && s[pos + 1] == 108u8 {
            Some((AliphaticOrganicAtom { element: Element { num: 17 } }, pos + 2))
        } else if pos + 2 <= s.len() && s[pos] == 66u8 && s[pos + 1] == 114u8 {
            Some((AliphaticOrganicAtom { element: Element { num: 35 } }, pos + 2))
        } else if s[pos] == 66u8 {
            Some((AliphaticOrganicAtom { element: Element { num: 5 } }, pos + 1))
        } else if s[pos] == 67u8 {
            Some((AliphaticOrganicAtom { element: Element { num: 6 } }, pos + 1))
        } else if s[pos] == 78u8 {
            Some((AliphaticOrganicAtom { element: Element { num: 7 } }, pos + 1))
        } else if s[pos] == 79u8 {
            Some((AliphaticOrganicAtom { element: Element { num: 8 } }, pos + 1))
        } else if s[pos] == 83u8 {
            Some((AliphaticOrganicAtom { element: Element { num: 16 } }, pos + 1))
        } else if s[pos] == 80u8 {
            Some((AliphaticOrganicAtom { element: Element { num: 15 } }, pos + 1))
        } else if s[pos] == 70u8 {
            Some((AliphaticOrganicAtom { element: Element { num: 9 } }, pos + 1))
        } else if s[pos] == 73u8 {
            Some((AliphaticOrganicAtom { element: Element { num: 53 } }, pos + 1))
        } else {
            None
        }
    } else {
        None
    }
}

/// An atom: `*`, a bracket atom, or an organic-subset atom, in that order.
pub open spec fn sp_atom(s: Seq<u8>, pos: int) -> Option<(Atom, int)> {
    if 0 <= pos < s.len() && s[pos] == 42u8 {
        Some((Atom::Unknown, pos + 1))
    } else {
        match sp_bracket_atom(s, pos) {
            Some((ba, p)) => Some((Atom::Bracket(ba), p)),
            None => match sp_aliphatic_organic(s, pos) {
                Some((a, p)) => Some((Atom::AliphaticOrganic(a), p)),
                None => None,
            },
        }
    }
}

/// A chain: a branched atom, an optional bond-or-dot and an optional tail
/// chain.
pub open spec fn sp_chain(s: Seq<u8>, pos: int) -> Option<(ChainView, int)>
    decreases s.len() - pos, 3int,
{
    match sp_branched_atom(s, pos) {
        Some((ba, p1)) => {
            let (bod, p2) = match sp_bond_or_dot(s, p1) {
                Some((b, p)) => (Some(b), p),
                None => (None::<BondOrDot>, p1),
            };
            if pos < p2 <= s.len() {
                match sp_chain(s, p2) {
                    Some((tail, p3)) => Some(
                        (ChainView { links: seq![(ba, bod)] + tail.links }, p3),
                    ),
                    None => Some((ChainView { links: seq![(ba, bod)] }, p2)),
                }
            } else {
                Some((ChainView { links: seq![(ba, bod)] }, p2))
            }
        },
        None => None,
    }
}

/// A branched atom: an atom followed by its ring-closure markers and
/// branches.
pub open spec fn sp_branched_atom(s: Seq<u8>, pos: int) -> Option<(BranchedAtomView, int)>
    decreases s.len() - pos, 2int,
{
    match sp_atom(s, pos) {
        Some((a, p1)) => if pos < p1 <= s.len() {
            let (rbs, p2) = sp_ring_bonds(s, p1);
            if pos < p2 <= s.len() {
                match sp_branches(s, p2) {
                    (brs, p3) => Some(
                        (BranchedAtomView { atom: a, ring_bonds: rbs, branches: brs }, p3),
                    ),
                }
            } else {
                None
            }
        } else {
            None
        },
        None => None,
    }
}

/// Zero or more branches.
pub open spec fn sp_branches(s: Seq<u8>, pos: int) -> (Seq<BranchView>, int)
    decreases s.len() - pos, 1int,
{
    match sp_branch(s, pos) {
        Some((br, p)) => if pos < p <= s.len() {
            let (rest, e) = sp_branches(s, p);
            (seq![br] + rest, e)
        } else {
            (Seq::empty(), pos)
        },
        None => (Seq::empty(), pos),
    }
}

/// A branch: `(` with an optional bond-or-dot and a chain, then `)`.
pub open spec fn sp_branch(s: Seq<u8>, pos: int) -> Option<(BranchView, int)>
    decreases s.len() - pos, 0int,
{
    if 0 <= pos < s.len() && s[pos] == 40u8 {
        let (bod, p1) = match sp_bond_or_dot(s, pos + 1) {
            Some((b, p)) => (Some(b), p),
            None => (None::<BondOrDot>, pos + 1),
        };
        if pos < p1 <= s.len() {
            match sp_chain(s, p1) {
                Some((c, p2)) => if 0 <= p2 < s.len() && s[p2] == 41u8 {
                    Some((BranchView { bond_or_dot: bod, chain: c }, p2 + 1))
                } else {
                    None
                },
                None => None,
            }
        } else {
            None
        }
    } else {
        None
    }
}

} // verus!
