//! Executable recursive-descent parsers for the SMILES grammar, each proved
//! to return exactly what the spec-level grammar in `grammar` describes.

use vstd::prelude::*;

use crate::cst::Atom;
use crate::cst::AliphaticOrganicAtom;
use crate::cst::Branch;
use crate::cst::BranchedAtom;
use crate::cst::BranchedAtomView;
use crate::cst::Chain;
use crate::cst::branches_view;
use crate::cst::Bond;
use crate::cst::BondOrDot;
use crate::cst::BracketAtom;
use crate::cst::Chirality;
use crate::cst::Dot;
use crate::cst::RingBond;
use crate::cst::Symbol;
use crate::element::Element;
use crate::element::lookup_one_letter_element;
use crate::element::lookup_two_letter_element;
use crate::grammar::sp_bond;
use crate::grammar::sp_bond_digits;
use crate::grammar::sp_bond_or_dot;
use crate::grammar::sp_bracket_atom;
use crate::grammar::sp_charge;
use crate::grammar::sp_charge_run;
use crate::grammar::sp_chirality;
use crate::grammar::sp_hcount;
use crate::grammar::sp_isotope;
use crate::grammar::sp_ring_bond;
use crate::grammar::sp_ring_bonds;
use crate::grammar::sp_symbol;
use crate::grammar::sp_aliphatic_organic;
use crate::grammar::sp_atom;
use crate::grammar::sp_branch;
use crate::grammar::sp_branched_atom;
use crate::grammar::sp_branches;
use crate::grammar::sp_chain;

verus! {

/// Executable result `r` agrees with the spec-parser outcome `m`.
pub open spec fn step_eq<T>(r: Option<(T, usize)>, m: Option<(T, int)>) -> bool {
    match r {
        Some((v, p)) => m == Some((v, p as int)),
        None => m is None,
    }
}

/// Executable result `r` of an always-succeeding recognizer agrees with the
/// spec-parser outcome `m`.
pub open spec fn total_eq<T>(r: (T, usize), m: (T, int)) -> bool {
    m == (r.0, r.1 as int)
}

/// The byte at position `i`.
fn byte_at(s: &[u8], i: usize) -> (c: u8)
    requires
        i < s@.len(),
    ensures
        c == s@[i as int],
{
    *vstd::slice::slice_index_get(s, i)
}

/// Parses a bond marker.
pub(crate) fn p_bond(s: &[u8], pos: usize) -> (r: Option<(Bond, usize)>)
    requires
        pos <= s@.len(),
    ensures
        step_eq(r, sp_bond(s@, pos as int)),
        r matches Some(x) ==> pos < x.1 <= s@.len(),
{
    if pos < s.len() {
        let c = byte_at(s, pos);
        if c == 45 {
            Some((Bond::Single, pos + 1))
        } else if c == 61 {
            Some((Bond::Double, pos + 1))
        } else if c == 35 {
            Some((Bond::Triple, pos + 1))
        } else if c == 36 {
            Some((Bond::Quadruple, pos + 1))
        } else if c == 58 {
            Some((Bond::Aromatic, pos + 1))
        } else if c == 47 {
            Some((Bond::Up, pos + 1))
        } else if c == 92 {
            Some((Bond::Down, pos + 1))
        } else {
            None
        }
    } else {
        None
    }
}

/// Parses a bond marker or the `.` separator.
pub(crate) fn p_bond_or_dot(s: &[u8], pos: usize) -> (r: Option<(BondOrDot, usize)>)
    requires
        pos <= s@.len(),
    ensures
        step_eq(r, sp_bond_or_dot(s@, pos as int)),
        r matches Some(x) ==> pos < x.1 <= s@.len(),
{
    match p_bond(s, pos) {
        Some((b, p)) => Some((BondOrDot::Bond(b), p)),
        None => {
            if pos < s.len() && byte_at(s, pos) == 46 {
                Some((BondOrDot::Dot(Dot), pos + 1))
            } else {
                None
            }
        },
    }
}

/// Parses a ring number: one digit, or `%` and exactly two digits.
pub(crate) fn p_bond_digits(s: &[u8], pos: usize) -> (r: Option<(u8, usize)>)
    requires
        pos <= s@.len(),
    ensures
        step_eq(r, sp_bond_digits(s@, pos as int)),
        r matches Some(x) ==> pos < x.1 <= s@.len(),
{
    if pos < s.len() && is_digit(byte_at(s, pos)) {
        Some((byte_at(s, pos) - 48, pos + 1))
    } else if pos < s.len() && s.len() - pos >= 3 && byte_at(s, pos) == 37 && is_digit(
        byte_at(s, pos + 1),
    ) && is_digit(byte_at(s, pos + 2)) {
        Some((10 * (byte_at(s, pos + 1) - 48) + (byte_at(s, pos + 2) - 48), pos + 3))
    } else {
        None
    }
}

/// Whether `c` is an ASCII decimal digit.
fn is_digit(c: u8) -> (r: bool)
    ensures
        r == crate::grammar::is_digit_byte(c),
{
    48 <= c && c <= 57
}

/// Parses a ring-closure marker.
pub(crate) fn p_ring_bond(s: &[u8], pos: usize) -> (r: Option<(RingBond, usize)>)
    requires
        pos <= s@.len(),
    ensures
        step_eq(r, sp_ring_bond(s@, pos as int)),
        r matches Some(x) ==> pos < x.1 <= s@.len(),
{
    match p_bond(s, pos) {
        Some((b, p)) => match p_bond_digits(s, p) {
            Some((n, p2)) => Some((RingBond { bond: Some(b), ring_number: n }, p2)),
            None => None,
        },
        None => match p_bond_digits(s, pos) {
            Some((n, p2)) => Some((RingBond { bond: None, ring_number: n }, p2)),
            None => None,
        },
    }
}

/// Parses zero or more ring-closure markers.
pub(crate) fn p_ring_bonds(s: &[u8], pos: usize) -> (r: (Vec<RingBond>, usize))
    requires
        pos <= s@.len(),
    ensures
        r.0@ == sp_ring_bonds(s@, pos as int).0,
        r.1 as int == sp_ring_bonds(s@, pos as int).1,
        pos <= r.1 <= s@.len(),
    decreases s@.len() - pos,
{
    match p_ring_bond(s, pos) {
        Some((rb, p)) => {
            let (mut v, e) = p_ring_bonds(s, p);
            v.insert(0, rb);
            proof {
                assert(v@ =~= seq![rb] + sp_ring_bonds(s@, p as int).0);
            }
            (v, e)
        },
        None => (Vec::new(), pos),
    }
}

/// Parses the isotope prefix.
pub(crate) fn p_isotope(s: &[u8], pos: usize) -> (r: (Option<u16>, usize))
    requires
        pos <= s@.len(),
    ensures
        total_eq(r, sp_isotope(s@, pos as int)),
        pos <= r.1 <= s@.len(),
{
    if pos < s.len() && is_digit(byte_at(s, pos)) {
        let d0 = (byte_at(s, pos) - 48) as u16;
        if pos + 1 < s.len() && is_digit(byte_at(s, pos + 1)) {
            let d1 = (byte_at(s, pos + 1) - 48) as u16;
            if pos + 2 < s.len() && is_digit(byte_at(s, pos + 2)) {
                let d2 = (byte_at(s, pos + 2) - 48) as u16;
                (Some(100 * d0 + 10 * d1 + d2), pos + 3)
            } else {
                (Some(10 * d0 + d1), pos + 2)
            }
        } else {
            (Some(d0), pos + 1)
        }
    } else {
        (None, pos)
    }
}

/// Parses the hydrogen count.
pub(crate) fn p_hcount(s: &[u8], pos: usize) -> (r: (u8, usize))
    requires
        pos <= s@.len(),
    ensures
        total_eq(r, sp_hcount(s@, pos as int)),
        pos <= r.1 <= s@.len(),
{
    if pos < s.len() && byte_at(s, pos) == 72 {
        if pos + 1 < s.len() && is_digit(byte_at(s, pos + 1)) {
            (byte_at(s, pos + 1) - 48, pos + 2)
        } else {
            (1, pos + 1)
        }
    } else {
        (0, pos)
    }
}

/// Parses one signed charge run.
pub(crate) fn p_charge_run(s: &[u8], pos: usize) -> (r: Option<(i8, usize)>)
    requires
        pos <= s@.len(),
    ensures
        step_eq(r, sp_charge_run(s@, pos as int)),
        r matches Some(x) ==> pos < x.1 <= s@.len(),
{
    if pos < s.len() && (byte_at(s, pos) == 43 || byte_at(s, pos) == 45) {
        let plus = byte_at(s, pos) == 43;
        if pos + 1 < s.len() && is_digit(byte_at(s, pos + 1)) {
            if pos + 2 < s.len() && is_digit(byte_at(s, pos + 2)) {
                let m = (10 * (byte_at(s, pos + 1) - 48) + (byte_at(s, pos + 2) - 48)) as i8;
                Some((if plus { m } else { -m }, pos + 3))
            } else {
                let m = (byte_at(s, pos + 1) - 48) as i8;
                Some((if plus { m } else { -m }, pos + 2))
            }
        } else {
            Some((if plus { 1 } else { -1 }, pos + 1))
        }
    } else {
        None
    }
}

/// Parses the total charge, folding runs onto `acc` with clamping.
pub(crate) fn p_charge(s: &[u8], pos: usize, acc: i8) -> (r: (i8, usize))
    requires
        pos <= s@.len(),
    ensures
        total_eq(r, sp_charge(s@, pos as int, acc)),
        pos <= r.1 <= s@.len(),
    decreases s@.len() - pos,
{
    match p_charge_run(s, pos) {
        Some((v, p)) => {
            let wide = acc as i16 + v as i16;
            let next = if wide > 127 {
                127i8
            } else if wide < -128 {
                -128i8
            } else {
                wide as i8
            };
            p_charge(s, p, next)
        },
        None => (acc, pos),
    }
}

/// Parses an element symbol (or `*`, or an aromatic symbol).
pub(crate) fn p_symbol(s: &[u8], pos: usize) -> (r: Option<(Symbol, usize)>)
    requires
        pos <= s@.len(),
    ensures
        step_eq(r, sp_symbol(s@, pos as int)),
        r matches Some(x) ==> pos < x.1 <= s@.len(),
{
    if pos < s.len() {
        let c = byte_at(s, pos);
        if c == 42 {
            return Some((Symbol::Unknown, pos + 1));
        }
        if s.len() - pos >= 2 {
            let d = byte_at(s, pos + 1);
            match lookup_two_letter_element(c, d) {
                Some(n) => {
                    return Some((Symbol::ElementSymbol(Element { num: n }), pos + 2));
                },
                None => {},
            }
        }
        match lookup_one_letter_element(c) {
            Some(n) => {
                return Some((Symbol::ElementSymbol(Element { num: n }), pos + 1));
            },
            None => {},
        }
        if s.len() - pos >= 2 && c == 115 && byte_at(s, pos + 1) == 101 {
            Some((Symbol::AromaticSymbol(Element { num: 34 }), pos + 2))
        } else if s.len() - pos >= 2 && c == 97 && byte_at(s, pos + 1) == 115 {
            Some((Symbol::AromaticSymbol(Element { num: 33 }), pos + 2))
        } else if c == 98 {
            Some((Symbol::AromaticSymbol(Element { num: 5 }), pos + 1))
        } else if c == 99 {
            Some((Symbol::AromaticSymbol(Element { num: 6 }), pos + 1))
        } else if c == 110 {
            Some((Symbol::AromaticSymbol(Element { num: 7 }), pos + 1))
        } else if c == 111 {
            Some((Symbol::AromaticSymbol(Element { num: 8 }), pos + 1))
        } else if c == 112 {
            Some((Symbol::AromaticSymbol(Element { num: 15 }), pos + 1))
        } else if c == 115 {
            Some((Symbol::AromaticSymbol(Element { num: 16 }), pos + 1))
        } else {
            None
        }
    } else {
        None
    }
}

/// Parses a chirality tag, longest form first.
pub(crate) fn p_chirality(s: &[u8], pos: usize) -> (r: Option<(Chirality, usize)>)
    requires
        pos <= s@.len(),
    ensures
        step_eq(r, sp_chirality(s@, pos as int)),
        r matches Some(x) ==> pos < x.1 <= s@.len(),
{
    if pos < s.len() && byte_at(s, pos) == 64 {
        if s.len() - pos >= 4 && byte_at(s, pos + 1) == 84 && byte_at(s, pos + 2) == 72 && (byte_at(
            s,
            pos + 3,
        ) == 49 || byte_at(s, pos + 3) == 50) {
            Some((Chirality::Tetrahedral(byte_at(s, pos + 3) - 48), pos + 4))
        } else if s.len() - pos >= 4 && byte_at(s, pos + 1) == 65 && byte_at(s, pos + 2) == 76 && (
        byte_at(s, pos + 3) == 49 || byte_at(s, pos + 3) == 50) {
            Some((Chirality::Allenal(byte_at(s, pos + 3) - 48), pos + 4))
        } else if s.len() - pos >= 4 && byte_at(s, pos + 1) == 83 && byte_at(s, pos + 2) == 80 && (
        byte_at(s, pos + 3) == 49 || byte_at(s, pos + 3) == 50 || byte_at(s, pos + 3) == 51) {
            Some((Chirality::SquarePlanar(byte_at(s, pos + 3) - 48), pos + 4))
        } else if s.len() - pos >= 5 && byte_at(s, pos + 1) == 84 && byte_at(s, pos + 2) == 66
            && is_digit(byte_at(s, pos + 3)) && is_digit(byte_at(s, pos + 4)) && 10 <= 10 * (byte_at(
            s,
            pos + 3,
        ) - 48) + (byte_at(s, pos + 4) - 48) && 10 * (byte_at(s, pos + 3) - 48) + (byte_at(
            s,
            pos + 4,
        ) - 48) <= 20 {
            Some(
                (
                    Chirality::TrigonalBipyramidal(
                        10 * (byte_at(s, pos + 3) - 48) + (byte_at(s, pos + 4) - 48),
                    ),
                    pos + 5,
                ),
            )
        } else if s.len() - pos >= 4 && byte_at(s, pos + 1) == 84 && byte_at(s, pos + 2) == 66
            && is_digit(byte_at(s, pos + 3)) && 49 <= byte_at(s, pos + 3) {
            Some((Chirality::TrigonalBipyramidal(byte_at(s, pos + 3) - 48), pos + 4))
        } else if s.len() - pos >= 5 && byte_at(s, pos + 1) == 79 && byte_at(s, pos + 2) == 72
            && is_digit(byte_at(s, pos + 3)) && is_digit(byte_at(s, pos + 4)) && 10 <= 10 * (byte_at(
            s,
            pos + 3,
        ) - 48) + (byte_at(s, pos + 4) - 48) && 10 * (byte_at(s, pos + 3) - 48) + (byte_at(
            s,
            pos + 4,
        ) - 48) <= 30 {
            Some(
                (
                    Chirality::Octahedral(
                        10 * (byte_at(s, pos + 3) - 48) + (byte_at(s, pos + 4) - 48),
                    ),
                    pos + 5,
                ),
            )
        } else if s.len() - pos >= 4 && byte_at(s, pos + 1) == 79 && byte_at(s, pos + 2) == 72
            && is_digit(byte_at(s, pos + 3)) && 49 <= byte_at(s, pos + 3) {
            Some((Chirality::Octahedral(byte_at(s, pos + 3) - 48), pos + 4))
        } else if s.len() - pos >= 2 && byte_at(s, pos + 1) == 64 {
            Some((Chirality::Clockwise, pos + 2))
        } else {
            Some((Chirality::Anticlockwise, pos + 1))
        }
    } else {
        None
    }
}

/// Parses a bracket atom.
pub(crate) fn p_bracket_atom(s: &[u8], pos: usize) -> (r: Option<(BracketAtom, usize)>)
    requires
        pos <= s@.len(),
    ensures
        step_eq(r, sp_bracket_atom(s@, pos as int)),
        r matches Some(x) ==> pos < x.1 <= s@.len(),
{
    if pos < s.len() && byte_at(s, pos) == 91 {
        let (iso, p1) = p_isotope(s, pos + 1);
        match p_symbol(s, p1) {
            Some((sym, p2)) => {
                let (chi, p3) = match p_chirality(s, p2) {
                    Some((c, p)) => (Some(c), p),
                    None => (None, p2),
                };
                let (hc, p4) = p_hcount(s, p3);
                let (ch, p5) = p_charge(s, p4, 0);
                if p5 < s.len() && byte_at(s, p5) == 93 {
                    Some(
                        (
                            BracketAtom {
                                isotope: iso,
                                symbol: sym,
                                chiral: chi,
                                hcount: hc,
                                charge: ch,
                            },
                            p5 + 1,
                        ),
                    )
                } else {
                    None
                }
            },
            None => None,
        }
    } else {
        None
    }
}

/// Parses an organic-subset atom.
pub(crate) fn p_aliphatic_organic(s: &[u8], pos: usize) -> (r: Option<
    (AliphaticOrganicAtom, usize),
>)
    requires
        pos <= s@.len(),
    ensures
        step_eq(r, sp_aliphatic_organic(s@, pos as int)),
        r matches Some(x) ==> pos < x.1 <= s@.len(),
{
    if pos < s.len() {
        let c = byte_at(s, pos);
        if s.len() - pos >= 2 && c == 67 && byte_at(s, pos + 1) == 108 {
            Some((AliphaticOrganicAtom { element: Element { num: 17 } }, pos + 2))
        } else if s.len() - pos >= 2 && c == 66 && byte_at(s, pos + 1) == 114 {
            Some((AliphaticOrganicAtom { element: Element { num: 35 } }, pos + 2))
        } else if c == 66 {
            Some((AliphaticOrganicAtom { element: Element { num: 5 } }, pos + 1))
        } else if c == 67 {
            Some((AliphaticOrganicAtom { element: Element { num: 6 } }, pos + 1))
        } else if c == 78 {
            Some((AliphaticOrganicAtom { element: Element { num: 7 } }, pos + 1))
        } else if c == 79 {
            Some((AliphaticOrganicAtom { element: Element { num: 8 } }, pos + 1))
        } else if c == 83 {
            Some((AliphaticOrganicAtom { element: Element { num: 16 } }, pos + 1))
        } else if c == 80 {
            Some((AliphaticOrganicAtom { element: Element { num: 15 } }, pos + 1))
        } else if c == 70 {
            Some((AliphaticOrganicAtom { element: Element { num: 9 } }, pos + 1))
        } else if c == 73 {
            Some((AliphaticOrganicAtom { element: Element { num: 53 } }, pos + 1))
        } else {
            None
        }
    } else {
        None
    }
}

/// Parses an atom.
pub(crate) fn p_atom(s: &[u8], pos: usize) -> (r: Option<(Atom, usize)>)
    requires
        pos <= s@.len(),
    ensures
        step_eq(r, sp_atom(s@, pos as int)),
        r matches Some(x) ==> pos < x.1 <= s@.len(),
{
    if pos < s.len() && byte_at(s, pos) == 42 {
        Some((Atom::Unknown, pos + 1))
    } else {
        match p_bracket_atom(s, pos) {
            Some((ba, p)) => Some((Atom::Bracket(ba), p)),
            None => match p_aliphatic_organic(s, pos) {
                Some((a, p)) => Some((Atom::AliphaticOrganic(a), p)),
                None => None,
            },
        }
    }
}

/// Parses a chain: a branched atom, an optional bond-or-dot, and an
/// optional tail chain.
pub(crate) fn p_chain(s: &[u8], pos: usize) -> (r: Option<(Chain, usize)>)
    requires
        pos <= s@.len(),
    ensures
        (match r {
            Some((c, p)) => sp_chain(s@, pos as int) == Some((c@, p as int)),
            None => sp_chain(s@, pos as int) is None,
        }),
        r matches Some(x) ==> pos < x.1 <= s@.len(),
    decreases s@.len() - pos, 3int,
{
    match p_branched_atom(s, pos) {
        Some((ba, p1)) => {
            let (bod, p2) = match p_bond_or_dot(s, p1) {
                Some((b, p)) => (Some(b), p),
                None => (None, p1),
            };
            match p_chain(s, p2) {
                Some((tail, p3)) => {
                    let c = Chain { chain: Some(Box::new(tail)), bond_or_dot: bod, branched_atom: ba };
                    proof {
                        let m = sp_chain(s@, pos as int)->0;
                        assert(c@.links =~= m.0.links);
                    }
                    Some((c, p3))
                },
                None => {
                    let c = Chain { chain: None, bond_or_dot: bod, branched_atom: ba };
                    proof {
                        let m = sp_chain(s@, pos as int)->0;
                        assert(c@.links =~= m.0.links);
                    }
                    Some((c, p2))
                },
            }
        },
        None => None,
    }
}

/// Parses a branched atom: an atom, then ring-closure markers, then
/// branches.
pub(crate) fn p_branched_atom(s: &[u8], pos: usize) -> (r: Option<(BranchedAtom, usize)>)
    requires
        pos <= s@.len(),
    ensures
        (match r {
            Some((ba, p)) => sp_branched_atom(s@, pos as int) == Some((ba@, p as int)),
            None => sp_branched_atom(s@, pos as int) is None,
        }),
        r matches Some(x) ==> pos < x.1 <= s@.len(),
    decreases s@.len() - pos, 2int,
{
    match p_atom(s, pos) {
        Some((a, p1)) => {
            let (rbs, p2) = p_ring_bonds(s, p1);
            let (brs, p3) = p_branches(s, p2);
            let ba = BranchedAtom { atom: a, ring_bonds: rbs, branches: brs };
            proof {
                let m = sp_branched_atom(s@, pos as int)->0;
                assert(ba@.ring_bonds =~= m.0.ring_bonds);
                assert(ba@.branches =~= m.0.branches);
            }
            Some((ba, p3))
        },
        None => None,
    }
}

/// Parses zero or more branches.
pub(crate) fn p_branches(s: &[u8], pos: usize) -> (r: (Vec<Branch>, usize))
    requires
        pos <= s@.len(),
    ensures
        branches_view(r.0@) == sp_branches(s@, pos as int).0,
        r.1 as int == sp_branches(s@, pos as int).1,
        pos <= r.1 <= s@.len(),
    decreases s@.len() - pos, 1int,
{
    match p_branch(s, pos) {
        Some((br, p)) => {
            let (mut v, e) = p_branches(s, p);
            let ghost old_v = v@;
            v.insert(0, br);
            proof {
                assert(v@.drop_first() =~= old_v);
                assert(branches_view(v@) =~= seq![br@] + branches_view(old_v));
            }
            (v, e)
        },
        None => {
            let v: Vec<Branch> = Vec::new();
            proof {
                assert(branches_view(v@) =~= Seq::<crate::cst::BranchView>::empty());
            }
            (v, pos)
        },
    }
}

/// Parses a branch: `(`, an optional bond-or-dot, a chain, `)`.
pub(crate) fn p_branch(s: &[u8], pos: usize) -> (r: Option<(Branch, usize)>)
    requires
        pos <= s@.len(),
    ensures
        (match r {
            Some((br, p)) => sp_branch(s@, pos as int) == Some((br@, p as int)),
            None => sp_branch(s@, pos as int) is None,
        }),
        r matches Some(x) ==> pos < x.1 <= s@.len(),
    decreases s@.len() - pos, 0int,
{
    if pos < s.len() && byte_at(s, pos) == 40 {
        let (bod, p1) = match p_bond_or_dot(s, pos + 1) {
            Some((b, p)) => (Some(b), p),
            None => (None, pos + 1),
        };
        match p_chain(s, p1) {
            Some((c, p2)) => {
                if p2 < s.len() && byte_at(s, p2) == 41 {
                    Some((Branch { bond_or_dot: bod, chain: c }, p2 + 1))
                } else {
                    None
                }
            },
            None => None,
        }
    } else {
        None
    }
}

/// Error returned when the input does not match the grammar. `offset` is
/// the byte offset at which matching gave up.
#[derive(Debug, PartialEq, Eq, Copy, Clone, Hash, Structural)]
pub struct ParseError {
    pub offset: usize,
}

/// Parses a chain from the start of `input`, returning the remaining bytes
/// and the chain's syntax tree, or a parse error when no chain starts there.
pub fn chain(input: &[u8]) -> (r: Result<(&[u8], Chain), ParseError>)
    ensures
        r is Ok <==> sp_chain(input@, 0int) is Some,
        r matches Ok((rest, c)) ==> ({
            let (cv, p) = sp_chain(input@, 0int)->0;
            c@ == cv && rest@ == input@.subrange(p, input@.len() as int)
        }),
        r matches Err(e) ==> e.offset == 0,
{
    match p_chain(input, 0) {
        Some((c, p)) => Ok((vstd::slice::slice_subrange(input, p, input.len()), c)),
        None => Err(ParseError { offset: 0 }),
    }
}

/// Parses an element symbol from the start of `input`.
pub fn symbol(input: &[u8]) -> (r: Result<(&[u8], Symbol), ParseError>)
    ensures
        r is Ok <==> sp_symbol(input@, 0int) is Some,
        r matches Ok((rest, v)) ==> ({
            let (m, p) = sp_symbol(input@, 0int)->0;
            v == m && rest@ == input@.subrange(p, input@.len() as int)
        }),
        r matches Err(e) ==> e.offset == 0,
{
    match p_symbol(input, 0) {
        Some((v, p)) => Ok((vstd::slice::slice_subrange(input, p, input.len()), v)),
        None => Err(ParseError { offset: 0 }),
    }
}

/// Parses an atom from the start of `input`.
pub fn atom(input: &[u8]) -> (r: Result<(&[u8], Atom), ParseError>)
    ensures
        r is Ok <==> sp_atom(input@, 0int) is Some,
        r matches Ok((rest, v)) ==> ({
            let (m, p) = sp_atom(input@, 0int)->0;
            v == m && rest@ == input@.subrange(p, input@.len() as int)
        }),
        r matches Err(e) ==> e.offset == 0,
{
    match p_atom(input, 0) {
        Some((v, p)) => Ok((vstd::slice::slice_subrange(input, p, input.len()), v)),
        None => Err(ParseError { offset: 0 }),
    }
}

/// Parses a bracket atom from the start of `input`.
pub fn bracket_atom(input: &[u8]) -> (r: Result<(&[u8], BracketAtom), ParseError>)
    ensures
        r is Ok <==> sp_bracket_atom(input@, 0int) is Some,
        r matches Ok((rest, v)) ==> ({
            let (m, p) = sp_bracket_atom(input@, 0int)->0;
            v == m && rest@ == input@.subrange(p, input@.len() as int)
        }),
        r matches Err(e) ==> e.offset == 0,
{
    match p_bracket_atom(input, 0) {
        Some((v, p)) => Ok((vstd::slice::slice_subrange(input, p, input.len()), v)),
        None => Err(ParseError { offset: 0 }),
    }
}

/// Parses an optional isotope prefix from the start of `input`; never fails.
pub fn isotope_opt(input: &[u8]) -> (r: Result<(&[u8], Option<u16>), ParseError>)
    ensures
        r is Ok,
        r matches Ok((rest, v)) ==> ({
            let (m, p) = sp_isotope(input@, 0int);
            v == m && rest@ == input@.subrange(p, input@.len() as int)
        }),
{
    let (v, p) = p_isotope(input, 0);
    Ok((vstd::slice::slice_subrange(input, p, input.len()), v))
}

/// Parses a ring number from the start of `input`.
pub fn bond_digits(input: &[u8]) -> (r: Result<(&[u8], u8), ParseError>)
    ensures
        r is Ok <==> sp_bond_digits(input@, 0int) is Some,
        r matches Ok((rest, v)) ==> ({
            let (m, p) = sp_bond_digits(input@, 0int)->0;
            v == m && rest@ == input@.subrange(p, input@.len() as int)
        }),
        r matches Err(e) ==> e.offset == 0,
{
    match p_bond_digits(input, 0) {
        Some((v, p)) => Ok((vstd::slice::slice_subrange(input, p, input.len()), v)),
        None => Err(ParseError { offset: 0 }),
    }
}

/// Parses a chirality tag from the start of `input`.
pub fn chirality(input: &[u8]) -> (r: Result<(&[u8], Chirality), ParseError>)
    ensures
        r is Ok <==> sp_chirality(input@, 0int) is Some,
        r matches Ok((rest, v)) ==> ({
            let (m, p) = sp_chirality(input@, 0int)->0;
            v == m && rest@ == input@.subrange(p, input@.len() as int)
        }),
        r matches Err(e) ==> e.offset == 0,
{
    match p_chirality(input, 0) {
        Some((v, p)) => Ok((vstd::slice::slice_subrange(input, p, input.len()), v)),
        None => Err(ParseError { offset: 0 }),
    }
}

} // verus!
