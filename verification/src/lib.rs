//! A SMILES (Simplified Molecular-Input Line-Entry System) parser and
//! molecular-graph builder.
//!
//! Byte input is parsed into a typed concrete syntax tree (`Chain`), which can
//! be lowered into an undirected molecular graph with implicit hydrogens and
//! queried for its longest carbon backbone.

mod cst;
mod element;
pub mod grammar;
pub mod graph;
pub mod lower;
mod parse;

pub use cst::AliphaticOrganicAtom;
pub use cst::Atom;
pub use cst::Bond;
pub use cst::BondOrDot;
pub use cst::BracketAtom;
pub use cst::Branch;
pub use cst::BranchView;
pub use cst::BranchedAtom;
pub use cst::BranchedAtomView;
pub use cst::Chain;
pub use cst::ChainView;
pub use cst::Chirality;
pub use cst::Dot;
pub use cst::RingBond;
pub use cst::Symbol;
pub use element::Element;
pub use parse::ParseError;
pub use parse::atom;
pub use parse::bond_digits;
pub use parse::bracket_atom;
pub use parse::chain;
pub use parse::chirality;
pub use parse::isotope_opt;
pub use parse::symbol;
