//! Analysis of protein structures in the fixed-column atomic-coordinate
//! text format.
//!
//! The crate parses the columnar record format into a
//! Structure/Model/Chain/Residue/Atom tree, offers a radius-bounded
//! neighbor search over atom coordinates, classifies hydrogen-bond donor
//! atoms, and detects candidate binding geometries around tryptophan
//! side chains.
//!
//! Coordinates are held exactly, as integer thousandths of the format's
//! distance unit (the format carries three decimal places); occupancy and
//! temperature factor as integer hundredths (the format carries two).

pub mod text;
pub mod pdb_parser;
pub mod neighbor;
pub mod detect;
pub mod dataset;
pub mod mask;
