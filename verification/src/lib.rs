//! Point-in-polygon classification by horizontal ray casting.
//!
//! Coordinates are IEEE-754 binary64 numbers, held as their 64-bit patterns so
//! that every comparison the scan makes is integer logic with a proved meaning.
//! The one rounded quantity of the scan, the abscissa at which an edge meets the
//! scanline, is handed in by the caller, one per edge.

pub mod binary64;
pub mod polygon;
pub mod laws;
