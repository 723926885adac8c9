//! Ground covered by the shadows of obstacles standing on a line.
//!
//! Positions, heights and lengths are whole numbers, and every result is
//! exact. An [`intervalo::Intervalo`] is a closed segment of the line.
//! [`longitud_union::union_disjunta`] merges a collection of segments into
//! the disjoint pieces of their union, and
//! [`longitud_union::longitud_union`] measures that union.
//! [`longitud_union::sombras_desde_flatlanders`] gives the segments that the
//! shadows of a row of obstacles cover, with the shadow's length kept as a
//! fraction ([`geometria`]). [`clave`] places numbers that come as a sign and
//! a magnitude on the whole-number line, for callers whose ends are such
//! numbers and who need only the comparisons. [`parseador`] reads the fields
//! of the textual input.

pub mod clave;
pub mod flatlander;
pub mod geometria;
pub mod intervalo;
pub mod longitud_union;
pub mod parseador;
