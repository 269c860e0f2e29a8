//! Escape-time sampling of the Mandelbrot set over a square grid, in exact
//! fixed-point arithmetic, with adaptive refinement along the boundary of
//! the set.
//!
//! * [`fix`] holds the two fixed-point formats: the narrow one of the
//!   coordinates and the wide one of their products.
//! * [`complex`] holds one step of the iteration `z -> z^2 + c`, in which
//!   leaving the representable range and leaving the disc of radius two are
//!   the same event.
//! * [`point`] holds the escape automaton of a single sample.
//! * [`grid`] lays samples out over a region, refines them round by round,
//!   and zooms into quarters.
//! * [`zoom_path`] reads a sequence of quarters from a text.
//! * [`colours`] turns a grid into the bytes of a picture.
pub mod colours;
pub mod complex;
pub mod fix;
pub mod grid;
pub mod point;
pub mod zoom_path;
