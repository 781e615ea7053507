//! Character-grid plots of curves.
//!
//! A [`graph::Graph`] owns a grid of characters, one cell per integer step of
//! a horizontal and a vertical range. Building it draws the zero axes; each
//! call of [`graph::Graph::curve`] stamps one curve into the grid, and
//! [`graph::Graph::draw`] turns the grid into text.
//!
//! Coordinates are exact: a [`rational::Rational`] stands for a real number,
//! and a [`scale::LinearScale`] maps one integer interval onto another
//! without rounding. What a plot holds after each step is stated over the
//! model in [`frame`], where the laws of plotting are proved.
pub mod arith;
pub mod frame;
pub mod graph;
pub mod rational;
pub mod scale;
