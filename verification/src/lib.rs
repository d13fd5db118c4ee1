//! Conway's Game of Life on a fixed-size toroidal (wrap-around) grid.
//!
//! The crate provides an addressable grid of binary cells ([`grid::Grid`]),
//! neighbour-counting strategies that either wrap at the edges or treat the
//! outside as dead ([`rules`]), a stepping engine that advances one generation
//! at a time ([`world::World`]), a read-only rectangular window over a grid
//! ([`gridview::GridView`]), and parsers for the line-oriented plaintext
//! pattern notation ([`plaintext`] and [`plaintext_simple`]).

pub mod grid;
pub mod gridview;
pub mod padding;
pub mod plaintext;
pub mod plaintext_simple;
pub mod rules;
pub mod text;
pub mod world;
