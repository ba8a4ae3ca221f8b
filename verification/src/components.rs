//! The component kinds an entity can hold: at most one of each.

use crate::grid::Point;
use vstd::prelude::*;

verus! {

/// Zero-size marker distinguishing the single player-controlled entity.
#[derive(Clone, Copy, PartialEq, Eq, Debug, Structural)]
pub struct Player {}

/// Current grid cell of an entity; mutated only by movement validation.
#[derive(Clone, Copy, PartialEq, Eq, Debug, Structural)]
pub struct Position {
    pub x: i32,
    pub y: i32,
}

/// A color as plain 8-bit channels; the external renderer maps it to its
/// own representation.
#[derive(Clone, Copy, PartialEq, Eq, Debug, Structural)]
pub struct Color {
    pub r: u8,
    pub g: u8,
    pub b: u8,
}

/// Immutable visual descriptor, read only by the renderer.
#[derive(Clone, Copy, PartialEq, Eq, Debug, Structural)]
pub struct Renderable {
    pub glyph: u16,
    pub fg: Color,
    pub bg: Color,
}

/// An entity's sight range and currently computed set of visible tiles.
/// `dirty` marks the set as needing recomputation; it is a hint that is
/// cleared only after a successful recompute and set again by anything that
/// changes the entity's position.
#[derive(Clone, Debug)]
pub struct Viewshed {
    pub visible_tiles: Vec<Point>,
    pub range: i32,
    pub dirty: bool,
}

} // verus!
