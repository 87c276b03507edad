use vstd::prelude::*;

verus! {

/// A tile coordinate; `x` grows to the right and `y` grows downwards.
#[derive(Clone, Copy, PartialEq, Eq, Structural, Debug)]
pub struct Position {
    pub x: i32,
    pub y: i32,
}

impl Position {
    pub fn new(x: i32, y: i32) -> (r: Position)
        ensures
            r == (Position { x, y }),
    {
        Position { x, y }
    }
}

impl From<(i32, i32)> for Position {
    fn from(tuple: (i32, i32)) -> (r: Position) {
        Position { x: tuple.0, y: tuple.1 }
    }
}

impl vstd::std_specs::convert::FromSpecImpl<(i32, i32)> for Position {
    open spec fn obeys_from_spec() -> bool {
        true
    }

    open spec fn from_spec(tuple: (i32, i32)) -> Position {
        Position { x: tuple.0, y: tuple.1 }
    }
}

impl core::ops::Add<Position> for Position {
    type Output = Position;

    fn add(self, other: Position) -> (r: Position) {
        Position { x: self.x + other.x, y: self.y + other.y }
    }
}

impl vstd::std_specs::ops::AddSpecImpl<Position> for Position {
    open spec fn obeys_add_spec() -> bool {
        true
    }

    open spec fn add_req(self, other: Position) -> bool {
        i32::MIN <= self.x + other.x <= i32::MAX && i32::MIN <= self.y + other.y <= i32::MAX
    }

    open spec fn add_spec(self, other: Position) -> Position {
        Position { x: (self.x + other.x) as i32, y: (self.y + other.y) as i32 }
    }
}

impl core::ops::Sub<Position> for Position {
    type Output = Position;

    fn sub(self, other: Position) -> (r: Position) {
        Position { x: self.x - other.x, y: self.y - other.y }
    }
}

impl vstd::std_specs::ops::SubSpecImpl<Position> for Position {
    open spec fn obeys_sub_spec() -> bool {
        true
    }

    open spec fn sub_req(self, other: Position) -> bool {
        i32::MIN <= self.x - other.x <= i32::MAX && i32::MIN <= self.y - other.y <= i32::MAX
    }

    open spec fn sub_spec(self, other: Position) -> Position {
        Position { x: (self.x - other.x) as i32, y: (self.y - other.y) as i32 }
    }
}

/// Multiplication of a position by an integer scalar.
impl core::ops::Mul<i32> for Position {
    type Output = Position;

    fn mul(self, scalar: i32) -> (r: Position) {
        Position { x: self.x * scalar, y: self.y * scalar }
    }
}

impl vstd::std_specs::ops::MulSpecImpl<i32> for Position {
    open spec fn obeys_mul_spec() -> bool {
        true
    }

    open spec fn mul_req(self, scalar: i32) -> bool {
        i32::MIN <= self.x * scalar <= i32::MAX && i32::MIN <= self.y * scalar <= i32::MAX
    }

    open spec fn mul_spec(self, scalar: i32) -> Position {
        Position { x: (self.x * scalar) as i32, y: (self.y * scalar) as i32 }
    }
}

/// Dot product of two positions seen as vectors.
impl core::ops::Mul<Position> for Position {
    type Output = i32;

    fn mul(self, other: Position) -> (r: i32) {
        proof {
            assert(i32::MIN <= self.x * other.x <= i32::MAX);
        }
        self.x * other.x + self.y * other.y
    }
}

impl vstd::std_specs::ops::MulSpecImpl<Position> for Position {
    open spec fn obeys_mul_spec() -> bool {
        true
    }

    open spec fn mul_req(self, other: Position) -> bool {
        &&& i32::MIN <= self.x * other.x <= i32::MAX
        &&& i32::MIN <= self.y * other.y <= i32::MAX
        &&& i32::MIN <= self.x * other.x + self.y * other.y <= i32::MAX
    }

    open spec fn mul_spec(self, other: Position) -> i32 {
        (self.x * other.x + self.y * other.y) as i32
    }
}

/// Name of the entity.
pub struct Name {
    pub name: String,
}

/// A color as red, green and blue intensities.
#[derive(Clone, Copy, PartialEq, Eq, Structural, Debug)]
pub struct Color {
    pub r: u8,
    pub g: u8,
    pub b: u8,
}

/// Entities that are drawn on screen: a code-page-437 glyph and its colors.
#[derive(Clone, Copy, PartialEq, Eq, Structural, Debug)]
pub struct Renderable {
    pub glyph: u8,
    pub fg: Color,
    pub bg: Color,
}

/// Marks the player character.
#[derive(Clone, Copy, PartialEq, Eq, Structural, Debug)]
pub struct Player {}

/// What an entity sees: the tiles in its field of view, how far it sees, and whether the
/// field of view is stale and has to be computed again before it can be trusted.
pub struct Vision {
    pub visible: Vec<Position>,
    pub range: i32,
    pub recompute: bool,
}

/// Controlled by the monster AI, which chases and attacks the player.
#[derive(Clone, Copy, PartialEq, Eq, Structural, Debug)]
pub struct Monster {}

/// The entity keeps other entities from occupying its tile.
#[derive(Clone, Copy, PartialEq, Eq, Structural, Debug)]
pub struct Blocking {}

/// Combat statistics of an entity that can fight.
#[derive(Clone, Copy, PartialEq, Eq, Structural, Debug)]
pub struct Fighter {
    pub hp: i32,
    pub max_hp: i32,
    pub attack: i32,
    pub defense: i32,
}

} // verus!
