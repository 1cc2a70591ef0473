//! What an entity can be made of, and the intents that rule systems pass to
//! one another.

use vstd::prelude::*;
use crate::event_log::LogEntry;
use crate::geometry::Point;

verus! {

/// The name of an entity: an index into the world's table that is never
/// given out twice.
#[derive(Clone, Copy, Debug, PartialEq, Eq, Structural, Hash)]
pub struct Entity(pub usize);

/// A colour, by its red, green and blue parts.
#[derive(Clone, Copy, Debug, PartialEq, Eq, Structural)]
pub struct Color {
    pub r: u8,
    pub g: u8,
    pub b: u8,
}

/// The colour of a glyph and that of its background.
#[derive(Clone, Copy, Debug, PartialEq, Eq, Structural)]
pub struct ColorPair {
    pub fg: Color,
    pub bg: Color,
}

impl Color {
    pub fn white() -> (c: Color)
        ensures
            c == (Color { r: 255, g: 255, b: 255 }),
    {
        Color { r: 255, g: 255, b: 255 }
    }

    pub fn black() -> (c: Color)
        ensures
            c == (Color { r: 0, g: 0, b: 0 }),
    {
        Color { r: 0, g: 0, b: 0 }
    }
}

/// White on black, the colours of everything that is spawned.
pub open spec fn spec_white_on_black() -> ColorPair {
    ColorPair { fg: Color { r: 255, g: 255, b: 255 }, bg: Color { r: 0, g: 0, b: 0 } }
}

impl ColorPair {
    pub fn new(fg: Color, bg: Color) -> (pair: ColorPair)
        ensures
            pair == (ColorPair { fg, bg }),
    {
        ColorPair { fg, bg }
    }
}

/// The number of a glyph in the font.
pub type FontCharType = u16;

/// The number that `to_cp437` gives a character: its place in code page
/// 437.
pub uninterp spec fn spec_cp437(c: char) -> FontCharType;

/// Calls `bracket_lib`'s `to_cp437`, which looks a character up in code
/// page 437. The contract only names the number.
#[verifier::external_body]
pub(crate) fn to_cp437(c: char) -> (code: FontCharType)
    ensures
        code == spec_cp437(c),
{
    bracket_lib::prelude::to_cp437(c)
}

/// How an entity is drawn.
#[derive(Clone, Copy, Debug, PartialEq, Eq, Structural)]
pub struct Render {
    pub color: ColorPair,
    pub glyph: FontCharType,
}

#[derive(Clone, Copy, Debug, PartialEq, Eq, Structural)]
pub struct Health {
    pub current: i32,
    pub max: i32,
}

/// The damage that an entity deals, or adds when it is carried.
#[derive(Clone, Copy, Debug, PartialEq, Eq, Structural)]
pub struct Damage(pub i32);

/// Marks an item as a weapon.
#[derive(Clone, Copy, Debug, PartialEq, Eq, Structural)]
pub struct Weapon;

#[derive(Clone, Debug, PartialEq, Eq)]
pub struct Name(pub String);

#[derive(Clone, Copy, Debug, PartialEq, Eq, Structural)]
pub struct Player {
    pub wait_count: u8,
    pub map_level: u32,
}

/// Marks an entity as hostile.
#[derive(Clone, Copy, Debug, PartialEq, Eq, Structural)]
pub struct Enemy;

/// Marks an entity that wanders at random.
#[derive(Clone, Copy, Debug, PartialEq, Eq, Structural)]
pub struct MovingRandomly;

/// Marks an entity that hunts the player.
#[derive(Clone, Copy, Debug, PartialEq, Eq, Structural)]
pub struct ChasingPlayer;

/// Makes a hunter sit out every other turn: it rests while the flag is set.
#[derive(Clone, Copy, Debug, PartialEq, Eq, Structural)]
pub struct MoveEveryOther(pub bool);

/// Marks an entity that can be picked up.
#[derive(Clone, Copy, Debug, PartialEq, Eq, Structural)]
pub struct Item;

/// Marks the crystal that ends the game.
#[derive(Clone, Copy, Debug, PartialEq, Eq, Structural)]
pub struct TelerportationCrystal;

/// The intent to move an entity.
#[derive(Clone, Copy, Debug, PartialEq, Eq, Structural)]
pub struct WantsToMove {
    pub entity: Entity,
    pub destination: Point,
}

/// The intent to put a line into the event log.
#[derive(Clone, Debug, PartialEq, Eq)]
pub struct WantsToLog {
    pub log_entry: LogEntry,
}

/// The intent to strike.
#[derive(Clone, Copy, Debug, PartialEq, Eq, Structural)]
pub struct WantsToAttack {
    pub attacker: Entity,
    pub victim: Entity,
}

/// The intent to use an item.
#[derive(Clone, Copy, Debug, PartialEq, Eq, Structural)]
pub struct ActivateItem {
    pub used_by: Entity,
    pub item: Entity,
}

/// What an entity sees. The set is computed afresh only while `is_dirty`
/// is set, that is after its owner has moved.
#[derive(Clone, Debug, PartialEq, Eq)]
pub struct FieldOfView {
    pub visible_tiles: Vec<Point>,
    pub radius: i32,
    pub is_dirty: bool,
}

/// A field of view as a plain value.
pub struct FieldOfViewView {
    pub visible_tiles: Seq<Point>,
    pub radius: i32,
    pub is_dirty: bool,
}

impl View for FieldOfView {
    type V = FieldOfViewView;

    open spec fn view(&self) -> FieldOfViewView {
        FieldOfViewView {
            visible_tiles: self.visible_tiles@,
            radius: self.radius,
            is_dirty: self.is_dirty,
        }
    }
}

/// A field of view that sees nothing yet and is due to be computed.
pub open spec fn spec_unseen(radius: i32) -> FieldOfViewView {
    FieldOfViewView { visible_tiles: Seq::empty(), radius, is_dirty: true }
}

impl FieldOfView {
    pub fn new(radius: i32) -> (fov: FieldOfView)
        ensures
            fov@ == spec_unseen(radius),
    {
        Self { visible_tiles: Vec::new(), radius: radius, is_dirty: true }
    }

    /// A field of view of the same radius that is due to be computed.
    pub fn clone_dirty(&self) -> (fov: FieldOfView)
        ensures
            fov@ == spec_unseen(self.radius),
    {
        Self { visible_tiles: Vec::new(), radius: self.radius, is_dirty: true }
    }

    /// Whether `point` is among the visible tiles.
    pub fn sees(&self, point: Point) -> (b: bool)
        ensures
            b == self.visible_tiles@.contains(point),
    {
        let mut k: usize = 0;
        while k < self.visible_tiles.len()
            invariant
                k <= self.visible_tiles@.len(),
                forall|j: int| 0 <= j < k ==> self.visible_tiles@[j] != point,
            decreases self.visible_tiles@.len() - k,
        {
            let p = self.visible_tiles[k];
            if p.x == point.x && p.y == point.y {
                return true;
            }
            k += 1;
        }
        false
    }
}

#[derive(Clone, Copy, Debug, PartialEq, Eq, Structural)]
pub struct ProvidesHealing {
    pub amount: i32,
}

/// Marks an item that reveals the whole grid.
#[derive(Clone, Copy, Debug, PartialEq, Eq, Structural)]
pub struct ProvidesDungeonMap;

/// Marks an item that stuns the enemies next to its user.
#[derive(Clone, Copy, Debug, PartialEq, Eq, Structural)]
pub struct ProvidesStun;

/// Says who carries an item.
#[derive(Clone, Copy, Debug, PartialEq, Eq, Structural)]
pub struct Carried(pub Entity);

/// The number of turns for which an entity stays stunned.
#[derive(Clone, Copy, Debug, PartialEq, Eq, Structural)]
pub struct Stunned(pub i32);

} // verus!
