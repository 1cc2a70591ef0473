//! The looks of a level: which glyph stands for which tile.

use vstd::prelude::*;
use crate::components::{spec_cp437, to_cp437, FontCharType};
use crate::map::TileType;
use crate::map_builder::MapTheme;

verus! {

/// Stone halls.
pub struct DungeonTheme {}

/// Trees and grass.
pub struct ForestTheme {}

/// Rock and rubble.
pub struct CaveTheme {}

/// The character that stands for a tile in the dungeon.
pub open spec fn spec_dungeon_glyph(tile_type: TileType) -> char {
    match tile_type {
        TileType::Floor | TileType::Floor2 | TileType::Floor3 => 'M',
        TileType::Wall | TileType::Wall2 => '#',
        TileType::Exit => '>',
    }
}

/// The character that stands for a tile in the forest.
pub open spec fn spec_forest_glyph(tile_type: TileType) -> char {
    match tile_type {
        TileType::Floor => '=',
        TileType::Floor2 => ';',
        TileType::Floor3 => '<',
        TileType::Wall | TileType::Wall2 => '"',
        TileType::Exit => '>',
    }
}

/// The character that stands for a tile in the cave.
pub open spec fn spec_cave_glyph(tile_type: TileType) -> char {
    match tile_type {
        TileType::Floor => '-',
        TileType::Floor2 | TileType::Floor3 => ',',
        TileType::Wall => '\\',
        TileType::Wall2 => '$',
        TileType::Exit => '>',
    }
}

impl DungeonTheme {
    pub fn new() -> (theme: DungeonTheme)
        ensures
            forall|t: TileType| #[trigger] theme.spec_glyph(t) == spec_cp437(spec_dungeon_glyph(t)),
    {
        Self {  }
    }
}

impl ForestTheme {
    pub fn new() -> (theme: ForestTheme)
        ensures
            forall|t: TileType| #[trigger] theme.spec_glyph(t) == spec_cp437(spec_forest_glyph(t)),
    {
        Self {  }
    }
}

impl CaveTheme {
    pub fn new() -> (theme: CaveTheme)
        ensures
            forall|t: TileType| #[trigger] theme.spec_glyph(t) == spec_cp437(spec_cave_glyph(t)),
    {
        Self {  }
    }
}

impl MapTheme for DungeonTheme {
    open spec fn spec_glyph(&self, tile_type: TileType) -> FontCharType {
        spec_cp437(spec_dungeon_glyph(tile_type))
    }

    fn tile_to_render(&self, tile_type: TileType) -> (glyph: FontCharType) {
        match tile_type {
            TileType::Floor | TileType::Floor2 | TileType::Floor3 => to_cp437('M'),
            TileType::Wall | TileType::Wall2 => to_cp437('#'),
            TileType::Exit => to_cp437('>'),
        }
    }
}

impl MapTheme for ForestTheme {
    open spec fn spec_glyph(&self, tile_type: TileType) -> FontCharType {
        spec_cp437(spec_forest_glyph(tile_type))
    }

    fn tile_to_render(&self, tile_type: TileType) -> (glyph: FontCharType) {
        match tile_type {
            TileType::Floor => to_cp437('='),
            TileType::Floor2 => to_cp437(';'),
            TileType::Floor3 => to_cp437('<'),
            TileType::Wall | TileType::Wall2 => to_cp437('"'),
            TileType::Exit => to_cp437('>'),
        }
    }
}

impl MapTheme for CaveTheme {
    open spec fn spec_glyph(&self, tile_type: TileType) -> FontCharType {
        spec_cp437(spec_cave_glyph(tile_type))
    }

    fn tile_to_render(&self, tile_type: TileType) -> (glyph: FontCharType) {
        match tile_type {
            TileType::Floor => to_cp437('-'),
            TileType::Floor2 | TileType::Floor3 => to_cp437(','),
            TileType::Wall => to_cp437('\\'),
            TileType::Wall2 => to_cp437('$'),
            TileType::Exit => to_cp437('>'),
        }
    }
}

/// The three looks, by name.
#[derive(Clone, Copy, Debug, PartialEq, Eq, Structural)]
pub enum Theme {
    Dungeon,
    Forest,
    Cave,
}

impl MapTheme for Theme {
    open spec fn spec_glyph(&self, tile_type: TileType) -> FontCharType {
        match self {
            Theme::Dungeon => spec_cp437(spec_dungeon_glyph(tile_type)),
            Theme::Forest => spec_cp437(spec_forest_glyph(tile_type)),
            Theme::Cave => spec_cp437(spec_cave_glyph(tile_type)),
        }
    }

    fn tile_to_render(&self, tile_type: TileType) -> (glyph: FontCharType) {
        match self {
            Theme::Dungeon => DungeonTheme::new().tile_to_render(tile_type),
            Theme::Forest => ForestTheme::new().tile_to_render(tile_type),
            Theme::Cave => CaveTheme::new().tile_to_render(tile_type),
        }
    }
}

} // verus!
