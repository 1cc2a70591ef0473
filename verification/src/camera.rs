//! The viewport that follows the player.

use vstd::prelude::*;
use crate::geometry::Point;
use crate::{DISPLAY_HEIGHT, DISPLAY_WIDTH};

verus! {

/// The part of the grid that is drawn: the columns `left_x..right_x` of the
/// rows `top_y..bottom_y`.
#[derive(Clone, Copy, Debug, PartialEq, Eq, Structural)]
pub struct Camera {
    pub left_x: i32,
    pub right_x: i32,
    pub top_y: i32,
    pub bottom_y: i32,
}

/// The viewport with `player_position` in its middle.
pub open spec fn spec_camera_at(player_position: Point) -> Camera {
    Camera {
        left_x: (player_position.x - DISPLAY_WIDTH / 2) as i32,
        right_x: (player_position.x + DISPLAY_WIDTH / 2) as i32,
        top_y: (player_position.y - DISPLAY_HEIGHT / 2) as i32,
        bottom_y: (player_position.y + DISPLAY_HEIGHT / 2) as i32,
    }
}

/// Whether the viewport around `player_position` stays within the range of
/// the coordinates.
pub open spec fn spec_camera_fits(player_position: Point) -> bool {
    &&& i32::MIN + DISPLAY_WIDTH <= player_position.x <= i32::MAX - DISPLAY_WIDTH
    &&& i32::MIN + DISPLAY_HEIGHT <= player_position.y <= i32::MAX - DISPLAY_HEIGHT
}

impl Camera {
    /// The viewport with `player_position` in its middle.
    pub fn new(player_position: Point) -> (camera: Camera)
        requires
            spec_camera_fits(player_position),
        ensures
            camera == spec_camera_at(player_position),
    {
        Camera {
            left_x: player_position.x - DISPLAY_WIDTH / 2,
            right_x: player_position.x + DISPLAY_WIDTH / 2,
            top_y: player_position.y - DISPLAY_HEIGHT / 2,
            bottom_y: player_position.y + DISPLAY_HEIGHT / 2,
        }
    }

    /// Centres the viewport on `player_position`.
    pub fn on_player_move(&mut self, player_position: Point)
        requires
            spec_camera_fits(player_position),
        ensures
            *final(self) == spec_camera_at(player_position),
    {
        self.left_x = player_position.x - DISPLAY_WIDTH / 2;
        self.right_x = player_position.x + DISPLAY_WIDTH / 2;
        self.top_y = player_position.y - DISPLAY_HEIGHT / 2;
        self.bottom_y = player_position.y + DISPLAY_HEIGHT / 2;
    }
}

} // verus!
