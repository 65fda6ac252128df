//! Where the parts of the player page stand on each display.
use vstd::prelude::*;

verus! {

#[derive(Clone, Copy, Debug)]
pub struct PlayerLayout {
    pub width: i32,
    pub height: i32,
    pub text_width: i32,
    pub cover_top: i32,
    pub title_top: i32,
    /// At least one line of text: a label in a shorter box scrolls up and down.
    pub title_height: i32,
    pub author_top: i32,
    pub author_height: i32,
    pub controls_top: i32,
    pub controls_spacing: i32,
    pub hitbox_size: i32,
    /// The width of the background; its height is [`BACKGROUND_HEIGHT`].
    pub background_width: i32,
}

pub const BACKGROUND_HEIGHT: i32 = 520;

/// The width of backgrounds that were made for no display in particular.
pub const LEGACY_BACKGROUND_WIDTH: i32 = 336;

impl PlayerLayout {
    /// The display of 336 by 480 pixels.
    pub fn band_10_pro() -> (r: PlayerLayout)
        ensures
            r == (PlayerLayout {
                width: 336,
                height: 480,
                text_width: 336,
                cover_top: 72,
                title_top: 270,
                title_height: 44,
                author_top: 318,
                author_height: 44,
                controls_top: 382,
                controls_spacing: 72,
                hitbox_size: 64,
                background_width: 336,
            }),
    {
        PlayerLayout {
            width: 336,
            height: 480,
            text_width: 336,
            cover_top: 72,
            title_top: 270,
            title_height: 44,
            author_top: 318,
            author_height: 44,
            controls_top: 382,
            controls_spacing: 72,
            hitbox_size: 64,
            background_width: 336,
        }
    }

    /// The display of 212 by 520 pixels.
    pub fn band_11() -> (r: PlayerLayout)
        ensures
            r == (PlayerLayout {
                width: 212,
                height: 520,
                text_width: 188,
                cover_top: 92,
                title_top: 292,
                title_height: 44,
                author_top: 338,
                author_height: 40,
                controls_top: 398,
                controls_spacing: 64,
                hitbox_size: 56,
                background_width: 212,
            }),
    {
        PlayerLayout {
            width: 212,
            height: 520,
            text_width: 188,
            cover_top: 92,
            title_top: 292,
            title_height: 44,
            author_top: 338,
            author_height: 40,
            controls_top: 398,
            controls_spacing: 64,
            hitbox_size: 56,
            background_width: 212,
        }
    }

    /// How far from the middle the control of a row stands: the previous song to
    /// the left, the next one to the right.
    pub open spec fn control_offset(self, key: u32) -> int {
        if key == 7 {
            -self.controls_spacing
        } else if key == 8 {
            self.controls_spacing as int
        } else {
            0
        }
    }

    pub fn control_x(self, key: u32) -> (r: i32)
        requires
            self.controls_spacing > i32::MIN,
        ensures
            r == self.control_offset(key),
    {
        if key == 7 {
            -self.controls_spacing
        } else if key == 8 {
            self.controls_spacing
        } else {
            0
        }
    }
}

/// The buttons for the song before and the song behind stand equally far from the
/// middle, to its left and to its right; any other one stands in the middle.
pub proof fn controls_stand_around_the_middle(l: PlayerLayout, key: u32)
    ensures
        l.control_offset(7) + l.control_offset(8) == 0,
        l.control_offset(8) == l.controls_spacing,
        key != 7 && key != 8 ==> l.control_offset(key) == 0,
{
}

} // verus!
