//! Screen dimensions, the palette and the game's states.

use vstd::prelude::*;

verus! {

/// Width of the frame in pixels.
pub const WIDTH: u32 = 1024;

/// Height of the frame in pixels.
pub const HEIGHT: u32 = 576;

pub const WHITE: [u8; 3] = [255, 255, 255];

pub const BLACK: [u8; 3] = [0, 0, 0];

pub const RED: [u8; 3] = [220, 64, 64];

pub const GREEN: [u8; 3] = [64, 220, 64];

pub const BLUE: [u8; 3] = [64, 64, 220];

/// What the game is showing.
#[derive(Copy, Clone, PartialEq, Eq, Structural, Debug)]
pub enum GameState {
    Menu,
    Playing,
    Win,
}

} // verus!
