//! A raycaster on a grid of tiles, with the pixel routines that paint its
//! frames.
//!
//! The renderer casts one ray for each column of the frame, walks the grid
//! cell by cell to the first solid tile, and draws there a textured strip
//! whose height falls with the distance. Sprites are drawn as rectangles
//! that face the camera.
//!
//! Everything is computed in integers. Positions, distances, angles and
//! factors are fixed-point numbers with sixteen fractional bits (see
//! [`fixed`]): 1.0 is 65536. Cosines, sines and the like are not computed
//! here; where a function needs one, it takes it as an argument.
//!
//! - [`map`], [`dda`]: the tile map and the ray caster.
//! - [`procedural`], [`raycaster`], [`light`]: textures, the renderer for a
//!   tile map, and the light on its walls.
//! - [`maze`], [`player`], [`input`]: the maze of characters, the player in
//!   it, and what the keys do.
//! - [`framebuffer`], [`texture`], [`renderer`]: frames of any size, images,
//!   and the renderer for the maze with its sprites.
//! - [`canvas`], [`draw`], [`text`], [`font`]: the model of a frame of bytes
//!   and what is painted on it.
//! - [`minimap`], [`screens`], [`hud`]: the small map, the full-frame
//!   screens, and the bars of the display.

pub mod util;
pub mod fixed;
pub mod map;
pub mod dda;
pub mod procedural;
pub mod raycaster;
pub mod light;
pub mod maze;
pub mod player;
pub mod input;
pub mod framebuffer;
pub mod texture;
pub mod renderer;
pub mod canvas;
pub mod draw;
pub mod text;
pub mod font;
pub mod minimap;
pub mod screens;
pub mod hud;
