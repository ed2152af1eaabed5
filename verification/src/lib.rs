//! The decision core of splitwm, a terminal-multiplexer-style tiling Wayland
//! compositor: the column-strip layout, the window store, pointer and key
//! handling, notification bookkeeping, launching and drawing geometry, each
//! with a contract that Verus proves. Nothing here performs I/O; the program
//! around the library does that and hands plain values in.

pub mod arrange;
pub mod backend;
pub mod backlight;
pub mod bubble;
pub mod cache;
pub mod chrome;
pub mod compose;
pub mod cursor;
pub mod debug;
pub mod draw;
pub mod frame;
pub mod geom;
pub mod icon_cache;
pub mod icons;
pub mod image;
pub mod indexed;
pub mod input;
pub mod interaction;
pub mod launch;
pub mod layers;
pub mod layout;
pub mod manage;
pub mod menu;
pub mod notifications;
pub mod notify;
pub mod pieces;
pub mod pointer;
pub mod quantize;
pub mod scene;
pub mod screencopy;
pub mod seat;
pub mod shell;
pub mod sizes;
pub mod state;
pub mod taskbar;
pub mod text;
pub mod theme;
pub mod wallpaper;
pub mod xwayland;

use vstd::prelude::*;

verus! {

/// A palette index: the accent-colour representation of splits, so that
/// border rendering can palette-swap them.
pub type Index = u8;

/// The identity of one managed window.
pub type Win = u32;

} // verus!
