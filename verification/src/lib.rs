//! Verified core of the GNOME power-toys: zone tiling, clipboard history
//! previews and the small pure helpers the desktop front ends rely on.

pub mod clipboard;
pub mod engine;
pub mod clips;
pub mod clips_ui;
pub mod geometry;
pub mod hotkeys;
pub mod preview;
pub mod snap;
pub mod textutil;
pub mod zones;
