//! The decisions of a terminal front end for an agent session, verified:
//! text editing, key handling, popups, card and markdown layout, frame
//! deduplication and the transcript's viewport and selection.
pub mod approval;
pub mod cards;
pub mod composer;
pub mod controller;
pub mod decode;
pub mod demo;
pub mod editor;
pub mod frame_cache;
pub mod keys;
pub mod markdown;
pub mod md_render;
pub mod overlay;
pub mod overlay_at;
pub mod scene;
pub mod selection;
pub mod slash_menu;
pub mod state;
pub mod stream;
pub mod text;
pub mod viewport;
