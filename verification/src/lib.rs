//! Core of a multi-document, multi-pane text editing session.
//!
//! The library models the session state machine: an event-driven reducer,
//! a binary pane layout tree, a per-pane document buffer registry, and a
//! modifier-aware key-binding table.  Rendering, file dialogs and the
//! windowing event loop live outside the library and talk to it through
//! plain events and effects.

pub mod editor;
pub mod editor_core;
pub mod event;
pub mod fileinfo;
pub mod icons;
pub mod key_bindings;
pub mod pane_tree;
pub mod top_menu;
pub mod zen_core;

pub use crate::editor::Editor;
pub use crate::event::Event;
pub use crate::key_bindings::KeyBinding;
pub use crate::zen_core::ZenCore;
