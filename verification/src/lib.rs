//! Declarative configuration core for a tiling window manager.
//!
//! Two builder pipelines run once at startup: one expands and resolves a
//! keyboard/mouse binding table, the other composes a stack of window
//! layouts wrapped uniformly by a chain of visual transformers. Both
//! outputs are immutable values that an external windowing engine consumes.

pub mod actions;
pub mod bindings;
pub mod layout;
pub mod defaults;
