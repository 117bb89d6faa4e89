//! Verified core of a layer-shell status bar.
//!
//! The library models everything the bar decides and computes: the resource
//! assembly handshake that waits for the compositor's globals, the surface
//! lifecycle, the per-frame pixel compositing, and the configuration and
//! color parsing exposed to layout scripts.  The surrounding process (display
//! protocol transport, script evaluation, text shaping) feeds these functions
//! plain values and carries out the plans they return.

pub mod assembly;
pub mod bindings;
pub mod config;
pub mod render;
pub mod session;
pub mod text;
pub mod widget;
