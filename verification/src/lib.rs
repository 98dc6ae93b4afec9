//! The decisions of a desktop privacy indicator: what is being shared and by
//! whom, what a message changes, and what is shown of it.
//!
//! Nothing here reads files, talks to other programs or draws. What the
//! outside reports comes in as plain values, and what is to be done outside
//! goes out as plain values.

pub mod applet;
pub mod camera;
pub mod laws;
pub mod node;
pub mod path;
pub mod popup;
pub mod text;
pub mod watch;
