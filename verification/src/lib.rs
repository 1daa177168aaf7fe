//! The decisions of a Windows desktop adapter, verified: which windows and applications there
//! are, what the tree of a window looks like, what a click or a drag consists of, and what goes
//! on the clipboard and comes back from it.
//!
//! Nothing here talks to the system. Functions take what was read from it as plain values, and
//! where reading and deciding take turns, a run says what to do next and takes the reply.
pub mod action;
pub mod adapter;
pub mod clipboard;
pub mod error;
pub mod geometry;
pub mod ident;
pub mod image_path;
pub mod limits;
pub mod listing;
pub mod mouse;
pub mod node;
pub mod outside;
pub mod roles;
pub mod utf16;
pub mod visit;
pub mod walk;

pub use adapter::WindowsAdapter;
