//! The decisions of a portal that puts notebooks into the folders of imaging
//! experiments and runs them there.
//!
//! `portal` holds the state that the user works on; the other modules hold what
//! goes into it. Reading, writing and running programs are left to the caller,
//! which hands in what came of them as plain values.

pub mod browser;
pub mod catalog;
pub mod command;
pub mod display;
pub mod instrument;
pub mod ipts;
pub mod launch;
pub mod lock;
pub mod notice;
pub mod number;
pub mod order;
pub mod paths;
pub mod portal;
pub mod provision;
pub mod split;
pub mod text;
pub mod theme;
