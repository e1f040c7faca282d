//! Turns the working tree of a repository into one text artifact: every
//! relevant text file, each under a banner with its path and size.
//!
//! The crate holds the decisions of that pipeline and proves them with Verus;
//! reading directories and files is left to the caller.
//!
//! - [`classify`] decides whether an entry is taken, with [`detect`] telling
//!   binary content from text.
//! - [`record`] and [`size`] write the banner and the record of a file.
//! - [`walk`] is the walk over a tree as a state machine that its caller
//!   drives; [`history`] says what a walk leaves behind, and [`stats`] counts.
//! - [`tour`] and [`reorder`] prove what a walk over a whole tree comes to,
//!   and that the order of listings does not matter; [`files`] walks over a
//!   tree in memory.
//! - [`repository`] brings addresses of repositories into form.
//! - [`trusted`] holds what is taken on trust of other crates.

pub mod classify;
pub mod detect;
pub mod files;
pub mod history;
pub mod model;
pub mod record;
pub mod reorder;
pub mod repository;
pub mod size;
pub mod stats;
pub mod text;
pub mod tour;
pub mod trusted;
pub mod walk;
