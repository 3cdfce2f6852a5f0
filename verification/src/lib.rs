//! gispect: the logic of a side-by-side git diff inspector, with contracts
//! checked by Verus.

pub mod types;
pub mod text;
pub mod search;
pub mod diff;
pub mod config;
pub mod segments;
pub mod layout;
pub mod git;
pub mod update;
pub mod mcp;
pub mod pane;
pub mod highlight;
pub mod app;
pub mod keys;
pub mod panel;
pub mod screen;
pub mod project;
