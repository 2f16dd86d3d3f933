//! Core logic of the `wgit` desktop Git client: parsing of Git's textual
//! output, the diff and file-list documents shown in the two panes, the
//! command catalogue with its safety tiers, the theme file reader, the
//! recent-repository list and the glyph-atlas packer.

pub mod text;
pub mod models;
pub mod git_model;
pub mod theme;
pub mod commands;
pub mod syntax;
pub mod repo_store;
pub mod render;
pub mod icon;
pub mod cli;
pub mod ui;
