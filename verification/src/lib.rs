//! Verified core of a terminal note-taking tool: note identity, tags, titles,
//! wikilinks, markdown interchange and the pure decision logic of the store,
//! the command line and the terminal browser.

pub mod text;
pub mod content;
pub mod time;
pub mod error;
pub mod title;
pub mod tag;
pub mod id;
pub mod link;
pub mod note;
pub mod num;
pub mod interchange;
pub mod wikilink;
pub mod model;
pub mod query;
pub mod write;
pub mod mint;
pub mod app;
pub mod config;
pub mod render;
pub mod picker;
pub mod cli;
pub mod commands;
