//! A living bonsai for the terminal. This crate holds its verified core:
//! the procedural tree and its generator, the styled text and screen
//! layouts, the state file format, the request protocol and the decisions
//! of the command line and the interactive viewer.

pub mod rng;
pub mod canvas;
pub mod text;
pub mod ansi;
pub mod tree;
pub mod scene;
pub mod screen;
pub mod command;
pub mod frontend;
pub mod record;
pub mod paths;
