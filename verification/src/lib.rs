//! Decision logic of a Wayland compositor with server side decorations.

pub mod backend;
pub mod cli;
pub mod config;
pub mod geometry;
pub mod handlers;
pub mod hashing;
pub mod input;
pub mod keymap;
pub mod numbers;
pub mod ordered_map;
pub mod paths;
pub mod presentation;
pub mod runtime_key_binding;
pub mod seqs;
pub mod strings;
