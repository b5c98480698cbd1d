//! The logic of git-trek, a terminal viewer that walks through a repository's
//! history: the per-file line counts loaded from each commit, the health and
//! change intensity derived from them, the interface state and how keys and
//! mouse events change it, and what each panel shows.

pub mod app;
pub mod cli;
pub mod data;
pub mod error;
pub mod input;
pub mod laws;
pub mod mouse;
pub mod palette;
pub mod panels;
pub mod seismic;
pub mod sorting;
pub mod text;
pub mod views;
