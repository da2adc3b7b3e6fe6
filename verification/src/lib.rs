//! Interactive batch renaming: a regular expression and a replacement
//! template are applied to the file names of a list of paths, each name is
//! classified, and the names that change become a list of moves that is
//! checked for colliding destinations before anything is renamed.

pub mod app;
pub mod executor;
pub mod flags;
pub mod focus;
pub mod match_engine;
pub mod path_utils;
pub mod planner;
pub mod regex_calls;
pub mod text;
