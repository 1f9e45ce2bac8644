//! A seeded dice roller: a die catalog, a selectable list, a deterministic
//! and persistable random source, the save-file line format, and the
//! decisions of the terminal event loop.
pub mod text;
pub mod dice;
pub mod stateful_list;
pub mod rng;
pub mod save;
pub mod app;
pub mod ui;
