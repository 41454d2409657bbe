pub mod text;
pub mod model;
pub mod group;
pub mod keymap;
pub mod sources;
pub mod cli;
pub mod focus;
pub mod state;
pub mod theme;
pub mod ui;
