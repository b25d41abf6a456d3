//! Renders Mermaid diagrams in the terminal.

pub mod cli;
pub mod diag;
pub mod display;
pub mod engine;
pub mod errors;
pub mod fonts;
pub mod input;
pub mod json;
pub mod live;
pub mod path;
pub mod raster;
pub mod render;
pub mod results;
pub mod run;
pub mod settings;
pub mod shades;
pub mod size;
pub mod term;
pub mod text;
pub mod theme;
pub mod tints;
pub mod usage;
pub mod utf8;
