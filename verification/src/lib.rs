//! The verified core of panini: press a Gleam application and its BEAM runtime
//! into one self-contained binary.

pub mod text;
pub mod apps;
pub mod cli;
pub mod laws;
pub mod listing;
pub mod otp;
pub mod path;
pub mod pipeline;
pub mod plan;
pub mod press;
pub mod process;
pub mod style;
pub mod target;
pub mod theme;
pub mod versions;
pub mod walk;
pub mod zig;
