//! What holds of the library from outside: promises on what goes in and what
//! comes out, said in characters, lists and numbers.

pub mod apps;
pub mod cli;
pub mod jobs;
pub mod otp;
pub mod path;
pub mod payload;
pub mod plan;
pub mod press;
pub mod script;
pub mod stages;
pub mod style;
pub mod target;
pub mod text;
pub mod versions;
pub mod walk;
pub mod zig;
