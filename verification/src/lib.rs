//! Verified core of the Factorio mod translation pipeline.
pub mod archive;
pub mod assoc;
pub mod ini_spec;
pub mod json;
pub mod text;
pub mod time;
pub mod translation;
pub mod flow;
pub mod prompt;
pub mod portal;
pub mod pack;
pub mod repack;
pub mod cli;
