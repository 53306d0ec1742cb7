//! Version strings for Jujutsu repositories, in the style of
//! `git describe --tags --always`.

mod boundary;
pub mod lines;
pub mod decimal;
pub mod resolve;
pub mod args;
