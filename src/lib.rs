//! Reading and writing reports of duplicate files.
//!
//! The text report format is formatted and parsed by verified code; dates,
//! shell quoting, terminal colours and CSV quoting are delegated to the
//! `chrono`, `shell-words`, `console` and `csv` crates.

pub mod chars;
pub mod cli;
pub mod detect;
pub mod error;
pub mod files;
pub mod human;
pub mod lines;
pub mod outside;
pub mod reader;
pub mod roots;
pub mod round_trip;
pub mod scan;
pub mod settings;
pub mod text;
pub mod writer;
