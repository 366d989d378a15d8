//! The processing core of a playlist filter: playlists are filtered, renamed, mapped, affixed,
//! merged and sorted, and the I/O around that work is planned step by step.

pub mod affix;
pub mod config;
pub mod error;
pub mod filter;
pub mod laws;
pub mod mapping;
pub mod pattern;
pub mod persist;
pub mod pipe;
pub mod playlist;
pub mod regroup;
pub mod rename;
pub mod report;
pub mod schedule;
pub mod selection;
pub mod sort;
pub mod source;
pub mod stable_sort;
pub mod stats;
pub mod target;
pub mod text;
pub mod transliterate;
