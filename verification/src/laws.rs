//! What holds of the operations, said of their inputs and results alone: how a result is read off
//! the input, how an operation goes over lists that are put together, and how operations relate.

pub mod affixes;
pub mod filters;
pub mod grouping;
pub mod mappings;
pub mod outputs;
pub mod playlists;
pub mod renames;
pub mod sizes;
pub mod sorting;
pub mod sources;
pub mod stages;
pub mod targets;
pub mod texts;
