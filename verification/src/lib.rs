//! Structure maps of a code base: a file's flat list of symbols is rebuilt into
//! a one-level tree of structural items, turned into tables of cells, and
//! written out as a directed graph in the dot language.

pub mod analysis;
pub mod dot;
pub mod file_structure;
pub mod graph;
pub mod lang;
pub mod symbol;
pub mod text;
