//! What the library knows of the NYSE Arca integrated feed.
pub mod enums;
pub mod line;
pub mod parser;
