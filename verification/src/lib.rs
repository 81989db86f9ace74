//! Verified core of a spatial benchmark data generator: the formats of its
//! names and rows, the integer rules of its tables, the seeds and types of
//! its spatial generator, and the partitioning of its zone table.
pub mod numfmt;
pub mod tbl;
pub mod generators;
pub mod spider;
pub mod zones;
