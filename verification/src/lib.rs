//! Ingestion of scientific instrument data files into one unified table.
//!
//! Each source file holds a metadata header and a 2-D detector image.  The
//! library decodes every file of a batch into one table row, isolates
//! per-file failures, and folds the rows into a single table whose column
//! set is the union of all input column sets, null-padding where a file did
//! not report a field.

pub mod enums;
pub mod errors;
pub mod image;
pub mod ingest;
pub mod paths;
pub mod qcalc;
pub mod record;
pub mod table;
