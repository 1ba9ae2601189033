//! Error type of the ingestion pipeline.
//!
//! Two propagation classes exist: per-file errors cause a single file to be
//! skipped while the batch continues, and batch-fatal errors abort the whole
//! operation.  Every variant carries the offending path, pattern, directory
//! or field so the caller can name the exact source of the failure.

use vstd::prelude::*;

verus! {

/// One ingestion failure, tagged by kind.
#[derive(Clone, Debug)]
pub enum IngestionError {
    /// The file does not carry the `fits` extension.  Per-file.
    NotAFitsFile(String),
    /// The container decoder rejected the file; carries the path and the
    /// decoder's own message.  Per-file.
    ContainerDecodeFailure(String, String),
    /// A requested header field is absent from the file's primary header;
    /// carries the path and the field name.  Per-file.
    MissingHeaderField(String, String),
    /// No image payload was found at any candidate position.  Per-file.
    MissingImageHdu(String),
    /// The image payload's element encoding is not one of the supported
    /// numeric encodings.  Per-file.
    UnsupportedImageEncoding(String),
    /// A path was not valid UTF-8.  Per-file.
    InvalidUtf8Path,
    /// The requested fields cannot stand as table columns, because they
    /// collide with each other or with the builder's own columns.
    /// Per-file.
    TableConstructionFailure,
    /// The target directory does not exist.  Batch-fatal.
    DirectoryNotFound(String),
    /// An entry of an explicit file list does not exist.  Batch-fatal.
    FileNotFound(String),
    /// No candidate file matched the extension filter or the glob pattern;
    /// carries a description of the pattern or directory.  Batch-fatal.
    NoFilesMatched(String),
    /// Every candidate file failed ingestion.  Batch-fatal.
    AllFilesFailed,
    /// An experiment-type token was not one of the recognized ones; carries
    /// the offending token.  Batch-fatal.
    InvalidExperimentType(String),
}

impl IngestionError {
    /// True of the kinds that skip one file while the batch continues.
    pub open spec fn is_per_file(self) -> bool {
        match self {
            IngestionError::NotAFitsFile(_) => true,
            IngestionError::ContainerDecodeFailure(_, _) => true,
            IngestionError::MissingHeaderField(_, _) => true,
            IngestionError::MissingImageHdu(_) => true,
            IngestionError::UnsupportedImageEncoding(_) => true,
            IngestionError::InvalidUtf8Path => true,
            IngestionError::TableConstructionFailure => true,
            _ => false,
        }
    }

    /// A short diagnostic line naming the kind and what it carries.
    pub fn describe(&self) -> String {
        match self {
            IngestionError::NotAFitsFile(p) => String::from_str("not a fits file: ").concat(
                p.as_str(),
            ),
            IngestionError::ContainerDecodeFailure(p, cause) => String::from_str(
                "container decode failure at ",
            ).concat(p.as_str()).concat(": ").concat(cause.as_str()),
            IngestionError::MissingHeaderField(p, field) => String::from_str(
                "missing header field ",
            ).concat(field.as_str()).concat(" in ").concat(p.as_str()),
            IngestionError::MissingImageHdu(p) => String::from_str("missing image payload in ")
                .concat(p.as_str()),
            IngestionError::UnsupportedImageEncoding(p) => String::from_str(
                "unsupported image encoding in ",
            ).concat(p.as_str()),
            IngestionError::InvalidUtf8Path => String::from_str("path is not valid utf-8"),
            IngestionError::TableConstructionFailure => String::from_str(
                "the requested fields collide as column names",
            ),
            IngestionError::DirectoryNotFound(d) => String::from_str("directory not found: ")
                .concat(d.as_str()),
            IngestionError::FileNotFound(p) => String::from_str("file not found: ").concat(
                p.as_str(),
            ),
            IngestionError::NoFilesMatched(what) => String::from_str("no files matched: ").concat(
                what.as_str(),
            ),
            IngestionError::AllFilesFailed => String::from_str(
                "none of the candidate files could be processed",
            ),
            IngestionError::InvalidExperimentType(t) => String::from_str(
                "invalid experiment type: ",
            ).concat(t.as_str()),
        }
    }
}

} // verus!
