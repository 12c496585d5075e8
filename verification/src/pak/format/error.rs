use crate::foreign::io_error_text;
use crate::text::{append_decimal, decimal};
use vstd::prelude::*;
use vstd::string::StringExecFns;

verus! {

/// What can go wrong with an archive.
#[derive(Debug)]
pub enum PakError {
    /// The header does not start with the magic tag.
    InvalidMagic,
    /// The header names a version other than 1; holds the version.
    UnsupportedVersion(u32),
    /// The archive holds no asset of this name.
    AssetNotFound(String),
    /// The header, the table of contents or an entry of it does not fit
    /// the archive; holds the details.
    InvalidToc(String),
    /// An asset could not be compressed; holds the details.
    CompressionFailed(String),
    /// An asset could not be decompressed; holds the details.
    DecompressionFailed(String),
    /// The operating system reported a failure.
    Io(std::io::Error),
}

impl PakError {
    /// This is the error of a table of contents that does not fit, with
    /// the details `text`.
    pub open spec fn is_invalid_toc(&self, text: &str) -> bool {
        self matches PakError::InvalidToc(msg) && msg@ == text@
    }

    /// This is the error of an asset that was not found, for the name
    /// `name`.
    pub open spec fn is_not_found(&self, name: Seq<char>) -> bool {
        self matches PakError::AssetNotFound(msg) && msg@ == name
    }

    /// The text of the error, for every kind but `Io`, whose text is the
    /// operating system's.
    pub open spec fn message(&self) -> Seq<char> {
        match self {
            PakError::InvalidMagic => "Invalid magic bytes (expected 'PAK\\0')"@,
            PakError::UnsupportedVersion(v) => "Unsupported PAK version: "@ + decimal(*v as nat),
            PakError::AssetNotFound(s) => "Asset not found: "@ + s@,
            PakError::InvalidToc(s) => "Invalid TOC: "@ + s@,
            PakError::CompressionFailed(s) => "Compression failed: "@ + s@,
            PakError::DecompressionFailed(s) => "Decompression failed: "@ + s@,
            PakError::Io(_) => "IO error: "@,
        }
    }

    /// Returns the text of the error.
    pub fn to_string(&self) -> (r: String)
        ensures
            !(self is Io) ==> r@ == self.message(),
    {
        match self {
            PakError::InvalidMagic => String::from_str("Invalid magic bytes (expected 'PAK\\0')"),
            PakError::UnsupportedVersion(v) => {
                let mut out = String::from_str("Unsupported PAK version: ");
                append_decimal(&mut out, *v as u64);
                out
            },
            PakError::AssetNotFound(s) => String::from_str("Asset not found: ").concat(
                s.as_str(),
            ),
            PakError::InvalidToc(s) => String::from_str("Invalid TOC: ").concat(s.as_str()),
            PakError::CompressionFailed(s) => String::from_str("Compression failed: ").concat(
                s.as_str(),
            ),
            PakError::DecompressionFailed(s) => String::from_str("Decompression failed: ").concat(
                s.as_str(),
            ),
            PakError::Io(e) => String::from_str("IO error: ").concat(io_error_text(e).as_str()),
        }
    }
}

impl From<std::io::Error> for PakError {
    fn from(e: std::io::Error) -> (r: PakError)
        ensures
            r == PakError::Io(e),
    {
        PakError::Io(e)
    }
}

impl vstd::std_specs::convert::FromSpecImpl<std::io::Error> for PakError {
    open spec fn obeys_from_spec() -> bool {
        true
    }

    open spec fn from_spec(e: std::io::Error) -> PakError {
        PakError::Io(e)
    }
}

} // verus!
