//! Compression schemes of block payloads.
use vstd::prelude::*;

verus! {

/// The identity framing: payload bytes are stored as they are.
#[derive(PartialEq, Eq, Structural, Debug, Clone, Copy)]
pub struct RawCompression {}

impl Default for RawCompression {
    fn default() -> (r: RawCompression)
        ensures
            r == (RawCompression {}),
    {
        RawCompression {}
    }
}

/// Compression scheme of a dataset's block payloads.
#[derive(PartialEq, Eq, Structural, Debug, Clone, Copy)]
pub enum CompressionType {
    Raw(RawCompression),
}

impl Default for CompressionType {
    fn default() -> (r: CompressionType)
        ensures
            r == CompressionType::Raw(RawCompression {}),
    {
        CompressionType::Raw(RawCompression {})
    }
}

impl CompressionType {
    /// The name of the scheme, as it appears in attribute files.
    pub fn scheme_name(&self) -> (r: &'static str)
        ensures
            r@ == "raw"@,
    {
        proof {
            reveal_strlit("raw");
        }
        "raw"
    }
}

} // verus!
