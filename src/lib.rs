//! Core of an N5 tensor container: element types, dataset geometry, the block
//! wire format, attribute merging and container path mapping.
use vstd::prelude::*;

pub mod compression;
pub mod coords;
pub mod data_type;
pub mod dataset;
pub mod block;
pub mod filesystem;
pub mod json;
pub mod version;

pub use coords::{BlockCoord, GridCoord, COORD_SMALLVEC_SIZE};
pub use data_type::{DataType, ReflectedType, TypeReflection};
pub use dataset::DatasetAttributes;
pub use filesystem::N5Filesystem;
pub use json::JsonValue;
pub use version::{is_version_compatible, Version, VERSION_ATTRIBUTE_KEY};
pub use block::{
    BlockHeader, DataBlock, DataBlockCreator, DataBlockMetadata, DefaultBlock,
    DefaultBlockHeaderReader, DefaultBlockReader, DefaultBlockWriter, ReadableDataBlock,
    ReinitDataBlock, SliceDataBlock, VecDataBlock, WriteableDataBlock,
};

verus! {

/// Kinds of failure of container and codec operations.
#[derive(PartialEq, Eq, Structural, Debug, Clone, Copy)]
pub enum N5Error {
    /// A node or attribute is missing, or a path leaves the container.
    NotFound,
    /// The caller's element type or attribute shapes do not fit.
    InvalidInput,
    /// Stored bytes or text do not decode.
    InvalidData,
    /// The container was written by a newer major version.
    Incompatible,
    /// The backend failed, or a stream ended early.
    Io,
}

} // verus!
