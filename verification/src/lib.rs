//! The backend's half of building an IVF_PQ vector index on the GPU.
//!
//! Training, encoding a dataset into a partition-local artifact and all that either decides or
//! computes on the host is here: which rows are sampled, how vectors become matrices, where
//! the bytes of a column lie in its data file, which batch goes through which slot, what is
//! counted. Running it on a GPU, reading datasets and writing files is left to those who drive
//! it. Finishing an index out of an artifact is no part of it.

pub mod alloc_trace;
pub mod arith;
pub mod artifact;
pub mod batch;
pub mod codebook;
pub mod columnar;
pub mod error;
pub mod gds_layout;
pub mod gds_pipeline;
pub mod gds_read;
pub mod host_memory;
pub mod large_alloc_gauge;
pub mod matrix;
pub mod params;
pub mod prepare;
pub mod sampling;
pub mod scan_pipeline;
pub mod settings;
pub mod smoke;
pub mod staging;
pub mod stats;
pub mod tensor;
pub mod text;
pub mod training;
pub mod transform;

pub use artifact::CuvsVectorBuildBackend;
pub use params::{
    IvfPqBuildParams, PartitionArtifactBuildOutput, TrainedIvfPqIndex, VectorIndexBuildOutput,
    VectorIndexBuildParams, VectorIndexKind,
};
