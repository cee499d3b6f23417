//! What is asked of a build, and what comes out of it.

use crate::error::BackendError;
use arrow_array::FixedSizeListArray;
use vstd::prelude::*;

verus! {

/// Distances between vectors.
#[derive(Debug, Clone, Copy, PartialEq, Eq, Structural)]
pub enum DistanceType {
    L2,
    Cosine,
    Dot,
    Hamming,
}

/// Distances as the GPU library names them.
#[derive(Debug, Clone, Copy, PartialEq, Eq, Structural)]
pub enum CuvsDistanceType {
    L2Expanded,
    CosineExpanded,
    InnerProduct,
}

/// The GPU library's name of a distance. It has none for the Hamming distance here.
pub fn cuvs_distance_type(metric_type: DistanceType) -> (metric: Result<
    CuvsDistanceType,
    BackendError,
>)
    ensures
        match metric_type {
            DistanceType::L2 => metric matches Ok(CuvsDistanceType::L2Expanded),
            DistanceType::Cosine => metric matches Ok(CuvsDistanceType::CosineExpanded),
            DistanceType::Dot => metric matches Ok(CuvsDistanceType::InnerProduct),
            DistanceType::Hamming => metric matches Err(BackendError::Metric { metric_type: m })
                && m == metric_type,
        },
{
    match metric_type {
        DistanceType::L2 => Ok(CuvsDistanceType::L2Expanded),
        DistanceType::Cosine => Ok(CuvsDistanceType::CosineExpanded),
        DistanceType::Dot => Ok(CuvsDistanceType::InnerProduct),
        DistanceType::Hamming => Err(BackendError::Metric { metric_type }),
    }
}

/// How codebooks are generated.
#[derive(Debug, Clone, Copy, PartialEq, Eq, Structural)]
pub enum CodebookGen {
    PerSubspace,
}

/// How codes are laid out in a list.
#[derive(Debug, Clone, Copy, PartialEq, Eq, Structural)]
pub enum ListLayout {
    Flat,
}

/// The parameters that a build on the GPU gets. Two more are fixed: the metric takes no
/// argument, and every training row takes part in clustering.
#[derive(Debug, Clone, Copy)]
pub struct IndexParams {
    pub metric: CuvsDistanceType,
    pub add_data_on_build: bool,
    pub n_lists: u32,
    pub kmeans_n_iters: u32,
    pub pq_bits: u32,
    pub pq_dim: u32,
    pub codebook_kind: CodebookGen,
    pub force_random_rotation: bool,
    pub conservative_memory_allocation: bool,
    pub max_train_points_per_pq_code: u32,
    pub codes_layout: ListLayout,
}

/// The parameters of a build on the GPU. Numbers are cut to 32 bits.
pub fn create_index_params(
    metric_type: DistanceType,
    num_partitions: usize,
    num_sub_vectors: usize,
    sample_rate: usize,
    max_iters: usize,
    num_bits: usize,
) -> (params: Result<IndexParams, BackendError>)
    ensures
        match params {
            Ok(params) => {
                &&& metric_type != DistanceType::Hamming
                &&& params.metric == match metric_type {
                    DistanceType::L2 => CuvsDistanceType::L2Expanded,
                    DistanceType::Cosine => CuvsDistanceType::CosineExpanded,
                    _ => CuvsDistanceType::InnerProduct,
                }
                &&& !params.add_data_on_build
                &&& params.n_lists == num_partitions as u32
                &&& params.kmeans_n_iters == max_iters as u32
                &&& params.pq_bits == num_bits as u32
                &&& params.pq_dim == num_sub_vectors as u32
                &&& params.codebook_kind == CodebookGen::PerSubspace
                &&& !params.force_random_rotation
                &&& !params.conservative_memory_allocation
                &&& params.max_train_points_per_pq_code == sample_rate as u32
                &&& params.codes_layout == ListLayout::Flat
            },
            Err(BackendError::Metric { metric_type: m }) => {
                metric_type == DistanceType::Hamming && m == metric_type
            },
            Err(_) => false,
        },
{
    let metric = cuvs_distance_type(metric_type)?;
    Ok(
        IndexParams {
            metric,
            add_data_on_build: false,
            n_lists: num_partitions as u32,
            kmeans_n_iters: max_iters as u32,
            pq_bits: num_bits as u32,
            pq_dim: num_sub_vectors as u32,
            codebook_kind: CodebookGen::PerSubspace,
            force_random_rotation: false,
            conservative_memory_allocation: false,
            max_train_points_per_pq_code: sample_rate as u32,
            codes_layout: ListLayout::Flat,
        },
    )
}

/// Bits of a PQ code: the only number that the GPU build supports.
pub const SUPPORTED_NUM_BITS: usize = 8;

/// Checks the bits of a PQ code, before anything else is looked at.
pub fn check_num_bits(num_bits: usize) -> (checked: Result<(), BackendError>)
    ensures
        match checked {
            Ok(()) => num_bits == SUPPORTED_NUM_BITS,
            Err(BackendError::NumBits) => num_bits != SUPPORTED_NUM_BITS,
            Err(_) => false,
        },
{
    if num_bits != SUPPORTED_NUM_BITS {
        return Err(BackendError::NumBits);
    }
    Ok(())
}

/// Checks that vectors can be cut into equal subvectors.
pub fn check_sub_vectors(dimension: usize, num_sub_vectors: usize) -> (checked: Result<
    (),
    BackendError,
>)
    requires
        num_sub_vectors > 0,
    ensures
        match checked {
            Ok(()) => dimension as int % num_sub_vectors as int == 0,
            Err(BackendError::SubVectors { dimension: d, num_sub_vectors: n }) => {
                &&& dimension as int % num_sub_vectors as int != 0
                &&& d == dimension
                &&& n == num_sub_vectors
            },
            Err(_) => false,
        },
{
    if dimension % num_sub_vectors != 0 {
        return Err(BackendError::SubVectors { dimension, num_sub_vectors });
    }
    Ok(())
}

/// The dimension of the vectors of `column`, from what the schema says of it: `None` where it
/// has no such field.
pub fn infer_dimension(column: &str, dimension: Option<usize>) -> (inferred: Result<
    usize,
    BackendError,
>)
    ensures
        match inferred {
            Ok(inferred) => dimension == Some(inferred),
            Err(BackendError::UnknownColumn { column: text }) => {
                dimension is None && text@ == column@
            },
            Err(_) => false,
        },
{
    match dimension {
        Some(dimension) => Ok(dimension),
        None => Err(BackendError::UnknownColumn { column: column.to_owned() }),
    }
}

/// Checks that there is anything to sample.
pub fn check_dataset_rows(num_rows: usize) -> (checked: Result<(), BackendError>)
    ensures
        match checked {
            Ok(()) => num_rows > 0,
            Err(BackendError::EmptyDataset) => num_rows == 0,
            Err(_) => false,
        },
{
    if num_rows == 0 {
        return Err(BackendError::EmptyDataset);
    }
    Ok(())
}

/// A trained IVF_PQ model that artifacts can be built from. What training brought is there as
/// Arrow arrays, so that callers can hand it on when they finish the index. `handle` stands
/// for the model on the GPU.
pub struct TrainedIvfPqIndex<H> {
    pub handle: H,
    pub num_partitions: usize,
    pub dimension: usize,
    pub num_sub_vectors: usize,
    pub num_bits: usize,
    pub metric_type: DistanceType,
    pub ivf_centroids: FixedSizeListArray,
    pub pq_codebook: FixedSizeListArray,
}

impl<H> TrainedIvfPqIndex<H> {
    /// The IVF centroids, one row per partition.
    pub fn ivf_centroids(&self) -> (centroids: &FixedSizeListArray)
        ensures
            *centroids == self.ivf_centroids,
    {
        &self.ivf_centroids
    }

    /// The PQ codebook, one row per centroid of each subspace.
    pub fn pq_codebook(&self) -> (codebook: &FixedSizeListArray)
        ensures
            *codebook == self.pq_codebook,
    {
        &self.pq_codebook
    }

    /// The number of IVF partitions.
    pub fn num_partitions(&self) -> (partitions: usize)
        ensures
            partitions == self.num_partitions,
    {
        self.num_partitions
    }

    /// The bytes of a PQ code: one for each subvector.
    pub fn pq_code_width(&self) -> (width: usize)
        ensures
            width == self.num_sub_vectors,
    {
        self.num_sub_vectors
    }

    /// The distance that the model was trained with.
    pub fn metric_type(&self) -> (metric_type: DistanceType)
        ensures
            metric_type == self.metric_type,
    {
        self.metric_type
    }

    /// The bits of a PQ code for one subvector.
    pub fn num_bits(&self) -> (bits: usize)
        ensures
            bits == self.num_bits,
    {
        self.num_bits
    }
}

/// A request to build a vector index. It describes only the steps of this crate: training and
/// building the artifact.
#[derive(Debug, Clone)]
pub struct VectorIndexBuildParams {
    pub column: String,
    pub kind: VectorIndexKind,
    pub artifact_uri: String,
    pub batch_size: usize,
    pub filter_nan: bool,
}

/// The kinds of vector index that can be built.
#[derive(Debug, Clone)]
pub enum VectorIndexKind {
    IvfPq(IvfPqBuildParams),
}

/// The parameters of an IVF_PQ build.
#[derive(Debug, Clone)]
pub struct IvfPqBuildParams {
    pub num_partitions: usize,
    pub metric_type: DistanceType,
    pub num_sub_vectors: usize,
    pub sample_rate: usize,
    pub max_iters: usize,
    pub num_bits: usize,
}

/// What a build brings.
pub enum VectorIndexBuildOutput {
    /// A partition-local artifact, and what training brought to build it.
    PartitionArtifact(PartitionArtifactBuildOutput),
}

impl VectorIndexBuildOutput {
    /// Where the artifact is.
    pub fn artifact_uri(&self) -> (uri: &str)
        ensures
            self matches VectorIndexBuildOutput::PartitionArtifact(output) && uri@
                == output.artifact_uri@,
    {
        match self {
            VectorIndexBuildOutput::PartitionArtifact(output) => output.artifact_uri.as_str(),
        }
    }

    /// The files of the artifact, relative to its root.
    pub fn files(&self) -> (files: &[String])
        ensures
            self matches VectorIndexBuildOutput::PartitionArtifact(output) && files@
                == output.files@,
    {
        match self {
            VectorIndexBuildOutput::PartitionArtifact(output) => output.files.as_slice(),
        }
    }

    /// The IVF centroids that were trained.
    pub fn ivf_centroids(&self) -> (centroids: &FixedSizeListArray)
        ensures
            self matches VectorIndexBuildOutput::PartitionArtifact(output) && *centroids
                == output.ivf_centroids,
    {
        match self {
            VectorIndexBuildOutput::PartitionArtifact(output) => &output.ivf_centroids,
        }
    }

    /// The PQ codebook that was trained.
    pub fn pq_codebook(&self) -> (codebook: &FixedSizeListArray)
        ensures
            self matches VectorIndexBuildOutput::PartitionArtifact(output) && *codebook
                == output.pq_codebook,
    {
        match self {
            VectorIndexBuildOutput::PartitionArtifact(output) => &output.pq_codebook,
        }
    }
}

/// A partition-local artifact.
pub struct PartitionArtifactBuildOutput {
    pub artifact_uri: String,
    pub files: Vec<String>,
    pub ivf_centroids: FixedSizeListArray,
    pub pq_codebook: FixedSizeListArray,
}

} // verus!
