//! Transform slots: one batch each on its way through the GPU.

use crate::batch::{build_partition_batch, code_type, coded_rows};
use crate::columnar::{
    column_names, column_types, cut_rows, cuts_evenly, name_row, partition_rows, same_lengths,
    type_row, zip_rows, PartitionBatch,
};
use crate::error::BackendError;
use crate::host_memory::{check_prefix, pinned_bytes, RegisteredHostBuffer};
use crate::prepare::{PreparedMatrix, PreparedTransformBatch};
use crate::staging::PinnedStagingSlot;
use crate::tensor::{countable, elements, DeviceTensor, DlElement};
use vstd::prelude::*;
use vstd::slice::slice_subrange;

verus! {

/// What a launch copies to the GPU and back.
#[derive(Debug, Clone, Copy)]
pub struct LaunchPlan {
    /// The staging slot that the input is in, or `None` where it is in the slot's own matrix.
    pub staging_slot: Option<usize>,
    /// Bytes of the input.
    pub input_bytes: usize,
    /// The staging slot that was still held for an earlier batch, and goes back to its pool.
    pub released_slot: Option<usize>,
}

/// Device buffers for one batch, and what is known of the batch in them.
pub struct TransformSlot {
    input_device: DeviceTensor,
    labels_device: DeviceTensor,
    codes_device: DeviceTensor,
    /// Labels that the pinned host buffer has room for.
    labels_host: usize,
    /// Code bytes that the pinned host buffer has room for.
    codes_host: usize,
    input_matrix: Option<PreparedMatrix>,
    input_registration: Option<RegisteredHostBuffer>,
    input_staging: Option<PinnedStagingSlot>,
    row_ids: Option<Vec<u64>>,
    rows: usize,
}

/// Whether buffers for `rows` rows of `dimension` values and `code_width` code bytes can be
/// sized.
pub open spec fn sizes_fit(rows: usize, dimension: usize, code_width: usize) -> bool {
    &&& rows * dimension * 4 <= usize::MAX
    &&& rows * code_width <= usize::MAX
}

proof fn lemma_elements(rows: usize, cols: usize)
    ensures
        elements(seq![rows]) == rows,
        elements(seq![rows, cols]) == rows * cols,
{
    reveal_with_fuel(elements, 3);
    assert(seq![rows].drop_last() =~= Seq::empty());
    assert(seq![rows, cols].drop_last() =~= seq![rows]);
    assert(1 * rows == rows);
}

proof fn lemma_countable_2d(rows: usize, cols: usize, element_bytes: usize)
    requires
        rows * cols * element_bytes <= usize::MAX,
        element_bytes > 0,
    ensures
        countable(seq![rows, cols], element_bytes),
        elements(seq![rows, cols]) == rows * cols,
{
    let dims = seq![rows, cols];
    lemma_elements(rows, cols);
    assert(rows * cols <= rows * cols * element_bytes) by (nonlinear_arith)
        requires
            rows * cols >= 0,
            element_bytes > 0,
    ;
    assert(rows * cols >= 0) by (nonlinear_arith);
    assert forall|i: int| 0 <= i <= dims.len() implies elements(#[trigger] dims.take(i))
        <= usize::MAX by {
        if i == 0 {
            assert(dims.take(0) =~= Seq::empty());
        } else if i == 1 {
            assert(dims.take(1) =~= seq![rows]);
        } else {
            assert(dims.take(2) =~= dims);
        }
    }
}

proof fn lemma_countable_1d(rows: usize, element_bytes: usize)
    requires
        rows * element_bytes <= usize::MAX,
    ensures
        countable(seq![rows], element_bytes),
        elements(seq![rows]) == rows,
{
    let dims = seq![rows];
    lemma_elements(rows, 0);
    assert forall|i: int| 0 <= i <= dims.len() implies elements(#[trigger] dims.take(i))
        <= usize::MAX by {
        if i == 0 {
            assert(dims.take(0) =~= Seq::empty());
        } else {
            assert(dims.take(1) =~= dims);
        }
    }
}

impl TransformSlot {
    /// The row ids of the batch that is under way, if there is one.
    pub closed spec fn pending(&self) -> Option<Seq<u64>> {
        match self.row_ids {
            Some(row_ids) => Some(row_ids@),
            None => None,
        }
    }

    /// The rows of that batch.
    pub closed spec fn spec_rows(&self) -> usize {
        self.rows
    }

    /// The staging slot that is held for that batch, if there is one.
    pub closed spec fn held_slot(&self) -> Option<usize> {
        match self.input_staging {
            Some(staging) => staging.spec_slot(),
            None => None,
        }
    }

    /// The values of that batch in host memory, if they are still held.
    pub closed spec fn held_matrix(&self) -> Option<PreparedMatrix> {
        self.input_matrix
    }

    /// The pages that are registered for that batch, if there are any.
    pub closed spec fn held_registration(&self) -> Option<RegisteredHostBuffer> {
        self.input_registration
    }

    /// The bytes of the input buffer.
    pub closed spec fn input_capacity(&self) -> usize {
        self.input_device.spec_capacity_bytes()
    }

    /// The bytes of the label buffer.
    pub closed spec fn labels_capacity(&self) -> usize {
        self.labels_device.spec_capacity_bytes()
    }

    /// The bytes of the code buffer.
    pub closed spec fn codes_capacity(&self) -> usize {
        self.codes_device.spec_capacity_bytes()
    }

    /// The labels that fit into the pinned host buffer.
    pub closed spec fn labels_room(&self) -> usize {
        self.labels_host
    }

    /// The code bytes that fit into the pinned host buffer.
    pub closed spec fn codes_room(&self) -> usize {
        self.codes_host
    }

    /// The dimensions of the input tensor.
    pub closed spec fn input_shape(&self) -> Seq<usize> {
        self.input_device@
    }

    /// The dimensions of the label tensor.
    pub closed spec fn labels_shape(&self) -> Seq<usize> {
        self.labels_device@
    }

    /// The dimensions of the code tensor.
    pub closed spec fn codes_shape(&self) -> Seq<usize> {
        self.codes_device@
    }

    /// What every slot keeps: tensors of the right kind, whole in their buffers.
    pub closed spec fn wf(&self) -> bool {
        &&& self.input_device.wf()
        &&& self.labels_device.wf()
        &&& self.codes_device.wf()
        &&& self.input_device@.len() == 2
        &&& self.labels_device@.len() == 1
        &&& self.codes_device@.len() == 2
        &&& self.input_device.spec_element_bytes() == 4
        &&& self.labels_device.spec_element_bytes() == 4
        &&& self.codes_device.spec_element_bytes() == 1
        &&& self.input_matrix matches Some(matrix) ==> matrix.wf()
    }

    /// Whether the buffers are those of `other`.
    pub open spec fn same_buffers(&self, other: &TransformSlot) -> bool {
        &&& self.input_capacity() == other.input_capacity()
        &&& self.labels_capacity() == other.labels_capacity()
        &&& self.codes_capacity() == other.codes_capacity()
        &&& self.labels_room() == other.labels_room()
        &&& self.codes_room() == other.codes_room()
    }

    /// Whether the tensors have the dimensions of those of `other`.
    pub open spec fn same_shapes(&self, other: &TransformSlot) -> bool {
        &&& self.input_shape() == other.input_shape()
        &&& self.labels_shape() == other.labels_shape()
        &&& self.codes_shape() == other.codes_shape()
    }

    /// Whether the batch that is under way, and all that is held for it, is that of `other`.
    pub open spec fn same_batch(&self, other: &TransformSlot) -> bool {
        &&& self.pending() == other.pending()
        &&& self.spec_rows() == other.spec_rows()
        &&& self.held_slot() == other.held_slot()
        &&& self.held_matrix() == other.held_matrix()
        &&& self.held_registration() == other.held_registration()
    }

    /// A slot for batches of up to `max_rows` rows.
    pub fn try_new(max_rows: usize, dimension: usize, code_width: usize) -> (slot: Result<
        TransformSlot,
        BackendError,
    >)
        requires
            sizes_fit(max_rows, dimension, code_width),
        ensures
            match slot {
                Ok(slot) => {
                    &&& slot.wf()
                    &&& slot.pending() is None
                    &&& slot.spec_rows() == 0
                    &&& slot.held_slot() is None
                    &&& slot.held_matrix() is None
                    &&& slot.held_registration() is None
                    &&& slot.input_capacity() == max_rows * dimension * 4
                    &&& slot.labels_capacity() == max_rows * 4
                    &&& slot.codes_capacity() == max_rows * code_width
                    &&& slot.labels_room() == max_rows
                    &&& slot.codes_room() == max_rows * code_width
                    &&& slot.input_shape() == seq![max_rows, dimension]
                    &&& slot.labels_shape() == seq![max_rows]
                    &&& slot.codes_shape() == seq![max_rows, code_width]
                },
                Err(BackendError::PinnedSizeOverflow) => max_rows * 4 > usize::MAX,
                Err(_) => false,
            },
    {
        proof {
            lemma_countable_2d(max_rows, dimension, 4);
            assert(max_rows * code_width * 1 == max_rows * code_width);
            lemma_countable_2d(max_rows, code_width, 1);
            assert(0 <= max_rows * code_width) by (nonlinear_arith);
        }
        let input_shape: [usize; 2] = [max_rows, dimension];
        assert(input_shape@ =~= seq![max_rows, dimension]);
        let input_device = DeviceTensor::try_new(input_shape.as_slice(), DlElement::Float32);
        let _ = pinned_bytes(max_rows, DlElement::UInt32.bytes())?;
        proof {
            lemma_countable_1d(max_rows, 4);
        }
        let labels_shape: [usize; 1] = [max_rows];
        assert(labels_shape@ =~= seq![max_rows]);
        let labels_device = DeviceTensor::try_new(labels_shape.as_slice(), DlElement::UInt32);
        let codes_host: usize = max_rows * code_width;
        let _ = pinned_bytes(codes_host, DlElement::UInt8.bytes())?;
        let codes_shape: [usize; 2] = [max_rows, code_width];
        assert(codes_shape@ =~= seq![max_rows, code_width]);
        let codes_device = DeviceTensor::try_new(codes_shape.as_slice(), DlElement::UInt8);
        Ok(
            TransformSlot {
                input_device,
                labels_device,
                codes_device,
                labels_host: max_rows,
                codes_host,
                input_matrix: None,
                input_registration: None,
                input_staging: None,
                row_ids: None,
                rows: 0,
            },
        )
    }

    /// Whether a batch is under way.
    pub fn has_pending_output(&self) -> (pending: bool)
        ensures
            pending == self.pending() is Some,
    {
        self.row_ids.is_some()
    }

    /// The dimensions of the input tensor.
    pub fn input_dims(&self) -> (dims: &[usize])
        ensures
            dims@ == self.input_shape(),
    {
        self.input_device.shape()
    }

    /// The dimensions of the label tensor.
    pub fn labels_dims(&self) -> (dims: &[usize])
        ensures
            dims@ == self.labels_shape(),
    {
        self.labels_device.shape()
    }

    /// The dimensions of the code tensor.
    pub fn codes_dims(&self) -> (dims: &[usize])
        ensures
            dims@ == self.codes_shape(),
    {
        self.codes_device.shape()
    }

    /// The bytes of the input buffer.
    pub fn input_capacity_bytes(&self) -> (bytes: usize)
        ensures
            bytes == self.input_capacity(),
    {
        self.input_device.capacity_bytes()
    }

    /// The values of the batch under way, in host memory; `None` for a batch that is in a
    /// staging slot or was read straight into the device.
    pub fn input_slice(&self) -> (values: Option<&[u32]>)
        requires
            self.wf(),
        ensures
            match values {
                Some(slice) => {
                    &&& self.held_matrix() matches Some(matrix)
                    &&& slice@.len() == matrix.spec_rows() * matrix.spec_dimension()
                    &&& match matrix {
                        PreparedMatrix::F32Arrow { values, .. } => slice@ == values@,
                        PreparedMatrix::Owned(matrix) => slice@ == matrix@,
                        PreparedMatrix::Staged { .. } => false,
                    }
                },
                None => self.held_matrix() matches Some(matrix) ==> matrix is Staged,
            },
    {
        match &self.input_matrix {
            Some(matrix) => match matrix.input_slice() {
                Ok(values) => Some(values),
                Err(_) => None,
            },
            None => None,
        }
    }

    /// Why device buffers of these sizes cannot take `rows` rows: the first tensor that is too
    /// small.
    pub open spec fn shape_error_for(
        &self,
        error: BackendError,
        rows: usize,
        dimension: usize,
        code_width: usize,
    ) -> bool {
        &&& error matches BackendError::TensorCapacity { capacity, shape, required }
        &&& {
            ||| {
                &&& rows * dimension * 4 > self.input_capacity()
                &&& capacity == self.input_capacity()
                &&& shape@ == seq![rows, dimension]
                &&& required == rows * dimension * 4
            }
            ||| {
                &&& rows * dimension * 4 <= self.input_capacity()
                &&& rows * 4 > self.labels_capacity()
                &&& capacity == self.labels_capacity()
                &&& shape@ == seq![rows]
                &&& required == rows * 4
            }
            ||| {
                &&& rows * dimension * 4 <= self.input_capacity()
                &&& rows * 4 <= self.labels_capacity()
                &&& rows * code_width > self.codes_capacity()
                &&& capacity == self.codes_capacity()
                &&& shape@ == seq![rows, code_width]
                &&& required == rows * code_width
            }
        }
    }

    /// Whether the device buffers can take `rows` rows.
    pub open spec fn takes(&self, rows: usize, dimension: usize, code_width: usize) -> bool {
        &&& rows * dimension * 4 <= self.input_capacity()
        &&& rows * 4 <= self.labels_capacity()
        &&& rows * code_width <= self.codes_capacity()
    }

    /// Whether the tensors of `after` have the dimensions of a batch of `rows` rows, up to the
    /// first whose buffer cannot take them; that one and those after it are as they were.
    pub open spec fn shaped(
        &self,
        rows: usize,
        dimension: usize,
        code_width: usize,
        after: &TransformSlot,
    ) -> bool {
        let input_fits = rows * dimension * 4 <= self.input_capacity();
        let labels_fit = input_fits && rows * 4 <= self.labels_capacity();
        let codes_fit = labels_fit && rows * code_width <= self.codes_capacity();
        &&& after.input_shape() == if input_fits {
            seq![rows, dimension]
        } else {
            self.input_shape()
        }
        &&& after.labels_shape() == if labels_fit {
            seq![rows]
        } else {
            self.labels_shape()
        }
        &&& after.codes_shape() == if codes_fit {
            seq![rows, code_width]
        } else {
            self.codes_shape()
        }
    }

    fn set_shapes(&mut self, rows: usize, dimension: usize, code_width: usize) -> (set: Result<
        (),
        BackendError,
    >)
        requires
            old(self).wf(),
            sizes_fit(rows, dimension, code_width),
            rows * 4 <= usize::MAX,
        ensures
            final(self).wf(),
            final(self).same_buffers(old(self)),
            final(self).same_batch(old(self)),
            old(self).shaped(rows, dimension, code_width, final(self)),
            match set {
                Ok(()) => old(self).takes(rows, dimension, code_width),
                Err(error) => {
                    &&& !old(self).takes(rows, dimension, code_width)
                    &&& old(self).shape_error_for(error, rows, dimension, code_width)
                },
            },
    {
        proof {
            lemma_countable_2d(rows, dimension, 4);
            lemma_countable_1d(rows, 4);
            assert(rows * code_width * 1 == rows * code_width);
            lemma_countable_2d(rows, code_width, 1);
        }
        let input_shape: [usize; 2] = [rows, dimension];
        assert(input_shape@ =~= seq![rows, dimension]);
        self.input_device.set_shape(input_shape.as_slice())?;
        let labels_shape: [usize; 1] = [rows];
        assert(labels_shape@ =~= seq![rows]);
        self.labels_device.set_shape(labels_shape.as_slice())?;
        let codes_shape: [usize; 2] = [rows, code_width];
        assert(codes_shape@ =~= seq![rows, code_width]);
        self.codes_device.set_shape(codes_shape.as_slice())
    }

    /// Whether `plan` and `after` are what launching `prepared` in the slot `before` brings.
    pub open spec fn launches(
        before: TransformSlot,
        prepared: PreparedTransformBatch,
        code_width: usize,
        plan: Result<LaunchPlan, BackendError>,
        after: TransformSlot,
    ) -> bool {
        let rows = prepared.matrix.spec_rows();
        let dimension = prepared.matrix.spec_dimension();
        &&& after.wf()
        &&& after.same_buffers(&before)
        &&& before.shaped(rows, dimension, code_width, &after)
        &&& match plan {
            Ok(plan) => {
                &&& before.takes(rows, dimension, code_width)
                &&& after.pending() == Some(prepared.row_ids@)
                &&& after.spec_rows() == rows
                &&& after.held_matrix() == Some(prepared.matrix)
                &&& after.held_registration() == prepared.input_registration
                &&& plan.input_bytes == rows * dimension * 4
                &&& plan.released_slot == before.held_slot()
                &&& plan.staging_slot == after.held_slot()
                &&& plan.staging_slot == match prepared.input_staging {
                    Some(staging) => staging.spec_slot(),
                    None => None,
                }
            },
            Err(error) => {
                &&& !before.takes(rows, dimension, code_width)
                &&& before.shape_error_for(error, rows, dimension, code_width)
                &&& after.same_batch(&before)
            },
        }
    }

    /// Puts a prepared batch into the slot and says what to copy to the device. The batch's
    /// values, its registered pages and its staging slot are held until
    /// [`TransformSlot::release_input`], for the copy reads from them.
    pub fn launch(&mut self, prepared: PreparedTransformBatch, code_width: usize) -> (plan: Result<
        LaunchPlan,
        BackendError,
    >)
        requires
            old(self).wf(),
            prepared.wf(),
            sizes_fit(prepared.matrix.spec_rows(), prepared.matrix.spec_dimension(), code_width),
            prepared.matrix.spec_rows() * 4 <= usize::MAX,
        ensures
            Self::launches(*old(self), prepared, code_width, plan, *final(self)),
    {
        let rows: usize = prepared.matrix.rows();
        let dimension: usize = prepared.matrix.dimension();
        self.set_shapes(rows, dimension, code_width)?;
        proof {
            lemma_elements(rows, dimension);
        }
        let (staging_slot, len): (Option<usize>, usize) = match &prepared.input_staging {
            Some(staging) => {
                let (slot, len) = staging.as_slice()?;
                (Some(slot), len)
            },
            None => {
                let values = prepared.matrix.input_slice()?;
                (None, values.len())
            },
        };
        self.rows = rows;
        self.row_ids = Some(prepared.row_ids);
        self.input_registration = prepared.input_registration;
        let input_bytes: usize = self.input_device.copy_from_host(len)?;
        let mut displaced: Option<PinnedStagingSlot> = prepared.input_staging;
        std::mem::swap(&mut displaced, &mut self.input_staging);
        self.input_matrix = Some(prepared.matrix);
        let released_slot = match displaced {
            Some(mut displaced) => displaced.take(),
            None => None,
        };
        Ok(LaunchPlan { staging_slot, input_bytes, released_slot })
    }

    /// Puts a batch into the slot whose values were read into the device already. Nothing in
    /// host memory is held for it.
    pub fn launch_gds_prefetched(
        &mut self,
        row_ids: Vec<u64>,
        rows: usize,
        dimension: usize,
        code_width: usize,
    ) -> (launched: Result<(), BackendError>)
        requires
            old(self).wf(),
            sizes_fit(rows, dimension, code_width),
            rows * 4 <= usize::MAX,
        ensures
            final(self).wf(),
            final(self).same_buffers(old(self)),
            old(self).shaped(rows, dimension, code_width, final(self)),
            match launched {
                Ok(()) => {
                    &&& old(self).takes(rows, dimension, code_width)
                    &&& final(self).pending() == Some(row_ids@)
                    &&& final(self).spec_rows() == rows
                    &&& final(self).held_matrix() is None
                    &&& final(self).held_registration() is None
                    &&& final(self).held_slot() == old(self).held_slot()
                },
                Err(error) => {
                    &&& !old(self).takes(rows, dimension, code_width)
                    &&& old(self).shape_error_for(error, rows, dimension, code_width)
                    &&& final(self).same_batch(old(self))
                },
            },
    {
        self.set_shapes(rows, dimension, code_width)?;
        self.rows = rows;
        self.row_ids = Some(row_ids);
        self.input_registration = None;
        self.input_matrix = None;
        Ok(())
    }

    /// The labels and the code bytes to copy back from the device, once the transform has run.
    pub fn outputs(&self, code_width: usize) -> (outputs: Result<(usize, usize), BackendError>)
        requires
            self.wf(),
            self.pending() is Some,
            self.labels_shape() == seq![self.spec_rows()],
            self.codes_shape() == seq![self.spec_rows(), code_width],
            self.spec_rows() * code_width <= usize::MAX,
        ensures
            match outputs {
                Ok((labels, codes)) => {
                    &&& labels == self.spec_rows()
                    &&& codes == self.spec_rows() * code_width
                    &&& labels <= self.labels_room()
                    &&& codes <= self.codes_room()
                },
                Err(BackendError::PinnedPrefix { len, wanted }) => {
                    ||| {
                        &&& self.spec_rows() > self.labels_room()
                        &&& len == self.labels_room()
                        &&& wanted == self.spec_rows()
                    }
                    ||| {
                        &&& self.spec_rows() <= self.labels_room()
                        &&& self.spec_rows() * code_width > self.codes_room()
                        &&& len == self.codes_room()
                        &&& wanted == self.spec_rows() * code_width
                    }
                },
                Err(_) => false,
            },
    {
        proof {
            lemma_elements(self.rows, code_width);
        }
        check_prefix(self.labels_host, self.rows)?;
        let _ = self.labels_device.copy_to_host(self.rows)?;
        let codes: usize = self.rows * code_width;
        check_prefix(self.codes_host, codes)?;
        let _ = self.codes_device.copy_to_host(codes)?;
        Ok((self.rows, codes))
    }

    /// Lets go of what the copy to the device read from, once the device is known to be done
    /// with it, and says which staging slot goes back to its pool.
    pub fn release_input(&mut self) -> (slot: Option<usize>)
        requires
            old(self).wf(),
        ensures
            final(self).wf(),
            final(self).same_buffers(old(self)),
            final(self).same_shapes(old(self)),
            final(self).pending() == old(self).pending(),
            final(self).spec_rows() == old(self).spec_rows(),
            slot == old(self).held_slot(),
            final(self).held_slot() is None,
            final(self).held_matrix() is None,
            final(self).held_registration() is None,
    {
        self.input_registration = None;
        self.input_matrix = None;
        let mut staging: Option<PinnedStagingSlot> = None;
        std::mem::swap(&mut staging, &mut self.input_staging);
        match staging {
            Some(mut staging) => staging.take(),
            None => None,
        }
    }

    /// Whether `batch` and `after` are what draining the slot `before` brings.
    pub open spec fn drains(
        before: TransformSlot,
        names: (&str, &str, &str),
        labels: Seq<u32>,
        codes: Seq<u8>,
        code_width: usize,
        batch: Result<Option<PartitionBatch>, BackendError>,
        after: TransformSlot,
    ) -> bool {
        let rows = before.spec_rows() as int;
        let code_rows = cut_rows(codes.take(rows * code_width), code_width as i32 as int);
        &&& after.wf()
        &&& after.same_buffers(&before)
        &&& after.same_shapes(&before)
        &&& after.pending() is None
        &&& after.held_slot() == before.held_slot()
        &&& after.held_matrix() == before.held_matrix()
        &&& after.held_registration() == before.held_registration()
        &&& after.spec_rows() == if batch matches Ok(Some(_)) {
            0
        } else {
            before.spec_rows()
        }
        &&& match (batch, before.pending()) {
            (Ok(None), None) => true,
            (Ok(Some(batch)), Some(row_ids)) => {
                &&& row_ids.len() == rows
                &&& rows <= labels.len()
                &&& rows * code_width <= codes.len()
                &&& column_names(batch) == name_row(names)
                &&& column_types(batch) == type_row(code_type(code_width))
                &&& cuts_evenly(rows * code_width, code_width as i32 as int)
                &&& same_lengths(row_ids, labels.take(rows), code_rows)
                &&& partition_rows(batch) == zip_rows(row_ids, labels.take(rows), code_rows)
                &&& 0 < code_width <= i32::MAX ==> partition_rows(batch) == coded_rows(
                    row_ids,
                    labels.take(rows),
                    codes.take(rows * code_width),
                    code_width as int,
                )
            },
            (Err(BackendError::PinnedPrefix { len, wanted }), Some(_)) => {
                ||| {
                    &&& rows > labels.len()
                    &&& len == labels.len()
                    &&& wanted == rows
                }
                ||| {
                    &&& rows <= labels.len()
                    &&& rows * code_width > codes.len()
                    &&& len == codes.len()
                    &&& wanted == rows * code_width
                }
            },
            (Err(BackendError::Arrow(_)), Some(row_ids)) => {
                &&& rows <= labels.len()
                &&& rows * code_width <= codes.len()
                &&& {
                    ||| !cuts_evenly(rows * code_width, code_width as i32 as int)
                    ||| !same_lengths(row_ids, labels.take(rows), code_rows)
                }
                &&& 0 < code_width <= i32::MAX ==> row_ids.len() != rows
            },
            _ => false,
        }
    }

    /// Takes the batch under way out of the slot, with what the device brought: `labels` and
    /// `codes` are the pinned host buffers. `None` where no batch is under way.
    pub fn drain_to_batch(
        &mut self,
        names: (&str, &str, &str),
        labels: &[u32],
        codes: &[u8],
        code_width: usize,
    ) -> (batch: Result<Option<PartitionBatch>, BackendError>)
        requires
            old(self).wf(),
            old(self).spec_rows() * code_width <= usize::MAX,
        ensures
            Self::drains(*old(self), names, labels@, codes@, code_width, batch, *final(self)),
    {
        let row_ids = match self.row_ids.take() {
            Some(row_ids) => row_ids,
            None => {
                return Ok(None);
            },
        };
        check_prefix(labels.len(), self.rows)?;
        let codes_len: usize = self.rows * code_width;
        check_prefix(codes.len(), codes_len)?;
        assert(labels@.subrange(0, self.rows as int) =~= labels@.take(self.rows as int));
        assert(codes@.subrange(0, codes_len as int) =~= codes@.take(codes_len as int));
        let batch = build_partition_batch(
            names,
            row_ids,
            slice_subrange(labels, 0, self.rows),
            slice_subrange(codes, 0, codes_len),
            code_width,
        )?;
        self.rows = 0;
        Ok(Some(batch))
    }
}

/// A batch that was launched comes out of its slot again, once: draining the slot brings its row
/// ids in their order, with the labels and the codes that the device brought for them, and
/// draining the slot once more brings nothing. `ready` is the slot that is drained: the one
/// after the launch, whether or not what the copy read from was let go of in between.
pub proof fn law_launched_batch_is_drained_once(
    before: TransformSlot,
    prepared: PreparedTransformBatch,
    code_width: usize,
    plan: LaunchPlan,
    launched: TransformSlot,
    ready: TransformSlot,
    names: (&str, &str, &str),
    labels: Seq<u32>,
    codes: Seq<u8>,
    batch: Result<Option<PartitionBatch>, BackendError>,
    drained: TransformSlot,
    again: Result<Option<PartitionBatch>, BackendError>,
    after: TransformSlot,
)
    requires
        TransformSlot::launches(before, prepared, code_width, Ok(plan), launched),
        prepared.row_ids@.len() == prepared.matrix.spec_rows(),
        0 < code_width <= i32::MAX || (code_width == 0 && prepared.matrix.spec_rows() == 0),
        labels.len() >= prepared.matrix.spec_rows(),
        codes.len() >= prepared.matrix.spec_rows() * code_width,
        ready.pending() == launched.pending(),
        ready.spec_rows() == launched.spec_rows(),
        TransformSlot::drains(ready, names, labels, codes, code_width, batch, drained),
        TransformSlot::drains(drained, names, labels, codes, code_width, again, after),
    ensures
        ({
            let rows = prepared.matrix.spec_rows() as int;
            batch matches Ok(Some(batch)) && partition_rows(batch) == coded_rows(
                prepared.row_ids@,
                labels.take(rows),
                codes.take(rows * code_width),
                code_width as int,
            )
        }),
        drained.pending() is None,
        again matches Ok(None),
{
    let rows = prepared.matrix.spec_rows() as int;
    if code_width == 0 {
        assert(rows * code_width == 0);
        assert(code_width as i32 as int == 0);
        assert(zip_rows(
            prepared.row_ids@,
            labels.take(rows),
            cut_rows(codes.take(0), 0),
        ) =~= coded_rows(prepared.row_ids@, labels.take(rows), codes.take(0), 0));
    }
}

/// A batch is launched exactly where the slot's three buffers can take it. Its row ids are what
/// is under way, the tensors have its dimensions, all of its values are copied, and the slot
/// holds what the copy reads from, with what it held before handed back. A batch that is too
/// large for a buffer is refused with what that buffer has and would need, and what was under
/// way stays.
pub proof fn law_launch_takes_what_fits(
    before: TransformSlot,
    prepared: PreparedTransformBatch,
    code_width: usize,
    plan: Result<LaunchPlan, BackendError>,
    after: TransformSlot,
)
    requires
        TransformSlot::launches(before, prepared, code_width, plan, after),
    ensures
        ({
            let rows = prepared.matrix.spec_rows();
            let dimension = prepared.matrix.spec_dimension();
            &&& after.input_capacity() == before.input_capacity()
            &&& after.labels_capacity() == before.labels_capacity()
            &&& after.codes_capacity() == before.codes_capacity()
            &&& plan is Ok <==> rows * dimension * 4 <= before.input_capacity() && rows * 4
                <= before.labels_capacity() && rows * code_width <= before.codes_capacity()
            &&& match plan {
                Ok(plan) => {
                    &&& after.pending() == Some(prepared.row_ids@)
                    &&& after.spec_rows() == rows
                    &&& after.input_shape() == seq![rows, dimension]
                    &&& after.labels_shape() == seq![rows]
                    &&& after.codes_shape() == seq![rows, code_width]
                    &&& after.held_matrix() == Some(prepared.matrix)
                    &&& after.held_registration() == prepared.input_registration
                    &&& plan.input_bytes == rows * dimension * 4
                    &&& plan.released_slot == before.held_slot()
                    &&& prepared.input_staging is None ==> plan.staging_slot is None
                    &&& prepared.input_staging matches Some(staging) ==> plan.staging_slot
                        == staging.spec_slot()
                    &&& after.held_slot() == plan.staging_slot
                },
                Err(error) => {
                    &&& after.pending() == before.pending()
                    &&& after.spec_rows() == before.spec_rows()
                    &&& after.held_slot() == before.held_slot()
                    &&& after.held_matrix() == before.held_matrix()
                    &&& after.held_registration() == before.held_registration()
                    &&& error matches BackendError::TensorCapacity { capacity, shape, required }
                    &&& required > capacity
                    &&& shape@ == seq![rows, dimension] && capacity == before.input_capacity()
                        && required == rows * dimension * 4 || shape@ == seq![rows] && capacity
                        == before.labels_capacity() && required == rows * 4 || shape@ == seq![
                        rows,
                        code_width,
                    ] && capacity == before.codes_capacity() && required == rows * code_width
                },
            }
        }),
{
}

/// Draining takes the batch under way out, whatever comes of it, and leaves what the slot holds
/// for the copy. It brings a batch exactly where one is under way, it has a row id for each of
/// its rows, and the host buffers have a label and a code for each; of each row its id, its
/// label and its code, as they stand there.
pub proof fn law_drain_brings_every_row(
    before: TransformSlot,
    names: (&str, &str, &str),
    labels: Seq<u32>,
    codes: Seq<u8>,
    code_width: usize,
    batch: Result<Option<PartitionBatch>, BackendError>,
    after: TransformSlot,
)
    requires
        TransformSlot::drains(before, names, labels, codes, code_width, batch, after),
        0 < code_width <= i32::MAX,
    ensures
        ({
            let rows = before.spec_rows() as int;
            &&& after.pending() is None
            &&& after.held_slot() == before.held_slot()
            &&& after.held_matrix() == before.held_matrix()
            &&& after.held_registration() == before.held_registration()
            &&& (batch matches Ok(None)) <==> before.pending() is None
            &&& (batch matches Ok(Some(_))) <==> {
                &&& before.pending() matches Some(row_ids)
                &&& row_ids.len() == rows
                &&& labels.len() >= rows
                &&& codes.len() >= rows * code_width
            }
            &&& batch matches Ok(Some(batch)) ==> {
                &&& partition_rows(batch).len() == rows
                &&& column_names(batch) == seq![names.0@, names.1@, names.2@]
                &&& forall|row: int|
                    0 <= row < rows ==> #[trigger] partition_rows(batch)[row] == (
                        before.pending()->0[row],
                        labels[row],
                        codes.subrange(row * code_width, (row + 1) * code_width),
                    )
            }
        }),
{
    let rows = before.spec_rows() as int;
    if let Ok(Some(batch)) = batch {
        assert forall|row: int| 0 <= row < rows implies #[trigger] partition_rows(batch)[row] == (
            before.pending()->0[row],
            labels[row],
            codes.subrange(row * code_width, (row + 1) * code_width),
        ) by {
            assert(0 <= row * code_width <= (row + 1) * code_width && (row + 1) * code_width <= rows
                * code_width) by (nonlinear_arith)
                requires
                    0 <= row,
                    row + 1 <= rows,
                    0 < code_width,
            ;
            assert(codes.take(rows * code_width).subrange(row * code_width, (row + 1) * code_width)
                =~= codes.subrange(row * code_width, (row + 1) * code_width));
        }
    }
}

} // verus!
