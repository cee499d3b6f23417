//! Shapes and sizes of tensors in device memory.

use crate::error::BackendError;
use vstd::prelude::*;
use vstd::slice::slice_to_vec;

verus! {

/// What kind of number an element is.
#[derive(Debug, Clone, Copy, PartialEq, Eq, Structural)]
pub enum DlCode {
    UInt,
    Float,
}

/// The type of an element, as the GPU library is told of it.
#[derive(Debug, Clone, Copy, PartialEq, Eq, Structural)]
pub struct DlDataType {
    pub code: DlCode,
    pub bits: u8,
    pub lanes: u16,
}

/// The types of elements that tensors have here.
#[derive(Debug, Clone, Copy, PartialEq, Eq, Structural)]
pub enum DlElement {
    Float32,
    UInt8,
    UInt32,
}

impl DlElement {
    /// The bytes of one element.
    pub open spec fn spec_bytes(self) -> usize {
        match self {
            DlElement::Float32 => 4,
            DlElement::UInt8 => 1,
            DlElement::UInt32 => 4,
        }
    }

    pub fn bytes(self) -> (bytes: usize)
        ensures
            bytes == self.spec_bytes(),
    {
        match self {
            DlElement::Float32 => 4,
            DlElement::UInt8 => 1,
            DlElement::UInt32 => 4,
        }
    }

    /// How the element type is described: its kind, its bits, and one lane.
    pub fn dl_dtype(self) -> (dtype: DlDataType)
        ensures
            dtype.code == (if self is Float32 {
                DlCode::Float
            } else {
                DlCode::UInt
            }),
            dtype.bits == self.spec_bytes() * 8,
            dtype.lanes == 1,
    {
        match self {
            DlElement::Float32 => DlDataType { code: DlCode::Float, bits: 32, lanes: 1 },
            DlElement::UInt8 => DlDataType { code: DlCode::UInt, bits: 8, lanes: 1 },
            DlElement::UInt32 => DlDataType { code: DlCode::UInt, bits: 32, lanes: 1 },
        }
    }
}

/// The elements of a tensor with these dimensions.
pub open spec fn elements(dims: Seq<usize>) -> nat
    decreases dims.len(),
{
    if dims.len() == 0 {
        1
    } else {
        elements(dims.drop_last()) * dims.last() as nat
    }
}

/// Whether the elements, and those of any leading dimensions, can be counted, and their bytes
/// too.
pub open spec fn countable(dims: Seq<usize>, element_bytes: usize) -> bool {
    &&& forall|i: int| 0 <= i <= dims.len() ==> elements(#[trigger] dims.take(i)) <= usize::MAX
    &&& elements(dims) * element_bytes <= usize::MAX
}

fn count_elements(dims: &[usize]) -> (count: usize)
    requires
        forall|i: int|
            0 <= i <= dims@.len() ==> elements(#[trigger] dims@.take(i)) <= usize::MAX,
    ensures
        count == elements(dims@),
{
    let mut count: usize = 1;
    let mut i: usize = 0;
    while i < dims.len()
        invariant
            i <= dims@.len(),
            forall|k: int|
                0 <= k <= dims@.len() ==> elements(#[trigger] dims@.take(k)) <= usize::MAX,
            count == elements(dims@.take(i as int)),
        decreases dims@.len() - i,
    {
        assert(dims@.take(i + 1).drop_last() =~= dims@.take(i as int));
        assert(elements(dims@.take(i + 1)) <= usize::MAX);
        count = count * dims[i];
        i = i + 1;
    }
    assert(dims@.take(i as int) =~= dims@);
    count
}

/// The dimensions that a tensor has at the moment, in a buffer of a fixed size.
#[derive(Debug)]
pub struct DeviceTensor {
    shape: Vec<usize>,
    element_bytes: usize,
    capacity_bytes: usize,
}

impl View for DeviceTensor {
    type V = Seq<usize>;

    closed spec fn view(&self) -> Seq<usize> {
        self.shape@
    }
}

impl DeviceTensor {
    pub closed spec fn spec_element_bytes(&self) -> usize {
        self.element_bytes
    }

    pub closed spec fn spec_capacity_bytes(&self) -> usize {
        self.capacity_bytes
    }

    /// The elements of the tensor take no more than the buffer has.
    pub open spec fn wf(&self) -> bool {
        &&& countable(self@, self.spec_element_bytes())
        &&& elements(self@) * self.spec_element_bytes() <= self.spec_capacity_bytes()
    }

    /// A tensor in a buffer that is just large enough for it.
    pub fn try_new(shape: &[usize], element: DlElement) -> (tensor: DeviceTensor)
        requires
            countable(shape@, element.spec_bytes()),
        ensures
            tensor.wf(),
            tensor@ == shape@,
            tensor.spec_element_bytes() == element.spec_bytes(),
            tensor.spec_capacity_bytes() == elements(shape@) * element.spec_bytes(),
    {
        let element_bytes: usize = element.bytes();
        let capacity_bytes: usize = count_elements(shape) * element_bytes;
        DeviceTensor { shape: slice_to_vec(shape), element_bytes, capacity_bytes }
    }

    /// The dimensions that the tensor has at the moment.
    pub fn shape(&self) -> (shape: &[usize])
        ensures
            shape@ == self@,
    {
        self.shape.as_slice()
    }

    /// The bytes of the buffer.
    pub fn capacity_bytes(&self) -> (bytes: usize)
        ensures
            bytes == self.spec_capacity_bytes(),
    {
        self.capacity_bytes
    }

    /// Gives the tensor other dimensions, as many as before, if the buffer is large enough.
    pub fn set_shape(&mut self, shape: &[usize]) -> (set: Result<(), BackendError>)
        requires
            old(self).wf(),
            shape@.len() == old(self)@.len() ==> countable(
                shape@,
                old(self).spec_element_bytes(),
            ),
        ensures
            final(self).wf(),
            final(self).spec_element_bytes() == old(self).spec_element_bytes(),
            final(self).spec_capacity_bytes() == old(self).spec_capacity_bytes(),
            match set {
                Ok(()) => {
                    &&& final(self)@ == shape@
                    &&& shape@.len() == old(self)@.len()
                    &&& elements(shape@) * old(self).spec_element_bytes() <= old(
                        self,
                    ).spec_capacity_bytes()
                },
                Err(BackendError::TensorRank { expected, got }) => {
                    &&& final(self)@ == old(self)@
                    &&& shape@.len() != old(self)@.len()
                    &&& expected == old(self)@.len()
                    &&& got == shape@.len()
                },
                Err(BackendError::TensorCapacity { capacity, shape: wanted, required }) => {
                    &&& final(self)@ == old(self)@
                    &&& shape@.len() == old(self)@.len()
                    &&& capacity == old(self).spec_capacity_bytes()
                    &&& wanted@ == shape@
                    &&& required == elements(shape@) * old(self).spec_element_bytes()
                    &&& required > capacity
                },
                Err(_) => false,
            },
    {
        if shape.len() != self.shape.len() {
            return Err(BackendError::TensorRank { expected: self.shape.len(), got: shape.len() });
        }
        let required: usize = count_elements(shape) * self.element_bytes;
        if required > self.capacity_bytes {
            return Err(
                BackendError::TensorCapacity {
                    capacity: self.capacity_bytes,
                    shape: slice_to_vec(shape),
                    required,
                },
            );
        }
        self.shape = slice_to_vec(shape);
        Ok(())
    }

    /// The elements that the tensor has at the moment.
    pub fn current_len(&self) -> (len: usize)
        requires
            self.wf(),
        ensures
            len == elements(self@),
    {
        count_elements(self.shape.as_slice())
    }

    /// The bytes that they take.
    pub fn current_bytes(&self) -> (bytes: usize)
        requires
            self.wf(),
        ensures
            bytes == elements(self@) * self.spec_element_bytes(),
            bytes <= self.spec_capacity_bytes(),
    {
        self.current_len() * self.element_bytes
    }

    /// The bytes to copy from a host buffer of `len` elements, which must be as many as the
    /// tensor has.
    pub fn copy_from_host(&self, len: usize) -> (bytes: Result<usize, BackendError>)
        requires
            self.wf(),
        ensures
            match bytes {
                Ok(bytes) => {
                    &&& len == elements(self@)
                    &&& bytes == len * self.spec_element_bytes()
                    &&& bytes <= self.spec_capacity_bytes()
                },
                Err(BackendError::TensorCopyFrom { expected, got }) => {
                    &&& len != elements(self@)
                    &&& expected == elements(self@)
                    &&& got == len
                },
                Err(_) => false,
            },
    {
        let expected: usize = self.current_len();
        if len != expected {
            return Err(BackendError::TensorCopyFrom { expected, got: len });
        }
        Ok(self.current_bytes())
    }

    /// The bytes to copy to a host buffer of `len` elements, which must be as many as the
    /// tensor has.
    pub fn copy_to_host(&self, len: usize) -> (bytes: Result<usize, BackendError>)
        requires
            self.wf(),
        ensures
            match bytes {
                Ok(bytes) => {
                    &&& len == elements(self@)
                    &&& bytes == len * self.spec_element_bytes()
                    &&& bytes <= self.spec_capacity_bytes()
                },
                Err(BackendError::TensorCopyTo { expected, got }) => {
                    &&& len != elements(self@)
                    &&& expected == elements(self@)
                    &&& got == len
                },
                Err(_) => false,
            },
    {
        let expected: usize = self.current_len();
        if len != expected {
            return Err(BackendError::TensorCopyTo { expected, got: len });
        }
        Ok(self.current_bytes())
    }

    /// Checks that `len_bytes` bytes at `dst_offset_bytes` lie within the buffer, and returns
    /// where they end. A file is read straight into this range.
    pub fn read_from_gds(&self, dst_offset_bytes: usize, len_bytes: usize) -> (end: Result<
        usize,
        BackendError,
    >)
        ensures
            match end {
                Ok(end) => {
                    &&& end == dst_offset_bytes + len_bytes
                    &&& end <= self.spec_capacity_bytes()
                },
                Err(BackendError::ReadRangeOverflow) => dst_offset_bytes + len_bytes > usize::MAX,
                Err(BackendError::ReadRangeCapacity { start, end, capacity }) => {
                    &&& start == dst_offset_bytes
                    &&& end == dst_offset_bytes + len_bytes
                    &&& capacity == self.spec_capacity_bytes()
                    &&& end > capacity
                },
                Err(_) => false,
            },
    {
        read_range_end(dst_offset_bytes, len_bytes, self.capacity_bytes)
    }
}

/// The end of a range of `len` bytes at `start`, which must lie within `capacity` bytes.
pub fn read_range_end(start: usize, len: usize, capacity: usize) -> (end: Result<
    usize,
    BackendError,
>)
    ensures
        match end {
            Ok(end) => end == start + len && end <= capacity,
            Err(BackendError::ReadRangeOverflow) => start + len > usize::MAX,
            Err(BackendError::ReadRangeCapacity { start: s, end, capacity: c }) => {
                &&& s == start
                &&& end == start + len
                &&& c == capacity
                &&& end > capacity
            },
            Err(_) => false,
        },
{
    match start.checked_add(len) {
        Some(end) => if end > capacity {
            Err(BackendError::ReadRangeCapacity { start, end, capacity })
        } else {
            Ok(end)
        },
        None => Err(BackendError::ReadRangeOverflow),
    }
}

/// The bytes of a tensor whose elements have `bits` bits each.
pub fn tensor_num_bytes(shape: &Vec<usize>, bits: u8) -> (bytes: usize)
    requires
        countable(shape@, (bits / 8) as usize),
    ensures
        bytes == elements(shape@) * (bits as int / 8),
{
    count_elements(shape.as_slice()) * (bits / 8) as usize
}

/// How a matrix is copied to the host.
#[derive(Debug, Clone, Copy)]
pub enum CopyPlan {
    /// In one piece.
    Contiguous { bytes: usize },
    /// Row by row: `height` rows of `width` bytes each, `src_pitch` bytes apart, to rows that
    /// are `dst_pitch` bytes apart.
    Strided { dst_pitch: usize, src_pitch: usize, width: usize, height: usize },
}

/// How to copy a matrix of 32-bit values to the host, where its rows are put one after the
/// other. `strides` are those of its rows and columns, in elements, where it has any.
pub fn copy_plan_2d(shape: &Vec<usize>, strides: Option<(usize, usize)>, bits: u8) -> (plan: Result<
    CopyPlan,
    BackendError,
>)
    requires
        shape@.len() == 2 && strides is None ==> countable(shape@, (bits / 8) as usize),
        strides matches Some((row_stride, _)) ==> shape@.len() == 2 ==> {
            &&& shape@[1] * 4 <= usize::MAX
            &&& row_stride * 4 <= usize::MAX
        },
    ensures
        match plan {
            Ok(CopyPlan::Contiguous { bytes }) => {
                &&& shape@.len() == 2
                &&& strides is None
                &&& bytes == elements(shape@) * (bits as int / 8)
            },
            Ok(CopyPlan::Strided { dst_pitch, src_pitch, width, height }) => {
                &&& shape@.len() == 2
                &&& strides matches Some((row_stride, col_stride))
                &&& col_stride == 1
                &&& dst_pitch == shape@[1] * 4
                &&& src_pitch == row_stride * 4
                &&& width == shape@[1] * 4
                &&& height == shape@[0]
            },
            Err(BackendError::TensorNot2D { shape: got }) => {
                &&& shape@.len() != 2
                &&& got@ == shape@
            },
            Err(BackendError::ColumnStride { row_stride, col_stride }) => {
                &&& shape@.len() == 2
                &&& strides == Some((row_stride, col_stride))
                &&& col_stride != 1
            },
            Err(_) => false,
        },
{
    if shape.len() != 2 {
        return Err(BackendError::TensorNot2D { shape: shape.clone() });
    }
    match strides {
        None => Ok(CopyPlan::Contiguous { bytes: tensor_num_bytes(shape, bits) }),
        Some((row_stride, col_stride)) => {
            if col_stride != 1 {
                return Err(BackendError::ColumnStride { row_stride, col_stride });
            }
            let row_bytes: usize = shape[1] * 4;
            Ok(
                CopyPlan::Strided {
                    dst_pitch: row_bytes,
                    src_pitch: row_stride * 4,
                    width: row_bytes,
                    height: shape[0],
                },
            )
        },
    }
}

/// How to copy a tensor of three dimensions to the host: its dimensions, its values and its
/// bytes.
pub fn copy_plan_3d(shape: &Vec<usize>, bits: u8) -> (plan: Result<
    ([usize; 3], usize, usize),
    BackendError,
>)
    requires
        shape@.len() == 3 ==> countable(shape@, (bits / 8) as usize),
    ensures
        match plan {
            Ok((dims, values, bytes)) => {
                &&& shape@.len() == 3
                &&& dims@ == shape@
                &&& values == shape@[0] * shape@[1] * shape@[2]
                &&& bytes == values * (bits as int / 8)
            },
            Err(BackendError::TensorNot3D { shape: got }) => {
                &&& shape@.len() != 3
                &&& got@ == shape@
            },
            Err(_) => false,
        },
{
    if shape.len() != 3 {
        return Err(BackendError::TensorNot3D { shape: shape.clone() });
    }
    let dims: [usize; 3] = [shape[0], shape[1], shape[2]];
    assert(dims@ =~= shape@);
    proof {
        reveal_with_fuel(elements, 4);
        assert(shape@.drop_last().drop_last().drop_last() =~= Seq::empty());
        assert(1 * shape@[0] == shape@[0]);
    }
    let values: usize = count_elements(shape.as_slice());
    Ok((dims, values, tensor_num_bytes(shape, bits)))
}

/// The elements of a tensor are the product of its dimensions: one without dimensions has one
/// element, each dimension counts for itself, and dimensions behind others multiply with them.
pub proof fn law_elements_are_the_product(front: Seq<usize>, back: Seq<usize>)
    ensures
        elements(Seq::empty()) == 1,
        back.len() == 1 ==> elements(back) == back[0],
        elements(front + back) == elements(front) * elements(back),
    decreases back.len(),
{
    reveal_with_fuel(elements, 2);
    let all = front + back;
    if back.len() == 0 {
        assert(all =~= front);
        assert(elements(front) * 1 == elements(front));
    } else {
        let before = back.drop_last();
        assert(all.drop_last() =~= front + before);
        assert(all.last() == back.last());
        law_elements_are_the_product(front, before);
        let last = back.last() as nat;
        assert((elements(front) * elements(before)) * last == elements(front) * (elements(before)
            * last)) by (nonlinear_arith);
        assert(1 * last == last);
    }
}

} // verus!
