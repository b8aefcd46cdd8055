//! A descriptor-level model of engine tensors.
//!
//! The engine owns the storage of every tensor; what this crate reasons about
//! is the descriptor: shape, element type, device placement, and the byte
//! range a tensor occupies inside the buffer it belongs to. `byte_offset` is 0
//! for a tensor that owns its whole buffer and marks the start of the
//! sub-range for a tensor that views one slot of a pool's backing buffer.

use vstd::prelude::*;
use vstd::slice::slice_subrange;

use crate::types::DataType;
use crate::types::DeviceType;
use crate::types::LiteDataType;
use crate::types::LiteDeviceType;
use crate::types::LiteResult;
use crate::types::is_known_data_type;
use crate::types::spec_width;

verus! {

/// The largest number of dimensions a layout can describe.
pub const LAYOUT_MAX_DIM: usize = 7;

/// An explicit (start, end, step) triple per dimension, describing a
/// rectangular sub-region of a tensor. An `end` of `None` stands for the full
/// extent of that dimension.
#[derive(Debug)]
pub struct SliceInfo<'a> {
    pub start: &'a [usize],
    pub end: &'a [Option<usize>],
    pub step: &'a [usize],
}

/// The simple layout description
///
/// see also [`crate::DataType`]
#[derive(Debug)]
pub struct Layout<'a> {
    pub shapes: &'a [usize],
    pub data_type: LiteDataType,
}

impl<'a> Default for Layout<'a> {
    fn default() -> (r: Self)
        ensures
            r.shapes@ == Seq::<usize>::empty(),
            r.data_type == DataType::F32,
    {
        let s: &'a [usize] = &[];
        Layout { shapes: s, data_type: DataType::F32 }
    }
}

/// A layout in the fixed-width form the engine's C interface uses: always
/// `LAYOUT_MAX_DIM` extents, of which the first `ndim` are meaningful.
#[derive(Clone, Copy, Debug)]
pub struct LiteLayout {
    pub ndim: usize,
    pub data_type: LiteDataType,
    pub shapes: [usize; 7],
}

/// The number of elements a shape describes: the product of its extents
/// (1 for the empty shape).
pub open spec fn spec_elem_count(shape: Seq<usize>) -> int
    decreases shape.len(),
{
    if shape.len() == 0 {
        1
    } else {
        shape[0] * spec_elem_count(shape.drop_first())
    }
}

/// The byte size of a tensor with the given shape and element type. A tensor
/// whose layout has no dimensions yet describes no storage at all.
pub open spec fn spec_layout_nbytes(shape: Seq<usize>, ty: LiteDataType) -> int {
    if shape.len() == 0 {
        0
    } else {
        spec_elem_count(shape) * spec_width(ty)
    }
}

impl<'a> Layout<'a> {
    /// Widens this layout to the engine's fixed-width form, zero-filling the
    /// unused trailing extents.
    pub fn as_raw(&self) -> (r: LiteLayout)
        requires
            self.shapes@.len() <= LAYOUT_MAX_DIM,
        ensures
            r.ndim == self.shapes@.len(),
            r.data_type == self.data_type,
            r.shapes@ == self.shapes@ + Seq::new(
                (LAYOUT_MAX_DIM - self.shapes@.len()) as nat,
                |i: int| 0usize,
            ),
    {
        let mut shapes: [usize; 7] = [0, 0, 0, 0, 0, 0, 0];
        let n = self.shapes.len();
        let mut i: usize = 0;
        while i < n
            invariant
                i <= n == self.shapes@.len() <= LAYOUT_MAX_DIM,
                shapes@.len() == LAYOUT_MAX_DIM,
                forall|k: int| 0 <= k < i ==> shapes@[k] == self.shapes@[k],
                forall|k: int| i <= k < LAYOUT_MAX_DIM ==> shapes@[k] == 0usize,
            decreases n - i,
        {
            shapes[i] = self.shapes[i];
            i += 1;
        }
        proof {
            assert(shapes@ =~= self.shapes@ + Seq::new(
                (LAYOUT_MAX_DIM - self.shapes@.len()) as nat,
                |k: int| 0usize,
            ));
        }
        LiteLayout { ndim: n, data_type: self.data_type, shapes }
    }
}

/// The descriptor the engine keeps for a tensor: placement and layout.
#[derive(Clone, Copy, Debug)]
pub struct LiteTensorDesc {
    pub is_pinned_host: i32,
    pub layout: LiteLayout,
    pub device_type: LiteDeviceType,
    pub device_id: i32,
}

/// What a tensor is, mathematically: its meaningful shape, its element type,
/// where it lives, and which byte range of its backing buffer it covers.
pub struct TensorView {
    pub shape: Seq<usize>,
    pub data_type: LiteDataType,
    pub device_type: LiteDeviceType,
    pub device_id: i32,
    pub pinned_host: bool,
    pub byte_offset: int,
}

impl TensorView {
    /// The byte size of the range this tensor covers.
    pub open spec fn nbytes(self) -> int {
        spec_layout_nbytes(self.shape, self.data_type)
    }

    /// A view is well formed when its shape is representable, its element
    /// type is known, and its byte range lies within addressable memory.
    pub open spec fn wf(self) -> bool {
        &&& self.shape.len() <= LAYOUT_MAX_DIM
        &&& is_known_data_type(self.data_type)
        &&& 0 <= self.byte_offset
        &&& self.byte_offset + self.nbytes() <= usize::MAX
    }

    /// The view of a fresh tensor on the given device: no dimensions yet,
    /// byte elements, covering nothing.
    pub open spec fn fresh(device_type: LiteDeviceType, device_id: i32, pinned: bool) -> TensorView {
        TensorView {
            shape: Seq::empty(),
            data_type: DataType::U8,
            device_type,
            device_id,
            pinned_host: pinned,
            byte_offset: 0,
        }
    }
}

/// The Lite Tensor object
pub struct Tensor {
    desc: LiteTensorDesc,
    byte_offset: usize,
}

impl View for Tensor {
    type V = TensorView;

    closed spec fn view(&self) -> TensorView {
        TensorView {
            shape: self.desc.layout.shapes@.take(self.desc.layout.ndim as int),
            data_type: self.desc.layout.data_type,
            device_type: self.desc.device_type,
            device_id: self.desc.device_id,
            pinned_host: self.desc.is_pinned_host != 0,
            byte_offset: self.byte_offset as int,
        }
    }
}

impl Tensor {
    #[verifier::type_invariant]
    spec fn inv(self) -> bool {
        self.desc.layout.ndim <= LAYOUT_MAX_DIM && self@.wf()
    }

    pub(crate) fn default_layout() -> (r: LiteLayout)
        ensures
            r.ndim == 0,
            r.data_type == DataType::U8,
    {
        LiteLayout { ndim: 0, data_type: DataType::U8, shapes: [0, 0, 0, 0, 0, 0, 0] }
    }

    pub(crate) fn new(desc: LiteTensorDesc, byte_offset: usize) -> (r: Tensor)
        requires
            desc.layout.ndim <= LAYOUT_MAX_DIM,
            is_known_data_type(desc.layout.data_type),
            byte_offset + spec_layout_nbytes(
                desc.layout.shapes@.take(desc.layout.ndim as int),
                desc.layout.data_type,
            ) <= usize::MAX,
        ensures
            r@.shape == desc.layout.shapes@.take(desc.layout.ndim as int),
            r@.data_type == desc.layout.data_type,
            r@.device_type == desc.device_type,
            r@.device_id == desc.device_id,
            r@.pinned_host == (desc.is_pinned_host != 0),
            r@.byte_offset == byte_offset,
    {
        proof {
            lemma_elem_count_nonneg(desc.layout.shapes@.take(desc.layout.ndim as int));
        }
        Tensor { desc, byte_offset }
    }

    /// The storage memory of tensor is host memory.
    pub fn host() -> (r: LiteResult<Tensor>)
        ensures
            r is Ok,
            r matches Ok(t) ==> t@ == TensorView::fresh(DeviceType::CPU, 0, false),
    {
        let desc = LiteTensorDesc {
            is_pinned_host: 0,
            layout: Self::default_layout(),
            device_type: DeviceType::CPU,
            device_id: 0,
        };
        let t = Tensor { desc, byte_offset: 0 };
        proof {
            assert(t@.shape =~= Seq::<usize>::empty());
            assert(t@ == TensorView::fresh(DeviceType::CPU, 0, false));
        }
        Ok(t)
    }

    /// The storage memory of the tensor is pinned memory, this is used
    /// to optimize the H2D or D2H memory copy
    ///
    /// see also [`crate::DeviceType`]
    pub fn pinned_host(ty: LiteDeviceType, dev_id: i32) -> (r: LiteResult<Tensor>)
        ensures
            r is Ok,
            r matches Ok(t) ==> t@ == TensorView::fresh(ty, dev_id, true),
    {
        let desc = LiteTensorDesc {
            is_pinned_host: 1,
            layout: Self::default_layout(),
            device_type: ty,
            device_id: dev_id,
        };
        let t = Tensor { desc, byte_offset: 0 };
        proof {
            assert(t@.shape =~= Seq::<usize>::empty());
            assert(t@ == TensorView::fresh(ty, dev_id, true));
        }
        Ok(t)
    }

    /// The storage memory of tensor is device memory.
    ///
    /// see also [`crate::DeviceType`]
    pub fn device(ty: LiteDeviceType, dev_id: i32) -> (r: LiteResult<Tensor>)
        ensures
            r is Ok,
            r matches Ok(t) ==> t@ == TensorView::fresh(ty, dev_id, false),
    {
        let desc = LiteTensorDesc {
            is_pinned_host: 0,
            layout: Self::default_layout(),
            device_type: ty,
            device_id: dev_id,
        };
        let t = Tensor { desc, byte_offset: 0 };
        proof {
            assert(t@.shape =~= Seq::<usize>::empty());
            assert(t@ == TensorView::fresh(ty, dev_id, false));
        }
        Ok(t)
    }

    /// The meaningful extents of this tensor's layout.
    pub fn shape(&self) -> (r: &[usize])
        ensures
            r@ == self@.shape,
    {
        proof {
            use_type_invariant(self);
        }
        slice_subrange(self.desc.layout.shapes.as_slice(), 0, self.desc.layout.ndim)
    }

    /// see also [`crate::DataType`]
    pub fn dtype(&self) -> (r: LiteDataType)
        ensures
            r == self@.data_type,
    {
        self.desc.layout.data_type
    }

    /// Change the layout of a Tensor object.
    pub fn set_layout(&mut self, layout: Layout<'_>)
        requires
            layout.shapes@.len() <= LAYOUT_MAX_DIM,
            is_known_data_type(layout.data_type),
            old(self)@.byte_offset + spec_layout_nbytes(layout.shapes@, layout.data_type)
                <= usize::MAX,
        ensures
            final(self)@ == (TensorView {
                shape: layout.shapes@,
                data_type: layout.data_type,
                ..old(self)@
            }),
    {
        proof {
            use_type_invariant(&*self);
        }
        let raw = layout.as_raw();
        proof {
            assert(raw.shapes@.take(raw.ndim as int) =~= layout.shapes@);
            lemma_elem_count_nonneg(layout.shapes@);
            if layout.shapes@.len() > 0 {
                assert(spec_elem_count(layout.shapes@) * spec_width(layout.data_type) >= 0)
                    by (nonlinear_arith)
                    requires
                        spec_elem_count(layout.shapes@) >= 0,
                        spec_width(layout.data_type) >= 1,
                ;
            }
        }
        self.desc.layout = raw;
    }

    /// Get the tensor capacity in byte of a Tensor object.
    pub fn nbytes(&self) -> (r: usize)
        ensures
            r == self@.nbytes(),
    {
        proof {
            use_type_invariant(self);
        }
        let ndim = self.desc.layout.ndim;
        if ndim == 0 {
            return 0;
        }
        let s = slice_subrange(self.desc.layout.shapes.as_slice(), 0, ndim);
        proof {
            assert(s@ =~= self@.shape);
        }
        match layout_bytes_checked(s, self.desc.layout.data_type) {
            Some(v) => v,
            None => {
                // unreachable: the invariant bounds the byte size by usize::MAX
                proof {
                    assert(false);
                }
                0
            },
        }
    }

    /// The raw descriptor of this tensor.
    pub(crate) fn raw_desc(&self) -> (r: LiteTensorDesc)
        ensures
            r.layout.ndim == self@.shape.len(),
            r.layout.ndim <= LAYOUT_MAX_DIM,
            r.layout.shapes@.take(r.layout.ndim as int) == self@.shape,
            r.layout.data_type == self@.data_type,
            r.device_type == self@.device_type,
            r.device_id == self@.device_id,
            (r.is_pinned_host != 0) == self@.pinned_host,
    {
        proof {
            use_type_invariant(self);
        }
        self.desc
    }

    /// Whether the tensor memory is continue. Every descriptor this crate
    /// builds is dense, so the answer is always yes.
    pub fn is_continue(&self) -> (r: bool)
        ensures
            r,
    {
        true
    }

    /// The start of the byte range this tensor covers inside its backing
    /// buffer: 0 for a tensor that owns its whole buffer, the slot's start
    /// for a pool sub-view.
    pub fn byte_offset(&self) -> (r: usize)
        ensures
            r == self@.byte_offset,
    {
        self.byte_offset
    }

    pub fn dev_id(&self) -> (r: i32)
        ensures
            r == self@.device_id,
    {
        self.desc.device_id
    }

    /// see also [`crate::DeviceType`]
    pub fn dev_type(&self) -> (r: LiteDeviceType)
        ensures
            r == self@.device_type,
    {
        self.desc.device_type
    }

    pub fn is_pinned_host(&self) -> (r: bool)
        ensures
            r == self@.pinned_host,
    {
        self.desc.is_pinned_host != 0
    }

    pub fn is_host(&self) -> (r: bool)
        ensures
            r == (self@.pinned_host || self@.device_type == DeviceType::CPU),
    {
        self.is_pinned_host() || self.dev_type() == DeviceType::CPU
    }
}

/// An element count is never negative.
pub proof fn lemma_elem_count_nonneg(shape: Seq<usize>)
    ensures
        spec_elem_count(shape) >= 0,
    decreases shape.len(),
{
    if shape.len() > 0 {
        lemma_elem_count_nonneg(shape.drop_first());
        assert(shape[0] * spec_elem_count(shape.drop_first()) >= 0) by (nonlinear_arith)
            requires
                shape[0] >= 0,
                spec_elem_count(shape.drop_first()) >= 0,
        ;
    }
}

/// A shape with a zero extent describes no elements.
pub proof fn lemma_elem_count_zero(shape: Seq<usize>, i: int)
    requires
        0 <= i < shape.len(),
        shape[i] == 0,
    ensures
        spec_elem_count(shape) == 0,
    decreases shape.len(),
{
    if i == 0 {
        lemma_elem_count_nonneg(shape.drop_first());
    } else {
        lemma_elem_count_zero(shape.drop_first(), i - 1);
    }
}

/// A shape with no zero extent describes at least one element.
pub proof fn lemma_elem_count_min(shape: Seq<usize>)
    requires
        forall|k: int| 0 <= k < shape.len() ==> shape[k] >= 1,
    ensures
        spec_elem_count(shape) >= 1,
    decreases shape.len(),
{
    if shape.len() > 0 {
        lemma_elem_count_min(shape.drop_first());
        assert(shape[0] * spec_elem_count(shape.drop_first()) >= 1) by (nonlinear_arith)
            requires
                shape[0] >= 1,
                spec_elem_count(shape.drop_first()) >= 1,
        ;
    }
}

/// An element count splits at any cut point into the product of the counts of
/// the two halves.
pub proof fn lemma_elem_count_split(shape: Seq<usize>, k: int)
    requires
        0 <= k <= shape.len(),
    ensures
        spec_elem_count(shape) == spec_elem_count(shape.take(k)) * spec_elem_count(shape.skip(k)),
    decreases k,
{
    if k == 0 {
        assert(shape.take(0) =~= Seq::<usize>::empty());
        assert(shape.skip(0) =~= shape);
    } else {
        let rest = shape.drop_first();
        lemma_elem_count_split(rest, k - 1);
        assert(shape.take(k).drop_first() =~= rest.take(k - 1));
        assert(shape.skip(k) =~= rest.skip(k - 1));
        assert(spec_elem_count(shape.take(k)) == shape[0] * spec_elem_count(rest.take(k - 1)));
        assert(shape[0] * (spec_elem_count(rest.take(k - 1)) * spec_elem_count(rest.skip(k - 1)))
            == (shape[0] * spec_elem_count(rest.take(k - 1))) * spec_elem_count(rest.skip(k - 1)))
            by (nonlinear_arith);
    }
}

/// Extending a prefix of a shape by one extent multiplies its element count
/// by that extent.
pub proof fn lemma_count_take_step(shape: Seq<usize>, j: int)
    requires
        0 <= j < shape.len(),
    ensures
        spec_elem_count(shape.take(j + 1)) == spec_elem_count(shape.take(j)) * shape[j],
{
    let s = shape.take(j + 1);
    lemma_elem_count_split(s, j);
    assert(s.take(j) =~= shape.take(j));
    assert(s.skip(j) =~= seq![shape[j]]);
    assert(seq![shape[j]].drop_first() =~= Seq::<usize>::empty());
    assert(spec_elem_count(Seq::<usize>::empty()) == 1);
    assert(spec_elem_count(seq![shape[j]]) == shape[j]);
}

/// With no zero extent, a prefix of a shape never describes more elements
/// than the whole shape.
pub proof fn lemma_count_prefix_le(shape: Seq<usize>, k: int)
    requires
        0 <= k <= shape.len(),
        forall|i: int| 0 <= i < shape.len() ==> shape[i] >= 1,
    ensures
        spec_elem_count(shape.take(k)) <= spec_elem_count(shape),
{
    lemma_elem_count_split(shape, k);
    lemma_elem_count_min(shape.skip(k));
    lemma_elem_count_nonneg(shape.take(k));
    assert(spec_elem_count(shape.take(k)) <= spec_elem_count(shape)) by (nonlinear_arith)
        requires
            spec_elem_count(shape) == spec_elem_count(shape.take(k)) * spec_elem_count(
                shape.skip(k),
            ),
            spec_elem_count(shape.skip(k)) >= 1,
            spec_elem_count(shape.take(k)) >= 0,
    ;
}

/// The byte size `spec_elem_count(shapes@) * spec_width(ty)` of a layout
/// with at least one dimension, or `None` exactly when that size does not
/// fit in `usize`.
pub(crate) fn layout_bytes_checked(shapes: &[usize], ty: LiteDataType) -> (r: Option<usize>)
    requires
        is_known_data_type(ty),
    ensures
        ({
            let bytes = spec_elem_count(shapes@) * spec_width(ty);
            match r {
                Some(v) => v == bytes && bytes <= usize::MAX,
                None => bytes > usize::MAX,
            }
        }),
{
    let n = shapes.len();
    // One zero extent zeroes the whole product, whatever stands elsewhere,
    // so the running product below only ever grows.
    let mut i: usize = 0;
    while i < n
        invariant
            i <= n == shapes@.len(),
            forall|k: int| 0 <= k < i ==> shapes@[k] >= 1,
        decreases n - i,
    {
        if shapes[i] == 0 {
            proof {
                lemma_elem_count_zero(shapes@, i as int);
            }
            return Some(0);
        }
        i += 1;
    }
    let width = DataType::width(ty);
    let mut acc: usize = 1;
    let mut j: usize = 0;
    while j < n
        invariant
            j <= n == shapes@.len(),
            forall|k: int| 0 <= k < n ==> shapes@[k] >= 1,
            width == spec_width(ty),
            is_known_data_type(ty),
            acc == spec_elem_count(shapes@.take(j as int)),
            acc >= 1,
        decreases n - j,
    {
        proof {
            lemma_count_take_step(shapes@, j as int);
        }
        acc = match acc.checked_mul(shapes[j]) {
            Some(v) => v,
            None => {
                proof {
                    lemma_count_prefix_le(shapes@, j as int + 1);
                    lemma_elem_count_nonneg(shapes@);
                    assert(spec_elem_count(shapes@) * spec_width(ty) >= spec_elem_count(shapes@))
                        by (nonlinear_arith)
                        requires
                            spec_elem_count(shapes@) >= 0,
                            spec_width(ty) >= 1,
                    ;
                }
                return None;
            },
        };
        proof {
            lemma_elem_count_min(shapes@.take(j as int + 1));
        }
        j += 1;
    }
    proof {
        assert(shapes@.take(n as int) =~= shapes@);
    }
    acc.checked_mul(width)
}

} // verus!
