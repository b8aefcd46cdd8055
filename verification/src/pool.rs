//! A bounded slot pool over one backing tensor.
//!
//! The pool owns a backing buffer shaped `[capacity, per-slot dims..]` and a
//! bounded free-list of slot identifiers in `[0, capacity)`. Callers check
//! out a slot as an [`Idx`] lease, read or write the disjoint sub-range of
//! the backing buffer that [`TensorPool::at`] computes for it, and hand the
//! lease back. [`AllocModel`] is the mathematical state machine of the
//! allocator; every exec operation's contract says which model transition it
//! performs, and the proof functions at the end of this module establish the
//! allocator's safety laws over all event interleavings.

use vstd::prelude::*;
use vstd::seq_lib::*;
use vstd::set_lib::*;
use vstd::slice::slice_subrange;

use crate::tensor::LAYOUT_MAX_DIM;
use crate::tensor::Layout;
use crate::tensor::LiteTensorDesc;
use crate::tensor::Tensor;
use crate::tensor::TensorView;
use crate::tensor::lemma_elem_count_nonneg;
use crate::tensor::lemma_elem_count_split;
use crate::tensor::layout_bytes_checked;
use crate::tensor::spec_elem_count;
use crate::types::DeviceType;
use crate::types::LiteDataType;
use crate::types::LiteDeviceType;
use crate::types::LiteError;
use crate::types::LiteResult;
use crate::types::is_known_data_type;
use crate::types::spec_width;

verus! {

/// An event the slot allocator reacts to: a caller asking for a slot, or a
/// lease handing the given slot identifier back.
pub enum AllocEvent {
    Acquire,
    Release(int),
}

/// The mathematical state of the slot allocator: the queue of free slot
/// identifiers and the set of identifiers currently held by live leases.
pub struct AllocModel {
    pub capacity: int,
    pub free: Seq<int>,
    pub live: Set<int>,
}

impl AllocModel {
    /// A fresh allocator: every identifier in `[0, capacity)` is free, in
    /// order, and nothing is leased.
    pub open spec fn init(capacity: int) -> AllocModel {
        AllocModel {
            capacity,
            free: Seq::new(capacity as nat, |i: int| i),
            live: Set::empty(),
        }
    }

    /// The allocator's invariant: free identifiers are distinct and in
    /// range, and together with the live set they partition `[0, capacity)`.
    /// The partition is exactly the mutual-exclusivity property: an
    /// identifier a live lease holds is never also free, and no identifier
    /// is held twice, since `live` is a set.
    pub open spec fn inv(self) -> bool {
        &&& 0 <= self.capacity
        &&& self.free.no_duplicates()
        &&& (forall|k: int|
            0 <= k < self.free.len() ==> 0 <= #[trigger] self.free[k] < self.capacity)
        &&& self.live.finite()
        &&& self.live.subset_of(set_int_range(0, self.capacity))
        &&& (forall|x: int| self.live.contains(x) ==> !#[trigger] self.free.to_set().contains(x))
        &&& self.live.union(self.free.to_set()) == set_int_range(0, self.capacity)
    }

    /// One acquisition attempt. With no free identifier the state is
    /// unchanged and no identifier is granted: the caller suspends and tries
    /// again after a release. Otherwise the oldest free identifier leaves
    /// the queue and joins the live set.
    pub open spec fn acquire_step(self) -> (AllocModel, Option<int>) {
        if self.free.len() == 0 {
            (self, None)
        } else {
            (
                AllocModel {
                    free: self.free.drop_first(),
                    live: self.live.insert(self.free[0]),
                    ..self
                },
                Some(self.free[0]),
            )
        }
    }

    /// A lease handing `id` back: the identifier leaves the live set and
    /// joins the back of the free queue. An identifier that is not live is
    /// ignored; the allocator only ever receives identifiers it granted.
    pub open spec fn release_step(self, id: int) -> AllocModel {
        if self.live.contains(id) {
            AllocModel { free: self.free.push(id), live: self.live.remove(id), ..self }
        } else {
            self
        }
    }

    /// The transition relation over allocator events.
    pub open spec fn step(self, e: AllocEvent) -> AllocModel {
        match e {
            AllocEvent::Acquire => self.acquire_step().0,
            AllocEvent::Release(id) => self.release_step(id),
        }
    }
}

/// The state after an allocator processes a whole sequence of events.
pub open spec fn alloc_run(m: AllocModel, events: Seq<AllocEvent>) -> AllocModel
    decreases events.len(),
{
    if events.len() == 0 {
        m
    } else {
        alloc_run(m, events.drop_last()).step(events.last())
    }
}

/// The sequence of free identifiers as mathematical integers.
pub open spec fn int_seq(s: Seq<usize>) -> Seq<int> {
    Seq::new(s.len(), |i: int| s[i] as int)
}

/// The live set an allocator with the given capacity and free queue implies:
/// every in-range identifier that is not free is held by a lease.
pub open spec fn derived_live(capacity: int, free: Seq<int>) -> Set<int> {
    set_int_range(0, capacity).difference(free.to_set())
}

/// Bounded free-list of slot identifiers: the slot allocator. Identifiers
/// return in arrival order, so no acquirer waits forever while slots flow.
pub struct FreeList {
    capacity: usize,
    ids: Vec<usize>,
}

impl View for FreeList {
    type V = Seq<usize>;

    /// The queue of currently free identifiers, oldest first.
    closed spec fn view(&self) -> Seq<usize> {
        self.ids@
    }
}

impl FreeList {
    /// The fixed number of slot identifiers this allocator manages.
    pub closed spec fn spec_capacity(self) -> usize {
        self.capacity
    }

    #[verifier::type_invariant]
    spec fn inv(self) -> bool {
        &&& self.ids@.no_duplicates()
        &&& (forall|k: int| 0 <= k < self.ids@.len() ==> #[trigger] self.ids@[k] < self.capacity)
    }

    /// The allocator state this free-list realises.
    pub open spec fn model(self) -> AllocModel {
        AllocModel {
            capacity: self.spec_capacity() as int,
            free: int_seq(self@),
            live: derived_live(self.spec_capacity() as int, int_seq(self@)),
        }
    }

    /// A free-list preloaded with all `n` identifiers, in order.
    pub fn new(n: usize) -> (r: FreeList)
        ensures
            r.spec_capacity() == n,
            r@ == Seq::new(n as nat, |i: int| i as usize),
            r.model() == AllocModel::init(n as int),
    {
        let mut ids: Vec<usize> = Vec::new();
        let mut i: usize = 0;
        while i < n
            invariant
                i <= n,
                ids@.len() == i,
                forall|k: int| 0 <= k < i ==> #[trigger] ids@[k] == k,
            decreases n - i,
        {
            ids.push(i);
            i += 1;
        }
        let r = FreeList { capacity: n, ids };
        proof {
            assert(r@ =~= Seq::new(n as nat, |i: int| i as usize));
            assert(int_seq(r@) =~= Seq::new(n as nat, |i: int| i));
            assert forall|x: int| set_int_range(0, n as int).contains(x) implies int_seq(
                r@,
            ).to_set().contains(x) by {
                assert(int_seq(r@)[x] == x);
            }
            assert(derived_live(n as int, int_seq(r@)) =~= Set::<int>::empty());
            assert(r.model() == AllocModel::init(n as int));
        }
        r
    }

    /// Removes and returns the oldest free identifier, or returns nothing
    /// when every slot is leased out — the caller then waits for a release.
    pub fn pop(&mut self) -> (r: Option<usize>)
        ensures
            final(self).spec_capacity() == old(self).spec_capacity(),
            r is Some <==> old(self)@.len() > 0,
            old(self)@.len() == 0 ==> final(self)@ == old(self)@,
            old(self)@.len() > 0 ==> r == Some(old(self)@[0]) && final(self)@ == old(
                self,
            )@.drop_first(),
            final(self).model() == old(self).model().acquire_step().0,
            r matches Some(id) ==> old(self).model().acquire_step().1 == Some(id as int) && id
                < old(self).spec_capacity(),
    {
        proof {
            use_type_invariant(&*self);
        }
        if self.ids.len() == 0 {
            return None;
        }
        let ghost pre = self.ids@;
        let mut ids: Vec<usize> = Vec::new();
        core::mem::swap(&mut self.ids, &mut ids);
        let id = ids.remove(0);
        proof {
            assert(ids@ =~= pre.drop_first());
            assert forall|i: int, j: int|
                0 <= i < ids@.len() && 0 <= j < ids@.len() && i != j implies ids@[i]
                != ids@[j] by {
                assert(pre[i + 1] != pre[j + 1]);
            }
            assert forall|k: int| 0 <= k < ids@.len() implies ids@[k] < self.capacity by {
                assert(pre[k + 1] < self.capacity);
            }
        }
        self.ids = ids;
        proof {
            lemma_model_acquire(pre, self.capacity);
        }
        Some(id)
    }

    /// Returns a previously granted identifier to the back of the queue.
    /// This never needs to block or fail: a distinct-identifier queue over
    /// `[0, capacity)` missing `id` always has room for it.
    pub fn push(&mut self, id: usize)
        requires
            id < old(self).spec_capacity(),
            !old(self)@.contains(id),
        ensures
            final(self).spec_capacity() == old(self).spec_capacity(),
            final(self)@ == old(self)@.push(id),
            final(self).model() == old(self).model().release_step(id as int),
    {
        proof {
            use_type_invariant(&*self);
        }
        let ghost pre = self.ids@;
        let mut ids: Vec<usize> = Vec::new();
        core::mem::swap(&mut self.ids, &mut ids);
        ids.push(id);
        proof {
            assert forall|i: int, j: int|
                0 <= i < ids@.len() && 0 <= j < ids@.len() && i != j implies ids@[i]
                != ids@[j] by {
                if i < pre.len() && j < pre.len() {
                    assert(pre[i] != pre[j]);
                } else if j == pre.len() {
                    if pre[i] == id {
                        assert(pre.contains(id)) by {
                            assert(0 <= i < pre.len() && pre[i] == id);
                        }
                    }
                } else {
                    if pre[j] == id {
                        assert(pre.contains(id)) by {
                            assert(0 <= j < pre.len() && pre[j] == id);
                        }
                    }
                }
            }
        }
        self.ids = ids;
        proof {
            lemma_model_release(pre, self.capacity, id);
        }
    }

    /// The number of currently free identifiers.
    pub fn len(&self) -> (r: usize)
        ensures
            r == self@.len(),
    {
        self.ids.len()
    }
}

/// Popping the head of the free queue is exactly the model's acquire
/// transition: the head identifier moves from the free queue to the implied
/// live set.
proof fn lemma_model_acquire(pre: Seq<usize>, capacity: usize)
    requires
        pre.len() > 0,
        pre.no_duplicates(),
        forall|k: int| 0 <= k < pre.len() ==> #[trigger] pre[k] < capacity,
    ensures
        (AllocModel {
            capacity: capacity as int,
            free: int_seq(pre.drop_first()),
            live: derived_live(capacity as int, int_seq(pre.drop_first())),
        }) == (AllocModel {
            capacity: capacity as int,
            free: int_seq(pre),
            live: derived_live(capacity as int, int_seq(pre)),
        }).acquire_step().0,
{
    let f = int_seq(pre);
    let f1 = int_seq(pre.drop_first());
    assert(f1 =~= f.drop_first());
    let id = f[0];
    assert forall|x: int| f1.to_set().contains(x) implies f.to_set().contains(x) && x != id by {
        let i = choose|i: int| 0 <= i < f1.len() && f1[i] == x;
        assert(f[i + 1] == x);
        assert(pre[i + 1] != pre[0]);
    }
    assert forall|x: int| f.to_set().contains(x) && x != id implies f1.to_set().contains(x) by {
        let i = choose|i: int| 0 <= i < f.len() && f[i] == x;
        assert(i != 0);
        assert(f1[i - 1] == x);
    }
    assert(derived_live(capacity as int, f1) =~= derived_live(capacity as int, f).insert(id));
}

/// Pushing a returned identifier is exactly the model's release transition:
/// the identifier leaves the implied live set and joins the free queue.
proof fn lemma_model_release(pre: Seq<usize>, capacity: usize, id: usize)
    requires
        id < capacity,
        !pre.contains(id),
    ensures
        (AllocModel {
            capacity: capacity as int,
            free: int_seq(pre.push(id)),
            live: derived_live(capacity as int, int_seq(pre.push(id))),
        }) == (AllocModel {
            capacity: capacity as int,
            free: int_seq(pre),
            live: derived_live(capacity as int, int_seq(pre)),
        }).release_step(id as int),
{
    let f = int_seq(pre);
    let f1 = int_seq(pre.push(id));
    assert(f1 =~= f.push(id as int));
    assert(derived_live(capacity as int, f).contains(id as int)) by {
        if f.to_set().contains(id as int) {
            let i = choose|i: int| 0 <= i < f.len() && f[i] == id as int;
            assert(pre[i] == id);
        }
    }
    assert forall|x: int| f1.to_set().contains(x) implies f.to_set().contains(x) || x == id by {
        let i = choose|i: int| 0 <= i < f1.len() && f1[i] == x;
        if i < f.len() {
            assert(f[i] == x);
        }
    }
    assert forall|x: int| f.to_set().contains(x) implies f1.to_set().contains(x) by {
        let i = choose|i: int| 0 <= i < f.len() && f[i] == x;
        assert(f1[i] == x);
    }
    assert(f1.to_set().contains(id as int)) by {
        assert(f1[f.len() as int] == id as int);
    }
    assert(derived_live(capacity as int, f1) =~= derived_live(capacity as int, f).remove(
        id as int,
    ));
}

/// An tensor index of the [`TensorPool`]: the lease for one slot. It cannot
/// be copied or built outside this module, so at most one live lease exists
/// per granted identifier; handing it to [`TensorPool::release`] consumes it.
pub struct Idx {
    id: usize,
}

impl View for Idx {
    type V = usize;

    /// The slot identifier this lease holds.
    closed spec fn view(&self) -> usize {
        self.id
    }
}

impl Idx {
    /// Get index.
    pub fn get(&self) -> (r: usize)
        ensures
            r == self@,
    {
        self.id
    }
}

/// The per-slot byte size of a pool whose backing buffer has the given
/// shape: the elements of one slot times the element width.
pub open spec fn spec_slot_nbytes(shape: Seq<usize>, ty: LiteDataType) -> int {
    spec_elem_count(shape.drop_first()) * spec_width(ty)
}

/// Whether a backing buffer of this shape is representable: one slot and
/// the whole buffer must each fit in addressable memory.
pub open spec fn spec_pool_fits(shape: Seq<usize>, ty: LiteDataType) -> bool {
    &&& spec_slot_nbytes(shape, ty) <= usize::MAX
    &&& shape[0] * spec_slot_nbytes(shape, ty) <= usize::MAX
}

/// A tensor pool to reuse memory: one backing tensor shaped
/// `[capacity, per-slot dims..]` and a free-list of slot identifiers.
pub struct TensorPool {
    mem: Tensor,
    slot_nbytes: usize,
    freelist: FreeList,
}

impl TensorPool {
    /// The number of slots the pool was built with.
    pub closed spec fn capacity(self) -> usize {
        self.freelist.spec_capacity()
    }

    /// The queue of currently free slot identifiers, oldest first.
    pub closed spec fn free_view(self) -> Seq<usize> {
        self.freelist@
    }

    /// The descriptor of the backing buffer.
    pub closed spec fn backing(self) -> TensorView {
        self.mem@
    }

    /// The byte size of one slot of the backing buffer.
    pub closed spec fn slot_bytes(self) -> usize {
        self.slot_nbytes
    }

    /// The allocator state of this pool.
    pub open spec fn model(self) -> AllocModel {
        AllocModel {
            capacity: self.capacity() as int,
            free: int_seq(self.free_view()),
            live: derived_live(self.capacity() as int, int_seq(self.free_view())),
        }
    }

    /// Well-formedness of a pool: the backing buffer's leading extent is the
    /// capacity, the cached per-slot byte size agrees with the backing
    /// layout, and the whole buffer fits in addressable memory. Every
    /// constructor establishes it and every operation preserves it.
    pub closed spec fn wf(self) -> bool {
        &&& self.mem@.shape.len() >= 1
        &&& self.mem@.byte_offset == 0
        &&& self.freelist.spec_capacity() == self.mem@.shape[0]
        &&& is_known_data_type(self.mem@.data_type)
        &&& self.slot_nbytes == spec_slot_nbytes(self.mem@.shape, self.mem@.data_type)
        &&& (self.mem@.shape[0] as int) * self.slot_nbytes <= usize::MAX
    }

    /// Assembles a pool around a backing tensor whose leading extent is the
    /// capacity.
    fn new(mem: Tensor, slot_nbytes: usize) -> (r: TensorPool)
        requires
            mem@.shape.len() >= 1,
            mem@.byte_offset == 0,
            is_known_data_type(mem@.data_type),
            slot_nbytes == spec_slot_nbytes(mem@.shape, mem@.data_type),
            (mem@.shape[0] as int) * slot_nbytes <= usize::MAX,
        ensures
            r.wf(),
            r.capacity() == mem@.shape[0],
            r.backing() == mem@,
            r.slot_bytes() == slot_nbytes,
            r.free_view() == Seq::new(mem@.shape[0] as nat, |i: int| i as usize),
            r.model() == AllocModel::init(mem@.shape[0] as int),
    {
        let shape = mem.shape();
        let n = shape[0];
        let freelist = FreeList::new(n);
        TensorPool { mem, slot_nbytes, freelist }
    }

    /// Builds the backing tensor's layout and checks that the pool is
    /// representable, then assembles the pool.
    fn with_layout(mem: Tensor, layout: Layout<'_>) -> (r: LiteResult<TensorPool>)
        requires
            1 <= layout.shapes@.len() <= LAYOUT_MAX_DIM,
            is_known_data_type(layout.data_type),
            mem@.shape.len() == 0,
            mem@.byte_offset == 0,
        ensures
            r is Ok <==> spec_pool_fits(layout.shapes@, layout.data_type),
            r matches Ok(p) ==> ({
                &&& p.wf()
                &&& p.backing() == (TensorView {
                    shape: layout.shapes@,
                    data_type: layout.data_type,
                    ..mem@
                })
                &&& p.capacity() == layout.shapes@[0]
                &&& p.slot_bytes() == spec_slot_nbytes(layout.shapes@, layout.data_type)
                &&& p.free_view() == Seq::new(layout.shapes@[0] as nat, |i: int| i as usize)
                &&& p.model() == AllocModel::init(layout.shapes@[0] as int)
            }),
            r matches Err(e) ==> e matches LiteError::MGELiteError(_),
    {
        let n = layout.shapes[0];
        let rest = slice_subrange(layout.shapes, 1, layout.shapes.len());
        proof {
            assert(rest@ =~= layout.shapes@.drop_first());
        }
        let slot = match layout_bytes_checked(rest, layout.data_type) {
            Some(v) => v,
            None => {
                return Err(LiteError::MGELiteError(String::new()));
            },
        };
        let total = match n.checked_mul(slot) {
            Some(v) => v,
            None => {
                return Err(LiteError::MGELiteError(String::new()));
            },
        };
        proof {
            lemma_elem_count_split(layout.shapes@, 1);
            assert(layout.shapes@.take(1).drop_first() =~= Seq::<usize>::empty());
            assert(spec_elem_count(Seq::<usize>::empty()) == 1);
            assert(layout.shapes@.take(1)[0] == layout.shapes@[0]);
            assert(spec_elem_count(layout.shapes@.take(1)) == layout.shapes@[0]);
            assert(layout.shapes@.skip(1) =~= layout.shapes@.drop_first());
            assert((n as int) * (spec_elem_count(layout.shapes@.drop_first()) * spec_width(
                layout.data_type,
            )) == spec_elem_count(layout.shapes@) * spec_width(layout.data_type))
                by (nonlinear_arith)
                requires
                    spec_elem_count(layout.shapes@) == spec_elem_count(layout.shapes@.take(1))
                        * spec_elem_count(layout.shapes@.skip(1)),
                    spec_elem_count(layout.shapes@.take(1)) == n,
                    layout.shapes@.skip(1) == layout.shapes@.drop_first(),
            ;
        }
        let mut mem = mem;
        mem.set_layout(layout);
        Ok(Self::new(mem, slot))
    }

    /// Create a pool with host memory, see also [`Tensor::host()`]. The
    /// leading extent of the layout is the number of slots. Fails exactly
    /// when the requested buffer cannot be represented in memory.
    pub fn host(layout: Layout<'_>) -> (r: LiteResult<TensorPool>)
        requires
            1 <= layout.shapes@.len() <= LAYOUT_MAX_DIM,
            is_known_data_type(layout.data_type),
        ensures
            r is Ok <==> spec_pool_fits(layout.shapes@, layout.data_type),
            r matches Ok(p) ==> ({
                &&& p.wf()
                &&& p.backing() == (TensorView {
                    shape: layout.shapes@,
                    data_type: layout.data_type,
                    ..TensorView::fresh(DeviceType::CPU, 0, false)
                })
                &&& p.capacity() == layout.shapes@[0]
                &&& p.slot_bytes() == spec_slot_nbytes(layout.shapes@, layout.data_type)
                &&& p.free_view() == Seq::new(layout.shapes@[0] as nat, |i: int| i as usize)
                &&& p.model() == AllocModel::init(layout.shapes@[0] as int)
            }),
            r matches Err(e) ==> e matches LiteError::MGELiteError(_),
    {
        let mem = Tensor::host()?;
        Self::with_layout(mem, layout)
    }

    /// Create a pool with device memory, see also [`Tensor::device()`]
    pub fn device(ty: LiteDeviceType, dev_id: i32, layout: Layout<'_>) -> (r: LiteResult<
        TensorPool,
    >)
        requires
            1 <= layout.shapes@.len() <= LAYOUT_MAX_DIM,
            is_known_data_type(layout.data_type),
        ensures
            r is Ok <==> spec_pool_fits(layout.shapes@, layout.data_type),
            r matches Ok(p) ==> ({
                &&& p.wf()
                &&& p.backing() == (TensorView {
                    shape: layout.shapes@,
                    data_type: layout.data_type,
                    ..TensorView::fresh(ty, dev_id, false)
                })
                &&& p.capacity() == layout.shapes@[0]
                &&& p.slot_bytes() == spec_slot_nbytes(layout.shapes@, layout.data_type)
                &&& p.free_view() == Seq::new(layout.shapes@[0] as nat, |i: int| i as usize)
                &&& p.model() == AllocModel::init(layout.shapes@[0] as int)
            }),
            r matches Err(e) ==> e matches LiteError::MGELiteError(_),
    {
        let mem = Tensor::device(ty, dev_id)?;
        Self::with_layout(mem, layout)
    }

    /// Create a pool with pinned host memory, see also
    /// [`Tensor::pinned_host()`]
    pub fn pinned_host(ty: LiteDeviceType, dev_id: i32, layout: Layout<'_>) -> (r: LiteResult<
        TensorPool,
    >)
        requires
            1 <= layout.shapes@.len() <= LAYOUT_MAX_DIM,
            is_known_data_type(layout.data_type),
        ensures
            r is Ok <==> spec_pool_fits(layout.shapes@, layout.data_type),
            r matches Ok(p) ==> ({
                &&& p.wf()
                &&& p.backing() == (TensorView {
                    shape: layout.shapes@,
                    data_type: layout.data_type,
                    ..TensorView::fresh(ty, dev_id, true)
                })
                &&& p.capacity() == layout.shapes@[0]
                &&& p.slot_bytes() == spec_slot_nbytes(layout.shapes@, layout.data_type)
                &&& p.free_view() == Seq::new(layout.shapes@[0] as nat, |i: int| i as usize)
                &&& p.model() == AllocModel::init(layout.shapes@[0] as int)
            }),
            r matches Err(e) ==> e matches LiteError::MGELiteError(_),
    {
        let mem = Tensor::pinned_host(ty, dev_id)?;
        Self::with_layout(mem, layout)
    }

    /// Return the number of free blocks in pool
    pub fn free_n(&self) -> (r: usize)
        ensures
            r == self.free_view().len(),
    {
        self.freelist.len()
    }

    /// Get inner tensor
    pub fn as_tensor(&self) -> (r: &Tensor)
        ensures
            r@ == self.backing(),
    {
        &self.mem
    }

    /// Request a slot lease. Returns nothing when every slot is leased out:
    /// the caller then suspends until some lease is released and asks again.
    pub fn get(&mut self) -> (r: Option<Idx>)
        requires
            old(self).wf(),
        ensures
            final(self).wf(),
            final(self).capacity() == old(self).capacity(),
            final(self).backing() == old(self).backing(),
            final(self).slot_bytes() == old(self).slot_bytes(),
            r is Some <==> old(self).free_view().len() > 0,
            old(self).free_view().len() == 0 ==> final(self).free_view() == old(self).free_view(),
            r matches Some(idx) ==> idx@ == old(self).free_view()[0] && final(self).free_view()
                == old(self).free_view().drop_first(),
            final(self).model() == old(self).model().acquire_step().0,
            r matches Some(idx) ==> old(self).model().acquire_step().1 == Some(idx@ as int)
                && idx@ < old(self).capacity(),
    {
        match self.freelist.pop() {
            Some(id) => Some(Idx { id }),
            None => None,
        }
    }

    /// Hand a lease back, returning its slot to the free queue. Verified
    /// callers know the lease's identifier is live from the contract of
    /// [`TensorPool::get`].
    pub fn release(&mut self, idx: Idx)
        requires
            old(self).wf(),
            idx@ < old(self).capacity(),
            !old(self).free_view().contains(idx@),
        ensures
            final(self).wf(),
            final(self).capacity() == old(self).capacity(),
            final(self).backing() == old(self).backing(),
            final(self).slot_bytes() == old(self).slot_bytes(),
            final(self).free_view() == old(self).free_view().push(idx@),
            final(self).model() == old(self).model().release_step(idx@ as int),
    {
        self.freelist.push(idx.id);
    }

    /// Get the tensor at `idx`: the sub-view of the backing buffer for that
    /// slot. A pure function of the slot identifier; views of distinct
    /// identifiers cover disjoint byte ranges
    /// (see [`lemma_slot_views_disjoint`]).
    pub fn at(&self, idx: &Idx) -> (r: Tensor)
        requires
            self.wf(),
            idx@ < self.capacity(),
        ensures
            r@.shape == seq![1usize] + self.backing().shape.drop_first(),
            r@.data_type == self.backing().data_type,
            r@.device_type == self.backing().device_type,
            r@.device_id == self.backing().device_id,
            r@.pinned_host == self.backing().pinned_host,
            r@.byte_offset == idx@ * self.slot_bytes(),
            r@.nbytes() == self.slot_bytes(),
    {
        let mut desc: LiteTensorDesc = self.mem.raw_desc();
        desc.layout.shapes[0] = 1;
        let ghost slot_shape = desc.layout.shapes@.take(desc.layout.ndim as int);
        proof {
            assert(slot_shape =~= seq![1usize] + self.mem@.shape.drop_first());
            assert(slot_shape.drop_first() =~= self.mem@.shape.drop_first());
            assert(slot_shape.len() >= 1 && slot_shape[0] == 1);
            assert(spec_elem_count(slot_shape) == 1 * spec_elem_count(slot_shape.drop_first()));
            assert(spec_elem_count(slot_shape) == spec_elem_count(slot_shape.drop_first()));
            assert((idx@ as int) * (self.slot_nbytes as int) + self.slot_nbytes <= (
            self.capacity() as int) * self.slot_nbytes) by (nonlinear_arith)
                requires
                    (idx@ as int) < (self.capacity() as int),
                    self.slot_nbytes >= 0,
            ;
            lemma_elem_count_nonneg(slot_shape.drop_first());
            assert((idx@ as int) * (self.slot_nbytes as int) >= 0) by (nonlinear_arith)
                requires
                    (idx@ as int) >= 0,
                    self.slot_nbytes >= 0,
            ;
        }
        let off = idx.get() * self.slot_nbytes;
        let r = Tensor::new(desc, off);
        proof {
            assert(r@.shape =~= seq![1usize] + self.backing().shape.drop_first());
        }
        r
    }
}

/// A fresh allocator satisfies the invariant: all identifiers free, none
/// live.
pub proof fn lemma_init_inv(capacity: int)
    requires
        capacity >= 0,
    ensures
        AllocModel::init(capacity).inv(),
        AllocModel::init(capacity).free.len() == capacity,
        AllocModel::init(capacity).live == Set::<int>::empty(),
{
    let m = AllocModel::init(capacity);
    assert forall|x: int| set_int_range(0, capacity).contains(x) implies m.free.to_set().contains(
        x,
    ) by {
        assert(m.free[x] == x);
    }
    assert(m.live.union(m.free.to_set()) =~= set_int_range(0, capacity));
}

/// Every allocator event preserves the invariant. In particular an acquire
/// grants an identifier that no live lease holds, and a release returns one
/// without duplicating it: no interleaving of events ever produces two live
/// leases of the same slot.
pub proof fn lemma_step_inv(m: AllocModel, e: AllocEvent)
    requires
        m.inv(),
    ensures
        m.step(e).inv(),
{
    match e {
        AllocEvent::Acquire => {
            if m.free.len() > 0 {
                lemma_acquire_grants_fresh(m);
            }
        },
        AllocEvent::Release(id) => {
            let m1 = m.release_step(id);
            if m.live.contains(id) {
                assert(!m.free.to_set().contains(id));
                assert forall|i: int, j: int|
                    0 <= i < m1.free.len() && 0 <= j < m1.free.len() && i != j implies m1.free[i]
                    != m1.free[j] by {
                    if i < m.free.len() && j < m.free.len() {
                        assert(m.free[i] != m.free[j]);
                    } else if j == m.free.len() {
                        if m1.free[i] == id {
                            assert(m.free.to_set().contains(id)) by {
                                assert(m.free[i] == id);
                            }
                        }
                    } else {
                        if m1.free[j] == id {
                            assert(m.free.to_set().contains(id)) by {
                                assert(m.free[j] == id);
                            }
                        }
                    }
                }
                assert(m1.free.to_set() =~= m.free.to_set().insert(id)) by {
                    assert forall|x: int| m1.free.to_set().contains(x) implies m.free.to_set()
                        .insert(id).contains(x) by {
                        let i = choose|i: int| 0 <= i < m1.free.len() && m1.free[i] == x;
                        if i < m.free.len() {
                            assert(m.free[i] == x);
                        }
                    }
                    assert forall|x: int| m.free.to_set().insert(id).contains(x) implies m1.free
                        .to_set().contains(x) by {
                        if x == id {
                            assert(m1.free[m.free.len() as int] == x);
                        } else {
                            let i = choose|i: int| 0 <= i < m.free.len() && m.free[i] == x;
                            assert(m1.free[i] == x);
                        }
                    }
                }
                assert(m1.live.union(m1.free.to_set()) =~= set_int_range(0, m.capacity)) by {
                    assert(m.live.union(m.free.to_set()) == set_int_range(0, m.capacity));
                }
            }
        },
    }
}

/// The invariant holds after any sequence of allocator events: over all
/// interleavings of acquisitions and releases, no observable state has a
/// slot both free and leased, or leased twice.
pub proof fn lemma_run_inv(m: AllocModel, events: Seq<AllocEvent>)
    requires
        m.inv(),
    ensures
        alloc_run(m, events).inv(),
    decreases events.len(),
{
    if events.len() > 0 {
        lemma_run_inv(m, events.drop_last());
        lemma_step_inv(alloc_run(m, events.drop_last()), events.last());
    }
}

/// An acquisition on a non-empty free queue grants the oldest free
/// identifier, which no live lease holds at that moment.
pub proof fn lemma_acquire_grants_fresh(m: AllocModel)
    requires
        m.inv(),
        m.free.len() > 0,
    ensures
        m.acquire_step().1 == Some(m.free[0]),
        !m.live.contains(m.free[0]),
        m.acquire_step().0.live == m.live.insert(m.free[0]),
        m.acquire_step().0.inv(),
{
    let id = m.free[0];
    assert(m.free.to_set().contains(id));
    let m1 = m.acquire_step().0;
    assert forall|i: int, j: int|
        0 <= i < m1.free.len() && 0 <= j < m1.free.len() && i != j implies m1.free[i]
        != m1.free[j] by {
        assert(m.free[i + 1] != m.free[j + 1]);
    }
    assert forall|x: int| m1.free.to_set().contains(x) implies m.free.to_set().contains(x) && x
        != id by {
        let i = choose|i: int| 0 <= i < m1.free.len() && m1.free[i] == x;
        assert(m.free[i + 1] == x);
        assert(m.free[i + 1] != m.free[0]);
    }
    assert(m1.live.union(m1.free.to_set()) =~= set_int_range(0, m.capacity)) by {
        assert forall|x: int| set_int_range(0, m.capacity).contains(x) implies m1.live.union(
            m1.free.to_set(),
        ).contains(x) by {
            assert(m.live.union(m.free.to_set()).contains(x));
            if m.free.to_set().contains(x) && x != id {
                let i = choose|i: int| 0 <= i < m.free.len() && m.free[i] == x;
                assert(i != 0);
                assert(m1.free[i - 1] == x);
            }
        }
    }
}

/// Counting form of the partition invariant: free plus live always equals
/// capacity, so after `k` acquisitions on a fresh pool of `N` slots the
/// free count reads `N - k`, and the free queue never exceeds the capacity —
/// a release always has room.
pub proof fn lemma_free_plus_live_is_capacity(m: AllocModel)
    requires
        m.inv(),
    ensures
        m.free.len() + m.live.len() == m.capacity,
        m.free.len() <= m.capacity,
        m.live.len() <= m.capacity,
{
    broadcast use vstd::seq_lib::seq_to_set_is_finite;

    m.free.unique_seq_to_set();
    lemma_int_range(0, m.capacity);
    assert(m.live.disjoint(m.free.to_set()));
    lemma_set_disjoint_lens(m.live, m.free.to_set());
    assert(m.live + m.free.to_set() =~= m.live.union(m.free.to_set()));
}

/// The sequence of `k` acquisitions.
pub open spec fn acquire_events(k: int) -> Seq<AllocEvent> {
    Seq::new(k as nat, |i: int| AllocEvent::Acquire)
}

/// After `k <= N` acquisitions on a fresh allocator of capacity `N`,
/// exactly `k` slots are leased and `N - k` remain free.
pub proof fn lemma_acquisition_counts(n: int, k: int)
    requires
        0 <= k <= n,
    ensures
        alloc_run(AllocModel::init(n), acquire_events(k)).inv(),
        alloc_run(AllocModel::init(n), acquire_events(k)).free.len() == n - k,
        alloc_run(AllocModel::init(n), acquire_events(k)).live.len() == k,
    decreases k,
{
    lemma_init_inv(n);
    if k == 0 {
        assert(acquire_events(0) =~= Seq::<AllocEvent>::empty());
    } else {
        lemma_acquisition_counts(n, k - 1);
        assert(acquire_events(k).drop_last() =~= acquire_events(k - 1));
        let m = alloc_run(AllocModel::init(n), acquire_events(k - 1));
        assert(alloc_run(AllocModel::init(n), acquire_events(k)) == m.step(AllocEvent::Acquire));
        lemma_free_plus_live_is_capacity(m);
        assert(m.free.len() > 0);
        lemma_acquire_grants_fresh(m);
        assert(!m.live.contains(m.free[0]));
        assert(m.live.insert(m.free[0]).len() == m.live.len() + 1);
        lemma_step_inv(m, AllocEvent::Acquire);
    }
}

/// Backpressure and hand-over: with every slot leased an acquisition
/// suspends (the state does not change and nothing is granted); after any
/// one lease releases, exactly one pending acquisition succeeds — it is
/// granted the identifier just released — and the next one suspends again.
pub proof fn lemma_full_pool_release_unblocks_one(m: AllocModel, id: int)
    requires
        m.inv(),
        m.live.len() == m.capacity,
        m.live.contains(id),
    ensures
        m.acquire_step() == (m, Option::<int>::None),
        ({
            let after_release = m.release_step(id);
            let (after_acquire, granted) = after_release.acquire_step();
            &&& after_release.free.len() == 1
            &&& granted == Some(id)
            &&& after_acquire.live == m.live
            &&& after_acquire.free.len() == 0
            &&& after_acquire.acquire_step() == (after_acquire, Option::<int>::None)
        }),
{
    lemma_free_plus_live_is_capacity(m);
    assert(m.free.len() == 0);
    let m1 = m.release_step(id);
    assert(m1.free =~= Seq::<int>::empty().push(id));
    assert(m1.free[0] == id);
    lemma_step_inv(m, AllocEvent::Release(id));
    let m2 = m1.acquire_step().0;
    assert(m2.live =~= m.live) by {
        assert(m.live.remove(id).insert(id) =~= m.live);
    }
    assert(m2.free =~= m1.free.drop_first());
}

/// Round trip: acquiring a slot and releasing it restores the allocator's
/// free set and live set exactly; the free queue merely rotates. Doing so
/// any number of times therefore never exceeds the capacity.
pub proof fn lemma_acquire_release_round_trip(m: AllocModel)
    requires
        m.inv(),
        m.free.len() > 0,
    ensures
        ({
            let (m1, granted) = m.acquire_step();
            let m2 = m1.release_step(m.free[0]);
            &&& granted == Some(m.free[0])
            &&& m2.live == m.live
            &&& m2.free.to_set() == m.free.to_set()
            &&& m2.free.len() == m.free.len()
            &&& m2.inv()
        }),
{
    let id = m.free[0];
    lemma_acquire_grants_fresh(m);
    let m1 = m.acquire_step().0;
    assert(m1.live.contains(id));
    let m2 = m1.release_step(id);
    lemma_step_inv(m, AllocEvent::Acquire);
    lemma_step_inv(m1, AllocEvent::Release(id));
    assert(m2.live =~= m.live) by {
        assert(!m.live.contains(id));
        assert(m.live.insert(id).remove(id) =~= m.live);
    }
    assert(m2.free.to_set() =~= m.free.to_set()) by {
        assert forall|x: int| m2.free.to_set().contains(x) implies m.free.to_set().contains(x) by {
            let i = choose|i: int| 0 <= i < m2.free.len() && m2.free[i] == x;
            if i < m1.free.len() {
                assert(m.free[i + 1] == x);
            } else {
                assert(x == id);
                assert(m.free[0] == x);
            }
        }
        assert forall|x: int| m.free.to_set().contains(x) implies m2.free.to_set().contains(x) by {
            let i = choose|i: int| 0 <= i < m.free.len() && m.free[i] == x;
            if i == 0 {
                assert(m2.free[m1.free.len() as int] == x);
            } else {
                assert(m2.free[i - 1] == x);
            }
        }
    }
}

/// Two acquisitions with no release in between are granted distinct
/// identifiers: at no instant do two live leases hold the same slot.
pub proof fn lemma_two_acquisitions_distinct(m: AllocModel)
    requires
        m.inv(),
        m.free.len() >= 2,
    ensures
        ({
            let (m1, a) = m.acquire_step();
            let (m2, b) = m1.acquire_step();
            &&& a == Some(m.free[0])
            &&& b == Some(m.free[1])
            &&& a != b
        }),
{
    assert(m.free[0] != m.free[1]);
    assert(m.acquire_step().0.free[0] == m.free[1]);
}

/// Structural non-overlap of slot views: distinct slot identifiers map to
/// disjoint byte ranges `[i * slot, (i + 1) * slot)` of the backing buffer,
/// so concurrent holders of distinct leases never touch the same byte.
pub proof fn lemma_slot_views_disjoint(slot_nbytes: int, i: int, j: int)
    requires
        slot_nbytes >= 0,
        0 <= i,
        0 <= j,
        i != j,
    ensures
        i * slot_nbytes + slot_nbytes <= j * slot_nbytes || j * slot_nbytes + slot_nbytes <= i
            * slot_nbytes,
{
    if i < j {
        assert(i * slot_nbytes + slot_nbytes <= j * slot_nbytes) by (nonlinear_arith)
            requires
                i + 1 <= j,
                slot_nbytes >= 0,
        ;
    } else {
        assert(j * slot_nbytes + slot_nbytes <= i * slot_nbytes) by (nonlinear_arith)
            requires
                j + 1 <= i,
                slot_nbytes >= 0,
        ;
    }
}

/// [`TensorPool::at`] form of the non-overlap law: in one pool, the byte
/// ranges `[id * slot_bytes, (id + 1) * slot_bytes)` that `at` assigns to
/// distinct slot identifiers are disjoint, so holders of distinct leases
/// never touch the same byte of the backing buffer.
pub proof fn lemma_pool_views_disjoint(p: TensorPool, i: int, j: int)
    requires
        0 <= i,
        0 <= j,
        i != j,
    ensures
        i * p.slot_bytes() + p.slot_bytes() <= j * p.slot_bytes() || j * p.slot_bytes()
            + p.slot_bytes() <= i * p.slot_bytes(),
{
    lemma_slot_views_disjoint(p.slot_bytes() as int, i, j);
}

} // verus!
