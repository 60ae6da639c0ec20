//! Mathematical model of the arena.
//!
//! The state of an arena for elements of a fixed byte size is a sequence of
//! blocks (each a sequence of elements), the cumulative number of bytes ever
//! requested from the system allocator, and the number of bytes still unused
//! in the most recently created block. `alloc_model` is one allocation step
//! on that state; the executable arena promises to follow it exactly.

use vstd::prelude::*;

verus! {

/// Number of bytes requested from the system allocator for one ordinary
/// block. An element larger than this gets a dedicated block of its own size.
pub const BLOCK_SIZE: usize = 4096;

/// The byte capacity of one block for elements of `size` bytes: the larger of
/// the default block size and the size of a single element, so that a single
/// oversized element still fits in one dedicated block.
pub open spec fn block_bytes(size: nat) -> nat {
    if size > BLOCK_SIZE as nat {
        size
    } else {
        BLOCK_SIZE as nat
    }
}

/// Abstract state of an arena holding elements of type `T`.
#[verifier::ext_equal]
pub struct ArenaModel<T> {
    /// One sequence per memory block, in block-creation order; within a
    /// block, elements stand in construction order.
    pub blocks: Seq<Seq<T>>,
    /// Cumulative bytes ever requested from the system allocator.
    pub bytes: nat,
    /// Bytes still unused in the most recently created block.
    pub remaining: nat,
}

impl<T> ArenaModel<T> {
    /// The state of a freshly created arena: no blocks, nothing allocated,
    /// no bytes requested.
    pub open spec fn empty() -> ArenaModel<T> {
        ArenaModel { blocks: Seq::empty(), bytes: 0, remaining: 0 }
    }

    /// Every element in the arena, in allocation order: block-creation order,
    /// and construction order within each block. This is also the order in
    /// which teardown visits the elements, and an element's position in this
    /// sequence is the identifier its allocation returned.
    pub open spec fn elems(self) -> Seq<T> {
        self.blocks.flatten()
    }

    /// How many elements the arena holds.
    pub open spec fn total(self) -> nat {
        self.elems().len()
    }

    /// Whether the next allocation of an element of `size` bytes must create
    /// a new block: either no block exists yet, or the current block has
    /// fewer than `size` bytes left.
    pub open spec fn needs_block(self, size: nat) -> bool {
        self.blocks.len() == 0 || size > self.remaining
    }

    /// Well-formedness of the arena state, for elements of `size` bytes:
    /// the remaining-bytes counter is exactly the space left in the current
    /// block, no block's elements exceed its capacity, every block but the
    /// current one is too full to take another element, every block holds at
    /// least one element, and the byte counter tallies every block request.
    pub open spec fn wf(self, size: nat) -> bool {
        &&& (self.blocks.len() == 0 ==> self.remaining == 0)
        &&& (self.blocks.len() > 0 ==> self.remaining + self.blocks.last().len() * size
            == block_bytes(size))
        &&& (forall|i: int|
            0 <= i < self.blocks.len() ==> (#[trigger] self.blocks[i]).len() * size
                <= block_bytes(size))
        &&& (forall|i: int|
            0 <= i < self.blocks.len() - 1 ==> (#[trigger] self.blocks[i]).len() * size + size
                > block_bytes(size))
        &&& (forall|i: int| 0 <= i < self.blocks.len() ==> (#[trigger] self.blocks[i]).len() > 0)
        &&& self.bytes == self.blocks.len() * block_bytes(size)
    }
}

/// One allocation step for an element `v` of `size` bytes. If the current
/// block has room, the element is carved out of it; otherwise a new block of
/// `block_bytes(size)` bytes is requested, tallied, and appended with `v` as
/// its first element.
pub open spec fn alloc_model<T>(m: ArenaModel<T>, size: nat, v: T) -> ArenaModel<T> {
    if m.needs_block(size) {
        ArenaModel {
            blocks: m.blocks.push(seq![v]),
            bytes: m.bytes + block_bytes(size),
            remaining: (block_bytes(size) - size) as nat,
        }
    } else {
        ArenaModel {
            blocks: m.blocks.update(m.blocks.len() - 1, m.blocks.last().push(v)),
            bytes: m.bytes,
            remaining: (m.remaining - size) as nat,
        }
    }
}

/// The position that slot `i` of block `b` holds in the flattened contents:
/// every slot of every earlier block comes first.
pub open spec fn flat_pos<T>(bss: Seq<Seq<T>>, b: int, i: int) -> int {
    bss.take(b).flatten().len() + i
}

/// Taking one more block extends the flattened prefix by that block's
/// elements.
pub proof fn lemma_take_flatten_succ<T>(bss: Seq<Seq<T>>, b: int)
    requires
        0 <= b < bss.len(),
    ensures
        bss.take(b + 1).flatten().len() == bss.take(b).flatten().len() + bss[b].len(),
{
    broadcast use Seq::lemma_flatten_push;

    assert(bss.take(b + 1) =~= bss.take(b).push(bss[b]));
}

/// `flat_pos` maps block coordinates to the matching position of the
/// flattened contents: the element found there is the block's element.
pub proof fn lemma_flat_index<T>(bss: Seq<Seq<T>>, b: int, i: int)
    requires
        0 <= b < bss.len(),
        0 <= i < bss[b].len(),
    ensures
        0 <= flat_pos(bss, b, i) < bss.flatten().len(),
        bss.flatten()[flat_pos(bss, b, i)] == bss[b][i],
    decreases b,
{
    if b == 0 {
        assert(bss.take(0) =~= Seq::<Seq<T>>::empty());
        assert(bss.flatten() == bss.first() + bss.drop_first().flatten());
    } else {
        let tail = bss.drop_first();
        lemma_flat_index(tail, b - 1, i);
        assert(bss.flatten() == bss.first() + tail.flatten());
        assert(bss.take(b).flatten().len() == bss.first().len() + tail.take(b - 1).flatten().len())
            by {
            assert(bss.take(b).drop_first() =~= tail.take(b - 1));
            assert(bss.take(b).flatten() == bss.take(b).first() + bss.take(
                b,
            ).drop_first().flatten());
        }
    }
}

/// Writing through block coordinates is writing at the matching position of
/// the flattened contents, and touches nothing else.
pub proof fn lemma_flat_update<T>(bss: Seq<Seq<T>>, b: int, i: int, x: T)
    requires
        0 <= b < bss.len(),
        0 <= i < bss[b].len(),
    ensures
        bss.update(b, bss[b].update(i, x)).flatten() == bss.flatten().update(
            flat_pos(bss, b, i),
            x,
        ),
    decreases b,
{
    lemma_flat_index(bss, b, i);
    let bss2 = bss.update(b, bss[b].update(i, x));
    if b == 0 {
        assert(bss2.drop_first() =~= bss.drop_first());
        assert(bss2.flatten() == bss2.first() + bss2.drop_first().flatten());
        assert(bss.flatten() == bss.first() + bss.drop_first().flatten());
        assert(bss[0].update(i, x) + bss.drop_first().flatten() =~= (bss[0]
            + bss.drop_first().flatten()).update(i, x));
    } else {
        let tail = bss.drop_first();
        lemma_flat_update(tail, b - 1, i, x);
        lemma_flat_index(tail, b - 1, i);
        assert(bss2.drop_first() =~= tail.update(b - 1, tail[b - 1].update(i, x)));
        assert(bss2.flatten() == bss2.first() + bss2.drop_first().flatten());
        assert(bss.flatten() == bss.first() + tail.flatten());
        assert(bss.take(b).flatten().len() == bss.first().len() + tail.take(b - 1).flatten().len())
            by {
            assert(bss.take(b).drop_first() =~= tail.take(b - 1));
            assert(bss.take(b).flatten() == bss.take(b).first() + bss.take(
                b,
            ).drop_first().flatten());
        }
        assert(bss.first() + tail.flatten().update(flat_pos(tail, b - 1, i), x) =~= (bss.first()
            + tail.flatten()).update(bss.first().len() + flat_pos(tail, b - 1, i), x));
    }
}

/// An allocation step appends the element to the arena's contents and
/// changes nothing else about the elements already allocated.
pub proof fn lemma_alloc_elems<T>(m: ArenaModel<T>, size: nat, v: T)
    ensures
        alloc_model(m, size, v).elems() == m.elems().push(v),
{
    broadcast use Seq::lemma_flatten_push;

    let m2 = alloc_model(m, size, v);
    if m.needs_block(size) {
        assert(m2.blocks.flatten() == m.blocks.flatten() + seq![v]);
        assert(m.blocks.flatten() + seq![v] =~= m.blocks.flatten().push(v));
    } else {
        let dl = m.blocks.drop_last();
        let last = m.blocks.last();
        assert(m.blocks =~= dl.push(last));
        assert(m2.blocks =~= dl.push(last.push(v)));
        assert(m2.blocks.flatten() == dl.flatten() + last.push(v));
        assert(m.blocks.flatten() == dl.flatten() + last);
        assert(dl.flatten() + last.push(v) =~= (dl.flatten() + last).push(v));
    }
}

/// An allocation step preserves well-formedness.
pub proof fn lemma_alloc_wf<T>(m: ArenaModel<T>, size: nat, v: T)
    requires
        m.wf(size),
    ensures
        alloc_model(m, size, v).wf(size),
{
    let m2 = alloc_model(m, size, v);
    let b = block_bytes(size);
    if m.needs_block(size) {
        let n = m.blocks.len();
        assert(m2.blocks.last() =~= seq![v]);
        assert(m2.blocks.last().len() * size == size) by (nonlinear_arith)
            requires m2.blocks.last().len() == 1,
        ;
        assert(m2.bytes == (n + 1) * b) by {
            assert(n * b + b == (n + 1) * b) by (nonlinear_arith);
        }
        // The block that was current before, if any, is now full: it had
        // fewer than `size` bytes left.
        assert forall|i: int| 0 <= i < m2.blocks.len() - 1 implies (
        #[trigger] m2.blocks[i]).len() * size + size > b by {
            if i == n - 1 {
                assert(m.remaining < size);
            }
        }
    } else {
        let l = m.blocks.last().len();
        assert(m2.blocks.last() == m.blocks.last().push(v));
        assert((l + 1) * size == l * size + size) by (nonlinear_arith);
        assert(m2.remaining + m2.blocks.last().len() * size == b);
    }
}

/// The arena state after allocating every element of `vs`, in order,
/// starting from state `m`.
pub open spec fn alloc_all<T>(m: ArenaModel<T>, size: nat, vs: Seq<T>) -> ArenaModel<T>
    decreases vs.len(),
{
    if vs.len() == 0 {
        m
    } else {
        alloc_all(alloc_model(m, size, vs.first()), size, vs.drop_first())
    }
}

/// A run of allocations appends exactly the allocated elements, in the order
/// they were allocated, to the arena's contents.
pub proof fn lemma_alloc_all_elems<T>(m: ArenaModel<T>, size: nat, vs: Seq<T>)
    ensures
        alloc_all(m, size, vs).elems() == m.elems() + vs,
    decreases vs.len(),
{
    if vs.len() == 0 {
        assert(m.elems() + vs =~= m.elems());
    } else {
        let m1 = alloc_model(m, size, vs.first());
        lemma_alloc_elems(m, size, vs.first());
        lemma_alloc_all_elems(m1, size, vs.drop_first());
        assert(m.elems().push(vs.first()) + vs.drop_first() =~= m.elems() + vs);
    }
}

/// A run of allocations preserves well-formedness.
pub proof fn lemma_alloc_all_wf<T>(m: ArenaModel<T>, size: nat, vs: Seq<T>)
    requires
        m.wf(size),
    ensures
        alloc_all(m, size, vs).wf(size),
    decreases vs.len(),
{
    if vs.len() > 0 {
        lemma_alloc_wf(m, size, vs.first());
        lemma_alloc_all_wf(alloc_model(m, size, vs.first()), size, vs.drop_first());
    }
}

/// Allocation count and cleanup parity: allocating the elements of `vs`, in
/// order, into a fresh arena leaves the arena holding exactly those elements
/// and no others, in allocation order. Teardown visits `elems()` front to
/// back, so each of the `vs.len()` elements has its cleanup run exactly once.
pub proof fn lemma_cleanup_parity<T>(size: nat, vs: Seq<T>)
    ensures
        alloc_all(ArenaModel::<T>::empty(), size, vs).elems() == vs,
        alloc_all(ArenaModel::<T>::empty(), size, vs).total() == vs.len(),
{
    lemma_alloc_all_elems(ArenaModel::<T>::empty(), size, vs);
    assert(ArenaModel::<T>::empty().elems() + vs =~= vs);
}

/// Address stability: once a slot is filled, no later allocation disturbs
/// it — the element at an already-issued identifier reads the same after any
/// further run of allocations.
pub proof fn lemma_address_stability<T>(m: ArenaModel<T>, size: nat, vs: Seq<T>, id: int)
    requires
        0 <= id < m.total(),
    ensures
        alloc_all(m, size, vs).elems()[id] == m.elems()[id],
{
    lemma_alloc_all_elems(m, size, vs);
}

/// The identifier handed out by allocation number `k` (counting from zero)
/// of a run `vs` performed on arena state `m`: the number of elements the
/// arena holds just before that allocation.
pub open spec fn id_of_alloc<T>(m: ArenaModel<T>, size: nat, vs: Seq<T>, k: int) -> nat {
    alloc_all(m, size, vs.take(k)).total()
}

/// No aliasing: two distinct allocations of a run hand out distinct
/// identifiers, so the slots they return never overlap.
pub proof fn lemma_no_aliasing<T>(m: ArenaModel<T>, size: nat, vs: Seq<T>, k1: int, k2: int)
    requires
        0 <= k1 < vs.len(),
        0 <= k2 < vs.len(),
        k1 != k2,
    ensures
        id_of_alloc(m, size, vs, k1) != id_of_alloc(m, size, vs, k2),
{
    lemma_alloc_all_elems(m, size, vs.take(k1));
    lemma_alloc_all_elems(m, size, vs.take(k2));
}

/// Monotonic byte counter: no allocation ever decreases the cumulative byte
/// counter.
pub proof fn lemma_bytes_monotonic<T>(m: ArenaModel<T>, size: nat, vs: Seq<T>)
    ensures
        m.bytes <= alloc_all(m, size, vs).bytes,
    decreases vs.len(),
{
    if vs.len() > 0 {
        lemma_bytes_monotonic(alloc_model(m, size, vs.first()), size, vs.drop_first());
    }
}

/// Monotonic byte counter, strict part: after at least one successful
/// allocation the counter is strictly positive — some block was requested.
pub proof fn lemma_bytes_positive<T>(m: ArenaModel<T>, size: nat)
    requires
        m.wf(size),
        m.total() > 0,
    ensures
        m.bytes > 0,
{
    assert(m.blocks.len() > 0);
    assert(m.bytes >= block_bytes(size)) by (nonlinear_arith)
        requires
            m.bytes == m.blocks.len() * block_bytes(size),
            m.blocks.len() >= 1,
    ;
}

/// Block-boundary correctness: an element larger than the default block size
/// is placed in exactly one new, dedicated block, sized to the element; no
/// partially filled intermediate blocks appear and the byte counter grows by
/// exactly the element's size.
pub proof fn lemma_oversized_dedicated_block<T>(m: ArenaModel<T>, size: nat, v: T)
    requires
        m.wf(size),
        size > BLOCK_SIZE,
    ensures
        alloc_model(m, size, v).blocks == m.blocks.push(seq![v]),
        alloc_model(m, size, v).blocks.len() == m.blocks.len() + 1,
        alloc_model(m, size, v).bytes == m.bytes + size,
{
    if m.blocks.len() > 0 {
        // The current block is itself a dedicated block of exactly `size`
        // bytes, already holding its one element: nothing remains in it.
        assert(m.blocks.last().len() * size >= size) by (nonlinear_arith)
            requires
                m.blocks.last().len() >= 1,
        ;
        assert(m.remaining == 0);
    }
}

} // verus!
