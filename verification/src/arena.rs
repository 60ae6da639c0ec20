//! The executable arena.

use vstd::prelude::*;

use crate::model::{
    alloc_model, block_bytes, flat_pos, lemma_flat_index, lemma_flat_update,
    lemma_take_flatten_succ, ArenaModel, BLOCK_SIZE,
};

verus! {

/// The abstract contents of a sequence of storage blocks.
pub open spec fn views_of<T>(bs: Seq<Vec<T>>) -> Seq<Seq<T>> {
    bs.map(|i: int, v: Vec<T>| v@)
}

/// A typed bump-pointer arena for values of type `T`.
///
/// Storage is organised in blocks; each block holds as many elements as fit
/// in `BLOCK_SIZE` bytes, or a single element when one element is larger than
/// that. Elements are addressed by the identifier `allocate` returns, never
/// move, and all live until the arena is torn down.
///
/// Because the arena must stay open for further allocation while slots are
/// in use, a slot is named by a stable identifier rather than by a long-lived
/// reference: `allocate` returns the identifier, and `get` or `get_mut` turn
/// it into a reference to the slot at any time while the arena lives.
///
/// The arena's bookkeeping is mutated on every allocation, so every mutating
/// operation takes the arena exclusively (`&mut self`); two logically
/// concurrent mutations of the bump cursor are thereby ruled out at compile
/// time rather than by a runtime guard. The arena is not a thread-safety
/// mechanism: it is a single-owner structure. If the system allocator itself
/// cannot satisfy a block request, the process aborts: an arena has no
/// recovery path for memory exhaustion.
pub struct Arena<T> {
    /// The memory blocks, in creation order; each holds its constructed
    /// elements in construction order.
    blocks: Vec<Vec<T>>,
    /// Cumulative bytes ever requested from the system allocator.
    bytes: usize,
    /// Bytes still unused in the most recently created block.
    remaining: usize,
    /// Number of elements allocated so far; the next element's identifier.
    total: usize,
}

impl<T> View for Arena<T> {
    type V = Seq<T>;

    /// Every element in the arena, in allocation order; an element's position
    /// here is the identifier its allocation returned.
    open spec fn view(&self) -> Seq<T> {
        self.model().elems()
    }
}

impl<T> Arena<T> {
    /// The abstract state this arena stands for.
    pub closed spec fn model(&self) -> ArenaModel<T> {
        ArenaModel {
            blocks: views_of(self.blocks@),
            bytes: self.bytes as nat,
            remaining: self.remaining as nat,
        }
    }

    /// Cumulative bytes ever requested from the system allocator.
    pub open spec fn spec_bytes(&self) -> nat {
        self.model().bytes
    }

    /// The arena's invariant: its abstract state is well-formed for the
    /// element size of `T`, and the element counter matches the contents.
    pub closed spec fn wf(&self) -> bool {
        &&& self.model().wf(vstd::layout::size_of::<T>())
        &&& self.total == self.model().total()
    }

    /// Create an empty, active arena.
    pub fn new() -> (a: Arena<T>)
        ensures
            a.wf(),
            a.model() == ArenaModel::<T>::empty(),
            a@ == Seq::<T>::empty(),
            a.spec_bytes() == 0,
    {
        let a = Arena { blocks: Vec::new(), bytes: 0, remaining: 0, total: 0 };
        proof {
            assert(a.model().blocks =~= Seq::<Seq<T>>::empty());
            assert(a.model() =~= ArenaModel::<T>::empty());
        }
        a
    }

    /// Whether one more allocation stays within the machine's counting
    /// limits: the element identifier and, when a new block would be
    /// requested, the cumulative byte counter must still fit in `usize`.
    pub open spec fn can_alloc(&self) -> bool {
        &&& self@.len() < usize::MAX
        &&& (self.model().needs_block(vstd::layout::size_of::<T>())
            ==> self.model().bytes + block_bytes(vstd::layout::size_of::<T>()) <= usize::MAX)
    }

    /// Allocate a slot for `data` and move `data` into it. The arena becomes
    /// the sole owner of the value's storage; the returned identifier names
    /// the slot for `get` and `get_mut`, never changes, and is distinct from
    /// the identifier of every other allocation (it is the number of elements
    /// allocated before this one).
    ///
    /// When the current block has fewer than one element's bytes left — or no
    /// block exists yet — a new block of `block_bytes` bytes is requested
    /// from the system allocator and tallied into `bytes_allocated`.
    pub fn allocate(&mut self, data: T) -> (id: usize)
        requires
            old(self).wf(),
            old(self).can_alloc(),
        ensures
            final(self).wf(),
            final(self).model() == alloc_model(
                old(self).model(),
                vstd::layout::size_of::<T>(),
                data,
            ),
            final(self)@ == old(self)@.push(data),
            id == old(self)@.len(),
            old(self).spec_bytes() <= final(self).spec_bytes(),
    {
        let ghost size_g = vstd::layout::size_of::<T>();
        let ghost m0 = old(self).model();
        let size = core::mem::size_of::<T>();
        if self.blocks.len() == 0 || size > self.remaining {
            let bsize = if size > BLOCK_SIZE {
                size
            } else {
                BLOCK_SIZE
            };
            self.bytes = self.bytes + bsize;
            self.remaining = bsize - size;
            let mut blk: Vec<T> = Vec::new();
            blk.push(data);
            self.blocks.push(blk);
            proof {
                assert(self.model().blocks =~~= m0.blocks.push(seq![data]));
                assert(self.model() =~= alloc_model(m0, size_g, data));
            }
        } else {
            self.remaining = self.remaining - size;
            let mut last = self.blocks.pop().unwrap();
            last.push(data);
            self.blocks.push(last);
            proof {
                assert(self.model().blocks =~~= m0.blocks.update(
                    m0.blocks.len() - 1,
                    m0.blocks.last().push(data),
                ));
                assert(self.model() =~= alloc_model(m0, size_g, data));
            }
        }
        let id = self.total;
        self.total = self.total + 1;
        proof {
            crate::model::lemma_alloc_wf(m0, size_g, data);
            crate::model::lemma_alloc_elems(m0, size_g, data);
        }
        id
    }

    /// Allocate as `allocate` does, but instead of asking the caller for
    /// headroom, refuse the allocation when one of the arena's counters
    /// would exceed the machine's `usize` range: the value is then handed
    /// back unchanged and the arena is untouched. On every input for which
    /// `allocate`'s precondition holds, this succeeds.
    pub fn try_allocate(&mut self, data: T) -> (res: Result<usize, T>)
        requires
            old(self).wf(),
        ensures
            final(self).wf(),
            old(self).can_alloc() ==> res is Ok,
            match res {
                Ok(id) => {
                    &&& final(self).model() == alloc_model(
                        old(self).model(),
                        vstd::layout::size_of::<T>(),
                        data,
                    )
                    &&& final(self)@ == old(self)@.push(data)
                    &&& id == old(self)@.len()
                    &&& old(self).spec_bytes() <= final(self).spec_bytes()
                },
                Err(v) => {
                    &&& !old(self).can_alloc()
                    &&& v == data
                    &&& final(self).model() == old(self).model()
                },
            },
    {
        let size = core::mem::size_of::<T>();
        if self.total == usize::MAX {
            return Err(data);
        }
        if self.blocks.len() == 0 || size > self.remaining {
            let bsize = if size > BLOCK_SIZE {
                size
            } else {
                BLOCK_SIZE
            };
            if self.bytes > usize::MAX - bsize {
                return Err(data);
            }
        }
        Ok(self.allocate(data))
    }

    /// Find the block coordinates of the slot named by `id`: walk the blocks
    /// in creation order, skipping each block's elements, until the slot's
    /// block is reached.
    fn locate(&self, id: usize) -> (pos: (usize, usize))
        requires
            id < self@.len(),
        ensures
            pos.0 < self.model().blocks.len(),
            pos.1 < self.model().blocks[pos.0 as int].len(),
            flat_pos(self.model().blocks, pos.0 as int, pos.1 as int) == id,
    {
        let ghost bs = self.model().blocks;
        let nblocks = self.blocks.len();
        let mut b: usize = 0;
        let mut i: usize = id;
        proof {
            assert(bs.take(0) =~= Seq::<Seq<T>>::empty());
        }
        loop
            invariant
                bs == self.model().blocks,
                nblocks == bs.len(),
                id < bs.flatten().len(),
                b <= nblocks,
                bs.take(b as int).flatten().len() + i == id,
            decreases bs.len() - b,
        {
            proof {
                if b == bs.len() {
                    assert(bs.take(b as int) =~= bs);
                }
            }
            let blk_len = self.blocks[b].len();
            if i < blk_len {
                return (b, i);
            }
            proof {
                lemma_take_flatten_succ(bs, b as int);
            }
            i = i - blk_len;
            b = b + 1;
        }
    }

    /// Read the slot named by `id`: the reference is to the element the
    /// allocation that returned `id` placed there, or to what `get_mut` last
    /// wrote over it.
    pub fn get(&self, id: usize) -> (r: &T)
        requires
            id < self@.len(),
        ensures
            *r == self@[id as int],
    {
        let pos = self.locate(id);
        proof {
            lemma_flat_index(self.model().blocks, pos.0 as int, pos.1 as int);
        }
        &self.blocks[pos.0][pos.1]
    }

    /// Exclusive access to the slot named by `id`. The reference reads as the
    /// element currently in the slot; whatever the caller leaves behind it
    /// stands in the slot afterwards, and no other slot is touched. The
    /// arena's block structure and byte counter do not change.
    pub fn get_mut(&mut self, id: usize) -> (r: &mut T)
        requires
            old(self).wf(),
            id < old(self)@.len(),
        ensures
            *r == old(self)@[id as int],
            final(self)@ == old(self)@.update(id as int, *final(r)),
            final(self).wf(),
            final(self).model().bytes == old(self).model().bytes,
            final(self).model().remaining == old(self).model().remaining,
    {
        let ghost m0 = self.model();
        let ghost size = vstd::layout::size_of::<T>();
        let pos = self.locate(id);
        let ghost b = pos.0 as int;
        let ghost i = pos.1 as int;
        let ghost bvs = self.blocks@;
        proof {
            lemma_flat_index(m0.blocks, b, i);
            // Replacing one block leaves the abstract contents of the others
            // as they were.
            assert forall|nb: Vec<T>| #[trigger] views_of(bvs.update(b, nb)) =~~= m0.blocks.update(
                b,
                nb@,
            ) by {}
            // Whatever value the slot ends up holding, the arena stays
            // well-formed and only the matching position of the flattened
            // contents differs.
            assert forall|x: T| {
                let nbs = m0.blocks.update(b, #[trigger] m0.blocks[b].update(i, x));
                &&& nbs.flatten() == m0.blocks.flatten().update(id as int, x)
                &&& (ArenaModel { blocks: nbs, bytes: m0.bytes, remaining: m0.remaining }).wf(size)
            } by {
                lemma_flat_update(m0.blocks, b, i, x);
                let nbs = m0.blocks.update(b, m0.blocks[b].update(i, x));
                assert forall|j: int| 0 <= j < nbs.len() implies (#[trigger] nbs[j]).len()
                    == m0.blocks[j].len() by {}
                assert(nbs.last().len() == m0.blocks.last().len());
            }
        }
        let blk = &mut self.blocks[pos.0];
        &mut blk[pos.1]
    }

    /// Cumulative bytes ever requested from the system allocator across all
    /// blocks: a high-water counter that only grows, not the bytes currently
    /// occupied by elements.
    pub fn bytes_allocated(&self) -> (n: usize)
        ensures
            n == self.spec_bytes(),
    {
        self.bytes
    }

    /// Tear the arena down: surrender every element, in block-creation order
    /// and within each block in construction order — that is, in allocation
    /// order. Dropping the returned vector then runs each element's cleanup
    /// exactly once, front to back, and every block's storage is released
    /// with the vector it moved into. The arena itself is consumed: the
    /// transition is one-way.
    pub fn teardown(self) -> (out: Vec<T>)
        ensures
            out@ == self@,
    {
        let Arena { blocks: mut bvec, bytes: _, remaining: _, total: _ } = self;
        let ghost orig = views_of(bvec@).flatten();
        let mut out: Vec<T> = Vec::new();
        while bvec.len() > 0
            invariant
                out@ + views_of(bvec@).flatten() == orig,
            decreases bvec@.len(),
        {
            let ghost bvs0 = bvec@;
            let mut blk = bvec.remove(0);
            out.append(&mut blk);
            proof {
                assert(views_of(bvs0).drop_first() =~~= views_of(bvec@));
                assert(views_of(bvs0).flatten() == views_of(bvs0).first() + views_of(
                    bvs0,
                ).drop_first().flatten());
            }
        }
        proof {
            assert(views_of(bvec@) =~~= Seq::<Seq<T>>::empty());
            assert(out@ + views_of(bvec@).flatten() =~= out@);
        }
        out
    }
}

} // verus!
