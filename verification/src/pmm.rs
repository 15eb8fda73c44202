//! Model of the physical-frame allocator that the self-test exercises.
//!
//! Physical memory is a range of fixed-size frames.  The allocator hands out
//! runs of frames — single frames or aligned contiguous runs — always the
//! lowest free candidate, and takes whole runs back by their base address.
//! The outstanding runs are kept as disjoint `(base, length)` pairs; every
//! public operation says exactly which frames it touched, so the self-test's
//! round-trip reasoning can be carried out against it.

use vstd::arithmetic::div_mod::{
    lemma_div_by_multiple, lemma_div_pos_is_pos, lemma_fundamental_div_mod,
    lemma_mod_multiples_basic,
};
use vstd::prelude::*;

verus! {

/// Bytes per physical frame.
pub const PAGE_SIZE: u64 = 4096;

/// Upper bound on the number of frames a platform can expose; it keeps every
/// frame's physical base address representable in 64 bits.
pub const MAX_FRAMES: u64 = 0x10_0000_0000_0000;

/// The allocator error kinds the self-test reports.
#[derive(Clone, Copy, Debug, PartialEq, Eq, Structural)]
pub enum AllocError {
    /// No free frame (or no free aligned run) is left.
    OutOfMemory,
    /// The address handed to deallocate is not the base of an outstanding
    /// allocation.
    NotAllocated,
}

/// The frame a physical address falls in.
pub open spec fn frame_of(addr: u64) -> int {
    addr as int / PAGE_SIZE as int
}

/// Whether the run entry `e` covers frame `f`.
pub open spec fn entry_covers(e: (u64, u64), f: int) -> bool {
    e.0 <= f < e.0 + e.1
}

/// Whether two run entries share no frame.
pub open spec fn entries_disjoint(e1: (u64, u64), e2: (u64, u64)) -> bool {
    e1.0 + e1.1 <= e2.0 || e2.0 + e2.1 <= e1.0
}

/// The physical-frame allocator: `total` frames, of which the disjoint runs
/// in `allocs` are currently handed out.
pub struct FrameAllocator {
    total: u64,
    allocs: Vec<(u64, u64)>,
}

impl FrameAllocator {
    /// How many frames the allocator manages.
    pub closed spec fn total_frames(self) -> int {
        self.total as int
    }

    /// Whether frame `f` is currently handed out.
    pub closed spec fn is_allocated(self, f: int) -> bool {
        exists|i: int| 0 <= i < self.allocs@.len() && entry_covers(#[trigger] self.allocs@[i], f)
    }

    /// Whether an outstanding run starts at frame `b`.
    pub closed spec fn has_base(self, b: int) -> bool {
        exists|i: int| 0 <= i < self.allocs@.len() && (#[trigger] self.allocs@[i]).0 == b
    }

    /// The length of the outstanding run starting at frame `b`.
    pub closed spec fn run_len(self, b: int) -> int {
        let i = choose|i: int| 0 <= i < self.allocs@.len() && (#[trigger] self.allocs@[i]).0 == b;
        self.allocs@[i].1 as int
    }

    /// Every frame of the run `[base, base + count)` is free.
    pub open spec fn run_free(self, base: int, count: int) -> bool {
        forall|f: int|
            #![trigger self.is_allocated(f)]
            base <= f < base + count ==> !self.is_allocated(f)
    }

    /// Whether some frame is still free.
    pub open spec fn has_free_frame(self) -> bool {
        exists|f: int|
            #![trigger self.is_allocated(f)]
            0 <= f < self.total_frames() && !self.is_allocated(f)
    }

    /// Whether a free run of `count` frames starting at a multiple of
    /// `align` exists.
    pub open spec fn has_aligned_free_run(self, count: int, align: int) -> bool {
        exists|b: int|
            #![trigger self.run_free(b, count)]
            0 <= b && b % align == 0 && b + count <= self.total_frames() && self.run_free(
                b,
                count,
            )
    }

    /// Well-formedness: the outstanding runs are non-empty, lie inside the
    /// managed range, and are pairwise disjoint.
    pub closed spec fn wf(self) -> bool {
        &&& self.total <= MAX_FRAMES
        &&& forall|i: int|
            0 <= i < self.allocs@.len() ==> 1 <= (#[trigger] self.allocs@[i]).1
                && self.allocs@[i].0 + self.allocs@[i].1 <= self.total
        &&& forall|i: int, j: int|
            0 <= i < j < self.allocs@.len() ==> entries_disjoint(
                #[trigger] self.allocs@[i],
                #[trigger] self.allocs@[j],
            )
    }

    /// A fresh allocator over `total_frames` frames, none handed out.
    pub fn new(total_frames: u64) -> (a: FrameAllocator)
        requires
            total_frames <= MAX_FRAMES,
        ensures
            a.wf(),
            a.total_frames() == total_frames,
            forall|f: int| !a.is_allocated(f),
            forall|b: int| !a.has_base(b),
    {
        FrameAllocator { total: total_frames, allocs: Vec::new() }
    }

    /// Whether frame `f` is currently handed out.
    pub fn frame_allocated(&self, f: u64) -> (r: bool)
        requires
            self.wf(),
        ensures
            r == self.is_allocated(f as int),
    {
        let mut i: usize = 0;
        while i < self.allocs.len()
            invariant
                i <= self.allocs@.len(),
                self.wf(),
                forall|j: int| 0 <= j < i ==> !entry_covers(#[trigger] self.allocs@[j], f as int),
            decreases self.allocs@.len() - i,
        {
            let (base, len) = self.allocs[i];
            if base <= f && f < base + len {
                return true;
            }
            i = i + 1;
        }
        false
    }

    /// Hand out the lowest free frame; its physical base address is returned.
    /// Fails with `OutOfMemory`, leaving the allocator unchanged, exactly
    /// when every frame is handed out.
    pub fn allocate(&mut self) -> (r: Result<u64, AllocError>)
        requires
            old(self).wf(),
        ensures
            final(self).wf(),
            final(self).total_frames() == old(self).total_frames(),
            match r {
                Ok(addr) => {
                    let fr = frame_of(addr);
                    &&& addr as int == fr * PAGE_SIZE as int
                    &&& 0 <= fr < old(self).total_frames()
                    &&& !old(self).is_allocated(fr)
                    &&& forall|g: int| 0 <= g < fr ==> old(self).is_allocated(g)
                    &&& forall|f: int|
                        final(self).is_allocated(f) == (old(self).is_allocated(f) || f == fr)
                    &&& final(self).has_base(fr)
                    &&& final(self).run_len(fr) == 1
                    &&& forall|b: int|
                        b != fr ==> #[trigger] final(self).has_base(b) == old(self).has_base(b)
                    &&& forall|b: int|
                        b != fr && old(self).has_base(b) ==> #[trigger] final(self).run_len(b)
                            == old(self).run_len(b)
                },
                Err(e) => {
                    &&& e == AllocError::OutOfMemory
                    &&& *final(self) == *old(self)
                    &&& forall|f: int|
                        0 <= f < old(self).total_frames() ==> old(self).is_allocated(f)
                },
            },
    {
        let mut fr: u64 = 0;
        while fr < self.total
            invariant
                self.wf(),
                *self == *old(self),
                fr <= self.total,
                forall|g: int| 0 <= g < fr ==> self.is_allocated(g),
            decreases self.total - fr,
        {
            if !self.frame_allocated(fr) {
                let addr: u64 = fr * PAGE_SIZE;
                let ghost pre = *self;
                self.allocs.push((fr, 1));
                proof {
                    lemma_push_effect(pre, *self, fr, 1);
                    lemma_div_by_multiple(fr as int, PAGE_SIZE as int);
                    assert(frame_of(addr) == fr as int);
                }
                return Ok(addr);
            }
            fr = fr + 1;
        }
        Err(AllocError::OutOfMemory)
    }

    /// Whether the run of `count` frames starting at `base` is entirely free.
    fn run_is_free_check(&self, base: u64, count: u64) -> (r: bool)
        requires
            self.wf(),
            1 <= count,
            base + count <= self.total,
        ensures
            r == self.run_free(base as int, count as int),
    {
        let mut i: usize = 0;
        while i < self.allocs.len()
            invariant
                i <= self.allocs@.len(),
                self.wf(),
                1 <= count,
                base + count <= self.total,
                forall|j: int|
                    0 <= j < i ==> entries_disjoint(#[trigger] self.allocs@[j], (base, count)),
            decreases self.allocs@.len() - i,
        {
            let (b, l) = self.allocs[i];
            if b < base + count && base < b + l {
                proof {
                    let e = self.allocs@[i as int];
                    assert(e == (b, l));
                    if b >= base {
                        assert(entry_covers(e, b as int));
                        assert(self.is_allocated(b as int));
                        assert((base as int) <= (b as int) < (base as int) + (count as int));
                        lemma_covered_frame_not_free(
                            *self,
                            b as int,
                            base as int,
                            count as int,
                        );
                    } else {
                        assert(entry_covers(e, base as int));
                        assert(self.is_allocated(base as int));
                        lemma_covered_frame_not_free(
                            *self,
                            base as int,
                            base as int,
                            count as int,
                        );
                    }
                }
                return false;
            }
            i = i + 1;
        }
        proof {
            assert forall|f: int| base <= f < base + count implies !self.is_allocated(f) by {
                if self.is_allocated(f) {
                    let j = choose|j: int|
                        0 <= j < self.allocs@.len() && entry_covers(
                            #[trigger] self.allocs@[j],
                            f,
                        );
                    assert(!entries_disjoint(self.allocs@[j], (base, count)));
                }
            }
        }
        true
    }

    /// Hand out the lowest free run of `count` contiguous frames whose base
    /// frame is a multiple of `align`; its physical base address is returned.
    /// Fails with `OutOfMemory`, leaving the allocator unchanged, exactly
    /// when no such run is free.
    pub fn allocate_contiguous(&mut self, count: u64, align: u64) -> (r: Result<u64, AllocError>)
        requires
            old(self).wf(),
            1 <= count <= MAX_FRAMES,
            1 <= align <= MAX_FRAMES,
        ensures
            final(self).wf(),
            final(self).total_frames() == old(self).total_frames(),
            match r {
                Ok(addr) => {
                    let fr = frame_of(addr);
                    &&& addr as int == fr * PAGE_SIZE as int
                    &&& fr % align as int == 0
                    &&& addr as int % (align as int * PAGE_SIZE as int) == 0
                    &&& 0 <= fr && fr + count <= old(self).total_frames()
                    &&& old(self).run_free(fr, count as int)
                    &&& forall|b2: int|
                        0 <= b2 < fr && b2 % align as int == 0 && b2 + count <= old(
                            self,
                        ).total_frames() ==> !old(self).run_free(b2, count as int)
                    &&& forall|f: int|
                        final(self).is_allocated(f) == (old(self).is_allocated(f) || (fr <= f < fr
                            + count))
                    &&& final(self).has_base(fr)
                    &&& final(self).run_len(fr) == count
                    &&& forall|b: int|
                        b != fr ==> #[trigger] final(self).has_base(b) == old(self).has_base(b)
                    &&& forall|b: int|
                        b != fr && old(self).has_base(b) ==> #[trigger] final(self).run_len(b)
                            == old(self).run_len(b)
                },
                Err(e) => {
                    &&& e == AllocError::OutOfMemory
                    &&& *final(self) == *old(self)
                    &&& forall|b2: int|
                        0 <= b2 && b2 % align as int == 0 && b2 + count <= old(
                            self,
                        ).total_frames() ==> !old(self).run_free(b2, count as int)
                },
            },
    {
        let mut b: u64 = 0;
        let ghost mut k: int = 0;
        while b + count <= self.total
            invariant
                self.wf(),
                *self == *old(self),
                1 <= count <= MAX_FRAMES,
                1 <= align <= MAX_FRAMES,
                b as int == k * align as int,
                0 <= k,
                b <= self.total + align,
                forall|k2: int|
                    0 <= k2 < k && #[trigger] (k2 * align as int) + count <= self.total
                        ==> !self.run_free(k2 * align as int, count as int),
            decreases self.total + align - b,
        {
            if self.run_is_free_check(b, count) {
                let addr: u64 = b * PAGE_SIZE;
                let ghost pre = *self;
                self.allocs.push((b, count));
                proof {
                    lemma_push_effect(pre, *self, b, count);
                    lemma_div_by_multiple(b as int, PAGE_SIZE as int);
                    assert(frame_of(addr) == b as int);
                    lemma_mod_multiples_basic(k, align as int);
                    assert(b as int % align as int == 0);
                    lemma_aligned_base_address(b as int, align as int);
                    lemma_aligned_smaller_bases(pre, b as int, count as int, align as int, k);
                }
                return Ok(addr);
            }
            b = b + align;
            proof {
                assert((k + 1) * align as int == k * align as int + align as int)
                    by (nonlinear_arith);
                k = k + 1;
            }
        }
        proof {
            assert forall|b2: int|
                0 <= b2 && b2 % align as int == 0 && b2 + count <= self.total implies !self
                .run_free(b2, count as int) by {
                lemma_multiple_below(b2, align as int, k);
                let k2 = b2 / align as int;
                assert(k2 * align as int == b2);
                assert(k2 * align as int + count <= self.total);
                assert(!self.run_free(k2 * align as int, count as int));
            }
        }
        Err(AllocError::OutOfMemory)
    }

    /// Take back the run whose base frame has physical address `addr`.
    /// Fails with `NotAllocated`, leaving the allocator unchanged, exactly
    /// when no outstanding run starts there.
    pub fn deallocate(&mut self, addr: u64) -> (r: Result<(), AllocError>)
        requires
            old(self).wf(),
        ensures
            final(self).wf(),
            final(self).total_frames() == old(self).total_frames(),
            ({
                let fr = frame_of(addr);
                if addr as int % PAGE_SIZE as int == 0 && old(self).has_base(fr) {
                    &&& r == Ok::<(), AllocError>(())
                    &&& forall|f: int|
                        final(self).is_allocated(f) == (old(self).is_allocated(f) && !(fr <= f < fr
                            + old(self).run_len(fr)))
                    &&& !final(self).has_base(fr)
                    &&& forall|b: int|
                        b != fr ==> #[trigger] final(self).has_base(b) == old(self).has_base(b)
                    &&& forall|b: int|
                        b != fr && old(self).has_base(b) ==> #[trigger] final(self).run_len(b)
                            == old(self).run_len(b)
                } else {
                    r == Err::<(), AllocError>(AllocError::NotAllocated) && *final(self) == *old(
                        self,
                    )
                }
            }),
    {
        let rem: u64 = addr % PAGE_SIZE;
        let fr: u64 = addr / PAGE_SIZE;
        if rem != 0 {
            return Err(AllocError::NotAllocated);
        }
        let mut i: usize = 0;
        while i < self.allocs.len()
            invariant
                i <= self.allocs@.len(),
                self.wf(),
                *self == *old(self),
                fr as int == frame_of(addr),
                addr % PAGE_SIZE == 0,
                forall|j: int| 0 <= j < i ==> (#[trigger] self.allocs@[j]).0 != fr,
            decreases self.allocs@.len() - i,
        {
            let (base, _len) = self.allocs[i];
            if base == fr {
                let ghost pre = *self;
                proof {
                    lemma_run_at_index(pre, i as int);
                    assert(pre.allocs@[i as int].0 == fr);
                    assert(pre.has_base(frame_of(addr)));
                    assert(old(self).has_base(frame_of(addr)));
                    assert(addr as int % PAGE_SIZE as int == 0);
                }
                self.allocs.remove(i);
                proof {
                    lemma_remove_effect(pre, *self, i as int);
                }
                return Ok(());
            }
            i = i + 1;
        }
        proof {
            if old(self).has_base(fr as int) {
                let j = choose|j: int|
                    0 <= j < old(self).allocs@.len() && (#[trigger] old(self).allocs@[j]).0
                        == fr as int;
                assert(false);
            }
        }
        Err(AllocError::NotAllocated)
    }
}

/// A run with an allocated frame inside it is not free.
proof fn lemma_covered_frame_not_free(a: FrameAllocator, f: int, base: int, count: int)
    requires
        a.is_allocated(f),
        base <= f < base + count,
    ensures
        !a.run_free(base, count),
{
    if a.run_free(base, count) {
        assert(!a.is_allocated(f));
    }
}

/// Two outstanding runs never share a base frame.
proof fn lemma_same_base_same_index(a: FrameAllocator, i: int, j: int)
    requires
        a.wf(),
        0 <= i < a.allocs@.len(),
        0 <= j < a.allocs@.len(),
        a.allocs@[i].0 == a.allocs@[j].0,
    ensures
        i == j,
{
    if i < j {
        assert(entries_disjoint(a.allocs@[i], a.allocs@[j]));
    } else if j < i {
        assert(entries_disjoint(a.allocs@[j], a.allocs@[i]));
    }
}

/// The run recorded at index `i` is the run that `has_base` and `run_len`
/// speak of.
proof fn lemma_run_at_index(a: FrameAllocator, i: int)
    requires
        a.wf(),
        0 <= i < a.allocs@.len(),
    ensures
        a.has_base(a.allocs@[i].0 as int),
        a.run_len(a.allocs@[i].0 as int) == a.allocs@[i].1,
{
    let b = a.allocs@[i].0 as int;
    assert(a.has_base(b));
    let j = choose|j: int| 0 <= j < a.allocs@.len() && (#[trigger] a.allocs@[j]).0 == b;
    lemma_same_base_same_index(a, i, j);
}

/// Effect of appending the free run `(base, len)` to the outstanding runs.
proof fn lemma_push_effect(pre: FrameAllocator, post: FrameAllocator, base: u64, len: u64)
    requires
        pre.wf(),
        1 <= len,
        base + len <= pre.total,
        pre.run_free(base as int, len as int),
        post.total == pre.total,
        post.allocs@ == pre.allocs@.push((base, len)),
    ensures
        post.wf(),
        forall|f: int|
            post.is_allocated(f) == (pre.is_allocated(f) || (base <= f < base + len)),
        post.has_base(base as int),
        post.run_len(base as int) == len,
        forall|b: int| b != base ==> #[trigger] post.has_base(b) == pre.has_base(b),
        forall|b: int|
            b != base && pre.has_base(b) ==> #[trigger] post.run_len(b) == pre.run_len(b),
{
    let n = pre.allocs@.len() as int;
    assert forall|i: int| 0 <= i < n implies entries_disjoint(
        #[trigger] pre.allocs@[i],
        (base, len),
    ) by {
        let e = pre.allocs@[i];
        if !entries_disjoint(e, (base, len)) {
            let f = if e.0 as int >= base as int {
                e.0 as int
            } else {
                base as int
            };
            assert(entry_covers(e, f));
            assert(pre.is_allocated(f));
            assert(base <= f < base + len);
        }
    }
    assert(post.allocs@[n] == (base, len));
    assert(post.wf());
    assert forall|f: int|
        post.is_allocated(f) == (pre.is_allocated(f) || (base <= f < base + len)) by {
        if post.is_allocated(f) {
            let i = choose|i: int|
                0 <= i < post.allocs@.len() && entry_covers(#[trigger] post.allocs@[i], f);
            if i < n {
                assert(pre.is_allocated(f));
            }
        }
        if pre.is_allocated(f) {
            let i = choose|i: int|
                0 <= i < pre.allocs@.len() && entry_covers(#[trigger] pre.allocs@[i], f);
            assert(entry_covers(post.allocs@[i], f));
            assert(post.is_allocated(f));
        }
        if base <= f < base + len {
            assert(entry_covers(post.allocs@[n], f));
            assert(post.is_allocated(f));
        }
    }
    lemma_run_at_index(post, n);
    assert forall|b: int| b != base implies #[trigger] post.has_base(b) == pre.has_base(b) by {
        if post.has_base(b) {
            let i = choose|i: int|
                0 <= i < post.allocs@.len() && (#[trigger] post.allocs@[i]).0 == b;
            assert(i < n);
            assert(pre.has_base(b));
        }
        if pre.has_base(b) {
            let i = choose|i: int|
                0 <= i < pre.allocs@.len() && (#[trigger] pre.allocs@[i]).0 == b;
            assert(post.allocs@[i].0 == b);
            assert(post.has_base(b));
        }
    }
    assert forall|b: int| b != base && pre.has_base(b) implies #[trigger] post.run_len(b)
        == pre.run_len(b) by {
        let i = choose|i: int|
            0 <= i < pre.allocs@.len() && (#[trigger] pre.allocs@[i]).0 == b;
        lemma_run_at_index(pre, i);
        lemma_run_at_index(post, i);
    }
}

/// Effect of removing the run at index `idx` from the outstanding runs.
proof fn lemma_remove_effect(pre: FrameAllocator, post: FrameAllocator, idx: int)
    requires
        pre.wf(),
        0 <= idx < pre.allocs@.len(),
        post.total == pre.total,
        post.allocs@ == pre.allocs@.remove(idx),
    ensures
        post.wf(),
        forall|f: int|
            post.is_allocated(f) == (pre.is_allocated(f) && !entry_covers(
                pre.allocs@[idx],
                f,
            )),
        !post.has_base(pre.allocs@[idx].0 as int),
        forall|b: int|
            b != pre.allocs@[idx].0 ==> #[trigger] post.has_base(b) == pre.has_base(b),
        forall|b: int|
            b != pre.allocs@[idx].0 && pre.has_base(b) ==> #[trigger] post.run_len(b)
                == pre.run_len(b),
{
    let n = pre.allocs@.len() as int;
    let removed = pre.allocs@[idx];
    // index map: post[i] == pre[i] for i < idx, post[i] == pre[i + 1] for i >= idx
    assert forall|i: int| 0 <= i < n - 1 implies #[trigger] post.allocs@[i] == (if i < idx {
        pre.allocs@[i]
    } else {
        pre.allocs@[i + 1]
    }) by {}
    assert(post.wf());
    assert forall|f: int|
        post.is_allocated(f) == (pre.is_allocated(f) && !entry_covers(removed, f)) by {
        if post.is_allocated(f) {
            let i = choose|i: int|
                0 <= i < post.allocs@.len() && entry_covers(#[trigger] post.allocs@[i], f);
            let ip = if i < idx {
                i
            } else {
                i + 1
            };
            assert(entry_covers(pre.allocs@[ip], f));
            assert(pre.is_allocated(f));
            if entry_covers(removed, f) {
                if ip < idx {
                    assert(entries_disjoint(pre.allocs@[ip], pre.allocs@[idx]));
                } else {
                    assert(entries_disjoint(pre.allocs@[idx], pre.allocs@[ip]));
                }
            }
        }
        if pre.is_allocated(f) && !entry_covers(removed, f) {
            let i = choose|i: int|
                0 <= i < pre.allocs@.len() && entry_covers(#[trigger] pre.allocs@[i], f);
            assert(i != idx);
            let ip = if i < idx {
                i
            } else {
                i - 1
            };
            assert(entry_covers(post.allocs@[ip], f));
            assert(post.is_allocated(f));
        }
    }
    if post.has_base(removed.0 as int) {
        let i = choose|i: int|
            0 <= i < post.allocs@.len() && (#[trigger] post.allocs@[i]).0 == removed.0 as int;
        let ip = if i < idx {
            i
        } else {
            i + 1
        };
        lemma_same_base_same_index(pre, ip, idx);
    }
    assert forall|b: int| b != removed.0 implies #[trigger] post.has_base(b) == pre.has_base(
        b,
    ) by {
        if post.has_base(b) {
            let i = choose|i: int|
                0 <= i < post.allocs@.len() && (#[trigger] post.allocs@[i]).0 == b;
            let ip = if i < idx {
                i
            } else {
                i + 1
            };
            assert(pre.allocs@[ip].0 == b);
            assert(pre.has_base(b));
        }
        if pre.has_base(b) {
            let i = choose|i: int|
                0 <= i < pre.allocs@.len() && (#[trigger] pre.allocs@[i]).0 == b;
            assert(i != idx);
            let ip = if i < idx {
                i
            } else {
                i - 1
            };
            assert(post.allocs@[ip].0 == b);
            assert(post.has_base(b));
        }
    }
    assert forall|b: int| b != removed.0 && pre.has_base(b) implies #[trigger] post.run_len(b)
        == pre.run_len(b) by {
        let i = choose|i: int|
            0 <= i < pre.allocs@.len() && (#[trigger] pre.allocs@[i]).0 == b;
        assert(i != idx);
        let ip = if i < idx {
            i
        } else {
            i - 1
        };
        lemma_run_at_index(pre, i);
        lemma_run_at_index(post, ip);
        assert(post.allocs@[ip] == pre.allocs@[i]);
    }
}

/// Any multiple of `align` below `k * align` has a multiplier below `k`.
proof fn lemma_multiple_below(b2: int, align: int, k: int)
    requires
        0 <= b2,
        1 <= align,
        b2 % align == 0,
        b2 < k * align || b2 / align < k,
    ensures
        (b2 / align) * align == b2,
        0 <= b2 / align,
        b2 < k * align ==> b2 / align < k,
{
    lemma_fundamental_div_mod(b2, align);
    lemma_div_pos_is_pos(b2, align);
    let m = b2 / align;
    assert(b2 == align * m + b2 % align);
    assert(m * align == b2) by (nonlinear_arith)
        requires
            b2 == align * m + b2 % align,
            b2 % align == 0,
    ;
    if b2 < k * align {
        assert(m < k) by (nonlinear_arith)
            requires
                m * align == b2,
                b2 < k * align,
                1 <= align,
        ;
    }
}

/// Every aligned base below the one the search settled on was already ruled
/// out by the loop's progress.
proof fn lemma_aligned_smaller_bases(
    pre: FrameAllocator,
    chosen: int,
    count: int,
    align: int,
    k: int,
)
    requires
        1 <= align,
        0 <= k,
        chosen == k * align,
        forall|k2: int|
            0 <= k2 < k && #[trigger] (k2 * align) + count <= pre.total_frames() ==> !pre.run_free(
                k2 * align,
                count,
            ),
    ensures
        forall|b2: int|
            0 <= b2 < chosen && b2 % align == 0 && b2 + count <= pre.total_frames()
                ==> !pre.run_free(b2, count),
{
    assert forall|b2: int|
        0 <= b2 < chosen && b2 % align == 0 && b2 + count <= pre.total_frames() implies !pre
        .run_free(b2, count) by {
        lemma_multiple_below(b2, align, k);
        let k2 = b2 / align;
        assert(k2 * align == b2);
        assert(k2 * align + count <= pre.total_frames());
        assert(!pre.run_free(k2 * align, count));
    }
}

/// Whether `f` is the lowest free frame: the frame `allocate` hands out.
pub open spec fn is_lowest_free(a: FrameAllocator, f: int) -> bool {
    &&& 0 <= f < a.total_frames()
    &&& !a.is_allocated(f)
    &&& forall|g: int| 0 <= g < f ==> a.is_allocated(g)
}

/// Two allocators whose allocation maps agree frame for frame have the
/// same free runs.
pub proof fn lemma_run_free_transfers(a: FrameAllocator, b: FrameAllocator, base: int, count: int)
    requires
        forall|f: int| #[trigger] a.is_allocated(f) == b.is_allocated(f),
    ensures
        a.run_free(base, count) == b.run_free(base, count),
{
    if a.run_free(base, count) {
        assert forall|f: int| base <= f < base + count implies !b.is_allocated(f) by {
            assert(!a.is_allocated(f));
        }
    }
    if b.run_free(base, count) {
        assert forall|f: int| base <= f < base + count implies !a.is_allocated(f) by {
            assert(!b.is_allocated(f));
        }
    }
}

/// The lowest free frame is determined by the allocation map alone: two
/// allocators whose maps agree hand out the same frame next.  With the
/// operation contracts this gives the freelist round trip — allocate, then
/// deallocate of that same frame with nothing in between, makes the very
/// same frame the one the next allocate returns.
pub proof fn lemma_lowest_free_frame_unique(
    a: FrameAllocator,
    b: FrameAllocator,
    f1: int,
    f2: int,
)
    requires
        a.total_frames() == b.total_frames(),
        forall|f: int| #[trigger] a.is_allocated(f) == b.is_allocated(f),
        0 <= f1 < a.total_frames(),
        !a.is_allocated(f1),
        forall|g: int| 0 <= g < f1 ==> a.is_allocated(g),
        0 <= f2 < b.total_frames(),
        !b.is_allocated(f2),
        forall|g: int| 0 <= g < f2 ==> b.is_allocated(g),
    ensures
        f1 == f2,
{
    if f1 < f2 {
        assert(b.is_allocated(f1));
        assert(a.is_allocated(f1));
    } else if f2 < f1 {
        assert(a.is_allocated(f2));
        assert(b.is_allocated(f2));
    }
}

/// The physical base address of a run whose base frame is a multiple of
/// `align` is divisible by `align * PAGE_SIZE`.
pub proof fn lemma_aligned_base_address(fr: int, align: int)
    requires
        0 <= fr,
        1 <= align,
        fr % align == 0,
    ensures
        (fr * PAGE_SIZE as int) % (align * PAGE_SIZE as int) == 0,
{
    lemma_fundamental_div_mod(fr, align);
    let m = fr / align;
    assert(fr == align * m);
    assert(fr * PAGE_SIZE as int == m * (align * PAGE_SIZE as int)) by (nonlinear_arith)
        requires
            fr == align * m,
    ;
    lemma_mod_multiples_basic(m, align * PAGE_SIZE as int);
}

} // verus!
