//! The physical frames that a frame allocator hands out, in the order in which
//! it hands them out.

use crate::page_table::{entry_bits, is_frame_address, PHYS_ADDR_LIMIT};
use vstd::prelude::*;

verus! {

/// `frames` can come from one allocator: every address is that of a 4 KiB
/// frame, and no frame is handed out twice.
pub open spec fn are_distinct_frames(frames: Seq<u64>) -> bool {
    &&& forall|i: int| 0 <= i < frames.len() ==> is_frame_address(#[trigger] frames[i])
    &&& forall|i: int, j: int|
        0 <= i < j < frames.len() ==> #[trigger] frames[i] != #[trigger] frames[j]
}

/// A queue of free frames. Its view is the addresses that are still to come.
pub struct FrameSupply {
    frames: Vec<u64>,
    next: usize,
}

impl View for FrameSupply {
    type V = Seq<u64>;

    closed spec fn view(&self) -> Seq<u64> {
        self.frames@.skip(self.next as int)
    }
}

impl FrameSupply {
    /// The frames that are left are distinct frames.
    pub closed spec fn wf(self) -> bool {
        &&& self.next <= self.frames@.len()
        &&& are_distinct_frames(self.frames@)
    }

    /// What `wf` says of the frames that are left.
    pub proof fn lemma_wf(self)
        requires
            self.wf(),
        ensures
            are_distinct_frames(self@),
    {
    }

    /// Takes over the frames at the given addresses, or refuses them when an
    /// address is not that of a frame or comes twice.
    pub fn new(frames: Vec<u64>) -> (supply: Option<FrameSupply>)
        ensures
            supply is Some <==> are_distinct_frames(frames@),
            supply matches Some(s) ==> s.wf() && s@ == frames@,
    {
        let mut i: usize = 0;
        while i < frames.len()
            invariant
                i <= frames.len(),
                are_distinct_frames(frames@.take(i as int)),
            decreases frames.len() - i,
        {
            if frames[i] % 4096 != 0 || frames[i] >= PHYS_ADDR_LIMIT {
                assert(!is_frame_address(frames@[i as int]));
                return None;
            }
            let mut j: usize = 0;
            while j < i
                invariant
                    j <= i < frames.len(),
                    forall|k: int| 0 <= k < j ==> frames@[k] != frames@[i as int],
                decreases i - j,
            {
                if frames[j] == frames[i] {
                    assert(frames@[j as int] == frames@[i as int]);
                    return None;
                }
                j += 1;
            }
            proof {
                let before = frames@.take(i as int);
                let after = frames@.take(i as int + 1);
                assert forall|a: int, b: int| 0 <= a < b < after.len() implies #[trigger] after[a]
                    != #[trigger] after[b] by {
                    if b < i {
                        assert(before[a] != before[b]);
                    }
                }
                assert forall|a: int| 0 <= a < after.len() implies is_frame_address(
                    #[trigger] after[a],
                ) by {
                    if a < i {
                        assert(is_frame_address(before[a]));
                    }
                }
            }
            i += 1;
        }
        assert(frames@.take(i as int) =~= frames@);
        assert(frames@.skip(0) =~= frames@);
        Some(FrameSupply { frames, next: 0 })
    }

    /// The frames of the physical memory from `start` up to `end`, in ascending
    /// order. `None`: `start` is not at a page boundary, or `end` is below it or
    /// not a physical address.
    pub fn from_range(start: u64, end: u64) -> (supply: Option<FrameSupply>)
        ensures
            supply is Some <==> start % 4096 == 0 && start <= end <= PHYS_ADDR_LIMIT,
            supply is Some <==> start % 4096 == 0 && start <= end <= 0x10_0000_0000_0000,
            supply matches Some(s) ==> {
                &&& s.wf()
                &&& s@ == Seq::new(
                    ((end - start) / 4096) as nat,
                    |i: int| (start + i * 4096) as u64,
                )
            },
    {
        if start % 4096 != 0 || end < start || end > PHYS_ADDR_LIMIT {
            return None;
        }
        let count: u64 = (end - start) / 4096;
        let mut frames: Vec<u64> = Vec::new();
        let mut i: u64 = 0;
        while i < count
            invariant
                i <= count,
                count == (end - start) / 4096,
                start % 4096 == 0,
                start <= end <= PHYS_ADDR_LIMIT,
                frames@ =~= Seq::new(i as nat, |k: int| (start + k * 4096) as u64),
            decreases count - i,
        {
            frames.push(start + i * 4096);
            i += 1;
        }
        assert(frames@.skip(0) =~= frames@);
        Some(FrameSupply { frames, next: 0 })
    }

    /// Hands out the next frame, if one is left.
    pub fn allocate_frame(&mut self) -> (frame: Option<u64>)
        requires
            old(self).wf(),
        ensures
            final(self).wf(),
            frame is None <==> old(self)@.len() == 0,
            frame is None ==> final(self)@ == old(self)@,
            frame matches Some(f) ==> {
                &&& f == old(self)@[0]
                &&& final(self)@ == old(self)@.skip(1)
                &&& is_frame_address(f)
                &&& !final(self)@.contains(f)
            },
    {
        if self.next < self.frames.len() {
            let frame: u64 = self.frames[self.next];
            self.next = self.next + 1;
            assert(self@ =~= old(self)@.skip(1));
            Some(frame)
        } else {
            None
        }
    }

    /// How many frames are left.
    pub fn remaining(&self) -> (count: usize)
        requires
            self.wf(),
        ensures
            count == self@.len(),
    {
        self.frames.len() - self.next
    }
}

/// Frames can come from one allocator exactly when none comes twice and each
/// address has no bits but 12 to 51.
pub proof fn distinct_frames_are_aligned_and_unlike(frames: Seq<u64>)
    ensures
        are_distinct_frames(frames) <==> frames.no_duplicates() && forall|i: int|
            0 <= i < frames.len() ==> #[trigger] frames[i] & !0x000f_ffff_ffff_f000 == 0,
{
    assert forall|i: int| 0 <= i < frames.len() implies is_frame_address(frames[i]) == (
    #[trigger] frames[i] & !0x000f_ffff_ffff_f000 == 0) by {
        entry_bits(frames[i]);
    }
    if frames.no_duplicates() && forall|i: int|
        0 <= i < frames.len() ==> #[trigger] frames[i] & !0x000f_ffff_ffff_f000 == 0 {
        assert(are_distinct_frames(frames));
    }
}

} // verus!
