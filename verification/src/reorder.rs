//! The bounded reorder buffer that puts one client's frames back in order.

use crate::error::GatewayError;
use crate::message::{frames_view, Frame, FrameModel};
use vstd::prelude::*;

verus! {

/// How many of the leading `slots` are filled.
pub open spec fn ready(slots: Seq<Option<Seq<u8>>>) -> nat
    decreases slots.len(),
{
    if slots.len() == 0 || slots[0] is None {
        0
    } else {
        1 + ready(slots.drop_first())
    }
}

/// A reorder buffer, as plain values.
pub struct ReorderModel {
    /// The sequence number of the last frame that was released.
    pub last_delivered: nat,
    /// What waits: `slots[i]` is the payload of the frame with sequence
    /// number `last_delivered + 1 + i`, if that frame has arrived. The
    /// first slot stands for the frame that is awaited next.
    pub slots: Seq<Option<Seq<u8>>>,
}

impl ReorderModel {
    /// The buffer of a client that has received nothing yet. It holds up
    /// to `window` frames that arrived ahead of the awaited one.
    pub open spec fn fresh(window: nat) -> ReorderModel {
        ReorderModel { last_delivered: 0, slots: Seq::new(window + 1, |i: int| None) }
    }

    /// How far ahead of the awaited frame a frame may arrive.
    pub open spec fn window(self) -> int {
        self.slots.len() - 1
    }

    /// Between two arrivals the awaited frame is never in the buffer.
    pub open spec fn wf(self) -> bool {
        self.slots.len() >= 1 && self.slots[0] is None
    }

    /// The slot that `frame` belongs in.
    pub open spec fn offset(self, frame: FrameModel) -> int {
        frame.sequence - self.last_delivered - 1
    }

    /// Whether `frame` was released before, or is older than all that was.
    pub open spec fn is_stale(self, frame: FrameModel) -> bool {
        frame.sequence <= self.last_delivered
    }

    /// Whether `frame` lies beyond the window, so that the gap before it
    /// cannot be waited out.
    pub open spec fn is_gap(self, frame: FrameModel) -> bool {
        self.offset(frame) >= self.slots.len()
    }

    /// The slots once `frame` has been put in place. A stale frame is
    /// dropped; of two frames with one sequence number the first stays.
    pub open spec fn placed(self, frame: FrameModel) -> Seq<Option<Seq<u8>>> {
        if self.is_stale(frame) || self.is_gap(frame) || self.slots[self.offset(frame)] is Some {
            self.slots
        } else {
            self.slots.update(self.offset(frame), Some(frame.payload))
        }
    }

    /// The frames that the arrival of `frame` releases, in order: the
    /// awaited frame, if it is there now, and those that follow it without
    /// a gap.
    pub open spec fn released(self, frame: FrameModel) -> Seq<FrameModel> {
        let placed = self.placed(frame);
        Seq::new(
            ready(placed),
            |i: int|
                FrameModel {
                    sequence: (self.last_delivered + 1 + i) as nat,
                    payload: placed[i].unwrap(),
                },
        )
    }

    /// The buffer after the arrival of `frame`.
    pub open spec fn accept(self, frame: FrameModel) -> ReorderModel {
        let placed = self.placed(frame);
        let count = ready(placed);
        ReorderModel {
            last_delivered: self.last_delivered + count,
            slots: placed.skip(count as int) + Seq::new(count, |i: int| None),
        }
    }
}

/// The leading filled slots are at most as many as there are slots, each
/// of them is filled, and the one behind them is not.
pub proof fn lemma_ready_bounds(slots: Seq<Option<Seq<u8>>>)
    ensures
        ready(slots) <= slots.len(),
        forall|i: int| 0 <= i < ready(slots) ==> (#[trigger] slots[i]) is Some,
        ready(slots) < slots.len() ==> slots[ready(slots) as int] is None,
    decreases slots.len(),
{
    if slots.len() == 0 || slots[0] is None {
    } else {
        let rest = slots.drop_first();
        lemma_ready_bounds(rest);
        assert forall|i: int| 0 <= i < ready(slots) implies (#[trigger] slots[i]) is Some by {
            if i > 0 {
                assert(rest[i - 1] is Some);
            }
        }
        if ready(slots) < slots.len() {
            assert(rest[ready(rest) as int] is None);
        }
    }
}

/// Slots whose first `count` are filled and whose next is not have exactly
/// `count` ready.
pub proof fn lemma_ready_is(slots: Seq<Option<Seq<u8>>>, count: nat)
    requires
        count <= slots.len(),
        forall|i: int| 0 <= i < count ==> (#[trigger] slots[i]) is Some,
        count < slots.len() ==> slots[count as int] is None,
    ensures
        ready(slots) == count,
    decreases slots.len(),
{
    if count > 0 {
        let rest = slots.drop_first();
        assert forall|i: int| 0 <= i < count - 1 implies (#[trigger] rest[i]) is Some by {
            assert(slots[i + 1] is Some);
        }
        lemma_ready_is(rest, (count - 1) as nat);
    }
}

/// The reorder buffer of one connection.
pub struct ReorderBuffer {
    last_delivered: u64,
    slots: Vec<Option<Vec<u8>>>,
}

/// The views of the payloads in `slots`.
pub open spec fn slots_view(slots: Seq<Option<Vec<u8>>>) -> Seq<Option<Seq<u8>>> {
    slots.map_values(
        |slot: Option<Vec<u8>>|
            match slot {
                Some(payload) => Some(payload@),
                None => None,
            },
    )
}

impl View for ReorderBuffer {
    type V = ReorderModel;

    closed spec fn view(&self) -> ReorderModel {
        ReorderModel { last_delivered: self.last_delivered as nat, slots: slots_view(self.slots@) }
    }
}

impl ReorderBuffer {
    #[verifier::type_invariant]
    spec fn inv(&self) -> bool {
        &&& self.slots.len() >= 1
        &&& self.slots@[0] is None
        &&& forall|i: int|
            0 <= i < self.slots.len() && (#[trigger] self.slots@[i]) is Some
                ==> self.last_delivered + 1 + i <= u64::MAX
    }

    /// A buffer that has released nothing and holds up to `window` frames
    /// that arrive early.
    pub fn new(window: usize) -> (buffer: ReorderBuffer)
        ensures
            buffer@ == ReorderModel::fresh(window as nat),
            buffer@.wf(),
    {
        let mut slots: Vec<Option<Vec<u8>>> = Vec::new();
        slots.push(None);
        let mut i: usize = 0;
        while i < window
            invariant
                i <= window,
                slots.len() == i + 1,
                forall|k: int| 0 <= k < slots.len() ==> (#[trigger] slots@[k]) is None,
            decreases window - i,
        {
            slots.push(None);
            i += 1;
        }
        let buffer = ReorderBuffer { last_delivered: 0, slots };
        assert(buffer@.slots =~= ReorderModel::fresh(window as nat).slots);
        buffer
    }

    /// The sequence number of the last frame that was released.
    pub fn last_delivered(&self) -> (last: u64)
        ensures
            last == self@.last_delivered,
    {
        self.last_delivered
    }

    /// Takes `frame` in and hands out, in order, the frames that can go to
    /// the client now. A frame beyond the window is refused with
    /// `SequenceGap` and the buffer is left as it was.
    pub fn accept(&mut self, frame: Frame) -> (r: Result<Vec<Frame>, GatewayError>)
        ensures
            final(self)@.wf(),
            old(self)@.is_gap(frame@) ==> r == Err::<Vec<Frame>, GatewayError>(
                GatewayError::SequenceGap,
            ) && final(self)@ == old(self)@,
            !old(self)@.is_gap(frame@) ==> r is Ok && frames_view(r->Ok_0@) == old(self)@.released(
                frame@,
            ) && final(self)@ == old(self)@.accept(frame@),
    {
        proof {
            use_type_invariant(&*self);
        }
        let ghost start = self@;
        let ghost placed = start.placed(frame@);
        let mut out: Vec<Frame> = Vec::new();
        if frame.sequence <= self.last_delivered {
            proof {
                lemma_ready_is(placed, 0);
                assert(frames_view(out@) =~= start.released(frame@));
                assert(start.accept(frame@).slots =~= start.slots);
            }
            return Ok(out);
        }
        let ahead: u64 = frame.sequence - self.last_delivered - 1;
        if ahead >= self.slots.len() as u64 {
            return Err(GatewayError::SequenceGap);
        }
        let at: usize = ahead as usize;
        let mut slots: Vec<Option<Vec<u8>>> = Vec::new();
        slots.push(None);
        std::mem::swap(&mut slots, &mut self.slots);
        let mut last: u64 = self.last_delivered;
        if slots[at].is_none() {
            slots.set(at, Some(frame.payload));
        }
        assert(slots_view(slots@) =~= placed);
        let ghost total = slots.len();
        while slots[0].is_some()
            invariant
                total >= 1,
                slots.len() == total,
                placed.len() == total,
                last == start.last_delivered + out.len(),
                out.len() <= ready(placed),
                slots_view(slots@) == placed.skip(out.len() as int) + Seq::new(
                    out.len() as nat,
                    |i: int| None,
                ),
                forall|i: int|
                    0 <= i < total && (#[trigger] placed[i]) is Some ==> start.last_delivered + 1
                        + i <= u64::MAX,
                frames_view(out@) == Seq::new(
                    out.len() as nat,
                    |i: int|
                        FrameModel {
                            sequence: (start.last_delivered + 1 + i) as nat,
                            payload: placed[i].unwrap(),
                        },
                ),
            decreases total - out.len(),
        {
            let ghost done = out.len() as int;
            let ghost before = slots_view(slots@);
            let ghost sent = frames_view(out@);
            proof {
                lemma_ready_bounds(placed);
                assert(before[0] is Some);
                if done == total {
                    assert(before[0] == Seq::new(done as nat, |i: int| None::<Seq<u8>>)[0]);
                }
                assert(before[0] == placed[done]);
                if done == ready(placed) {
                    assert(placed[done] is None);
                }
            }
            let ghost held = slots@;
            let payload = slots.remove(0).unwrap();
            slots.push(None);
            last = last + 1;
            out.push(Frame { sequence: last, payload });
            proof {
                let target = placed.skip(done + 1) + Seq::new((done + 1) as nat, |i: int| None);
                assert forall|i: int| 0 <= i < total implies slots_view(slots@)[i] == target[i] by {
                    if i < total - 1 {
                        assert(slots@[i] == held[i + 1]);
                        assert(slots_view(slots@)[i] == before[i + 1]);
                    }
                }
                assert(slots_view(slots@) =~= target);
                assert(frames_view(out@) =~= sent.push(
                    FrameModel { sequence: last as nat, payload: placed[done].unwrap() },
                ));
                assert(frames_view(out@) =~= Seq::new(
                    (done + 1) as nat,
                    |i: int|
                        FrameModel {
                            sequence: (start.last_delivered + 1 + i) as nat,
                            payload: placed[i].unwrap(),
                        },
                ));
            }
        }
        proof {
            let done = out.len() as int;
            lemma_ready_bounds(placed);
            if done < ready(placed) {
                assert(placed[done] is Some);
                assert(slots_view(slots@)[0] == placed[done]);
            }
            assert forall|i: int| 0 <= i < slots.len() && (#[trigger] slots@[i]) is Some implies last
                + 1 + i <= u64::MAX by {
                assert(slots_view(slots@)[i] is Some);
                assert(placed[done + i] is Some);
            }
            assert(slots_view(slots@)[0] is None);
        }
        self.last_delivered = last;
        self.slots = slots;
        Ok(out)
    }
}


impl ReorderModel {
    /// The buffer after `frames` arrived in this order. A frame that is
    /// refused as a gap leaves the buffer as it was.
    pub open spec fn after(self, frames: Seq<FrameModel>) -> ReorderModel
        decreases frames.len(),
    {
        if frames.len() == 0 {
            self
        } else {
            let before = self.after(frames.drop_last());
            if before.is_gap(frames.last()) {
                before
            } else {
                before.accept(frames.last())
            }
        }
    }

    /// All that the buffer released while `frames` arrived in this order.
    pub open spec fn deliveries(self, frames: Seq<FrameModel>) -> Seq<FrameModel>
        decreases frames.len(),
    {
        if frames.len() == 0 {
            Seq::empty()
        } else {
            let before = self.after(frames.drop_last());
            let earlier = self.deliveries(frames.drop_last());
            if before.is_gap(frames.last()) {
                earlier
            } else {
                earlier + before.released(frames.last())
            }
        }
    }

    /// Whether every frame that waits in the buffer is one of `frames`.
    pub open spec fn holds_only(self, frames: Seq<FrameModel>) -> bool {
        forall|i: int|
            0 <= i < self.slots.len() && (#[trigger] self.slots[i]) is Some ==> frames.contains(
                FrameModel {
                    sequence: (self.last_delivered + 1 + i) as nat,
                    payload: self.slots[i].unwrap(),
                },
            )
    }
}

/// One arrival keeps the buffer well formed and its window as wide as it
/// was, and moves `last_delivered` on by the number of frames released.
pub proof fn lemma_accept_keeps_wf(s: ReorderModel, frame: FrameModel)
    requires
        s.wf(),
    ensures
        s.accept(frame).wf(),
        s.accept(frame).slots.len() == s.slots.len(),
        s.accept(frame).last_delivered == s.last_delivered + s.released(frame).len(),
{
    lemma_ready_bounds(s.placed(frame));
}

/// Ordering: in whatever order frames arrive, what the buffer releases
/// carries the sequence numbers that follow the last one released before,
/// one by one, with no gap and no repetition.
pub proof fn lemma_deliveries_in_order(start: ReorderModel, frames: Seq<FrameModel>)
    requires
        start.wf(),
    ensures
        start.after(frames).wf(),
        start.after(frames).slots.len() == start.slots.len(),
        start.after(frames).last_delivered == start.last_delivered + start.deliveries(frames).len(),
        forall|i: int|
            0 <= i < start.deliveries(frames).len() ==> (#[trigger] start.deliveries(
                frames,
            )[i]).sequence == start.last_delivered + 1 + i,
    decreases frames.len(),
{
    if frames.len() > 0 {
        lemma_deliveries_in_order(start, frames.drop_last());
        let before = start.after(frames.drop_last());
        lemma_accept_keeps_wf(before, frames.last());
    }
}

/// What a buffer that started empty releases is what arrived: every frame
/// released is one of the frames that came in, payload and all.
pub proof fn lemma_deliveries_arrived(window: nat, frames: Seq<FrameModel>)
    ensures
        ReorderModel::fresh(window).after(frames).holds_only(frames),
        forall|i: int|
            0 <= i < ReorderModel::fresh(window).deliveries(frames).len() ==> frames.contains(
                #[trigger] ReorderModel::fresh(window).deliveries(frames)[i],
            ),
    decreases frames.len(),
{
    let start = ReorderModel::fresh(window);
    if frames.len() > 0 {
        let front = frames.drop_last();
        let frame = frames.last();
        lemma_deliveries_arrived(window, front);
        lemma_deliveries_in_order(start, front);
        let before = start.after(front);
        assert forall|f: FrameModel| front.contains(f) implies frames.contains(f) by {
            let k = choose|k: int| 0 <= k < front.len() && front[k] == f;
            assert(frames[k] == f);
        }
        assert(frames[frames.len() - 1] == frame);
        if !before.is_gap(frame) {
            let placed = before.placed(frame);
            lemma_ready_bounds(placed);
            // Every filled slot, once the frame is placed, holds a frame that arrived.
            assert forall|i: int| 0 <= i < placed.len() && (#[trigger] placed[i]) is Some implies frames.contains(

                FrameModel {
                    sequence: (before.last_delivered + 1 + i) as nat,
                    payload: placed[i].unwrap(),
                },
            ) by {
                if before.slots[i] is Some {
                    assert(front.contains(
                        FrameModel {
                            sequence: (before.last_delivered + 1 + i) as nat,
                            payload: before.slots[i].unwrap(),
                        },
                    ));
                } else {
                    assert(i == before.offset(frame));
                    assert(FrameModel {
                        sequence: (before.last_delivered + 1 + i) as nat,
                        payload: placed[i].unwrap(),
                    } == frame);
                }
            }
            let after = before.accept(frame);
            let count = ready(placed) as int;
            assert forall|i: int| 0 <= i < after.slots.len() && (#[trigger] after.slots[i]) is Some implies frames.contains(

                FrameModel {
                    sequence: (after.last_delivered + 1 + i) as nat,
                    payload: after.slots[i].unwrap(),
                },
            ) by {
                assert(after.slots[i] == placed[count + i]);
            }
            let earlier = start.deliveries(front);
            let all = start.deliveries(frames);
            assert forall|i: int| 0 <= i < all.len() implies frames.contains(#[trigger] all[i]) by {
                if i < earlier.len() {
                    assert(all[i] == earlier[i]);
                    assert(front.contains(earlier[i]));
                } else {
                    let j = i - earlier.len();
                    assert(all[i] == before.released(frame)[j]);
                    assert(placed[j] is Some);
                }
            }
        } else {
            assert forall|i: int|
                0 <= i < before.slots.len() && (#[trigger] before.slots[i]) is Some implies frames.contains(

                FrameModel {
                    sequence: (before.last_delivered + 1 + i) as nat,
                    payload: before.slots[i].unwrap(),
                },
            ) by {
                assert(front.contains(
                    FrameModel {
                        sequence: (before.last_delivered + 1 + i) as nat,
                        payload: before.slots[i].unwrap(),
                    },
                ));
            }
        }
    } else {
        assert(start.wf());
    }
}

} // verus!
