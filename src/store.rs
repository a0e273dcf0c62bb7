use vstd::prelude::*;

use std::collections::VecDeque;

use crate::clock::Timestamp;
use crate::segment::{apply_events, Segment, SegmentModel};
use crate::types::SockMsgEvent;

verus! {

/// A segment with the start of its window.
pub struct TimeSegment {
    pub ts: Timestamp,
    pub segment: Segment,
}

impl View for TimeSegment {
    type V = (u64, SegmentModel);

    open spec fn view(&self) -> (u64, SegmentModel) {
        (self.ts.0, self.segment@)
    }
}

/// The sequence of segments after a segment is appended at the back, the
/// front one evicted first when `cap` are held.
pub open spec fn push_evict(
    segs: Seq<(u64, SegmentModel)>,
    x: (u64, SegmentModel),
    cap: nat,
) -> Seq<(u64, SegmentModel)> {
    if segs.len() >= cap {
        segs.drop_first().push(x)
    } else {
        segs.push(x)
    }
}

/// The sequence of segments once the window `key` has one: an empty store
/// gets one segment at `key`; otherwise empty segments are appended, one
/// window apart, until the newest is at `key`. A store whose newest segment
/// is not older than `key` is left as it is.
pub open spec fn fill(segs: Seq<(u64, SegmentModel)>, key: u64, w: u64, cap: nat) -> Seq<
    (u64, SegmentModel),
>
    decreases (if segs.len() == 0 {
        0
    } else {
        key - segs.last().0
    }),
{
    if segs.len() == 0 {
        seq![(key, SegmentModel::empty())]
    } else if segs.last().0 >= key || w == 0 || segs.last().0 + w > key {
        segs
    } else {
        fill(push_evict(segs, ((segs.last().0 + w) as u64, SegmentModel::empty()), cap), key, w, cap)
    }
}

/// The segments after an ingest at `key`: the windows are filled up to
/// `key`, and the events go to the newest segment.
pub open spec fn ingest(
    segs: Seq<(u64, SegmentModel)>,
    key: u64,
    w: u64,
    cap: nat,
    events: Seq<SockMsgEvent>,
) -> Seq<(u64, SegmentModel)> {
    let filled = fill(segs, key, w, cap);
    filled.update(filled.len() - 1, (filled.last().0, apply_events(filled.last().1, events)))
}

/// Segment keys are multiples of the window, one window apart, at most
/// `cap` of them, and each segment is well formed.
pub open spec fn segments_wf(segs: Seq<(u64, SegmentModel)>, w: u64, cap: nat) -> bool {
    &&& w > 0
    &&& cap >= 1
    &&& segs.len() <= cap
    &&& forall|i: int| 0 <= i < segs.len() ==> (#[trigger] segs[i]).0 % w == 0 && segs[i].1.wf()
    &&& forall|i: int| 0 <= i < segs.len() - 1 ==> #[trigger] segs[i + 1].0 == segs[i].0 + w
}

pub proof fn lemma_next_multiple(a: u64, b: u64, w: u64)
    requires
        w > 0,
        a % w == 0,
        b % w == 0,
        a < b,
    ensures
        a + w <= b,
        (a + w) % (w as int) == 0,
{
    let qa = a as int / w as int;
    let qb = b as int / w as int;
    vstd::arithmetic::div_mod::lemma_fundamental_div_mod(a as int, w as int);
    vstd::arithmetic::div_mod::lemma_fundamental_div_mod(b as int, w as int);
    assert(a == w * qa);
    assert(b == w * qb);
    assert(qa < qb) by (nonlinear_arith)
        requires
            a == w * qa,
            b == w * qb,
            a < b,
            w > 0,
    ;
    assert(a + w <= b) by (nonlinear_arith)
        requires
            a == w * qa,
            b == w * qb,
            qa < qb,
            w > 0,
    ;
    vstd::arithmetic::div_mod::lemma_mod_add_multiples_vanish(a as int, w as int);
}

/// Appending the next window's empty segment keeps the segments well formed.
pub proof fn lemma_push_evict_wf(segs: Seq<(u64, SegmentModel)>, key: u64, w: u64, cap: nat)
    requires
        segments_wf(segs, w, cap),
        segs.len() >= 1,
        key % w == 0,
        segs.last().0 < key,
    ensures
        segments_wf(push_evict(segs, ((segs.last().0 + w) as u64, SegmentModel::empty()), cap), w, cap),
{
    let last = segs.last().0;
    lemma_next_multiple(last, key, w);
    let x = ((last + w) as u64, SegmentModel::empty());
    let next = push_evict(segs, x, cap);
    if segs.len() >= cap {
        assert forall|i: int| 0 <= i < next.len() - 1 implies #[trigger] next[i + 1].0 == next[i].0
            + w by {
            if i + 1 < next.len() - 1 {
                assert(next[i + 1] == segs[i + 2]);
                assert(next[i] == segs[i + 1]);
            } else {
                assert(next[i] == segs[i + 1]);
            }
        }
        assert forall|i: int| 0 <= i < next.len() implies (#[trigger] next[i]).0 % w == 0
            && next[i].1.wf() by {
            if i < next.len() - 1 {
                assert(next[i] == segs[i + 1]);
            }
        }
    } else {
        assert forall|i: int| 0 <= i < next.len() - 1 implies #[trigger] next[i + 1].0 == next[i].0
            + w by {
            if i + 1 < next.len() - 1 {
                assert(next[i + 1] == segs[i + 1]);
            }
            assert(next[i] == segs[i]);
        }
        assert forall|i: int| 0 <= i < next.len() implies (#[trigger] next[i]).0 % w == 0
            && next[i].1.wf() by {
            if i < next.len() - 1 {
                assert(next[i] == segs[i]);
            }
        }
    }
}

/// Filling keeps the segments well formed, leaves at least one, and ends at
/// `key` unless the newest segment was already later.
pub proof fn lemma_fill(segs: Seq<(u64, SegmentModel)>, key: u64, w: u64, cap: nat)
    requires
        segments_wf(segs, w, cap),
        key % w == 0,
    ensures
        segments_wf(fill(segs, key, w, cap), w, cap),
        fill(segs, key, w, cap).len() >= 1,
        segs.len() == 0 || segs.last().0 <= key ==> fill(segs, key, w, cap).last().0 == key,
        segs.len() > 0 && segs.last().0 > key ==> fill(segs, key, w, cap) == segs,
    decreases (if segs.len() == 0 {
        0
    } else {
        key - segs.last().0
    }),
{
    if segs.len() == 0 {
        vstd::arithmetic::div_mod::lemma_mod_self_0(w as int);
    } else if segs.last().0 >= key {
    } else {
        let last = segs.last().0;
        lemma_next_multiple(last, key, w);
        let x = ((last + w) as u64, SegmentModel::empty());
        let next = push_evict(segs, x, cap);
        lemma_push_evict_wf(segs, key, w, cap);
        lemma_fill(next, key, w, cap);
    }
}

/// On a store without segments, ingesting nothing at the timestamp that
/// `oldest_timestamp(now)` gives leaves exactly one segment, that of `now`'s
/// window, with nothing counted.
pub proof fn lemma_oldest_timestamp_creates_one(store: Store, now: Timestamp)
    requires
        store.wf(),
        store.segs().len() == 0,
    ensures
        ({
            let w = store.spec_window();
            let ts = store.spec_oldest_timestamp(now);
            let after = ingest(store.segs(), ts.spec_trunc(w).0, w, store.spec_capacity(), seq![]);
            &&& after.len() == 1
            &&& after[0].0 == now.spec_trunc(w).0
            &&& after[0].1 == SegmentModel::empty()
        }),
{
    let w = store.spec_window();
    let key = now.spec_trunc(w).0;
    let filled = fill(store.segs(), key, w, store.spec_capacity());
    assert(filled == seq![(key, SegmentModel::empty())]);
    assert(apply_events(SegmentModel::empty(), seq![]) == SegmentModel::empty());
}

/// Time series store: a ring of segments of one window each.
pub struct Store {
    window: u64,
    capacity: usize,
    segments: VecDeque<TimeSegment>,
}

impl Store {
    /// The segments, oldest first, each with the start of its window.
    pub closed spec fn segs(&self) -> Seq<(u64, SegmentModel)> {
        self.segments@.map_values(|t: TimeSegment| t@)
    }

    pub closed spec fn spec_window(&self) -> u64 {
        self.window
    }

    pub closed spec fn spec_capacity(&self) -> nat {
        self.capacity as nat
    }

    pub open spec fn wf(&self) -> bool {
        segments_wf(self.segs(), self.spec_window(), self.spec_capacity())
    }

    /// An empty store of segments `window` nanoseconds wide, holding at most
    /// `capacity` of them.
    pub fn new(window: u64, capacity: usize) -> (r: Store)
        requires
            window > 0,
            capacity >= 1,
        ensures
            r.wf(),
            r.segs() == Seq::<(u64, SegmentModel)>::empty(),
            r.spec_window() == window,
            r.spec_capacity() == capacity,
    {
        let r = Store { window, capacity, segments: VecDeque::with_capacity(capacity) };
        assert(r.segs() =~= Seq::<(u64, SegmentModel)>::empty());
        r
    }

    pub fn window(&self) -> (r: u64)
        ensures
            r == self.spec_window(),
    {
        self.window
    }

    pub fn max_capacity(&self) -> (r: usize)
        ensures
            r == self.spec_capacity(),
    {
        self.capacity
    }

    fn write_segment(&mut self, key: u64)
        requires
            old(self).wf(),
            key % old(self).spec_window() == 0,
        ensures
            final(self).wf(),
            final(self).spec_window() == old(self).spec_window(),
            final(self).spec_capacity() == old(self).spec_capacity(),
            final(self).segs() == fill(
                old(self).segs(),
                key,
                old(self).spec_window(),
                old(self).spec_capacity(),
            ),
    {
        let ghost w = self.window;
        let ghost cap = self.capacity as nat;
        let ghost target = fill(self.segs(), key, w, cap);
        proof {
            lemma_fill(self.segs(), key, w, cap);
        }
        loop
            invariant
                self.wf(),
                self.window == w,
                self.capacity == cap,
                key % w == 0,
                fill(self.segs(), key, w, cap) == target,
            ensures
                self.wf(),
                self.window == w,
                self.capacity == cap,
                self.segs() == target,
            decreases (if self.segs().len() == 0 {
                    key as int + 1
                } else {
                    key - self.segs().last().0
                }),
        {
            let len = self.segments.len();
            let ghost segs = self.segs();
            let next: u64;
            if len == 0 {
                next = key;
            } else {
                let last_ts = self.segments[len - 1].ts.0;
                assert(segs.last().0 == last_ts);
                if last_ts >= key {
                    assert(fill(segs, key, w, cap) == segs);
                    break ;
                }
                proof {
                    lemma_next_multiple(last_ts, key, w);
                }
                next = last_ts + self.window;
            }
            if len >= self.capacity {
                self.segments.pop_front();
            }
            let ghost x = (next, SegmentModel::empty());
            self.segments.push_back(TimeSegment { ts: Timestamp(next), segment: Segment::new() });
            proof {
                assert(self.segs() =~= push_evict(segs, x, cap));
                lemma_fill(segs, key, w, cap);
                if len == 0 {
                    assert(self.segs() =~= seq![(key, SegmentModel::empty())]);
                }
            }
        }
    }

    /// Ingests the events at `ts`: the segment of `ts`'s window is created
    /// first where it is missing, with empty segments for the windows
    /// between, evicting the oldest when the store is full. Events with a
    /// timestamp older than the newest segment go to the newest segment.
    pub fn batch_update(&mut self, ts: Timestamp, messages: &[SockMsgEvent])
        requires
            old(self).wf(),
        ensures
            final(self).wf(),
            final(self).spec_window() == old(self).spec_window(),
            final(self).spec_capacity() == old(self).spec_capacity(),
            final(self).segs() == ingest(
                old(self).segs(),
                ts.spec_trunc(old(self).spec_window()).0,
                old(self).spec_window(),
                old(self).spec_capacity(),
                messages@,
            ),
    {
        let key = ts.trunc(self.window);
        proof {
            lemma_fill(self.segs(), key.0, self.window, self.capacity as nat);
        }
        self.write_segment(key.0);
        let ghost filled = self.segs();
        assert(self.segments@.len() == filled.len());
        let mut last = self.segments.pop_back().unwrap();
        assert(last@ == filled.last());
        last.segment.batch_update(messages);
        self.segments.push_back(last);
        proof {
            assert(self.segs() =~= filled.update(
                filled.len() - 1,
                (filled.last().0, apply_events(filled.last().1, messages@)),
            ));
            assert forall|i: int| 0 <= i < self.segs().len() implies #[trigger] self.segs()[i].0
                % self.window == 0 && self.segs()[i].1.wf() by {
                if i < filled.len() - 1 {
                    assert(self.segs()[i] == filled[i]);
                }
            }
            assert forall|i: int| 0 <= i < self.segs().len() - 1 implies #[trigger] self.segs()[i
                + 1].0 == self.segs()[i].0 + self.window by {
                assert(self.segs()[i] == filled[i]);
                assert(self.segs()[i + 1].0 == filled[i + 1].0);
            }
        }
    }

    pub open spec fn spec_oldest_timestamp(&self, now: Timestamp) -> Timestamp {
        let segs = self.segs();
        if segs.len() == 0 || segs.last().0 <= now.spec_trunc(self.spec_window()).0 {
            now
        } else {
            Timestamp(segs.last().0)
        }
    }

    /// A timestamp whose ingest, even with no events, leaves at least one
    /// segment and makes the newest segment that of `now`'s window, unless
    /// the store already holds a later one.
    pub fn oldest_timestamp(&self, now: Timestamp) -> (r: Timestamp)
        requires
            self.wf(),
        ensures
            r == self.spec_oldest_timestamp(now),
    {
        let n = self.segments.len();
        if n == 0 {
            return now;
        }
        let last = self.segments[n - 1].ts;
        if last.0 <= now.trunc(self.window).0 {
            now
        } else {
            last
        }
    }

    /// Pins the segment sequence for reading.
    pub fn segments_view(&self) -> (r: TimeSegmentsView<'_>)
        ensures
            r@ == self.segs(),
    {
        TimeSegmentsView { segments: &self.segments }
    }
}

/// A read-only view of the segments of a store, oldest first.
pub struct TimeSegmentsView<'a> {
    segments: &'a VecDeque<TimeSegment>,
}

impl<'a> View for TimeSegmentsView<'a> {
    type V = Seq<(u64, SegmentModel)>;

    closed spec fn view(&self) -> Seq<(u64, SegmentModel)> {
        self.segments@.map_values(|t: TimeSegment| t@)
    }
}

impl<'a> TimeSegmentsView<'a> {
    /// Returns the number of time segments.
    #[inline]
    pub fn len(&self) -> (r: usize)
        ensures
            r == self@.len(),
    {
        self.segments.len()
    }

    #[inline]
    pub fn is_empty(&self) -> (r: bool)
        ensures
            r == (self@.len() == 0),
    {
        self.segments.len() == 0
    }

    /// The segment at `i`, counted from the oldest.
    pub fn get(&self, i: usize) -> (r: &'a TimeSegment)
        requires
            i < self@.len(),
        ensures
            r@ == self@[i as int],
    {
        &self.segments[i]
    }

    /// The segments, oldest first.
    pub fn iter(&self) -> (r: Vec<&'a TimeSegment>)
        ensures
            r@.len() == self@.len(),
            forall|i: int| 0 <= i < r@.len() ==> (#[trigger] r@[i])@ == self@[i],
    {
        let mut r: Vec<&'a TimeSegment> = Vec::new();
        let mut i: usize = 0;
        while i < self.segments.len()
            invariant
                i <= self@.len(),
                self@.len() == self.segments@.len(),
                r@.len() == i,
                forall|j: int| 0 <= j < i ==> (#[trigger] r@[j])@ == self@[j],
            decreases self@.len() - i,
        {
            r.push(&self.segments[i]);
            i = i + 1;
        }
        r
    }

    /// The oldest segment.
    pub fn first(&self) -> (r: Option<&'a TimeSegment>)
        ensures
            self@.len() == 0 ==> r.is_none(),
            self@.len() > 0 ==> r.is_some() && r.unwrap()@ == self@[0],
    {
        if self.segments.len() == 0 {
            None
        } else {
            Some(&self.segments[0])
        }
    }

    /// The newest segment.
    pub fn last(&self) -> (r: Option<&'a TimeSegment>)
        ensures
            self@.len() == 0 ==> r.is_none(),
            self@.len() > 0 ==> r.is_some() && r.unwrap()@ == self@.last(),
    {
        let n = self.segments.len();
        if n == 0 {
            None
        } else {
            Some(&self.segments[n - 1])
        }
    }
}

} // verus!
