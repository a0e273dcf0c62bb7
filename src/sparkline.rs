use vstd::prelude::*;

use std::collections::VecDeque;

use crate::clock::Timestamp;
use crate::interest::{Filter, Interest};
use crate::segment::SegmentModel;
use crate::store::Store;

verus! {

/// Traffic of one segment.
#[derive(Clone, Copy, Debug, PartialEq, Eq, Structural)]
pub struct DataPoint {
    pub ts: Timestamp,
    pub rx: u64,
    pub tx: u64,
}

/// The data point of a segment under an interest; a key never counted in
/// the segment reads as zero.
pub open spec fn point_of(seg: (u64, SegmentModel), interest: Interest) -> DataPoint {
    match seg.1.stat_of(interest) {
        Some(st) => DataPoint { ts: Timestamp(seg.0), rx: st.rx, tx: st.tx },
        None => DataPoint { ts: Timestamp(seg.0), rx: 0, tx: 0 },
    }
}

/// The data points without those at the front older than `oldest`.
pub open spec fn trim(ds: Seq<DataPoint>, oldest: u64) -> Seq<DataPoint>
    decreases ds.len(),
{
    if ds.len() > 0 && ds[0].ts.0 < oldest {
        trim(ds.drop_first(), oldest)
    } else {
        ds
    }
}

/// Index of the first of the trailing segments that start after `start`.
pub open spec fn first_fresh(segs: Seq<(u64, SegmentModel)>, start: u64) -> int
    decreases segs.len(),
{
    if segs.len() == 0 {
        0
    } else if segs.last().0 > start {
        first_fresh(segs.drop_last(), start)
    } else {
        segs.len() as int
    }
}

/// The data points that a refresh appends: one per segment newer than the
/// newest data point, oldest first, but for the newest segment, which may
/// still be receiving updates.
pub open spec fn fresh_points(segs: Seq<(u64, SegmentModel)>, start: u64, interest: Interest) -> Seq<
    DataPoint,
> {
    let m = first_fresh(segs, start);
    if m < segs.len() {
        segs.subrange(m, segs.len() - 1).map_values(|s: (u64, SegmentModel)| point_of(s, interest))
    } else {
        seq![]
    }
}

proof fn lemma_first_fresh(segs: Seq<(u64, SegmentModel)>, start: u64)
    ensures
        0 <= first_fresh(segs, start) <= segs.len(),
        forall|i: int| first_fresh(segs, start) <= i < segs.len() ==> #[trigger] segs[i].0 > start,
        first_fresh(segs, start) > 0 ==> segs[first_fresh(segs, start) - 1].0 <= start,
    decreases segs.len(),
{
    if segs.len() > 0 && segs.last().0 > start {
        lemma_first_fresh(segs.drop_last(), start);
        assert forall|i: int| first_fresh(segs, start) <= i < segs.len() implies #[trigger] segs[i].0
            > start by {
            if i < segs.len() - 1 {
                assert(segs[i] == segs.drop_last()[i]);
            }
        }
    }
}

/// `after` is the series `before` refreshed from the segments `segs`:
/// data points older than the oldest segment dropped, those of the segments
/// newer than the newest data point appended, but for the newest segment.
pub open spec fn refreshed(
    before: Seq<DataPoint>,
    after: Seq<DataPoint>,
    filter: Filter,
    segs: Seq<(u64, SegmentModel)>,
) -> bool {
    let start = if before.len() > 0 {
        before.last().ts.0
    } else {
        0
    };
    let kept = if segs.len() > 0 {
        trim(before, segs[0].0)
    } else {
        before
    };
    after == kept + fresh_points(segs, start, filter.spec_interest())
}

/// A time series of per-segment traffic, optionally under one interest.
pub struct TrafficSparkline {
    filter: Filter,
    dataset: VecDeque<DataPoint>,
}

impl TrafficSparkline {
    pub closed spec fn spec_filter(&self) -> Filter {
        self.filter
    }

    pub closed spec fn spec_dataset(&self) -> Seq<DataPoint> {
        self.dataset@
    }

    pub fn with_filter(filter: Filter) -> (r: Self)
        ensures
            r.spec_filter() == filter,
            r.spec_dataset().len() == 0,
    {
        TrafficSparkline { filter, dataset: VecDeque::new() }
    }

    /// The data points, oldest first.
    pub fn dataset(&self) -> (r: Vec<DataPoint>)
        ensures
            r@ == self.spec_dataset(),
    {
        let mut r: Vec<DataPoint> = Vec::new();
        let mut i: usize = 0;
        while i < self.dataset.len()
            invariant
                i <= self.dataset@.len(),
                r@ == self.dataset@.subrange(0, i as int),
            decreases self.dataset@.len() - i,
        {
            r.push(self.dataset[i]);
            i = i + 1;
            assert(r@ =~= self.dataset@.subrange(0, i as int));
        }
        assert(self.dataset@.subrange(0, i as int) =~= self.dataset@);
        r
    }

    /// Drops the data points older than the store's oldest segment, then
    /// appends those of the segments newer than the newest data point, but
    /// for the newest segment.
    pub fn collect(&mut self, store: &Store)
        ensures
            final(self).spec_filter() == old(self).spec_filter(),
            refreshed(old(self).spec_dataset(), final(self).spec_dataset(), old(self).spec_filter(), store.segs()),
    {
        let n0 = self.dataset.len();
        let start: u64 = if n0 > 0 {
            self.dataset[n0 - 1].ts.0
        } else {
            0
        };
        let view = store.segments_view();
        let ghost segs = store.segs();
        let ghost old_ds = self.dataset@;
        let n = view.len();
        if n > 0 {
            let oldest = view.get(0).ts.0;
            while self.dataset.len() > 0 && self.dataset[0].ts.0 < oldest
                invariant
                    trim(self.dataset@, oldest) == trim(old_ds, oldest),
                    self.filter == old(self).filter,
                decreases self.dataset@.len(),
            {
                let ghost before = self.dataset@;
                self.dataset.pop_front();
                assert(self.dataset@ =~= before.drop_first());
            }
        }
        let ghost kept = self.dataset@;
        let interest = self.filter.interest();
        let mut m = n;
        assert(segs.subrange(0, n as int) =~= segs);
        while m > 0 && view.get(m - 1).ts.0 > start
            invariant
                m <= n,
                n == segs.len(),
                view@ == segs,
                first_fresh(segs, start) == first_fresh(segs.subrange(0, m as int), start),
            decreases m,
        {
            assert(segs.subrange(0, m as int).drop_last() =~= segs.subrange(0, m - 1));
            m = m - 1;
        }
        proof {
            assert(segs.subrange(0, n as int) =~= segs);
            if m > 0 {
                assert(segs.subrange(0, m as int).last() == segs[m - 1]);
            }
        }
        assert(first_fresh(segs, start) == m);
        let ghost pts = fresh_points(segs, start, interest);
        let mut i = m;
        let end: usize = if n > 0 {
            n - 1
        } else {
            0
        };
        while i < end
            invariant
                m <= i,
                i <= n,
                end == (if n > 0 {
                    n - 1
                } else {
                    0
                }),
                m < n ==> i <= end,
                n == segs.len(),
                view@ == segs,
                m == first_fresh(segs, start),
                interest == self.filter.spec_interest(),
                self.filter == old(self).filter,
                m < n ==> self.dataset@ == kept + segs.subrange(m as int, i as int).map_values(
                    |s: (u64, SegmentModel)| point_of(s, interest),
                ),
                m >= n ==> self.dataset@ == kept,
            decreases n - i,
        {
            let seg = view.get(i);
            let st = seg.segment.stat_by_interest(&interest);
            let dp = match st {
                Some(s) => DataPoint { ts: seg.ts, rx: s.rx, tx: s.tx },
                None => DataPoint { ts: seg.ts, rx: 0, tx: 0 },
            };
            self.dataset.push_back(dp);
            assert(segs.subrange(m as int, i + 1).map_values(
                |s: (u64, SegmentModel)| point_of(s, interest),
            ) =~= segs.subrange(m as int, i as int).map_values(
                |s: (u64, SegmentModel)| point_of(s, interest),
            ).push(dp));
            i = i + 1;
        }
        proof {
            if m < n {
                assert(i == end);
                assert(self.dataset@ =~= kept + pts);
            } else {
                assert(self.dataset@ =~= kept + pts);
            }
            if n > 0 {
                assert(kept == trim(old_ds, segs[0].0));
            }
        }
    }
}

} // verus!
