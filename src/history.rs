use vstd::prelude::*;

use crate::clock::Timestamp;
use crate::segment::{apply_event, apply_events, SegmentModel};
use crate::stat::COUNTER_MAX;
use crate::store::{fill, ingest, lemma_fill, lemma_push_evict_wf, push_evict, segments_wf};
use crate::types::SockMsgEvent;

verus! {

/// The segments after ingesting the batches in order, each at its timestamp.
pub open spec fn ingest_all(
    segs: Seq<(u64, SegmentModel)>,
    batches: Seq<(Timestamp, Seq<SockMsgEvent>)>,
    w: u64,
    cap: nat,
) -> Seq<(u64, SegmentModel)>
    decreases batches.len(),
{
    if batches.len() == 0 {
        segs
    } else {
        ingest(
            ingest_all(segs, batches.drop_last(), w, cap),
            batches.last().0.spec_trunc(w).0,
            w,
            cap,
            batches.last().1,
        )
    }
}

/// The payload bytes of an event: its length when it succeeded, else none.
pub open spec fn event_len(e: SockMsgEvent) -> nat {
    if e.ret >= 0 {
        e.ret as nat
    } else {
        0
    }
}

pub open spec fn batch_len(events: Seq<SockMsgEvent>) -> nat
    decreases events.len(),
{
    if events.len() == 0 {
        0
    } else {
        batch_len(events.drop_last()) + event_len(events.last())
    }
}

pub open spec fn batches_len(batches: Seq<(Timestamp, Seq<SockMsgEvent>)>) -> nat
    decreases batches.len(),
{
    if batches.len() == 0 {
        0
    } else {
        batches_len(batches.drop_last()) + batch_len(batches.last().1)
    }
}

/// The bytes of a segment in both directions, unclamped.
pub open spec fn seg_bytes(m: SegmentModel) -> nat {
    (m.total.tx.size + m.total.rx.size) as nat
}

pub open spec fn segs_bytes(segs: Seq<(u64, SegmentModel)>) -> nat
    decreases segs.len(),
{
    if segs.len() == 0 {
        0
    } else {
        segs_bytes(segs.drop_last()) + seg_bytes(segs.last().1)
    }
}

/// The sum of what `Segment::total(None)` gives over the segments.
pub open spec fn segs_total(segs: Seq<(u64, SegmentModel)>) -> nat
    decreases segs.len(),
{
    if segs.len() == 0 {
        0
    } else {
        (segs_total(segs.drop_last()) + segs.last().1.total.spec_get(None)) as nat
    }
}

proof fn lemma_apply_events_bytes(s: SegmentModel, events: Seq<SockMsgEvent>)
    requires
        seg_bytes(s) + batch_len(events) <= COUNTER_MAX,
    ensures
        seg_bytes(apply_events(s, events)) == seg_bytes(s) + batch_len(events),
    decreases events.len(),
{
    if events.len() > 0 {
        lemma_apply_events_bytes(s, events.drop_last());
        let prev = apply_events(s, events.drop_last());
        let e = events.last();
        assert(apply_events(s, events) == apply_event(prev, e));
    }
}

proof fn lemma_seg_bytes_bounded(segs: Seq<(u64, SegmentModel)>, k: int)
    requires
        0 <= k < segs.len(),
    ensures
        seg_bytes(segs[k].1) <= segs_bytes(segs),
    decreases segs.len(),
{
    if k < segs.len() - 1 {
        lemma_seg_bytes_bounded(segs.drop_last(), k);
        assert(segs.drop_last()[k] == segs[k]);
    }
}

proof fn lemma_segs_total(segs: Seq<(u64, SegmentModel)>)
    requires
        segs_bytes(segs) <= COUNTER_MAX,
    ensures
        segs_total(segs) == segs_bytes(segs),
    decreases segs.len(),
{
    if segs.len() > 0 {
        lemma_segs_total(segs.drop_last());
    }
}

proof fn lemma_batches_len_prefix(batches: Seq<(Timestamp, Seq<SockMsgEvent>)>, n: int)
    requires
        0 <= n <= batches.len(),
    ensures
        batches_len(batches.take(n)) <= batches_len(batches),
    decreases batches.len(),
{
    if n < batches.len() {
        assert(batches.drop_last().take(n) =~= batches.take(n));
        lemma_batches_len_prefix(batches.drop_last(), n);
    } else {
        assert(batches.take(n) =~= batches);
    }
}

/// Segment keys `w * (q0 + k)`, one window apart from `w * q0`.
pub open spec fn keys_from(segs: Seq<(u64, SegmentModel)>, w: u64, q0: int) -> bool {
    forall|k: int| 0 <= k < segs.len() ==> #[trigger] segs[k].0 == w * (q0 + k)
}

proof fn lemma_fill_grows(segs: Seq<(u64, SegmentModel)>, key: u64, w: u64, cap: nat, q0: int, qk: int)
    requires
        segs.len() >= 1,
        segments_wf(segs, w, cap),
        keys_from(segs, w, q0),
        key == w * qk,
        qk >= q0 + segs.len() - 1,
        qk - q0 + 1 <= cap,
    ensures
        fill(segs, key, w, cap).len() == qk - q0 + 1,
        keys_from(fill(segs, key, w, cap), w, q0),
        segs_bytes(fill(segs, key, w, cap)) == segs_bytes(segs),
        fill(segs, key, w, cap).subrange(0, segs.len() as int) == segs,
    decreases qk - (q0 + segs.len() - 1),
{
    let len = segs.len() as int;
    let last = segs.last().0;
    assert(last == w * (q0 + len - 1));
    if qk == q0 + len - 1 {
        assert(fill(segs, key, w, cap) == segs);
        assert(segs.subrange(0, len) =~= segs);
    } else {
        assert(w * (q0 + len - 1) + w == w * (q0 + len)) by (nonlinear_arith);
        assert(w * (q0 + len) <= w * qk) by (nonlinear_arith)
            requires
                q0 + len <= qk,
                w > 0,
        ;
        assert(last < key);
        assert(last + w <= key);
        let x = ((last + w) as u64, SegmentModel::empty());
        let next = push_evict(segs, x, cap);
        assert(next == segs.push(x));
        assert(fill(segs, key, w, cap) == fill(next, key, w, cap));
        vstd::arithmetic::div_mod::lemma_mod_multiples_basic(qk, w as int);
        vstd::arithmetic::mul::lemma_mul_is_commutative(qk, w as int);
        lemma_push_evict_wf(segs, key, w, cap);
        assert(keys_from(next, w, q0)) by {
            assert forall|k: int| 0 <= k < next.len() implies #[trigger] next[k].0 == w * (q0 + k) by {
                if k < len {
                    assert(next[k] == segs[k]);
                }
            }
        }
        assert(next.drop_last() =~= segs);
        assert(segs_bytes(next) == segs_bytes(segs));
        lemma_fill_grows(next, key, w, cap, q0, qk);
        assert(fill(next, key, w, cap).subrange(0, len) =~= next.subrange(0, len as int));
        assert(next.subrange(0, len) =~= segs);
    }
}

proof fn lemma_apply_events_wf(s: SegmentModel, events: Seq<SockMsgEvent>)
    requires
        s.wf(),
    ensures
        apply_events(s, events).wf(),
    decreases events.len(),
{
    if events.len() > 0 {
        lemma_apply_events_wf(s, events.drop_last());
    }
}

/// A timestamp truncated to the window is the window times its quotient.
proof fn lemma_trunc_quotient(t: u64, w: u64)
    requires
        w > 0,
    ensures
        Timestamp(t).spec_trunc(w).0 == w * (t as int / w as int),
        Timestamp(t).spec_trunc(w).0 % w == 0,
        t as int / w as int >= 0,
{
    vstd::arithmetic::div_mod::lemma_fundamental_div_mod(t as int, w as int);
    vstd::arithmetic::div_mod::lemma_div_pos_is_pos(t as int, w as int);
    crate::clock::lemma_trunc_multiple(t, w);
}

/// The batches' timestamps never go back.
pub open spec fn nondecreasing(batches: Seq<(Timestamp, Seq<SockMsgEvent>)>) -> bool {
    forall|i: int, j: int| 0 <= i <= j < batches.len() ==> batches[i].0.0 <= batches[j].0.0
}

proof fn lemma_history_prefix(batches: Seq<(Timestamp, Seq<SockMsgEvent>)>, w: u64, cap: nat, n: int)
    requires
        w > 0,
        cap >= 1,
        batches.len() >= 1,
        nondecreasing(batches),
        batches.last().0.0 as int / w as int - batches[0].0.0 as int / w as int + 1 <= cap,
        batches_len(batches) <= COUNTER_MAX,
        1 <= n <= batches.len(),
    ensures
        ({
            let r = ingest_all(seq![], batches.take(n), w, cap);
            let q0 = batches[0].0.0 as int / w as int;
            &&& r.len() == batches[n - 1].0.0 as int / w as int - q0 + 1
            &&& keys_from(r, w, q0)
            &&& segs_bytes(r) == batches_len(batches.take(n))
            &&& segments_wf(r, w, cap)
        }),
    decreases n,
{
    let q0 = batches[0].0.0 as int / w as int;
    let t = batches[n - 1].0.0;
    let qn = t as int / w as int;
    let pre = batches.take(n);
    lemma_trunc_quotient(t, w);
    lemma_batches_len_prefix(batches, n);
    assert(pre.last() == batches[n - 1]);
    assert(pre.drop_last() =~= batches.take(n - 1));
    let ev = batches[n - 1].1;
    let key = Timestamp(t).spec_trunc(w).0;
    vstd::arithmetic::div_mod::lemma_div_is_ordered(t as int, batches.last().0.0 as int, w as int);
    vstd::arithmetic::div_mod::lemma_div_is_ordered(batches[0].0.0 as int, t as int, w as int);
    if n == 1 {
        assert(batches.take(0) =~= Seq::<(Timestamp, Seq<SockMsgEvent>)>::empty());
        let empty = Seq::<(u64, SegmentModel)>::empty();
        assert(ingest_all(empty, batches.take(0), w, cap) == empty);
        assert(segments_wf(empty, w, cap));
        let f = fill(empty, key, w, cap);
        assert(f == seq![(key, SegmentModel::empty())]);
        lemma_apply_events_bytes(SegmentModel::empty(), ev);
        lemma_apply_events_wf(SegmentModel::empty(), ev);
        let r = ingest_all(empty, pre, w, cap);
        assert(r == f.update(0, (key, apply_events(SegmentModel::empty(), ev))));
        assert(r.drop_last() =~= empty);
        assert(batches_len(pre) == batch_len(ev));
        vstd::arithmetic::div_mod::lemma_fundamental_div_mod(t as int, w as int);
        assert(keys_from(r, w, q0));
        lemma_fill(empty, key, w, cap);
        assert(r.len() == qn - q0 + 1);
        assert(seg_bytes(SegmentModel::empty()) == 0);
        assert(r.last() == (key, apply_events(SegmentModel::empty(), ev)));
        assert(segs_bytes(r.drop_last()) == 0);
        assert(segs_bytes(r) == batches_len(pre));
        assert(segments_wf(r, w, cap));
    } else {
        lemma_history_prefix(batches, w, cap, n - 1);
        let r0 = ingest_all(seq![], batches.take(n - 1), w, cap);
        let tp = batches[n - 2].0.0;
        assert(batches[0].0.0 <= tp && tp <= t);
        vstd::arithmetic::div_mod::lemma_div_is_ordered(tp as int, t as int, w as int);
        vstd::arithmetic::div_mod::lemma_div_is_ordered(batches[0].0.0 as int, tp as int, w as int);
        lemma_fill_grows(r0, key, w, cap, q0, qn);
        lemma_fill(r0, key, w, cap);
        let f = fill(r0, key, w, cap);
        let last = f.last();
        lemma_seg_bytes_bounded(f, f.len() - 1);
        lemma_apply_events_bytes(last.1, ev);
        lemma_apply_events_wf(last.1, ev);
        let r = ingest_all(seq![], pre, w, cap);
        let newlast = (last.0, apply_events(last.1, ev));
        assert(r == f.update(f.len() - 1, newlast));
        assert(r.drop_last() =~= f.drop_last());
        assert(segs_bytes(r) == segs_bytes(f.drop_last()) + seg_bytes(newlast.1));
        assert(segs_bytes(f) == segs_bytes(f.drop_last()) + seg_bytes(last.1));
        assert(batches_len(pre) == batches_len(batches.take(n - 1)) + batch_len(ev));
        assert(segs_bytes(r) == batches_len(pre));
        assert(r.len() == qn - q0 + 1);
        assert(keys_from(r, w, q0)) by {
            assert forall|k: int| 0 <= k < r.len() implies #[trigger] r[k].0 == w * (q0 + k) by {
                assert(r[k].0 == f[k].0);
            }
        }
        assert(segments_wf(r, w, cap)) by {
            assert forall|i: int| 0 <= i < r.len() implies (#[trigger] r[i]).0 % w == 0
                && r[i].1.wf() by {
                assert(f[i].0 % w == 0 && f[i].1.wf());
            }
            assert forall|i: int| 0 <= i < r.len() - 1 implies #[trigger] r[i + 1].0 == r[i].0 + w by {
                assert(f[i + 1].0 == f[i].0 + w);
            }
        }
    }
}

/// Ingesting into an empty store, in order, batches whose timestamps never
/// go back, the first at `t0` and the last at `t1`, with room for
/// `(T1 - T0) / w + 1` segments, where `T0` and `T1` are `t0` and `t1`
/// truncated to the window, leaves exactly that many segments, keyed
/// `T0 + k * w`, the newest at `T1`; and their totals add up to the lengths
/// of the successful events, provided that sum fits a counter.
pub proof fn lemma_ingest_history(batches: Seq<(Timestamp, Seq<SockMsgEvent>)>, w: u64, cap: nat)
    requires
        w > 0,
        batches.len() >= 1,
        nondecreasing(batches),
        cap >= (batches.last().0.spec_trunc(w).0 - batches[0].0.spec_trunc(w).0) / (w as int) + 1,
        batches_len(batches) <= COUNTER_MAX,
    ensures
        ({
            let r = ingest_all(seq![], batches, w, cap);
            let t0 = batches[0].0.spec_trunc(w).0;
            let t1 = batches.last().0.spec_trunc(w).0;
            &&& r.len() == (t1 - t0) / (w as int) + 1
            &&& forall|k: int| 0 <= k < r.len() ==> #[trigger] r[k].0 == t0 + k * w
            &&& r.last().0 == t1
            &&& segs_total(r) == batches_len(batches)
        }),
{
    let t0 = batches[0].0.spec_trunc(w).0;
    let t1 = batches.last().0.spec_trunc(w).0;
    let q0 = batches[0].0.0 as int / w as int;
    let q1 = batches.last().0.0 as int / w as int;
    lemma_trunc_quotient(batches[0].0.0, w);
    lemma_trunc_quotient(batches.last().0.0, w);
    assert(t1 - t0 == (q1 - q0) * w + 0) by (nonlinear_arith)
        requires
            t0 == w * q0,
            t1 == w * q1,
    ;
    vstd::arithmetic::div_mod::lemma_fundamental_div_mod_converse(t1 - t0, w as int, q1 - q0, 0);
    assert(batches[0].0.0 <= batches.last().0.0);
    vstd::arithmetic::div_mod::lemma_div_is_ordered(
        batches[0].0.0 as int,
        batches.last().0.0 as int,
        w as int,
    );
    assert(batches.take(batches.len() as int) =~= batches);
    lemma_history_prefix(batches, w, cap, batches.len() as int);
    let r = ingest_all(seq![], batches, w, cap);
    assert forall|k: int| 0 <= k < r.len() implies #[trigger] r[k].0 == t0 + k * w by {
        assert(r[k].0 == w * (q0 + k));
        assert(w * (q0 + k) == w * q0 + k * w) by (nonlinear_arith);
    }
    assert(r.len() == q1 - q0 + 1);
    assert(r[r.len() - 1].0 == t0 + (q1 - q0) * w);
    lemma_segs_total(r);
}

} // verus!
