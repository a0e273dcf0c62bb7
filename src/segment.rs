use vstd::prelude::*;

use dashmap::DashMap;
use fxhash::{FxBuildHasher, FxHasher};

use crate::interest::{local_key, IndexKey, Interest, Socket};
use crate::stat::{Metrics, Stat};
use crate::types::{Channel, SockMsgEvent};

verus! {

#[verifier::external_type_specification]
#[verifier::external_body]
#[verifier::reject_recursive_types(K)]
#[verifier::reject_recursive_types(V)]
#[verifier::reject_recursive_types(S)]
pub struct ExDashMap<K, V, S>(DashMap<K, V, S>);

#[verifier::external_type_specification]
#[verifier::external_body]
pub struct ExFxHasher(FxHasher);

#[verifier::external_type_specification]
#[verifier::external_body]
#[verifier::reject_recursive_types(H)]
pub struct ExBuildHasherDefault<H>(std::hash::BuildHasherDefault<H>);

/// What a segment's counter map holds.
pub uninterp spec fn index_contents(m: DashMap<IndexKey, Metrics, FxBuildHasher>) -> Map<
    IndexKey,
    Metrics,
>;

/// What a segment's socket map holds.
pub uninterp spec fn socks_contents(m: DashMap<IndexKey, Socket, FxBuildHasher>) -> Map<
    IndexKey,
    Socket,
>;

/// Relies on `DashMap::with_hasher`: a new map holds nothing.
#[verifier::external_body]
fn index_new() -> (r: DashMap<IndexKey, Metrics, FxBuildHasher>)
    ensures
        index_contents(r) == SegmentModel::empty().index,
{
    DashMap::with_hasher(FxBuildHasher::default())
}

/// Relies on `DashMap::get`: the value stored under the key, if there is one.
#[verifier::external_body]
fn index_get(m: &DashMap<IndexKey, Metrics, FxBuildHasher>, k: &IndexKey) -> (r: Option<Metrics>)
    ensures
        r == (if index_contents(*m).contains_key(*k) {
            Some(index_contents(*m)[*k])
        } else {
            None
        }),
{
    m.get(k).map(|v| *v)
}

/// Relies on `DashMap::insert`: the key maps to the value afterwards, and
/// nothing else changes.
#[verifier::external_body]
fn index_insert(m: &mut DashMap<IndexKey, Metrics, FxBuildHasher>, k: IndexKey, v: Metrics)
    ensures
        index_contents(*final(m)) == index_contents(*old(m)).insert(k, v),
{
    m.insert(k, v);
}

/// Relies on `DashMap::with_hasher`: a new map holds nothing.
#[verifier::external_body]
fn socks_new() -> (r: DashMap<IndexKey, Socket, FxBuildHasher>)
    ensures
        socks_contents(r) == SegmentModel::empty().socks,
{
    DashMap::with_hasher(FxBuildHasher::default())
}

/// Relies on `DashMap::insert`: the key maps to the value afterwards, and
/// nothing else changes.
#[verifier::external_body]
fn socks_insert(m: &mut DashMap<IndexKey, Socket, FxBuildHasher>, k: IndexKey, v: Socket)
    ensures
        socks_contents(*final(m)) == socks_contents(*old(m)).insert(k, v),
{
    m.insert(k, v);
}

/// Relies on `DashMap::iter`: every entry once, in some order.
#[verifier::external_body]
fn socks_entries(m: &DashMap<IndexKey, Socket, FxBuildHasher>) -> (r: Vec<(IndexKey, Socket)>)
    ensures
        r@.len() == socks_contents(*m).len(),
        forall|i: int|
            0 <= i < r@.len() ==> #[trigger] socks_contents(*m).contains_key(r@[i].0)
                && socks_contents(*m)[r@[i].0] == r@[i].1,
        forall|i: int, j: int| 0 <= i < j < r@.len() ==> r@[i].0 != r@[j].0,
        forall|k: IndexKey|
            #[trigger] socks_contents(*m).contains_key(k) ==> exists|i: int|
                0 <= i < r@.len() && r@[i].0 == k,
{
    m.iter().map(|e| (*e.key(), *e.value())).collect()
}

/// What a segment holds: the total, the counters by interest key, and the
/// sockets by local endpoint key.
pub struct SegmentModel {
    pub total: Metrics,
    pub index: Map<IndexKey, Metrics>,
    pub socks: Map<IndexKey, Socket>,
}

impl SegmentModel {
    pub open spec fn empty() -> SegmentModel {
        SegmentModel { total: Metrics::zero(), index: Map::empty(), socks: Map::empty() }
    }

    /// Each socket is kept under the key of its local endpoint.
    pub open spec fn wf(self) -> bool {
        forall|k: IndexKey| #[trigger]
            self.socks.contains_key(k) ==> local_key(self.socks[k].local) == k
    }

    /// The counters of one key, zero where the key was never counted.
    pub open spec fn metrics_of(self, k: IndexKey) -> Metrics {
        if self.index.contains_key(k) {
            self.index[k]
        } else {
            Metrics::zero()
        }
    }

    /// The snapshot that a lookup of the interest gives.
    pub open spec fn stat_of(self, interest: Interest) -> Option<Stat> {
        if interest == Interest::All {
            Some(self.total.spec_stat())
        } else if self.index.contains_key(interest.spec_key()) {
            Some(self.index[interest.spec_key()].spec_stat())
        } else {
            None
        }
    }
}

/// Counts `len` bytes in one message on `channel` under the key.
pub open spec fn bump(
    index: Map<IndexKey, Metrics>,
    k: IndexKey,
    channel: Channel,
    len: u64,
) -> Map<IndexKey, Metrics> {
    let old_m = if index.contains_key(k) {
        index[k]
    } else {
        Metrics::zero()
    };
    index.insert(k, old_m.spec_increment(channel, len, 1))
}

/// The segment after one event: a failed call leaves it as it is; a
/// successful one registers the socket and counts its length under the
/// event's four interests and in the total.
pub open spec fn apply_event(s: SegmentModel, e: SockMsgEvent) -> SegmentModel {
    match e.spec_packet_size() {
        None => s,
        Some(len) => {
            let ks = Interest::spec_from_msg(e);
            SegmentModel {
                total: s.total.spec_increment(e.channel, len as u64, 1),
                index: bump(
                    bump(
                        bump(bump(s.index, ks[0].spec_key(), e.channel, len as u64), ks[1].spec_key(), e.channel, len as u64),
                        ks[2].spec_key(),
                        e.channel,
                        len as u64,
                    ),
                    ks[3].spec_key(),
                    e.channel,
                    len as u64,
                ),
                socks: s.socks.insert(local_key(e.spec_local()), Socket::spec_from_msg(e)),
            }
        },
    }
}

/// The segment after the events, in order.
pub open spec fn apply_events(s: SegmentModel, events: Seq<SockMsgEvent>) -> SegmentModel
    decreases events.len(),
{
    if events.len() == 0 {
        s
    } else {
        apply_event(apply_events(s, events.drop_last()), events.last())
    }
}

/// An event that succeeded counts under exactly its four interests, each
/// once more on its channel, and in the total; every other key keeps its
/// counters. A failed event changes nothing.
pub proof fn lemma_event_touches_four_keys(s: SegmentModel, e: SockMsgEvent, k: IndexKey)
    ensures
        ({
            let ks = Interest::spec_from_msg(e);
            let t = apply_event(s, e);
            match e.spec_packet_size() {
                None => t == s,
                Some(len) => {
                    &&& t.total == s.total.spec_increment(e.channel, len as u64, 1)
                    &&& (exists|i: int| 0 <= i < 4 && ks[i].spec_key() == k) ==> t.index.contains_key(
                        k,
                    ) && t.index[k] == s.metrics_of(k).spec_increment(e.channel, len as u64, 1)
                    &&& (forall|i: int| 0 <= i < 4 ==> ks[i].spec_key() != k) ==> t.metrics_of(k)
                        == s.metrics_of(k) && (t.index.contains_key(k) == s.index.contains_key(k))
                }
            }
        }),
{
    let ks = Interest::spec_from_msg(e);
    assert(ks[0].spec_key() != ks[1].spec_key());
    assert(ks[0].spec_key() != ks[2].spec_key());
    assert(ks[0].spec_key() != ks[3].spec_key());
    assert(ks[1].spec_key() != ks[2].spec_key());
    assert(ks[1].spec_key() != ks[3].spec_key());
    assert(ks[2].spec_key() != ks[3].spec_key());
}

/// Aggregates one time window of events.
pub struct Segment {
    total: Metrics,
    index: DashMap<IndexKey, Metrics, FxBuildHasher>,
    socks: DashMap<IndexKey, Socket, FxBuildHasher>,
}

impl View for Segment {
    type V = SegmentModel;

    closed spec fn view(&self) -> SegmentModel {
        SegmentModel {
            total: self.total,
            index: index_contents(self.index),
            socks: socks_contents(self.socks),
        }
    }
}

impl Segment {
    pub fn new() -> (r: Segment)
        ensures
            r@ == SegmentModel::empty(),
            r@.wf(),
    {
        Segment { total: Metrics::new(), index: index_new(), socks: socks_new() }
    }

    fn count(&mut self, k: IndexKey, channel: Channel, len: u64)
        ensures
            final(self)@ == (SegmentModel { index: bump(old(self)@.index, k, channel, len), ..old(self)@ }),
    {
        let mut m = match index_get(&self.index, &k) {
            Some(m) => m,
            None => Metrics::new(),
        };
        m.increment(channel, len, 1);
        index_insert(&mut self.index, k, m);
    }

    fn update(&mut self, msg: &SockMsgEvent)
        requires
            old(self)@.wf(),
        ensures
            final(self)@.wf(),
            final(self)@ == apply_event(old(self)@, *msg),
    {
        if let Some(len) = msg.packet_size() {
            let len = len as u64;
            let sock = Socket::from_msg(msg);
            socks_insert(&mut self.socks, Interest::LocalSocket(sock.local).key(), sock);
            let interests = Interest::interests_from_msg(msg);
            self.count(interests[0].key(), msg.channel, len);
            self.count(interests[1].key(), msg.channel, len);
            self.count(interests[2].key(), msg.channel, len);
            self.count(interests[3].key(), msg.channel, len);
            self.total.increment(msg.channel, len, 1);
        }
    }

    /// Counts each successful event under its four interests and in the
    /// total, and registers its socket; failed calls (`ret < 0`) are skipped.
    pub fn batch_update(&mut self, messages: &[SockMsgEvent])
        requires
            old(self)@.wf(),
        ensures
            final(self)@.wf(),
            final(self)@ == apply_events(old(self)@, messages@),
    {
        let mut i: usize = 0;
        while i < messages.len()
            invariant
                0 <= i <= messages@.len(),
                self@ == apply_events(old(self)@, messages@.subrange(0, i as int)),
                self@.wf(),
            decreases messages@.len() - i,
        {
            assert(messages@.subrange(0, i as int + 1).drop_last() =~= messages@.subrange(0, i as int));
            self.update(&messages[i]);
            i = i + 1;
        }
        assert(messages@.subrange(0, messages@.len() as int) =~= messages@);
    }

    /// Bytes on one channel, or on both when none is given.
    #[inline]
    pub fn total(&self, channel: Option<Channel>) -> (r: u64)
        ensures
            r == self@.total.spec_get(channel),
    {
        self.total.get(channel)
    }

    /// Messages in both directions.
    #[inline]
    pub fn total_packet_count(&self) -> (r: u64)
        ensures
            r == self@.total.spec_packet_count(),
    {
        self.total.packet_count()
    }

    /// The snapshot of the interest's counters; [Interest::All] gives the total.
    pub fn stat_by_interest(&self, interest: &Interest) -> (r: Option<Stat>)
        ensures
            r == self@.stat_of(*interest),
    {
        if let Interest::All = interest {
            Some(self.total.stat())
        } else {
            match index_get(&self.index, &interest.key()) {
                Some(m) => Some(m.stat()),
                None => None,
            }
        }
    }

    /// The distinct sockets of the segment, each once, in no set order.
    pub fn socket_iter(&self) -> (r: Vec<Socket>)
        requires
            self@.wf(),
        ensures
            r@.len() == self@.socks.len(),
            forall|i: int|
                0 <= i < r@.len() ==> #[trigger] self@.socks.contains_key(local_key(r@[i].local))
                    && self@.socks[local_key(r@[i].local)] == r@[i],
            forall|i: int, j: int| 0 <= i < j < r@.len() ==> r@[i].local != r@[j].local,
            forall|k: IndexKey|
                #[trigger] self@.socks.contains_key(k) ==> exists|i: int|
                    0 <= i < r@.len() && local_key(r@[i].local) == k,
    {
        let entries = socks_entries(&self.socks);
        let mut r: Vec<Socket> = Vec::new();
        let mut i: usize = 0;
        while i < entries.len()
            invariant
                0 <= i <= entries@.len(),
                r@.len() == i,
                entries@.len() == self@.socks.len(),
                self@.wf(),
                forall|j: int| 0 <= j < i ==> #[trigger] r@[j] == entries@[j].1,
                forall|j: int|
                    0 <= j < entries@.len() ==> #[trigger] self@.socks.contains_key(entries@[j].0)
                        && self@.socks[entries@[j].0] == entries@[j].1,
                forall|j: int, k: int| 0 <= j < k < entries@.len() ==> entries@[j].0 != entries@[k].0,
                forall|k: IndexKey|
                    #[trigger] self@.socks.contains_key(k) ==> exists|j: int|
                        0 <= j < entries@.len() && entries@[j].0 == k,
            decreases entries@.len() - i,
        {
            r.push(entries[i].1);
            i = i + 1;
        }
        assert forall|j: int| 0 <= j < r@.len() implies #[trigger] self@.socks.contains_key(local_key(r@[j].local))
            && self@.socks[local_key(r@[j].local)] == r@[j] by {
            assert(self@.socks.contains_key(entries@[j].0));
        }
        assert forall|j: int, k: int| 0 <= j < k < r@.len() implies r@[j].local != r@[k].local by {
            assert(self@.socks.contains_key(entries@[j].0));
            assert(self@.socks.contains_key(entries@[k].0));
        }
        assert forall|k: IndexKey| #[trigger] self@.socks.contains_key(k) implies exists|j: int|
            0 <= j < r@.len() && local_key(r@[j].local) == k by {
            let j = choose|j: int| 0 <= j < entries@.len() && entries@[j].0 == k;
            assert(local_key(r@[j].local) == k);
        }
        r
    }
}

} // verus!
