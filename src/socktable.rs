use vstd::prelude::*;

use dashmap::DashMap;
use fxhash::FxBuildHasher;

use crate::clock::{ClockNano, Timestamp, NANOS_PER_SEC};
use crate::filter::{eval, Expr, Interpretor};
use crate::interest::{local_key, Filter, IndexKey, Interest, Socket};
use crate::segment::SegmentModel;
use crate::stat::Stat;
use crate::store::{Store, TimeSegment};

verus! {

/// One row of the socket table.
#[derive(Clone, Copy, Debug)]
pub struct Entry {
    pub socket: Socket,
    pub stat: Stat,
    /// Wall-clock instant of the newest segment the socket was seen in, in
    /// nanoseconds since the Unix epoch.
    pub last_activity: u128,
    pub rate_stat: Stat,
    pub pid: u32,
}

/// What a collection reads besides the segments.
pub struct RowContext {
    pub rate_until: u64,
    pub interest: Interest,
    pub expr: Option<Expr>,
    pub wall_origin: u128,
}

/// The wall-clock instant of a timestamp, as [ClockNano::wall_time] gives it.
pub open spec fn wall_of(origin: u128, ts: u64) -> u128 {
    if origin + ts > u128::MAX {
        u128::MAX
    } else {
        (origin + ts) as u128
    }
}

/// Whether a socket passes the pre-filter interest and the expression.
pub open spec fn admits(sock: Socket, interest: Interest, expr: Option<Expr>) -> bool {
    sock.spec_match_interest(interest) && match expr {
        None => true,
        Some(e) => eval(e, sock.spec_attributes()),
    }
}

/// The row of the local endpoint key `k` after one more, older, segment.
pub open spec fn row_step(
    acc: Option<Entry>,
    seg: (u64, SegmentModel),
    k: IndexKey,
    ctx: RowContext,
) -> Option<Entry> {
    if seg.1.socks.contains_key(k) && admits(seg.1.socks[k], ctx.interest, ctx.expr) {
        let sock = seg.1.socks[k];
        let stat = seg.1.metrics_of(k).spec_stat();
        let eligible = ctx.rate_until <= seg.0;
        match acc {
            Some(e) => Some(
                Entry {
                    stat: e.stat.spec_merge(stat),
                    rate_stat: if eligible {
                        e.rate_stat.spec_merge(stat)
                    } else {
                        e.rate_stat
                    },
                    ..e
                },
            ),
            None => Some(
                Entry {
                    socket: sock,
                    stat: stat,
                    last_activity: wall_of(ctx.wall_origin, seg.0),
                    rate_stat: if eligible {
                        stat
                    } else {
                        Stat::zero()
                    },
                    pid: sock.pid,
                },
            ),
        }
    } else {
        acc
    }
}

/// The row of `k` over the visited segments, newest first.
pub open spec fn row_for(visited: Seq<(u64, SegmentModel)>, k: IndexKey, ctx: RowContext) -> Option<
    Entry,
>
    decreases visited.len(),
{
    if visited.len() == 0 {
        None
    } else {
        row_step(row_for(visited.drop_last(), k, ctx), visited.last(), k, ctx)
    }
}

/// The segments, newest first, whose start is at most `cw` before `now`.
pub open spec fn recent(segs: Seq<(u64, SegmentModel)>, now: u64, cw: u64) -> Seq<
    (u64, SegmentModel),
>
    decreases segs.len(),
{
    if segs.len() == 0 {
        seq![]
    } else if (if now >= segs.last().0 {
        now - segs.last().0
    } else {
        0
    }) > cw {
        seq![]
    } else {
        seq![segs.last()] + recent(segs.drop_last(), now, cw)
    }
}

/// The start of the oldest visited segment that counts towards the rate.
pub open spec fn oldest_rate(visited: Seq<(u64, SegmentModel)>, rate_until: u64) -> Option<u64>
    decreases visited.len(),
{
    if visited.len() == 0 {
        None
    } else if rate_until <= visited.last().0 {
        Some(visited.last().0)
    } else {
        oldest_rate(visited.drop_last(), rate_until)
    }
}

pub open spec fn entry_key(e: Entry) -> IndexKey {
    local_key(e.socket.local)
}

/// The rows hold exactly the keys that `f` gives a row for, once each, with
/// that row.
pub open spec fn rows_are(rows: Seq<Entry>, f: spec_fn(IndexKey) -> Option<Entry>) -> bool {
    &&& forall|i: int| 0 <= i < rows.len() ==> f(#[trigger] entry_key(rows[i])) == Some(rows[i])
    &&& forall|i: int, j: int|
        0 <= i < j < rows.len() ==> entry_key(rows[i]) != entry_key(rows[j])
    &&& forall|k: IndexKey| #[trigger] f(k).is_some() ==> exists|i: int|
        0 <= i < rows.len() && entry_key(rows[i]) == k
}

/// Every segment is well formed.
pub open spec fn all_wf(segs: Seq<(u64, SegmentModel)>) -> bool {
    forall|i: int| 0 <= i < segs.len() ==> #[trigger] segs[i].1.wf()
}

/// The map holds a row for exactly the keys that `f` gives one for, that
/// row.
pub open spec fn rows_hold(m: Map<IndexKey, Entry>, f: spec_fn(IndexKey) -> Option<Entry>) -> bool {
    forall|k: IndexKey|
        #[trigger] f(k) == (if m.contains_key(k) {
            Some(m[k])
        } else {
            None
        })
}

pub open spec fn no_rows() -> Map<IndexKey, Entry> {
    Map::empty()
}

/// What a row map holds.
pub uninterp spec fn rows_contents(m: DashMap<IndexKey, Entry, FxBuildHasher>) -> Map<IndexKey, Entry>;

/// Relies on `DashMap::with_hasher`: a new map holds nothing.
#[verifier::external_body]
fn rows_new() -> (r: DashMap<IndexKey, Entry, FxBuildHasher>)
    ensures
        rows_contents(r) == no_rows(),
{
    DashMap::with_hasher(FxBuildHasher::default())
}

/// Relies on `DashMap::get`: the value stored under the key, if there is one.
#[verifier::external_body]
fn rows_get(m: &DashMap<IndexKey, Entry, FxBuildHasher>, k: &IndexKey) -> (r: Option<Entry>)
    ensures
        r == (if rows_contents(*m).contains_key(*k) {
            Some(rows_contents(*m)[*k])
        } else {
            None
        }),
{
    m.get(k).map(|v| *v)
}

/// Relies on `DashMap::insert`: the key maps to the value afterwards, and
/// nothing else changes.
#[verifier::external_body]
fn rows_insert(m: &mut DashMap<IndexKey, Entry, FxBuildHasher>, k: IndexKey, v: Entry)
    ensures
        rows_contents(*final(m)) == rows_contents(*old(m)).insert(k, v),
{
    m.insert(k, v);
}

/// Relies on `DashMap::iter`: every entry once, in some order.
#[verifier::external_body]
fn rows_entries(m: &DashMap<IndexKey, Entry, FxBuildHasher>) -> (r: Vec<(IndexKey, Entry)>)
    ensures
        forall|i: int|
            0 <= i < r@.len() ==> #[trigger] rows_contents(*m).contains_key(r@[i].0)
                && rows_contents(*m)[r@[i].0] == r@[i].1,
        forall|i: int, j: int| 0 <= i < j < r@.len() ==> r@[i].0 != r@[j].0,
        forall|k: IndexKey|
            #[trigger] rows_contents(*m).contains_key(k) ==> exists|i: int|
                0 <= i < r@.len() && r@[i].0 == k,
{
    m.iter().map(|e| (*e.key(), *e.value())).collect()
}

/// The rows of a map, once each, when every row sits under its own key.
fn rows_of(m: &DashMap<IndexKey, Entry, FxBuildHasher>, f: Ghost<spec_fn(IndexKey) -> Option<Entry>>) -> (r: Vec<Entry>)
    requires
        rows_hold(rows_contents(*m), f@),
        forall|k: IndexKey| #[trigger] f@(k) is Some ==> entry_key(f@(k)->0) == k,
    ensures
        rows_are(r@, f@),
{
    let entries = rows_entries(m);
    let ghost c = rows_contents(*m);
    let mut r: Vec<Entry> = Vec::new();
    let mut i: usize = 0;
    while i < entries.len()
        invariant
            i <= entries@.len(),
            r@.len() == i,
            forall|j: int| 0 <= j < i ==> #[trigger] r@[j] == entries@[j].1,
        decreases entries@.len() - i,
    {
        r.push(entries[i].1);
        i = i + 1;
    }
    assert forall|j: int| 0 <= j < r@.len() implies f@(#[trigger] entry_key(r@[j])) == Some(r@[j]) by {
        let k = entries@[j].0;
        assert(c.contains_key(k));
        assert(f@(k) == Some(c[k]));
        assert(entry_key(r@[j]) == k);
    }
    assert forall|a: int, b: int| 0 <= a < b < r@.len() implies entry_key(r@[a]) != entry_key(r@[b]) by {
        let ka = entries@[a].0;
        let kb = entries@[b].0;
        assert(c.contains_key(ka) && c.contains_key(kb));
        assert(f@(ka) == Some(c[ka]) && f@(kb) == Some(c[kb]));
    }
    assert forall|k: IndexKey| #[trigger] f@(k).is_some() implies exists|j: int|
        0 <= j < r@.len() && entry_key(r@[j]) == k by {
        assert(c.contains_key(k));
        let j = choose|j: int| 0 <= j < entries@.len() && entries@[j].0 == k;
        assert(f@(k) == Some(c[k]));
        assert(entry_key(r@[j]) == k);
    }
    r
}

proof fn lemma_row_key(visited: Seq<(u64, SegmentModel)>, k: IndexKey, ctx: RowContext)
    requires
        all_wf(visited),
    ensures
        row_for(visited, k, ctx) is Some ==> entry_key(row_for(visited, k, ctx)->0) == k,
    decreases visited.len(),
{
    if visited.len() > 0 {
        assert(visited.last().1.wf());
        lemma_row_key(visited.drop_last(), k, ctx);
    }
}

/// Bytes per second of `bytes` over `nanos` nanoseconds, rounded down and
/// clamped at the largest counter; none over an empty duration, where the
/// rate is undefined.
pub fn bytes_per_second(bytes: u64, nanos: u64) -> (r: Option<u64>)
    ensures
        nanos == 0 ==> r is None,
        nanos > 0 ==> r == Some(
            (if (bytes * NANOS_PER_SEC) as int / nanos as int > u64::MAX {
                u64::MAX as int
            } else {
                (bytes * NANOS_PER_SEC) as int / nanos as int
            }) as u64,
        ),
{
    if nanos == 0 {
        return None;
    }
    assert(bytes * NANOS_PER_SEC <= u64::MAX * NANOS_PER_SEC) by (nonlinear_arith)
        requires
            bytes <= u64::MAX,
    ;
    let scaled: u128 = bytes as u128 * NANOS_PER_SEC as u128;
    let rate: u128 = scaled / nanos as u128;
    if rate > u64::MAX as u128 {
        Some(u64::MAX)
    } else {
        Some(rate as u64)
    }
}

/// Settings of a socket table.
#[derive(Clone, Copy, Debug)]
pub struct SocketTableConfig {
    pub filter: Filter,
    /// Trailing nanoseconds scanned.
    pub collection_window: u64,
    /// Trailing nanoseconds over which rates are computed.
    pub rate_window: u64,
}

impl Default for SocketTableConfig {
    /// All traffic, five minutes of history, rates over one second.
    fn default() -> (r: Self)
        ensures
            r.filter == Filter::All,
            r.collection_window == 300 * NANOS_PER_SEC,
            r.rate_window == NANOS_PER_SEC,
    {
        SocketTableConfig {
            filter: Filter::All,
            collection_window: 300 * NANOS_PER_SEC,
            rate_window: NANOS_PER_SEC,
        }
    }
}

impl SocketTableConfig {
    pub fn build(self) -> (r: SocketTable)
        ensures
            r.spec_config() == self,
            r.spec_expr() == None::<Expr>,
            r.spec_dataset().len() == 0,
            r.spec_rate_collection_range() == None::<(Timestamp, Timestamp)>,
    {
        SocketTable::new(self)
    }

    pub fn filter(self, filter: Filter) -> (r: Self)
        ensures
            r == (SocketTableConfig { filter, ..self }),
    {
        SocketTableConfig { filter, ..self }
    }

    pub fn rate_window(self, window: u64) -> (r: Self)
        ensures
            r == (SocketTableConfig { rate_window: window, ..self }),
    {
        SocketTableConfig { rate_window: window, ..self }
    }

    pub fn collection_window(self, window: u64) -> (r: Self)
        ensures
            r == (SocketTableConfig { collection_window: window, ..self }),
    {
        SocketTableConfig { collection_window: window, ..self }
    }
}

/// The first segment start that counts towards rates: `rate_window`
/// before `now`, but not before the first window, truncated to the window.
pub open spec fn rate_cutoff(now: u64, rate_window: u64, window: u64) -> u64 {
    let back = if now >= rate_window {
        (now - rate_window) as u64
    } else {
        0
    };
    let start = if back >= window {
        back
    } else {
        window
    };
    Timestamp(start).spec_trunc(window).0
}

/// `after` is `before` with its rows and rate range rebuilt from the
/// segments `segs` of a store of window `w`, at `ts`.
pub open spec fn collected(
    before: SocketTable,
    after: SocketTable,
    ts: Timestamp,
    wall_origin: u128,
    segs: Seq<(u64, SegmentModel)>,
    w: u64,
) -> bool {
    let now = ts.spec_trunc(w).0;
    let ctx = RowContext {
        rate_until: rate_cutoff(now, before.spec_config().rate_window, w),
        interest: before.spec_config().filter.spec_interest(),
        expr: before.spec_expr(),
        wall_origin: wall_origin,
    };
    let visited = recent(segs, now, before.spec_config().collection_window);
    &&& after.spec_config() == before.spec_config()
    &&& after.spec_expr() == before.spec_expr()
    &&& rows_are(after.spec_dataset(), |k: IndexKey| row_for(visited, k, ctx))
    &&& after.spec_rate_collection_range() == Some(
        (
            Timestamp(
                match oldest_rate(visited, ctx.rate_until) {
                    Some(t) => t,
                    None => now,
                },
            ),
            Timestamp(now),
        ),
    )
}

/// Per-socket rows folded over the recent segments of a store.
pub struct SocketTable {
    config: SocketTableConfig,
    expr: Option<Interpretor>,
    dataset: Vec<Entry>,
    rate_collection_range: Option<(Timestamp, Timestamp)>,
}

impl View for SocketTable {
    type V = (SocketTableConfig, Option<Expr>, Seq<Entry>, Option<(Timestamp, Timestamp)>);

    open spec fn view(&self) -> Self::V {
        (self.spec_config(), self.spec_expr(), self.spec_dataset(), self.spec_rate_collection_range())
    }
}

impl SocketTable {
    pub closed spec fn spec_config(&self) -> SocketTableConfig {
        self.config
    }

    pub closed spec fn spec_expr(&self) -> Option<Expr> {
        match self.expr {
            Some(i) => Some(i.spec_ast()),
            None => None,
        }
    }

    pub closed spec fn spec_dataset(&self) -> Seq<Entry> {
        self.dataset@
    }

    pub closed spec fn spec_rate_collection_range(&self) -> Option<(Timestamp, Timestamp)> {
        self.rate_collection_range
    }

    pub fn new(config: SocketTableConfig) -> (r: Self)
        ensures
            r.spec_config() == config,
            r.spec_expr() == None::<Expr>,
            r.spec_dataset().len() == 0,
            r.spec_rate_collection_range() == None::<(Timestamp, Timestamp)>,
    {
        SocketTable { config, expr: None, dataset: Vec::new(), rate_collection_range: None }
    }

    /// A table whose rows also pass the expression of `interpretor`.
    pub fn with_expr(config: SocketTableConfig, interpretor: Option<Interpretor>) -> (r: Self)
        ensures
            r.spec_config() == config,
            r.spec_expr() == (match interpretor {
                Some(i) => Some(i.spec_ast()),
                None => None::<Expr>,
            }),
            r.spec_dataset().len() == 0,
            r.spec_rate_collection_range() == None::<(Timestamp, Timestamp)>,
    {
        SocketTable { config, expr: interpretor, dataset: Vec::new(), rate_collection_range: None }
    }

    /// Replaces the expression that rows must also pass.
    pub fn set_expr(&mut self, interpretor: Option<Interpretor>)
        ensures
            final(self).spec_config() == old(self).spec_config(),
            final(self).spec_dataset() == old(self).spec_dataset(),
            final(self).spec_rate_collection_range() == old(self).spec_rate_collection_range(),
            final(self).spec_expr() == (match interpretor {
                Some(i) => Some(i.spec_ast()),
                None => None::<Expr>,
            }),
    {
        self.expr = interpretor;
    }

    #[inline]
    pub fn len(&self) -> (r: usize)
        ensures
            r == self.spec_dataset().len(),
    {
        self.dataset.len()
    }

    pub fn config(&self) -> (r: &SocketTableConfig)
        ensures
            *r == self.spec_config(),
    {
        &self.config
    }

    pub fn dataset(&self) -> (r: &[Entry])
        ensures
            r@ == self.spec_dataset(),
    {
        self.dataset.as_slice()
    }

    /// The range of segment starts that the rates were computed over.
    pub fn rate_collection_range(&self) -> (r: Option<(Timestamp, Timestamp)>)
        ensures
            r == self.spec_rate_collection_range(),
    {
        self.rate_collection_range
    }

    /// Rebuilds the rows from the segments of `store` that start at most the
    /// collection window before `ts`'s window, newest first.
    pub fn collect(&mut self, ts: Timestamp, clock: &ClockNano, store: &Store)
        requires
            store.wf(),
        ensures
            final(self).spec_config() == old(self).spec_config(),
            final(self).spec_expr() == old(self).spec_expr(),
            collected(*old(self), *final(self), ts, clock.wall_origin(), store.segs(), store.spec_window()),
    {
        let window = store.window();
        let now = ts.trunc(window);
        let back = now.0.saturating_sub(self.config.rate_window);
        let start = if back >= window {
            back
        } else {
            window
        };
        let rate_until = Timestamp(start).trunc(window);
        let cw = self.config.collection_window;
        let ghost ctx = RowContext {
            rate_until: rate_until.0,
            interest: self.config.filter.spec_interest(),
            expr: self.spec_expr(),
            wall_origin: clock.wall_origin(),
        };
        let ghost segs = store.segs();
        let view = store.segments_view();
        let mut collector = SocketTableCollector {
            interest: self.config.filter.interest(),
            rows: rows_new(),
            oldest_rate_segment_ts: None,
            rate_until,
        };
        let ghost mut visited: Seq<(u64, SegmentModel)> = Seq::empty();
        assert(segs.subrange(0, segs.len() as int) =~= segs);
        assert(rows_hold(rows_contents(collector.rows), |k: IndexKey| row_for(visited, k, ctx)));
        let mut i = view.len();
        assert forall|j: int| 0 <= j < segs.len() implies #[trigger] segs[j].1.wf() by {
            assert(segs[j].0 % window == 0);
        }
        while i > 0
            invariant
                i <= segs.len(),
                view@ == segs,
                all_wf(segs),
                all_wf(visited),
                collector.interest == ctx.interest,
                collector.rate_until.0 == ctx.rate_until,
                ctx.expr == self.spec_expr(),
                ctx.wall_origin == clock.wall_origin(),
                recent(segs, now.0, cw) == visited + recent(segs.subrange(0, i as int), now.0, cw),
                rows_hold(rows_contents(collector.rows), |k: IndexKey| row_for(visited, k, ctx)),
                collector.oldest_rate_segment_ts == match oldest_rate(visited, ctx.rate_until) {
                    Some(t) => Some(Timestamp(t)),
                    None => None::<Timestamp>,
                },
            ensures
                recent(segs, now.0, cw) =~= visited,
                rows_hold(rows_contents(collector.rows), |k: IndexKey| row_for(visited, k, ctx)),
                collector.oldest_rate_segment_ts == match oldest_rate(visited, ctx.rate_until) {
                    Some(t) => Some(Timestamp(t)),
                    None => None::<Timestamp>,
                },
            decreases i,
        {
            let seg = view.get(i - 1);
            let ghost pre = segs.subrange(0, i as int);
            assert(pre.last() == segs[i - 1]);
            assert(pre.drop_last() =~= segs.subrange(0, i - 1));
            if seg.ts.saturating_elapsed_since(&now) > cw {
                assert(recent(pre, now.0, cw) =~= seq![]);
                assert(visited + recent(pre, now.0, cw) =~= visited);
                break ;
            }
            assert(segs[i - 1].1.wf());
            collector.collect(seg, clock, &self.expr, Ghost(visited), Ghost(ctx));
            proof {
                assert(visited.push(seg@).drop_last() =~= visited);
                assert(visited + recent(pre, now.0, cw) =~= visited.push(seg@) + recent(
                    segs.subrange(0, i - 1),
                    now.0,
                    cw,
                ));
                visited = visited.push(seg@);
            }
            i = i - 1;
        }
        self.rate_collection_range = Some(
            (
                match collector.oldest_rate_segment_ts {
                    Some(t) => t,
                    None => now,
                },
                now,
            ),
        );
        proof {
            assert forall|k: IndexKey| #[trigger] row_for(visited, k, ctx) is Some implies entry_key(
                row_for(visited, k, ctx)->0,
            ) == k by {
                lemma_row_key(visited, k, ctx);
            }
        }
        self.dataset = rows_of(&collector.rows, Ghost(|k: IndexKey| row_for(visited, k, ctx)));
    }
}

fn admits_exec(sock: &Socket, interest: &Interest, expr: &Option<Interpretor>) -> (r: bool)
    ensures
        r == admits(
            *sock,
            *interest,
            match expr {
                Some(i) => Some(i.spec_ast()),
                None => None,
            },
        ),
{
    if !sock.match_interest(interest) {
        return false;
    }
    match expr {
        None => true,
        Some(i) => i.filter(&sock.attributes()),
    }
}

/// Folds the sockets of segments, visited newest first, into rows.
struct SocketTableCollector {
    interest: Interest,
    rows: DashMap<IndexKey, Entry, FxBuildHasher>,
    oldest_rate_segment_ts: Option<Timestamp>,
    rate_until: Timestamp,
}

impl SocketTableCollector {
    fn collect(
        &mut self,
        time_segment: &TimeSegment,
        clock: &ClockNano,
        expr: &Option<Interpretor>,
        visited: Ghost<Seq<(u64, SegmentModel)>>,
        ctx: Ghost<RowContext>,
    )
        requires
            time_segment.segment@.wf(),
            all_wf(visited@),
            old(self).interest == ctx@.interest,
            old(self).rate_until.0 == ctx@.rate_until,
            ctx@.wall_origin == clock.wall_origin(),
            ctx@.expr == match expr {
                Some(i) => Some(i.spec_ast()),
                None => None,
            },
            rows_hold(rows_contents(old(self).rows), |k: IndexKey| row_for(visited@, k, ctx@)),
            old(self).oldest_rate_segment_ts == match oldest_rate(visited@, ctx@.rate_until) {
                Some(t) => Some(Timestamp(t)),
                None => None::<Timestamp>,
            },
        ensures
            final(self).interest == old(self).interest,
            final(self).rate_until == old(self).rate_until,
            all_wf(visited@.push(time_segment@)),
            rows_hold(rows_contents(final(self).rows), |k: IndexKey| row_for(visited@.push(time_segment@), k, ctx@)),
            final(self).oldest_rate_segment_ts == match oldest_rate(
                visited@.push(time_segment@),
                ctx@.rate_until,
            ) {
                Some(t) => Some(Timestamp(t)),
                None => None::<Timestamp>,
            },
    {
        let ghost seg = time_segment@;
        let ghost vis = visited@;
        let ghost c = ctx@;
        let ghost f = |k: IndexKey| row_for(vis, k, c);
        let ghost g = |k: IndexKey| row_step(row_for(vis, k, c), seg, k, c);
        proof {
            assert(vis.push(seg).drop_last() =~= vis);
            assert forall|i: int| 0 <= i < vis.push(seg).len() implies #[trigger] vis.push(
                seg,
            )[i].1.wf() by {
                if i < vis.len() {
                    assert(vis.push(seg)[i] == vis[i]);
                }
            }
        }
        let is_rate_eligible = self.rate_until.0 <= time_segment.ts.0;
        if is_rate_eligible {
            self.oldest_rate_segment_ts = Some(time_segment.ts);
        }
        let ghost oldest = self.oldest_rate_segment_ts;
        let socks = time_segment.segment.socket_iter();
        let ghost mut done: Set<IndexKey> = Set::empty();
        let mut j: usize = 0;
        while j < socks.len()
            invariant
                j <= socks@.len(),
                seg == time_segment@,
                f == (|k: IndexKey| row_for(vis, k, c)),
                g == (|k: IndexKey| row_step(row_for(vis, k, c), seg, k, c)),
                self.oldest_rate_segment_ts == oldest,
                seg.1.wf(),
                all_wf(vis),
                self.interest == c.interest,
                self.rate_until.0 == c.rate_until,
                c.wall_origin == clock.wall_origin(),
                c.expr == match expr {
                    Some(i) => Some(i.spec_ast()),
                    None => None,
                },
                is_rate_eligible == (c.rate_until <= seg.0),
                socks@.len() == seg.1.socks.len(),
                forall|i: int|
                    0 <= i < socks@.len() ==> #[trigger] seg.1.socks.contains_key(
                        local_key(socks@[i].local),
                    ) && seg.1.socks[local_key(socks@[i].local)] == socks@[i],
                forall|a: int, b: int| 0 <= a < b < socks@.len() ==> socks@[a].local != socks@[b].local,
                forall|k: IndexKey|
                    #[trigger] seg.1.socks.contains_key(k) ==> exists|i: int|
                        0 <= i < socks@.len() && local_key(socks@[i].local) == k,
                forall|k: IndexKey|
                    #[trigger] done.contains(k) <==> exists|i: int|
                        0 <= i < j && local_key(socks@[i].local) == k,
                rows_hold(
                    rows_contents(self.rows),
                    |k: IndexKey|
                        if done.contains(k) {
                            g(k)
                        } else {
                            f(k)
                        },
                ),
            decreases socks@.len() - j,
        {
            let sock = socks[j];
            let local = Interest::LocalSocket(sock.local);
            let k = local.key();
            let ghost h = |x: IndexKey|
                if done.contains(x) {
                    g(x)
                } else {
                    f(x)
                };
            proof {
                assert(seg.1.socks.contains_key(local_key(socks@[j as int].local)));
                if done.contains(k) {
                    let i = choose|i: int| 0 <= i < j && local_key(socks@[i].local) == k;
                    lemma_local_key_injective(socks@[i].local, sock.local);
                    assert(false);
                }
                lemma_row_key(vis, k, c);
            }
            let admitted = admits_exec(&sock, &self.interest, expr);
            proof {
                assert(seg.1.socks[k] == sock);
            }
            if admitted {
                let stat = match time_segment.segment.stat_by_interest(&local) {
                    Some(s) => s,
                    None => Stat::default(),
                };
                assert(stat == seg.1.metrics_of(k).spec_stat());
                let e = match rows_get(&self.rows, &k) {
                    Some(row) => {
                        let mut e = row;
                        e.stat.merge(&stat);
                        if is_rate_eligible {
                            e.rate_stat.merge(&stat);
                        }
                        e
                    },
                    None => Entry {
                        socket: sock,
                        stat,
                        last_activity: clock.wall_time(time_segment.ts),
                        rate_stat: if is_rate_eligible {
                            stat
                        } else {
                            Stat::default()
                        },
                        pid: sock.pid,
                    },
                };
                proof {
                    assert(f(k) == h(k));
                    assert(g(k) == Some(e));
                }
                rows_insert(&mut self.rows, k, e);
                proof {
                    assert(rows_hold(
                        rows_contents(self.rows),
                        |x: IndexKey|
                            if x == k {
                                g(k)
                            } else {
                                h(x)
                            },
                    ));
                }
            }
            proof {
                let done2 = done.insert(k);
                let h2 = |x: IndexKey|
                    if done2.contains(x) {
                        g(x)
                    } else {
                        f(x)
                    };
                if !admitted {
                    assert(g(k) == f(k));
                    assert(h(k) == f(k));
                    assert(h =~= (|x: IndexKey|
                        if x == k {
                            g(k)
                        } else {
                            h(x)
                        }));
                }
                assert(rows_hold(
                    rows_contents(self.rows),
                    |x: IndexKey|
                        if x == k {
                            g(k)
                        } else {
                            h(x)
                        },
                ));
                assert(h2 =~= (|x: IndexKey|
                    if x == k {
                        g(k)
                    } else {
                        h(x)
                    }));
                assert forall|x: IndexKey| #[trigger] done2.contains(x) <==> exists|i: int|
                    0 <= i < j + 1 && local_key(socks@[i].local) == x by {
                    if x == k {
                        assert(local_key(socks@[j as int].local) == x);
                    }
                }
                done = done2;
            }
            j = j + 1;
        }
        proof {
            let h = |x: IndexKey|
                if done.contains(x) {
                    g(x)
                } else {
                    f(x)
                };
            assert forall|x: IndexKey| #[trigger] h(x) == g(x) by {
                if seg.1.socks.contains_key(x) {
                    let i = choose|i: int| 0 <= i < socks@.len() && local_key(socks@[i].local) == x;
                    assert(done.contains(x));
                }
            }
            assert(h =~= g);
            assert(g =~= (|k: IndexKey| row_for(vis.push(seg), k, c)));
            assert(oldest_rate(vis.push(seg), c.rate_until) == if c.rate_until <= seg.0 {
                Some(seg.0)
            } else {
                oldest_rate(vis, c.rate_until)
            });
        }
    }
}

proof fn lemma_local_key_injective(a: crate::types::SocketAddr, b: crate::types::SocketAddr)
    requires
        local_key(a) == local_key(b),
    ensures
        a == b,
{
    crate::interest::lemma_key_injective(Interest::LocalSocket(a), Interest::LocalSocket(b));
}

} // verus!
