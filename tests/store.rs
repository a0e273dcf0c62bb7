use ptraf::clock::{ClockNano, Timestamp};
use ptraf::interest::{Interest, Socket};
use ptraf::stat::Stat;
use ptraf::store::{Store, TimeSegment};
use ptraf::types::{decode_event, Channel, IpAddr, SockMsgEvent, SockType, SocketAddr, RECORD_LEN};

fn event(pid: u32, channel: Channel, local_port: u16, remote: u32, remote_port: u16, ret: i32) -> SockMsgEvent {
    SockMsgEvent {
        pid,
        channel,
        sock_type: SockType::Stream,
        local_addr: IpAddr::v4(33),
        local_port,
        remote_addr: IpAddr::v4(remote),
        remote_port,
        ret,
    }
}

fn sample() -> Vec<SockMsgEvent> {
    vec![
        event(1, Channel::Tx, 31, 32, 80, 10),
        event(1, Channel::Rx, 31, 32, 80, 11),
        event(2, Channel::Tx, 32, 35, 443, 12),
        event(3, Channel::Tx, 33, 32, 443, 13),
    ]
}

#[test]
fn store_batch_update_simple() {
    let window = Timestamp::from_millis(100).as_nanos();
    let mut store = Store::new(window, 16);
    let clock = ClockNano::new(0);
    let ts = clock.now();

    let messages = sample();

    store.batch_update(ts, &messages);
    store.batch_update(ts, &messages);
    store.batch_update(ts, &messages);
    store.batch_update(ts, &messages);

    let view = store.segments_view();
    assert_eq!(1, view.len());

    let time_segment = view.first().expect("first segment when not empty");
    assert_eq!(time_segment.ts, ts.trunc(window));

    let rx = time_segment.segment.total(Some(Channel::Rx));
    let tx = time_segment.segment.total(Some(Channel::Tx));

    assert_eq!(4 * (10 + 12 + 13), tx);
    assert_eq!(4 * 11, rx);

    assert_eq!(
        4 * (10 + 11 + 13),
        time_segment
            .segment
            .stat_by_interest(&Interest::RemoteIp(IpAddr::v4(32)))
            .map(|stat| stat.total())
            .unwrap_or(0)
    );

    assert_eq!(
        4 * (10 + 11),
        time_segment
            .segment
            .stat_by_interest(&Interest::RemoteSocket(SocketAddr { ip: IpAddr::v4(32), port: 80 }))
            .map(|stat| stat.total())
            .unwrap_or(0)
    );
}

#[test]
fn store_create_segments() {
    let messages = vec![event(1, Channel::Tx, 31, 32, 80, 10)];

    let window = Timestamp::from_millis(100).as_nanos();
    let mut store = Store::new(window, 16);

    store.batch_update(Timestamp::from_millis(10), &messages);
    store.batch_update(Timestamp::from_millis(20), &messages);
    store.batch_update(Timestamp::from_millis(100), &messages);
    store.batch_update(Timestamp::from_millis(101), &messages);
    store.batch_update(Timestamp::from_millis(401), &messages);

    let view = store.segments_view();

    let times: Vec<_> = view
        .iter()
        .into_iter()
        .map(|TimeSegment { ts, segment }| (*ts, segment.total_packet_count()))
        .collect();

    assert_eq!(
        times,
        vec![
            (Timestamp::from_millis(0), 2),
            (Timestamp::from_millis(100), 2),
            (Timestamp::from_millis(200), 0),
            (Timestamp::from_millis(300), 0),
            (Timestamp::from_millis(400), 1),
        ]
    );
}

#[test]
fn basic_totals_single_batch() {
    let window = Timestamp::from_millis(100).as_nanos();
    let mut store = Store::new(window, 16);
    store.batch_update(Timestamp::from_millis(0), &sample());
    let view = store.segments_view();
    assert_eq!(view.len(), 1);
    let seg = view.first().unwrap();
    assert_eq!(seg.ts, Timestamp::from_millis(0));
    assert_eq!(seg.segment.total(Some(Channel::Tx)), 35);
    assert_eq!(seg.segment.total(Some(Channel::Rx)), 11);
    assert_eq!(seg.segment.total(None), 46);
    assert_eq!(seg.segment.total_packet_count(), 4);
    let all = seg.segment.stat_by_interest(&Interest::All).unwrap();
    assert_eq!(all, Stat { rx: 11, rx_packet_count: 1, tx: 35, tx_packet_count: 3 });
    let pid1 = seg.segment.stat_by_interest(&Interest::Pid(1)).unwrap();
    assert_eq!(pid1, Stat { rx: 11, rx_packet_count: 1, tx: 10, tx_packet_count: 1 });
    assert_eq!(seg.segment.stat_by_interest(&Interest::Pid(4)), None);
    assert_eq!(seg.segment.socket_iter().len(), 3);
}

#[test]
fn failed_calls_are_skipped() {
    let window = Timestamp::from_millis(100).as_nanos();
    let mut store = Store::new(window, 16);
    store.batch_update(Timestamp::from_millis(5), &[event(9, Channel::Rx, 40, 50, 60, -104)]);
    let view = store.segments_view();
    assert_eq!(view.len(), 1);
    let seg = view.last().unwrap();
    assert_eq!(seg.segment.total_packet_count(), 0);
    assert_eq!(seg.segment.stat_by_interest(&Interest::Pid(9)), None);
    assert!(seg.segment.socket_iter().is_empty());
}

#[test]
fn eviction_keeps_capacity() {
    let window = Timestamp::from_millis(10).as_nanos();
    let mut store = Store::new(window, 3);
    let messages = vec![event(1, Channel::Tx, 31, 32, 80, 1)];
    for ms in [0, 10, 20, 30] {
        store.batch_update(Timestamp::from_millis(ms), &messages);
    }
    let view = store.segments_view();
    let keys: Vec<_> = (0..view.len()).map(|i| view.get(i).ts).collect();
    assert_eq!(
        keys,
        vec![Timestamp::from_millis(10), Timestamp::from_millis(20), Timestamp::from_millis(30)]
    );
    assert_eq!(store.max_capacity(), 3);
    assert_eq!(store.window(), window);
}

#[test]
fn late_events_go_to_newest_segment() {
    let window = Timestamp::from_millis(100).as_nanos();
    let mut store = Store::new(window, 16);
    let messages = vec![event(1, Channel::Tx, 31, 32, 80, 7)];
    store.batch_update(Timestamp::from_millis(250), &messages);
    store.batch_update(Timestamp::from_millis(120), &messages);
    let view = store.segments_view();
    assert_eq!(view.len(), 1);
    assert_eq!(view.last().unwrap().ts, Timestamp::from_millis(200));
    assert_eq!(view.last().unwrap().segment.total(None), 14);
}

#[test]
fn totals_sum_to_ingested_lengths() {
    let window = Timestamp::from_millis(100).as_nanos();
    let mut store = Store::new(window, 8);
    let rets = [5, -1, 7, 0, 9, -3, 11];
    for (i, ret) in rets.iter().enumerate() {
        let e = event(1, Channel::Rx, 31, 32, 80, *ret);
        store.batch_update(Timestamp::from_millis(200 + 60 * i as u64), &[e]);
    }
    let view = store.segments_view();
    assert_eq!(view.len(), (560 - 200) / 100 + 1);
    let sum: u64 = (0..view.len()).map(|i| view.get(i).segment.total(None)).sum();
    assert_eq!(sum, 5 + 7 + 9 + 11);
    for i in 0..view.len() {
        assert_eq!(view.get(i).ts, Timestamp::from_millis(200 + 100 * i as u64));
    }
}

#[test]
fn oldest_timestamp_on_empty_store_creates_one_segment() {
    let window = Timestamp::from_millis(100).as_nanos();
    let mut store = Store::new(window, 4);
    let now = Timestamp::from_millis(1234);
    let ts = store.oldest_timestamp(now);
    store.batch_update(ts, &[]);
    let view = store.segments_view();
    assert_eq!(view.len(), 1);
    assert_eq!(view.last().unwrap().ts, Timestamp::from_millis(1200));
    assert_eq!(view.last().unwrap().segment.total_packet_count(), 0);
}

#[test]
fn interests_from_msg_are_the_four_keys() {
    let e = event(7, Channel::Tx, 31, 32, 80, 1);
    let keys = Interest::interests_from_msg(&e);
    assert_eq!(
        keys,
        [
            Interest::Pid(7),
            Interest::LocalSocket(SocketAddr { ip: IpAddr::v4(33), port: 31 }),
            Interest::RemoteSocket(SocketAddr { ip: IpAddr::v4(32), port: 80 }),
            Interest::RemoteIp(IpAddr::v4(32)),
        ]
    );
    let s = Socket::from_msg(&e);
    let mut other = s;
    other.remote.port = 9;
    other.pid = 8;
    assert!(s == other);
}

#[test]
fn stat_merge_laws() {
    let a = Stat { rx: 1, rx_packet_count: 2, tx: 3, tx_packet_count: 4 };
    let b = Stat { rx: 10, rx_packet_count: 20, tx: 30, tx_packet_count: 40 };
    let c = Stat { rx: u64::MAX, rx_packet_count: 0, tx: 5, tx_packet_count: 6 };
    let mut ab = a;
    ab.merge(&b);
    let mut ba = b;
    ba.merge(&a);
    assert_eq!(ab, ba);
    assert_eq!(ab, Stat { rx: 11, rx_packet_count: 22, tx: 33, tx_packet_count: 44 });
    let mut ab_c = ab;
    ab_c.merge(&c);
    let mut bc = b;
    bc.merge(&c);
    let mut a_bc = a;
    a_bc.merge(&bc);
    assert_eq!(ab_c, a_bc);
    assert_eq!(ab_c.rx, u64::MAX);
    let mut ad = a;
    ad.merge(&Stat::default());
    assert_eq!(ad, a);
    assert_eq!(a.total(), 4);
}

fn record(version: u8, channel: u8, ret: i32) -> Vec<u8> {
    let mut b = Vec::new();
    b.extend_from_slice(&1u32.to_le_bytes());
    b.push(version);
    let mut local = [0u8; 16];
    local[12..].copy_from_slice(&[127, 0, 0, 1]);
    if version == 1 {
        local = 0xfe80_0000_0000_0000_0000_0000_0000_0001u128.to_be_bytes();
    }
    b.extend_from_slice(&local);
    b.push(0);
    let mut remote = [0u8; 16];
    remote[12..].copy_from_slice(&[1, 1, 1, 1]);
    b.extend_from_slice(&remote);
    b.extend_from_slice(&31000u16.to_be_bytes());
    b.extend_from_slice(&443u16.to_be_bytes());
    b.extend_from_slice(&ret.to_le_bytes());
    b.extend_from_slice(&4242u32.to_le_bytes());
    b.push(channel);
    b
}

#[test]
fn decode_event_reads_the_record_layout() {
    let b = record(0, 1, 1500);
    assert_eq!(b.len(), RECORD_LEN);
    let e = decode_event(&b).unwrap();
    assert_eq!(e.sock_type, SockType::Stream);
    assert_eq!(e.local_addr, IpAddr::v4(0x7f00_0001));
    assert_eq!(e.remote_addr, IpAddr::v4(0x0101_0101));
    assert_eq!((e.local_port, e.remote_port), (31000, 443));
    assert_eq!(e.ret, 1500);
    assert_eq!(e.pid, 4242);
    assert_eq!(e.channel, Channel::Rx);

    let e = decode_event(&record(1, 0, -32)).unwrap();
    assert_eq!(e.local_addr, IpAddr::v6(0xfe80_0000_0000_0000_0000_0000_0000_0001));
    assert_eq!(e.ret, -32);
    assert_eq!(e.channel, Channel::Tx);

    assert_eq!(decode_event(&record(2, 0, 1)), None);
    assert_eq!(decode_event(&record(0, 7, 1)), None);
    assert_eq!(decode_event(&b[..RECORD_LEN - 1]), None);
}
