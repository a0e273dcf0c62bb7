use ptraf::clock::{ClockNano, Timestamp};
use ptraf::interest::Filter;
use ptraf::socktable::{bytes_per_second, SocketTableConfig};
use ptraf::sparkline::{DataPoint, TrafficSparkline};
use ptraf::store::Store;
use ptraf::types::{Channel, IpAddr, SockMsgEvent, SockType};
use ptraf::view::{Key, Ui, UiEvent};

fn tx(pid: u32, local_port: u16, remote: u32, ret: i32) -> SockMsgEvent {
    SockMsgEvent {
        pid,
        channel: Channel::Tx,
        sock_type: SockType::Stream,
        local_addr: IpAddr::v4(0x7f00_0001),
        local_port,
        remote_addr: IpAddr::v4(remote),
        remote_port: 443,
        ret,
    }
}

#[test]
fn rate_window_scenario() {
    let window = Timestamp::from_millis(100).as_nanos();
    let mut store = Store::new(window, 20);
    for i in 0..20u64 {
        store.batch_update(Timestamp::from_millis(100 * i), &[tx(1, 5000, 9, 1000)]);
    }
    let clock = ClockNano::new(0);
    let mut table = SocketTableConfig::default()
        .rate_window(Timestamp::from_millis(300).as_nanos())
        .collection_window(Timestamp::from_secs(2).as_nanos())
        .build();
    table.collect(Timestamp::from_millis(2000), &clock, &store);
    assert_eq!(table.len(), 1);
    let row = table.dataset()[0];
    assert_eq!(row.rate_stat.tx, 3000);
    assert_eq!(row.stat.tx, 20_000);
    assert_eq!(row.pid, 1);
    assert_eq!(row.last_activity, Timestamp::from_millis(1900).as_nanos() as u128);
    let (start, end) = table.rate_collection_range().unwrap();
    assert_eq!(start, Timestamp::from_millis(1700));
    assert_eq!(end, Timestamp::from_millis(2000));
    let rate = bytes_per_second(row.rate_stat.tx, start.saturating_elapsed_since(&end));
    assert_eq!(rate, Some(10_000));
}

#[test]
fn rate_is_undefined_over_empty_duration() {
    assert_eq!(bytes_per_second(100, 0), None);
    assert_eq!(bytes_per_second(3, 2_000_000_000), Some(1));
    assert_eq!(bytes_per_second(u64::MAX, 1), Some(u64::MAX));
}

#[test]
fn socket_table_filters_and_merges() {
    let window = Timestamp::from_millis(100).as_nanos();
    let mut store = Store::new(window, 16);
    store.batch_update(Timestamp::from_millis(0), &[tx(1, 5000, 9, 10), tx(2, 5001, 8, 20)]);
    store.batch_update(Timestamp::from_millis(100), &[tx(1, 5000, 9, 5)]);
    let clock = ClockNano::new(1_000);

    let mut all = SocketTableConfig::default().build();
    all.collect(Timestamp::from_millis(150), &clock, &store);
    assert_eq!(all.len(), 2);
    let row = all.dataset().iter().find(|e| e.pid == 1).copied().unwrap();
    assert_eq!(row.stat.tx, 15);
    assert_eq!(row.stat.tx_packet_count, 2);
    assert_eq!(row.last_activity, 1_000 + Timestamp::from_millis(100).as_nanos() as u128);

    let mut one = SocketTableConfig::default().filter(Filter::Process(2)).build();
    one.collect(Timestamp::from_millis(150), &clock, &store);
    assert_eq!(one.len(), 1);
    assert_eq!(one.dataset()[0].stat.tx, 20);

    let mut none = SocketTableConfig::default().filter(Filter::RemoteIp(IpAddr::v4(1))).build();
    none.collect(Timestamp::from_millis(150), &clock, &store);
    assert_eq!(none.len(), 0);
}

#[test]
fn sparkline_skips_newest_segment() {
    let window = Timestamp::from_millis(100).as_nanos();
    let mut store = Store::new(window, 4);
    for i in 1..=3u64 {
        store.batch_update(Timestamp::from_millis(100 * i), &[tx(1, 5000, 9, i as i32)]);
    }
    let mut series = TrafficSparkline::with_filter(Filter::All);
    series.collect(&store);
    assert_eq!(
        series.dataset(),
        vec![
            DataPoint { ts: Timestamp::from_millis(100), rx: 0, tx: 1 },
            DataPoint { ts: Timestamp::from_millis(200), rx: 0, tx: 2 },
        ]
    );
    store.batch_update(Timestamp::from_millis(400), &[tx(1, 5000, 9, 4)]);
    store.batch_update(Timestamp::from_millis(500), &[tx(1, 5000, 9, 5)]);
    series.collect(&store);
    let ts: Vec<_> = series.dataset().iter().map(|d| d.ts).collect();
    assert_eq!(
        ts,
        vec![Timestamp::from_millis(200), Timestamp::from_millis(300), Timestamp::from_millis(400)]
    );
}

#[test]
fn pause_freezes_rows_and_series() {
    let window = Timestamp::from_millis(100).as_nanos();
    let mut store = Store::new(window, 16);
    let clock = ClockNano::new(0);
    let mut ui = Ui::new();
    for i in 0..3u64 {
        store.batch_update(Timestamp::from_millis(100 * i), &[tx(1, 5000, 9, 10)]);
        ui.render(Timestamp::from_millis(100 * i + 50), &clock, &store);
    }
    let before_rows = ui.table_view().table().dataset().to_vec();
    let before_series = ui.sparkline().dataset();
    assert_eq!(before_rows.len(), 1);
    assert_eq!(before_rows[0].stat.tx, 30);

    assert_eq!(ui.handle_event(Key::Char(' '), ""), Some(UiEvent::Change));
    assert!(ui.is_paused());
    for i in 3..6u64 {
        store.batch_update(Timestamp::from_millis(100 * i), &[tx(1, 5000, 9, 10), tx(2, 6000, 8, 1)]);
    }
    ui.render(Timestamp::from_millis(590), &clock, &store);
    let after_rows = ui.table_view().table().dataset().to_vec();
    assert_eq!(after_rows.len(), before_rows.len());
    assert_eq!(after_rows[0].stat, before_rows[0].stat);
    assert_eq!(ui.sparkline().dataset(), before_series);

    assert_eq!(ui.handle_event(Key::Char(' '), ""), Some(UiEvent::Change));
    ui.render(Timestamp::from_millis(590), &clock, &store);
    let rows = ui.table_view().table().dataset().to_vec();
    assert_eq!(rows.len(), 2);
    let total: u64 = rows.iter().map(|e| e.stat.tx).sum();
    assert_eq!(total, 63);
}

#[test]
fn navigation_between_views() {
    let window = Timestamp::from_millis(100).as_nanos();
    let mut store = Store::new(window, 16);
    let clock = ClockNano::new(0);
    store.batch_update(Timestamp::from_millis(0), &[tx(42, 5000, 9, 10)]);
    let mut ui = Ui::new();
    ui.render(Timestamp::from_millis(10), &clock, &store);

    assert_eq!(ui.handle_event(Key::Char('p'), ""), None);
    assert_eq!(ui.filter(), Filter::All);
    assert_eq!(ui.handle_event(Key::Down, ""), Some(UiEvent::Change));
    assert_eq!(ui.table_view().selected_index(), Some(0));
    assert_eq!(ui.handle_event(Key::Char('j'), ""), Some(UiEvent::Change));
    assert_eq!(ui.table_view().selected_index(), Some(0));
    assert_eq!(ui.table_view().selected_pid(), Some(42));

    assert_eq!(ui.handle_event(Key::Enter, ""), None);
    assert_eq!(ui.filter(), Filter::Process(42));
    assert_eq!(ui.table_view().selected_index(), None);

    ui.render(Timestamp::from_millis(10), &clock, &store);
    ui.handle_event(Key::Down, "");
    assert_eq!(ui.handle_event(Key::Char('r'), ""), None);
    assert_eq!(ui.filter(), Filter::RemoteIp(IpAddr::v4(9)));

    assert_eq!(ui.handle_event(Key::Backspace, ""), None);
    assert_eq!(ui.filter(), Filter::All);
    assert_eq!(ui.handle_event(Key::Char('q'), ""), Some(UiEvent::Quit));
}

#[test]
fn filter_editor_commit_and_abort() {
    let window = Timestamp::from_millis(100).as_nanos();
    let mut store = Store::new(window, 16);
    let clock = ClockNano::new(0);
    store.batch_update(Timestamp::from_millis(0), &[tx(1, 5000, 9, 10), tx(2, 5001, 8, 20)]);
    let mut ui = Ui::new();

    assert_eq!(ui.handle_event(Key::Char('/'), ""), Some(UiEvent::Change));
    assert!(ui.editor().is_editing());
    assert_eq!(ui.handle_event(Key::Char('['), "pid["), Some(UiEvent::Change));
    assert!(!ui.editor().is_valid());
    let err = ui.editor().draft_error().unwrap();
    assert_eq!((err.line, err.column), (1, 5));
    assert_eq!(ui.handle_event(Key::Enter, "pid["), None);
    assert!(ui.editor().is_editing());
    assert_eq!(ui.handle_event(Key::Char(']'), "pid[2]"), Some(UiEvent::Change));
    assert!(ui.editor().is_valid());
    assert_eq!(ui.handle_event(Key::Enter, "pid[2]"), Some(UiEvent::Change));
    assert!(!ui.editor().is_editing());
    assert_eq!(ui.editor().committed_content(), Some("pid[2]".to_string()));

    ui.render(Timestamp::from_millis(10), &clock, &store);
    assert_eq!(ui.table_view().table().len(), 1);
    assert_eq!(ui.table_view().table().dataset()[0].pid, 2);

    ui.handle_event(Key::Char('/'), "");
    ui.handle_event(Key::Char('x'), "udp");
    assert_eq!(ui.handle_event(Key::Esc, "udp"), None);
    assert!(ui.needs_display());
    assert!(!ui.editor().is_editing());
    assert_eq!(ui.editor().committed_content(), Some("pid[2]".to_string()));
    ui.render(Timestamp::from_millis(10), &clock, &store);
    assert_eq!(ui.table_view().table().len(), 1);
}

#[test]
fn space_and_quit_keep_the_view() {
    let window = Timestamp::from_millis(100).as_nanos();
    let mut store = Store::new(window, 16);
    let clock = ClockNano::new(0);
    store.batch_update(Timestamp::from_millis(0), &[tx(1, 5000, 9, 10), tx(2, 5001, 8, 20)]);
    let mut ui = Ui::new();
    ui.render(Timestamp::from_millis(10), &clock, &store);
    ui.handle_event(Key::Down, "");
    ui.handle_event(Key::Down, "");
    let rows = ui.table_view().table().dataset().to_vec();
    let selected = ui.table_view().selected_index();
    assert_eq!(selected, Some(1));

    assert_eq!(ui.handle_event(Key::Char(' '), ""), Some(UiEvent::Change));
    assert!(ui.needs_display());
    assert_eq!(ui.table_view().selected_index(), selected);
    assert_eq!(ui.table_view().table().len(), rows.len());
    assert_eq!(ui.filter(), Filter::All);

    ui.render(Timestamp::from_millis(20), &clock, &store);
    assert!(!ui.needs_display());
    assert_eq!(ui.handle_event(Key::Char('q'), ""), Some(UiEvent::Quit));
    assert!(!ui.needs_display());
    assert!(ui.is_paused());
    assert_eq!(ui.table_view().selected_index(), selected);
}
