use keeplin_core::models::{Change, Notebook};
use keeplin_core::ws_sync::{
    drain_reads_more, drain_start, drain_step, retry_delay_secs, send_start, FrameEvent, SendStart, MAX_WS_MESSAGES,
};

#[test]
fn sends_retry_with_doubling_waits_then_give_up() {
    assert_eq!(send_start(0, false), SendStart::Nothing);
    assert_eq!(send_start(2, true), SendStart::StayLocal);
    assert_eq!(send_start(2, false), SendStart::Send);
    let waits: Vec<Option<u64>> = (0..5).map(retry_delay_secs).collect();
    assert_eq!(waits, vec![Some(1), Some(2), Some(4), None, None]);
}

#[test]
fn a_receive_gathers_batches_until_quiet_or_closed() {
    let mut d = drain_start();
    assert!(drain_reads_more(&d));
    d = drain_step(d, FrameEvent::Changes(vec![Change::NotebookCreate { notebook: Notebook::new("a") }]));
    d = drain_step(d, FrameEvent::OtherText);
    d = drain_step(d, FrameEvent::NotText);
    assert_eq!(d.count, 2);
    assert_eq!(d.changes.len(), 1);
    assert!(drain_reads_more(&d));
    d = drain_step(d, FrameEvent::Quiet);
    assert!(!drain_reads_more(&d));
    assert!(!d.closed);
    let closed = drain_step(drain_start(), FrameEvent::Closed);
    assert!(closed.closed && closed.done);
}

#[test]
fn a_receive_stops_at_the_message_limit() {
    let mut d = drain_start();
    let mut reads = 0;
    while drain_reads_more(&d) {
        d = drain_step(d, FrameEvent::OtherText);
        reads += 1;
    }
    assert_eq!(reads, MAX_WS_MESSAGES);
    assert!(!d.done);
}
