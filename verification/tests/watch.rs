use aozora_tools::watch::{now_hms, pass_banner, watch_action, WatchAction, WatchEvent};

#[test]
fn now_hms_is_well_formed() {
    let secs = std::time::SystemTime::now()
        .duration_since(std::time::UNIX_EPOCH)
        .map_or(0, |d| d.as_secs());
    let stamp = now_hms(secs);
    assert_eq!(stamp.len(), 8, "HH:MM:SS: {stamp}");
    assert_eq!(stamp.as_bytes()[2], b':');
    assert_eq!(stamp.as_bytes()[5], b':');
}

#[test]
fn hms_of_known_instants() {
    assert_eq!(now_hms(0), "00:00:00");
    assert_eq!(now_hms(3661), "01:01:01");
    assert_eq!(now_hms(86_399), "23:59:59");
    assert_eq!(now_hms(86_400 + 45_296), "12:34:56");
}

#[test]
fn change_reruns_timeout_waits_disconnect_exits() {
    assert_eq!(watch_action(false, WatchEvent::Changed), WatchAction::Rerun);
    assert_eq!(watch_action(false, WatchEvent::Timeout), WatchAction::Wait);
    assert_eq!(watch_action(false, WatchEvent::Disconnected), WatchAction::Exit);
}

#[test]
fn stop_flag_ends_the_loop_whatever_arrived() {
    for ev in [WatchEvent::Changed, WatchEvent::Timeout, WatchEvent::Disconnected] {
        assert_eq!(watch_action(true, ev), WatchAction::Exit);
    }
}

#[test]
fn banner_pluralises_paths() {
    assert_eq!(pass_banner("01:02:03", 1), "[01:02:03] アオゾラ watching 1 path — Ctrl-C to exit");
    assert_eq!(pass_banner("01:02:03", 3), "[01:02:03] アオゾラ watching 3 paths — Ctrl-C to exit");
}

use std::sync::atomic::{AtomicBool, Ordering};
use std::sync::mpsc::{channel, Receiver, RecvTimeoutError};
use std::time::Duration;

/// The front end's loop: each wake-up's event goes through the library's
/// decision.
fn drive(rx: &Receiver<()>, stop: &AtomicBool, mut on_change: impl FnMut()) {
    loop {
        let stopped = stop.load(Ordering::Relaxed);
        let event = if stopped {
            WatchEvent::Timeout
        } else {
            match rx.recv_timeout(Duration::from_millis(50)) {
                Ok(()) => WatchEvent::Changed,
                Err(RecvTimeoutError::Timeout) => WatchEvent::Timeout,
                Err(RecvTimeoutError::Disconnected) => WatchEvent::Disconnected,
            }
        };
        match watch_action(stopped, event) {
            WatchAction::Rerun => {
                drain(rx);
                on_change();
            }
            WatchAction::Wait => {}
            WatchAction::Exit => break,
        }
    }
}

fn drain(rx: &Receiver<()>) {
    while rx.try_recv().is_ok() {}
}

#[test]
fn loop_runs_on_change_then_stops() {
    let (tx, rx) = channel();
    let stop = AtomicBool::new(false);
    tx.send(()).expect("send change");
    let mut count = 0;
    drive(&rx, &stop, || {
        count += 1;
        stop.store(true, Ordering::Relaxed);
    });
    assert_eq!(count, 1, "exactly one re-run for the queued change");
}

#[test]
fn loop_exits_immediately_when_already_stopped() {
    let (_tx, rx) = channel::<()>();
    let stop = AtomicBool::new(true);
    let mut count = 0;
    drive(&rx, &stop, || count += 1);
    assert_eq!(count, 0, "a pre-set stop flag means no re-runs");
}

#[test]
fn loop_exits_on_disconnect() {
    let (tx, rx) = channel::<()>();
    let stop = AtomicBool::new(false);
    drop(tx);
    let mut count = 0;
    drive(&rx, &stop, || count += 1);
    assert_eq!(count, 0);
}

#[test]
fn drain_empties_the_channel() {
    let (tx, rx) = channel();
    for _ in 0..5 {
        tx.send(()).unwrap();
    }
    drain(&rx);
    assert!(rx.try_recv().is_err(), "drain should empty the queue");
    // A burst of saves gives one re-run: the loop drains behind the first.
    for _ in 0..5 {
        tx.send(()).unwrap();
    }
    drop(tx);
    let mut count = 0;
    drive(&rx, &AtomicBool::new(false), || count += 1);
    assert_eq!(count, 1);
}
