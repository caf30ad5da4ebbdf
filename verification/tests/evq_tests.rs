use bms::log::Logger;
use bms::cli;
use bms::evq::{EvAction, EvType, Event, Evq};

#[test]
fn codes() {
    assert_eq!(EvType::Any.code(), 0);
    assert_eq!(EvType::Tick1Hz.code(), 1);
    assert_eq!(EvType::Uart.code(), 2);
    assert_eq!(Event::Tick1Hz.evtype(), 1);
    assert_eq!(Event::Uart { dev: 0, data: [0; 8], len: 0 }.evtype(), 2);
}

#[test]
fn events_go_to_matching_handlers_in_order() {
    let mut climgr = cli::Mgr::new(&mut Logger::new());
    let mut q = Evq::new(&mut climgr);
    assert_eq!(climgr.lookup(&["evq"]), Some(1));
    assert_eq!(q.reg("all", EvAction::Console), 0);
    assert_eq!(q.reg_filter("ticks", EvType::Tick1Hz, EvAction::Idle), 1);
    assert_eq!(q.reg_filter("bytes", EvType::Uart, EvAction::Console), 2);
    assert_eq!(q.reg("all2", EvAction::Idle), 3);
    assert!(q.can_dispatch(&Event::Tick1Hz));
    assert_eq!(q.dispatch(&Event::Tick1Hz), vec![0, 1, 3]);
    let ev = Event::Uart { dev: 3, data: [b'x'; 8], len: 1 };
    assert_eq!(q.dispatch(&ev), vec![0, 2, 3]);
    assert_eq!(q.dispatch(&Event::Tick1Hz), vec![0, 1, 3]);
    assert_eq!(q.len(), 4);
    assert_eq!(q.handler(0), (0, "all", 3));
    assert_eq!(q.handler(1), (1, "ticks", 2));
    assert_eq!(q.handler(2), (2, "bytes", 1));
    assert_eq!(q.handler(3), (0, "all2", 3));
    assert_eq!(q.action(0), EvAction::Console);
    assert_eq!(q.action(1), EvAction::Idle);
    assert_eq!(q.listing(), b"0 all 3\n1 ticks 2\n2 bytes 1\n0 all2 3\n".to_vec());
}

#[test]
fn stop_ends_the_queue() {
    let mut climgr = cli::Mgr::new(&mut Logger::new());
    let mut q = Evq::new(&mut climgr);
    assert!(q.is_running());
    q.reg("all", EvAction::Console);
    q.stop();
    assert!(!q.is_running());
    q.dispatch(&Event::Tick1Hz);
    assert!(!q.is_running());
    assert_eq!(q.handler(0), (0, "all", 1));
}
