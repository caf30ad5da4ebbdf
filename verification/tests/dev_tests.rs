use bms::log::{Level, Logger};
use bms::cli;
use bms::dev;
use bms::dev::gpio;
use bms::dev::gpio::dummy;
use bms::dev::gpio::{Gpio, GpioCommand};
use bms::dev::uart::{rx_action, RxAction, Stats};
use bms::dev::{Dev, Kind};
use bms::evq::Evq;
use bms::rv::Rv;

#[test]
fn dev_registers_its_command() {
    let mut climgr = cli::Mgr::new(&mut Logger::new());
    let _devmgr = dev::Mgr::new(&mut climgr);
    assert_eq!(climgr.lookup(&["dev"]), Some(1));
}

#[test]
fn add_find_and_init_devices() {
    let mut climgr = cli::Mgr::new(&mut Logger::new());
    let mut devmgr = dev::Mgr::new(&mut climgr);
    assert_eq!(devmgr.add("backlight", Kind::Gpio), 0);
    assert_eq!(devmgr.add("uart0", Kind::Uart), 1);
    assert_eq!(devmgr.add("uart0", Kind::Uart), 2);
    assert_eq!(devmgr.len(), 3);
    assert_eq!(devmgr.find_by_name("uart0"), Some(1));
    assert_eq!(devmgr.find_by_name("backlight"), Some(0));
    assert_eq!(devmgr.find_by_name("nope"), None);
    assert_eq!(devmgr.info(0), ("backlight", Kind::Gpio, Rv::ErrNotReady));
    let mut logger = Logger::new();
    devmgr.init(&mut logger, &[Rv::Success, Rv::ErrInval, Rv::Success]);
    let logged = logger.take_pending();
    assert_eq!(logged.len(), 1);
    assert_eq!(logged[0].level, Level::Inf);
    assert_eq!(logged[0].path, "linux::bms::dev");
    assert_eq!(logged[0].msg, b"devmgr init".to_vec());
    assert_eq!(devmgr.info(0), ("backlight", Kind::Gpio, Rv::Success));
    assert_eq!(devmgr.info(1), ("uart0", Kind::Uart, Rv::ErrInval));
}

#[test]
fn dev_listing_lines() {
    let mut climgr = cli::Mgr::new(&mut Logger::new());
    let mut devmgr = dev::Mgr::new(&mut climgr);
    devmgr.add("backlight", Kind::Gpio);
    devmgr.add("uart0", Kind::Uart);
    devmgr.init(&mut Logger::new(), &[Rv::Success, Rv::Success]);
    let mut cli = climgr.add_cli();
    devmgr.show(&mut cli, &vec![b"dummy@13".to_vec(), b"linux@/dev/stdout".to_vec()]);
    assert_eq!(
        cli.take_output(),
        b"- gpio backlight (dummy@13) Ok\n- uart uart0 (linux@/dev/stdout) Ok\n".to_vec()
    );
}

#[test]
fn kind_names() {
    assert_eq!(Kind::Gpio.name(), b"gpio".to_vec());
    assert_eq!(Kind::Uart.name(), b"uart".to_vec());
}

#[test]
fn gpio_commands() {
    let mut climgr = cli::Mgr::new(&mut Logger::new());
    let mut devmgr = dev::Mgr::new(&mut climgr);
    let gpiomgr = gpio::Mgr::new(&mut climgr);
    assert_eq!(climgr.lookup(&["gpio"]), Some(2));
    devmgr.add("backlight", Kind::Gpio);
    devmgr.add("uart0", Kind::Uart);
    devmgr.add("charge", Kind::Gpio);
    let mut cli = climgr.add_cli();
    let displays = vec![b"dummy@13".to_vec(), b"linux@/dev/stdout".to_vec(), b"dummy@28".to_vec()];
    let states = vec![true, false, false];
    let mut logger = Logger::new();
    match gpiomgr.command(&mut cli, &devmgr, &displays, &states, &mut logger, &["list"]) {
        GpioCommand::List(v) => assert_eq!(v, vec![0, 2]),
        _ => panic!("not a list"),
    }
    assert_eq!(cli.take_output(), b"dummy@13 true\ndummy@28 false\n".to_vec());
    match gpiomgr.command(&mut cli, &devmgr, &displays, &states, &mut logger, &["l"]) {
        GpioCommand::List(v) => assert_eq!(v, vec![0, 2]),
        _ => panic!("not a list"),
    }
    cli.take_output();
    assert!(logger.take_pending().is_empty());
    match gpiomgr.command(&mut cli, &devmgr, &displays, &states, &mut logger, &["s", "charge", "1"]) {
        GpioCommand::SetPin(found) => assert_eq!(found, Some(2)),
        _ => panic!("not a set"),
    }
    let logged = logger.take_pending();
    assert_eq!(logged.len(), 1);
    assert_eq!(logged[0].level, Level::Tst);
    assert_eq!(logged[0].path, "linux::bms::dev::gpio");
    assert_eq!(logged[0].msg, b"found dev".to_vec());
    let set = gpiomgr.command(&mut cli, &devmgr, &displays, &states, &mut logger, &["set", "nope", "0"]);
    assert_eq!(set.rv(), Rv::Success);
    match set {
        GpioCommand::SetPin(found) => assert_eq!(found, None),
        _ => panic!("not a set"),
    }
    assert!(logger.take_pending().is_empty());
    assert_eq!(cli.take_output(), Vec::<u8>::new());
    let unknown = gpiomgr.command(&mut cli, &devmgr, &displays, &states, &mut logger, &["set", "charge"]);
    assert!(matches!(unknown, GpioCommand::Unknown));
    assert_eq!(unknown.rv(), Rv::ErrInval);
    assert_eq!(cli.take_output(), b"unknown command\n".to_vec());
    let none = gpiomgr.command(&mut cli, &devmgr, &displays, &states, &mut logger, &[]);
    assert!(matches!(none, GpioCommand::Unknown));
}

#[test]
fn dummy_pin_remembers_its_state() {
    let mut climgr = cli::Mgr::new(&mut Logger::new());
    let evq = Evq::new(&mut climgr);
    let mut d = dummy::new("charge", &evq, 28);
    assert_eq!(d.pin(), 28);
    assert_eq!(d.get_name(), "charge");
    assert_eq!(d.kind(), Kind::Gpio);
    assert_eq!(d.init(), Rv::Success);
    assert_eq!(d.display(), b"dummy@28".to_vec());
    assert!(!d.get());
    assert_eq!(d.set(true), Rv::Success);
    assert!(d.get());
    d.set(false);
    assert!(!d.get());
}

#[test]
fn uart_stats_count() {
    let mut s = Stats::new();
    s.record_rx(5);
    s.record_tx(3);
    s.record_tx(-1);
    s.record_tx(0);
    assert_eq!(s.bytes_rx, 5);
    assert_eq!(s.bytes_tx, 3);
}

#[test]
fn reader_decisions() {
    let data = [b'a', b'b', 3, 0, 0, 0, 0, 0];
    assert_eq!(rx_action(&data, 0), RxAction::Ignore);
    assert_eq!(rx_action(&data, -1), RxAction::Ignore);
    assert_eq!(rx_action(&data, 2), RxAction::Deliver(2));
    assert_eq!(rx_action(&data, 3), RxAction::Abort);
    assert_eq!(rx_action(&data, 8), RxAction::Abort);
}
