use bms::cli::Action;
use bms::dev::gpio::Gpio;
use bms::dev::Dev;
use bms::dev::Kind;
use bms::evq::{EvAction, Event};
use bms::plat::Plat;
use bms::rv::Rv;
use bms::{bms, System};

const PROMPT: &[u8] = b"\r\x1b[1mbms>\x1b[0m ";

fn displays() -> Vec<Vec<u8>> {
    vec![
        b"dummy@13".to_vec(),
        b"dummy@28".to_vec(),
        b"dummy@5".to_vec(),
        b"linux@/dev/stdout".to_vec(),
    ]
}

fn uart(dev: usize, bytes: &[u8]) -> Event {
    let mut data = [0u8; 8];
    data[..bytes.len()].copy_from_slice(bytes);
    Event::Uart { dev, data, len: bytes.len() as u8 }
}

fn event(s: &mut System, ev: &Event) -> bool {
    s.handle_event(ev, &displays(), &vec![false; 4])
}

#[test]
fn setup_registers_everything() {
    let s = bms();
    assert_eq!(s.climgr.lookup(&["help"]), Some(0));
    assert_eq!(s.climgr.lookup(&["evq"]), Some(1));
    assert_eq!(s.climgr.lookup(&["dev"]), Some(2));
    assert_eq!(s.climgr.lookup(&["gpio"]), Some(3));
    assert_eq!(s.climgr.lookup(&["quit"]), Some(4));
    assert_eq!(s.climgr.command(0), ("help", "show help", Action::Help));
    assert_eq!(s.climgr.command(1).2, Action::ShowEvq);
    assert_eq!(s.climgr.command(2).2, Action::ShowDevs);
    assert_eq!(s.climgr.command(3).2, Action::Gpio);
    assert_eq!(s.climgr.command(4), ("quit", "bye bye", Action::Quit));
    assert_eq!(s.svc.evq.handler(0), (0, "plat", 0));
    assert_eq!(s.svc.evq.handler(1), (1, "test", 0));
    assert_eq!(s.svc.evq.action(0), EvAction::Console);
    assert_eq!(s.svc.evq.action(1), EvAction::Idle);
    assert!(s.svc.evq.is_running());
    assert_eq!(s.svc.devmgr.info(0), ("backlight", Kind::Gpio, Rv::ErrNotReady));
    assert_eq!(s.svc.devmgr.info(1), ("charge", Kind::Gpio, Rv::ErrNotReady));
    assert_eq!(s.svc.devmgr.info(2), ("discharge", Kind::Gpio, Rv::ErrNotReady));
    assert_eq!(s.svc.devmgr.info(3), ("uart0", Kind::Uart, Rv::ErrNotReady));
    assert_eq!(s.plat.console(), Some(3));
    assert_eq!(s.plat.devs().gpio.backlight, 0);
    assert_eq!(s.plat.devs().uart.uart0, 3);
    assert_eq!(s.plat.uart0_path(), "/dev/stdout");
    assert_eq!(s.gpios[0].get_name(), "backlight");
    assert_eq!(s.gpios[0].pin(), 13);
    assert_eq!(s.gpios[1].pin(), 28);
    assert_eq!(s.gpios[2].pin(), 5);
    assert!(!s.gpios[0].get());
    assert!(s.svc.stdout.is_empty());
    let mut cli = s.cli;
    assert_eq!(cli.take_output(), Vec::<u8>::new());
    let mut logger = s.svc.logger;
    let hello = logger.take_pending();
    assert_eq!(hello.len(), 1);
    assert_eq!(hello[0].msg, b"Hello".to_vec());
    assert_eq!(hello[0].console, None);
    logger.log(bms::log::Level::Inf, "linux::bms", b"x");
    assert_eq!(logger.take_pending()[0].console, Some(3));
    assert_eq!(logger.reg(), 0);
}

#[test]
fn platform_routes_console_bytes() {
    let s = bms();
    assert_eq!(s.plat.route(&uart(3, b"hi")), b"hi".to_vec());
    assert_eq!(s.plat.route(&uart(1, b"hi")), Vec::<u8>::new());
    assert_eq!(s.plat.route(&Event::Tick1Hz), Vec::<u8>::new());
}

#[test]
fn help_typed_on_the_serial_port() {
    let mut s = bms();
    assert!(event(&mut s, &uart(3, b"help\r")));
    let out = s.cli.take_output();
    let mut end = b"\r\nhelp - show help\nevq - show event queue\ndev - show devices\ngpio - l[ist] | s[et] <name> <0|1>\nquit - bye bye\n> ".to_vec();
    end.extend_from_slice(PROMPT);
    end.extend_from_slice(b"\x1b[K");
    assert!(out.ends_with(&end));
    assert_eq!(s.svc.evq.handler(0), (0, "plat", 1));
    assert_eq!(s.svc.evq.handler(1), (1, "test", 0));
}

#[test]
fn quit_typed_on_the_serial_port_stops_the_queue() {
    let mut s = bms();
    assert!(event(&mut s, &uart(3, b"qu")));
    assert!(s.svc.evq.is_running());
    assert!(event(&mut s, &uart(3, b"it\n")));
    assert!(!s.svc.evq.is_running());
    assert!(s.cli.take_output().ends_with(b"\r\n> \r\x1b[1mbms>\x1b[0m \x1b[K"));
}

#[test]
fn other_ports_and_ticks_leave_the_console_alone() {
    let mut s = bms();
    assert!(event(&mut s, &uart(1, b"quit\r")));
    assert!(event(&mut s, &Event::Tick1Hz));
    assert!(s.svc.evq.is_running());
    assert!(s.cli.take_output().is_empty());
    assert_eq!(s.svc.evq.handler(0), (0, "plat", 2));
    assert_eq!(s.svc.evq.handler(1), (1, "test", 1));
}

#[test]
fn evq_typed_writes_to_the_standard_output() {
    let mut s = bms();
    assert!(event(&mut s, &uart(3, b"evq\r")));
    assert_eq!(s.svc.stdout, b"0 plat 1\n1 test 0\n".to_vec());
}

#[test]
fn a_byte_the_console_cannot_take_stops_the_event() {
    let mut s = bms();
    assert!(event(&mut s, &uart(3, b"a b c d ")));
    assert!(event(&mut s, &uart(3, b"e f g h ")));
    // a ninth word, then Enter while the line ends inside it
    assert!(!event(&mut s, &uart(3, b"i\rx")));
    assert_eq!(s.cli.buffer(), &b"a b c d e f g h i".to_vec());
}

#[test]
fn unknown_command_typed() {
    let mut s = bms();
    assert!(event(&mut s, &uart(3, b"frob 1\r")));
    let out = s.cli.take_output();
    let mut end = b"\r\n: ErrInval\n> ".to_vec();
    end.extend_from_slice(PROMPT);
    end.extend_from_slice(b"\x1b[K");
    assert!(out.ends_with(&end));
}

#[test]
fn stopped_queue_ends_after_next_event() {
    let mut s = bms();
    s.svc.evq.stop();
    s.svc.evq.stop();
    assert!(!s.svc.evq.is_running());
    assert_eq!(s.svc.evq.dispatch(&Event::Tick1Hz), vec![0, 1]);
    assert!(!s.svc.evq.is_running());
}
