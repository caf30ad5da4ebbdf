use bms::cli::{Action, Cli, Mgr};
use bms::log::Logger;
use bms::rv::Rv;
use bms::{bms, System};

const PROMPT: &[u8] = b"\r\x1b[1mbms>\x1b[0m ";

const HELP: &[u8] = b"help - show help\nevq - show event queue\ndev - show devices\ngpio - l[ist] | s[et] <name> <0|1>\nquit - bye bye\n";

fn redraw(line: &[u8], back: usize) -> Vec<u8> {
    let mut v = PROMPT.to_vec();
    v.extend_from_slice(line);
    v.extend_from_slice(b"\x1b[K");
    if back > 0 {
        v.extend_from_slice(format!("\x1b[{}D", back).as_bytes());
    }
    v
}

/// The system's console, with the descriptions and pin states of its four
/// devices.
struct Console {
    sys: System,
    displays: Vec<Vec<u8>>,
    states: Vec<bool>,
}

fn console() -> Console {
    Console {
        sys: bms(),
        displays: vec![
            b"dummy@13".to_vec(),
            b"dummy@28".to_vec(),
            b"dummy@5".to_vec(),
            b"linux@/dev/stdout".to_vec(),
        ],
        states: vec![true, false, false, false],
    }
}

impl Console {
    fn key(&mut self, c: u8) {
        assert!(self.sys.cli.takes_key(c));
        self.sys.handle_byte(c, &self.displays, &self.states);
    }

    fn typed(&mut self, s: &[u8]) {
        for &c in s {
            self.key(c);
        }
        self.out();
    }

    fn out(&mut self) -> Vec<u8> {
        self.sys.cli.take_output()
    }

    /// Enters a line and returns what the console sent for it.
    fn enter(&mut self, line: &[u8]) -> Vec<u8> {
        self.typed(line);
        self.key(b'\r');
        self.out()
    }
}

/// What the console sends for an entered line whose command sent `shown`.
fn entered(shown: &[u8]) -> Vec<u8> {
    let mut v = b"\r\n".to_vec();
    v.extend_from_slice(shown);
    v.extend_from_slice(b"> ");
    v.extend(redraw(b"", 0));
    v
}

#[test]
fn new_manager_knows_help() {
    let m = Mgr::new(&mut Logger::new());
    assert_eq!(m.lookup(&["help"]), Some(0));
    assert_eq!(m.lookup(&["help", "x"]), Some(0));
    assert_eq!(m.lookup(&["nope"]), None);
    assert_eq!(m.lookup(&[]), None);
}

#[test]
fn first_registration_wins() {
    let mut m = Mgr::new(&mut Logger::new());
    assert_eq!(m.reg("quit", "bye bye", Action::Quit), 1);
    assert_eq!(m.reg("quit", "again", Action::Help), 2);
    assert_eq!(m.lookup(&["quit"]), Some(1));
}

#[test]
fn help_lists_commands() {
    let mut m = Mgr::new(&mut Logger::new());
    m.reg("quit", "bye bye", Action::Quit);
    let mut cli = m.add_cli();
    m.help(&mut cli);
    assert_eq!(cli.take_output(), b"help - show help\nquit - bye bye\n".to_vec());
}

#[test]
fn typing_redraws_the_line() {
    let mut k = console();
    k.key(b'a');
    assert_eq!(k.out(), redraw(b"a", 0));
    k.key(b'b');
    assert_eq!(k.out(), redraw(b"ab", 0));
    assert_eq!(k.sys.cli.buffer(), &b"ab".to_vec());
    assert_eq!(k.sys.cli.cursor(), 2);
}

#[test]
fn ctrl_a_moves_to_start_and_cursor_is_sent_back() {
    let mut k = console();
    k.typed(b"abcdefghijkl");
    k.key(1);
    assert_eq!(k.sys.cli.cursor(), 0);
    assert_eq!(k.out(), redraw(b"abcdefghijkl", 12));
    k.key(5);
    assert_eq!(k.sys.cli.cursor(), 12);
}

#[test]
fn insert_in_the_middle() {
    let mut k = console();
    k.typed(b"ac");
    k.typed(b"\x1b[D");
    k.typed(b"b");
    assert_eq!(k.sys.cli.buffer(), &b"abc".to_vec());
    assert_eq!(k.sys.cli.cursor(), 2);
}

#[test]
fn insert_then_backspace_restores() {
    let mut k = console();
    k.typed(b"hello");
    k.key(1);
    k.key(b'x');
    assert_eq!(k.sys.cli.buffer(), &b"xhello".to_vec());
    k.key(127);
    assert_eq!(k.sys.cli.buffer(), &b"hello".to_vec());
    assert_eq!(k.sys.cli.cursor(), 0);
    k.key(b'y');
    k.key(8);
    assert_eq!(k.sys.cli.buffer(), &b"hello".to_vec());
}

#[test]
fn backspace_at_start_and_ctrl_d_at_end_do_nothing() {
    let mut k = console();
    k.typed(b"ab");
    k.key(4);
    assert_eq!(k.sys.cli.buffer(), &b"ab".to_vec());
    k.key(1);
    k.key(8);
    assert_eq!(k.sys.cli.buffer(), &b"ab".to_vec());
    k.key(4);
    assert_eq!(k.sys.cli.buffer(), &b"b".to_vec());
    assert_eq!(k.sys.cli.cursor(), 0);
}

#[test]
fn arrow_keys_echo_and_move() {
    let mut k = console();
    k.typed(b"ab");
    k.key(27);
    k.key(b'[');
    k.out();
    k.key(b'D');
    let mut expected = b"\x1b[D".to_vec();
    expected.extend(redraw(b"ab", 1));
    assert_eq!(k.out(), expected);
    assert_eq!(k.sys.cli.cursor(), 1);
    k.key(27);
    k.key(b'[');
    k.out();
    k.key(b'C');
    let mut expected = b"\x1b[C".to_vec();
    expected.extend(redraw(b"ab", 0));
    assert_eq!(k.out(), expected);
    assert_eq!(k.sys.cli.cursor(), 2);
    // right arrow at the end: no move, no echo
    k.key(27);
    k.key(b'[');
    k.out();
    k.key(b'C');
    assert_eq!(k.out(), redraw(b"ab", 0));
}

#[test]
fn escape_without_bracket_is_dropped() {
    let mut k = console();
    k.key(27);
    k.key(b'x');
    assert_eq!(k.sys.cli.buffer(), &Vec::<u8>::new());
    k.key(b'y');
    assert_eq!(k.sys.cli.buffer(), &b"y".to_vec());
}

#[test]
fn enter_runs_the_line() {
    let mut k = console();
    k.typed(b"help");
    k.key(b'\r');
    assert_eq!(k.out(), entered(HELP));
    assert_eq!(k.sys.cli.buffer(), &Vec::<u8>::new());
    assert_eq!(k.sys.cli.cursor(), 0);
    k.key(b'\n');
    assert_eq!(k.out(), entered(b""));
}

#[test]
fn entered_commands() {
    let mut k = console();
    assert_eq!(k.enter(b"gpio l"), entered(b"dummy@13 true\ndummy@28 false\ndummy@5 false\n"));
    assert_eq!(k.enter(b"gpio list"), entered(b"dummy@13 true\ndummy@28 false\ndummy@5 false\n"));
    assert_eq!(
        k.enter(b"dev"),
        entered(
            b"- gpio backlight (dummy@13) ErrNotReady\n- gpio charge (dummy@28) ErrNotReady\n- gpio discharge (dummy@5) ErrNotReady\n- uart uart0 (linux@/dev/stdout) ErrNotReady\n"
        )
    );
    assert_eq!(k.enter(b"gpio frob"), entered(b"unknown command\n: ErrInval\n"));
    assert_eq!(k.enter(b"nope 1 2"), entered(b": ErrInval\n"));
    assert_eq!(k.enter(b"   "), entered(b""));
    assert!(k.sys.svc.logger.take_pending().len() == 1);
    assert_eq!(k.enter(b"gpio s charge 1"), entered(b""));
    let logged = k.sys.svc.logger.take_pending();
    assert_eq!(logged.len(), 1);
    assert_eq!(logged[0].msg, b"found dev".to_vec());
    assert_eq!(logged[0].console, Some(3));
    assert_eq!(k.enter(b"gpio s nope 1"), entered(b""));
    assert!(k.sys.svc.logger.take_pending().is_empty());
    assert_eq!(k.enter(b"evq"), entered(b""));
    assert_eq!(k.sys.svc.stdout, b"0 plat 0\n1 test 0\n".to_vec());
    assert!(k.sys.svc.evq.is_running());
    assert_eq!(k.enter(b"quit"), entered(b""));
    assert!(!k.sys.svc.evq.is_running());
}

#[test]
fn enter_on_a_line_that_cannot_be_split_is_refused() {
    let mut k = console();
    k.typed(b"a b c d e f g h i");
    assert!(!k.sys.cli.takes_key(b'\r'));
    k.key(b' ');
    assert!(k.sys.cli.takes_key(b'\r'));
}

#[test]
fn full_line_takes_nothing_and_cannot_delete() {
    let mut k = console();
    for _ in 0..128 {
        k.key(b'x');
    }
    k.key(b'y');
    assert_eq!(k.sys.cli.buffer().len(), 128);
    assert!(!k.sys.cli.takes_key(8));
    assert!(!k.sys.cli.takes_key(127));
    assert!(k.sys.cli.takes_key(4));
    k.key(1);
    assert!(!k.sys.cli.takes_key(4));
    assert!(k.sys.cli.takes_key(b'z'));
}

#[test]
fn split_into_words() {
    let m = Mgr::new(&mut Logger::new());
    let cli = m.add_cli();
    assert_eq!(cli.split("  gpio  set backlight 1 "), vec!["gpio", "set", "backlight", "1"]);
    assert!(cli.split("").is_empty());
    assert!(cli.split("    ").is_empty());
}

#[test]
fn split_keeps_eight_parts() {
    let m = Mgr::new(&mut Logger::new());
    let cli = m.add_cli();
    let line = b"a b c d e f g h i j ";
    assert!(Cli::can_handle_line(line));
    assert_eq!(cli.split("a b c d e f g h i j "), vec!["a", "b", "c", "d", "e", "f", "g", "h"]);
    assert!(Cli::can_handle_line(b"a b c d e f g h"));
    assert_eq!(cli.split("a b c d e f g h").len(), 8);
    assert!(!Cli::can_handle_line(b"a b c d e f g h i"));
}

#[test]
fn split_cuts_at_char_counts() {
    let m = Mgr::new(&mut Logger::new());
    let cli = m.add_cli();
    // a two-char word whose first char takes two bytes: the cut takes two bytes
    let line = "\u{e9}a";
    assert!(Cli::can_handle_line(line.as_bytes()));
    assert_eq!(cli.split(line), vec!["\u{e9}"]);
    assert_eq!(cli.split("\u{e9}a b"), vec!["\u{e9}", " "]);
    // a one-char word of two bytes: the cut would split the char
    assert!(!Cli::can_handle_line("\u{e9}".as_bytes()));
    // not UTF-8
    assert!(!Cli::can_handle_line(&[0xff, 0x41]));
}

#[test]
fn failed_lines_report_their_code() {
    let mut k = console();
    let sys = &mut k.sys;
    sys.climgr.handle_line(&mut sys.cli, &mut sys.svc, &["nope"], &k.displays, &k.states);
    assert_eq!(sys.cli.take_output(), b": ErrInval\n".to_vec());
    sys.climgr.handle_line(&mut sys.cli, &mut sys.svc, &["gpio", "x"], &k.displays, &k.states);
    assert_eq!(sys.cli.take_output(), b"unknown command\n: ErrInval\n".to_vec());
    sys.climgr.handle_line(&mut sys.cli, &mut sys.svc, &["help", "x"], &k.displays, &k.states);
    assert_eq!(sys.cli.take_output(), HELP.to_vec());
    sys.climgr.handle_line(&mut sys.cli, &mut sys.svc, &[], &k.displays, &k.states);
    assert_eq!(sys.cli.take_output(), Vec::<u8>::new());
}

#[test]
fn a_handled_line_ends_with_the_prompt_sign() {
    let mut k = console();
    let sys = &mut k.sys;
    sys.cli.handle_line("quit", &sys.climgr, &mut sys.svc, &k.displays, &k.states);
    assert_eq!(sys.cli.take_output(), b"> ".to_vec());
    assert!(!sys.svc.evq.is_running());
    sys.cli.handle_line("", &sys.climgr, &mut sys.svc, &k.displays, &k.states);
    assert_eq!(sys.cli.take_output(), b"> ".to_vec());
}

#[test]
fn actions_run() {
    let mut k = console();
    let sys = &mut k.sys;
    assert_eq!(Action::Gpio.run(&sys.climgr, &mut sys.cli, &mut sys.svc, &["l"], &k.displays, &k.states), Rv::Success);
    assert_eq!(sys.cli.take_output(), b"dummy@13 true\ndummy@28 false\ndummy@5 false\n".to_vec());
    assert_eq!(Action::Gpio.run(&sys.climgr, &mut sys.cli, &mut sys.svc, &[], &k.displays, &k.states), Rv::ErrInval);
    assert_eq!(Action::ShowEvq.run(&sys.climgr, &mut sys.cli, &mut sys.svc, &[], &k.displays, &k.states), Rv::Success);
    assert_eq!(std::mem::take(&mut sys.svc.stdout), b"0 plat 0\n1 test 0\n".to_vec());
    assert_eq!(Action::Quit.run(&sys.climgr, &mut sys.cli, &mut sys.svc, &[], &k.displays, &k.states), Rv::Success);
    assert!(!sys.svc.evq.is_running());
}

#[test]
fn printf_keeps_128_bytes() {
    let m = Mgr::new(&mut Logger::new());
    let mut cli = m.add_cli();
    let long = vec![b'z'; 200];
    cli.printf(&long);
    assert_eq!(cli.take_output(), vec![b'z'; 128]);
    cli.printf(b"short\n");
    assert_eq!(cli.take_output(), b"short\n".to_vec());
}

#[test]
fn print_sends_low_bytes_and_write_sends_bytes() {
    let m = Mgr::new(&mut Logger::new());
    let mut cli = m.add_cli();
    cli.print("a\u{e9}\u{20ac}");
    assert_eq!(cli.take_output(), vec![b'a', 0xe9, 0xac]);
    cli.write(&[1, 2, 3]);
    assert_eq!(cli.take_output(), vec![1, 2, 3]);
}

#[test]
fn rv_names() {
    assert_eq!(Rv::Success.name(), b"Ok".to_vec());
    assert_eq!(Rv::ErrNotReady.name(), b"ErrNotReady".to_vec());
    assert_eq!(Rv::ErrInval.name(), b"ErrInval".to_vec());
}
