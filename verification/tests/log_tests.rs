use bms::cli;
use bms::log::{format_line, line_text, Level, Logger};

#[test]
fn tags_and_colors() {
    assert_eq!(Level::Dmp.tag(), b"dmp".to_vec());
    assert_eq!(Level::Dbg.tag(), b"dbg".to_vec());
    assert_eq!(Level::Inf.tag(), b"inf".to_vec());
    assert_eq!(Level::Wrn.tag(), b"wrn".to_vec());
    assert_eq!(Level::Error.tag(), b"err".to_vec());
    assert_eq!(Level::Tst.tag(), b"tst".to_vec());
    assert_eq!(Level::Dmp.color(), b"\x1b[33m".to_vec());
    assert_eq!(Level::Dbg.color(), b"\x1b[22m".to_vec());
    assert_eq!(Level::Inf.color(), b"\x1b[1m".to_vec());
    assert_eq!(Level::Wrn.color(), b"\x1b[33m".to_vec());
    assert_eq!(Level::Error.color(), b"\x1b[31m".to_vec());
    assert_eq!(Level::Tst.color(), b"\x1b[7m".to_vec());
}

#[test]
fn log_line_layout() {
    let line = format_line(b"24-05-01 12:00:00", Level::Inf, "bms::bms::cli", b"Hello");
    assert_eq!(line, b"24-05-01 12:00:00bms::cli inf bms::bms::cli Hello".to_vec());
}

#[test]
fn log_line_is_cut_at_128_bytes() {
    let msg = vec![b'm'; 300];
    let line = format_line(b"24-05-01 12:00:00", Level::Wrn, "bms::bms::evq", &msg);
    assert_eq!(line.len(), 128);
    assert_eq!(&line[..17], b"24-05-01 12:00:00");
    assert_eq!(&line[17..44], b"bms::evq wrn bms::bms::evq ");
    assert!(line[44..].iter().all(|&b| b == b'm'));
}

#[test]
fn log_output_targets() {
    let l = Logger::new();
    let out = l.output(None, Level::Inf, b"x");
    assert_eq!(out.console, None);
    assert_eq!(out.writes, vec![b"x".to_vec(), b"\n".to_vec()]);
    assert!(out.handlers.is_empty());
    let out = l.output(Some(3), Level::Error, b"x");
    assert_eq!(out.console, Some(3));
    assert_eq!(out.writes, vec![b"\x1b[31m".to_vec(), b"x".to_vec(), b"\n\x1b[0m".to_vec()]);
}

#[test]
fn lines_reach_every_handler_in_order() {
    let mut l = Logger::new();
    assert_eq!(l.reg(), 0);
    assert_eq!(l.reg(), 1);
    assert_eq!(l.reg(), 2);
    assert_eq!(l.handler_len(), 3);
    let out = l.output(None, Level::Inf, b"x");
    assert_eq!(out.handlers, vec![0, 1, 2]);
    assert_eq!(line_text(b"hi"), "hi");
}

#[test]
fn logged_messages_keep_their_console() {
    let mut l = Logger::new();
    l.log(Level::Inf, "linux::bms", b"one");
    l.set_console(3);
    l.log(Level::Wrn, "linux::bms", b"two");
    let p = l.take_pending();
    assert_eq!(p.len(), 2);
    assert_eq!((p[0].level, p[0].console, p[0].msg.clone()), (Level::Inf, None, b"one".to_vec()));
    assert_eq!((p[1].level, p[1].console, p[1].msg.clone()), (Level::Wrn, Some(3), b"two".to_vec()));
    assert!(l.take_pending().is_empty());
}

#[test]
fn command_manager_says_hello() {
    let mut l = Logger::new();
    let _m = cli::Mgr::new(&mut l);
    let p = l.take_pending();
    assert_eq!(p.len(), 1);
    assert_eq!(p[0].level, Level::Inf);
    assert_eq!(p[0].path, "linux::bms::cli");
    assert_eq!(p[0].msg, b"Hello".to_vec());
    assert_eq!(p[0].console, None);
}
