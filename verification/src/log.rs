use vstd::prelude::*;
use vstd::string::*;
use vstd::utf8::*;

use crate::words::{append, str_from_utf8};

verus! {

broadcast use vstd::utf8::group_utf8_lib;

/// The level of a log message.
#[derive(Debug, PartialEq, Eq, Structural, Clone, Copy)]
pub enum Level {
    Dmp,
    Dbg,
    Inf,
    Wrn,
    Error,
    Tst,
}

/// The tag of a level in a log line: "dmp", "dbg", "inf", "wrn", "err",
/// "tst".
pub open spec fn level_tag(l: Level) -> Seq<u8> {
    match l {
        Level::Dmp => seq![100u8, 109, 112],
        Level::Dbg => seq![100u8, 98, 103],
        Level::Inf => seq![105u8, 110, 102],
        Level::Wrn => seq![119u8, 114, 110],
        Level::Error => seq![101u8, 114, 114],
        Level::Tst => seq![116u8, 115, 116],
    }
}

/// The terminal attribute a level's lines are shown with on a console:
/// "\x1b[33m", "\x1b[22m", "\x1b[1m", "\x1b[33m", "\x1b[31m", "\x1b[7m".
pub open spec fn level_color(l: Level) -> Seq<u8> {
    match l {
        Level::Dmp => seq![27u8, 91, 51, 51, 109],
        Level::Dbg => seq![27u8, 91, 50, 50, 109],
        Level::Inf => seq![27u8, 91, 49, 109],
        Level::Wrn => seq![27u8, 91, 51, 51, 109],
        Level::Error => seq![27u8, 91, 51, 49, 109],
        Level::Tst => seq![27u8, 91, 55, 109],
    }
}

impl Level {
    /// The level's tag.
    pub fn tag(&self) -> (r: Vec<u8>)
        ensures
            r@ == level_tag(*self),
    {
        match self {
            Level::Dmp => vec![100u8, 109, 112],
            Level::Dbg => vec![100u8, 98, 103],
            Level::Inf => vec![105u8, 110, 102],
            Level::Wrn => vec![119u8, 114, 110],
            Level::Error => vec![101u8, 114, 114],
            Level::Tst => vec![116u8, 115, 116],
        }
    }

    /// The level's terminal attribute.
    pub fn color(&self) -> (r: Vec<u8>)
        ensures
            r@ == level_color(*self),
    {
        match self {
            Level::Dmp => vec![27u8, 91, 51, 51, 109],
            Level::Dbg => vec![27u8, 91, 50, 50, 109],
            Level::Inf => vec![27u8, 91, 49, 109],
            Level::Wrn => vec![27u8, 91, 51, 51, 109],
            Level::Error => vec![27u8, 91, 51, 49, 109],
            Level::Tst => vec![27u8, 91, 55, 109],
        }
    }
}

/// Length of the time stamp that starts a log line ("yy-mm-dd HH:MM:SS").
pub const TIME_LEN: usize = 17;

/// Room for one log line, in bytes.
pub const LOG_CAP: usize = 128;

/// The first `n` bytes of `s`, or all of them.
pub open spec fn clip(s: Seq<u8>, n: int) -> Seq<u8> {
    if s.len() <= n {
        s
    } else {
        s.take(n)
    }
}

/// A log line: the time stamp, the last 8 bytes of the module path, then
/// " <tag> <module path> <message>", all cut to `LOG_CAP` bytes.
pub open spec fn log_line(time: Seq<u8>, level: Level, path: Seq<char>, msg: Seq<u8>) -> Seq<u8> {
    let p = encode_utf8(path);
    clip(
        time + p.subrange(p.len() - 8, p.len() as int) + seq![32u8] + level_tag(level) + seq![32u8]
            + p + seq![32u8] + msg,
        LOG_CAP as int,
    )
}

/// A log line is never longer than `LOG_CAP` bytes and starts with the
/// time stamp.
pub proof fn law_log_line_shape(time: Seq<u8>, level: Level, path: Seq<char>, msg: Seq<u8>)
    requires
        time.len() == TIME_LEN,
        encode_utf8(path).len() >= 8,
    ensures
        log_line(time, level, path, msg).len() <= LOG_CAP,
        log_line(time, level, path, msg).take(TIME_LEN as int) == time,
{
    let p = encode_utf8(path);
    let full = time + p.subrange(p.len() - 8, p.len() as int) + seq![32u8] + level_tag(level)
        + seq![32u8] + p + seq![32u8] + msg;
    assert(full.len() >= TIME_LEN);
    assert(full.take(TIME_LEN as int) =~= time);
    assert(clip(full, LOG_CAP as int).take(TIME_LEN as int) =~= time);
}

/// Builds a log line (see `log_line`) from the time stamp, the level, the
/// module path and the formatted message. The module path must be at
/// least 8 bytes long and its last 8 bytes must start a char.
pub fn format_line(time: &[u8], level: Level, path: &str, msg: &[u8]) -> (line: Vec<u8>)
    requires
        time@.len() == TIME_LEN,
        path.spec_bytes().len() >= 8,
        is_char_boundary(path.spec_bytes(), path.spec_bytes().len() - 8),
    ensures
        line@ == log_line(time@, level, path@, msg@),
{
    let p = path.as_bytes();
    let mut full: Vec<u8> = Vec::new();
    append(&mut full, time);
    let l = p.len() - 8;
    let mut i: usize = l;
    while i < p.len()
        invariant
            l + 8 == p@.len(),
            l <= i <= p@.len(),
            full@ == time@ + p@.subrange(l as int, i as int),
        decreases p@.len() - i,
    {
        full.push(p[i]);
        i = i + 1;
        assert(p@.subrange(l as int, i as int) =~= p@.subrange(l as int, i - 1).push(p@[i - 1]));
    }
    full.push(32);
    let tag = level.tag();
    append(&mut full, tag.as_slice());
    full.push(32);
    append(&mut full, p);
    full.push(32);
    append(&mut full, msg);
    assert(full@ =~= time@ + p@.subrange(p@.len() - 8, p@.len() as int) + seq![32u8] + level_tag(level)
        + seq![32u8] + p@ + seq![32u8] + msg@);
    if full.len() > LOG_CAP {
        full.truncate(LOG_CAP);
    }
    full
}

/// Where a log line goes and how: to serial port number `console` (a
/// device index) if there is one, else to the standard output, as the
/// writes `writes` in order; then the line is handed to the handlers
/// `handlers`, in order.
pub struct LogOutput {
    pub console: Option<usize>,
    pub writes: Vec<Vec<u8>>,
    pub handlers: Vec<usize>,
}

/// A log message that is yet to be written: its level, the path of the
/// module that logs it, the message, and the console it goes to (the
/// logger's console when it was logged).
pub struct LogEntry {
    pub level: Level,
    pub path: String,
    pub msg: Vec<u8>,
    pub console: Option<usize>,
}

/// The logger: its console, if any, the number of handlers each line is
/// handed to, and the messages logged and not yet written.
pub struct Logger {
    console: Option<usize>,
    handlers: usize,
    pending: Vec<LogEntry>,
}

/// The writes that send a line: on a console, the level's attribute, the
/// line, then "\n\x1b[0m"; else the line, then "\n".
pub open spec fn log_writes(console: Option<usize>, level: Level, line: Seq<u8>) -> Seq<Seq<u8>> {
    match console {
        Some(_) => seq![level_color(level), line, seq![10u8, 27, 91, 48, 109]],
        None => seq![line, seq![10u8]],
    }
}

/// The handlers that a line is handed to: all of them, in the order they
/// were registered.
pub open spec fn all_handlers(n: nat) -> Seq<usize> {
    Seq::new(n, |i: int| i as usize)
}

impl Logger {
    /// The console that log lines go to, if any.
    pub closed spec fn console(&self) -> Option<usize> {
        self.console
    }

    /// How many handlers each line is handed to.
    pub closed spec fn handler_count(&self) -> nat {
        self.handlers as nat
    }

    /// The messages logged and not yet written, in order.
    pub closed spec fn pending(&self) -> Seq<(Level, Seq<char>, Seq<u8>, Option<usize>)> {
        self.pending@.map_values(|e: LogEntry| (e.level, e.path@, e.msg@, e.console))
    }

    /// A logger with no console, no handler and nothing to write.
    pub fn new() -> (l: Logger)
        ensures
            l.console() is None,
            l.handler_count() == 0,
            l.pending() == Seq::<(Level, Seq<char>, Seq<u8>, Option<usize>)>::empty(),
    {
        let l = Logger { console: None, handlers: 0, pending: Vec::new() };
        assert(l.pending() =~= Seq::<(Level, Seq<char>, Seq<u8>, Option<usize>)>::empty());
        l
    }

    /// Sends the log lines to serial port number `uart` from now on.
    pub fn set_console(&mut self, uart: usize)
        ensures
            final(self).console() == Some(uart),
            final(self).handler_count() == old(self).handler_count(),
            final(self).pending() == old(self).pending(),
    {
        self.console = Some(uart);
    }

    /// Registers a handler of the log lines; returns its index. Every line
    /// written from now on is handed to it, after the handlers registered
    /// before it (see `output`).
    pub fn reg(&mut self) -> (i: usize)
        requires
            old(self).handler_count() < usize::MAX,
        ensures
            i == old(self).handler_count(),
            final(self).handler_count() == old(self).handler_count() + 1,
            final(self).console() == old(self).console(),
            final(self).pending() == old(self).pending(),
    {
        let i = self.handlers;
        self.handlers = self.handlers + 1;
        i
    }

    /// The number of handlers.
    pub fn handler_len(&self) -> (n: usize)
        ensures
            n == self.handler_count(),
    {
        self.handlers
    }

    /// Logs a message of module `path` at `level`: it is to be written to
    /// the logger's present console.
    pub fn log(&mut self, level: Level, path: &str, msg: &[u8])
        ensures
            final(self).pending() == old(self).pending().push((level, path@, msg@, old(self).console())),
            final(self).console() == old(self).console(),
            final(self).handler_count() == old(self).handler_count(),
    {
        let mut m: Vec<u8> = Vec::new();
        append(&mut m, msg);
        self.pending.push(LogEntry { level, path: String::from_str(path), msg: m, console: self.console });
        assert(self.pending() =~= old(self).pending().push((level, path@, msg@, old(self).console())));
    }

    /// Takes the messages to write, in the order they were logged.
    pub fn take_pending(&mut self) -> (r: Vec<LogEntry>)
        ensures
            r@.map_values(|e: LogEntry| (e.level, e.path@, e.msg@, e.console)) == old(self).pending(),
            final(self).pending() == Seq::<(Level, Seq<char>, Seq<u8>, Option<usize>)>::empty(),
            final(self).console() == old(self).console(),
            final(self).handler_count() == old(self).handler_count(),
    {
        let mut r: Vec<LogEntry> = Vec::new();
        std::mem::swap(&mut r, &mut self.pending);
        assert(self.pending() =~= Seq::<(Level, Seq<char>, Seq<u8>, Option<usize>)>::empty());
        r
    }

    /// How a line of `level` that goes to `console` is sent (see
    /// `log_writes`), and the handlers it is then handed to: all of them,
    /// in registration order.
    pub fn output(&self, console: Option<usize>, level: Level, line: &[u8]) -> (r: LogOutput)
        ensures
            r.console == console,
            r.writes@.map_values(|w: Vec<u8>| w@) == log_writes(console, level, line@),
            r.handlers@ == all_handlers(self.handler_count()),
    {
        let mut writes: Vec<Vec<u8>> = Vec::new();
        let mut l: Vec<u8> = Vec::new();
        append(&mut l, line);
        assert(l@ =~= line@);
        match console {
            Some(_) => {
                writes.push(level.color());
                writes.push(l);
                writes.push(vec![10u8, 27, 91, 48, 109]);
                assert(writes@.map_values(|w: Vec<u8>| w@)[2] =~= seq![10u8, 27, 91, 48, 109]);
            },
            None => {
                writes.push(l);
                writes.push(vec![10u8]);
                assert(writes@.map_values(|w: Vec<u8>| w@)[1] =~= seq![10u8]);
            },
        }
        assert(writes@.map_values(|w: Vec<u8>| w@) =~= log_writes(console, level, line@));
        let mut handlers: Vec<usize> = Vec::new();
        let mut i: usize = 0;
        while i < self.handlers
            invariant
                i <= self.handlers,
                handlers@ == all_handlers(i as nat),
            decreases self.handlers - i,
        {
            handlers.push(i);
            i = i + 1;
            assert(handlers@ =~= all_handlers(i as nat));
        }
        LogOutput { console, writes, handlers }
    }
}

/// The line that the handlers are handed, as a string; it must be UTF-8.
pub fn line_text(line: &[u8]) -> (r: &str)
    requires
        valid_utf8(line@),
    ensures
        r.spec_bytes() == line@,
{
    match str_from_utf8(line) {
        Some(t) => t,
        None => "",
    }
}

} // verus!
