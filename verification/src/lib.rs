use vstd::prelude::*;
use vstd::string::*;
use vstd::utf8::*;

pub mod cli;
pub mod dev;
pub mod evq;
pub mod log;
pub mod plat;
pub mod rv;
pub mod words;

use crate::cli::{
    action_output, action_rv, after_action, char_fails, char_handled, crlf, first_cmd, is_enter,
    help_text, law_entered_words, law_line_calls_first_command, line_action, line_done, line_report,
    line_words, redraw, services_after, Action, Cli,
};
use crate::dev::gpio;
use crate::dev::gpio::dummy::Dummy;
use crate::dev::Kind;
use crate::evq::{
    after_dispatch, event_code, law_receivers, receivers, takes, EvAction, EvType, Event, Evq,
};
use crate::log::{Level, Logger};
use crate::plat::linux::{routed, Linux};
use crate::plat::Plat;
use crate::rv::Rv;
use crate::words::{byte_texts, is_word, join, MAX_PARTS};

verus! {

/// What the console commands act on: the event queue, the devices, the
/// GPIO manager, the logger, and the bytes to write to the standard
/// output, kept in order until they are taken.
pub struct Services {
    pub evq: Evq,
    pub devmgr: dev::Mgr,
    pub gpiomgr: gpio::Mgr,
    pub logger: Logger,
    pub stdout: Vec<u8>,
}

/// The battery management system: its console commands, its console,
/// what the commands act on, the platform and its GPIO pins.
pub struct System {
    pub climgr: cli::Mgr,
    pub cli: Cli,
    pub svc: Services,
    pub plat: Linux,
    pub gpios: Vec<Dummy>,
}

/// The console commands of the system, in the order `bms` registers them.
pub open spec fn bms_commands() -> Seq<(Seq<char>, Seq<char>, Action)> {
    seq![
        ("help"@, "show help"@, Action::Help),
        ("evq"@, "show event queue"@, Action::ShowEvq),
        ("dev"@, "show devices"@, Action::ShowDevs),
        ("gpio"@, "l[ist] | s[et] <name> <0|1>"@, Action::Gpio),
        ("quit"@, "bye bye"@, Action::Quit),
    ]
}

/// Each console command of the system is the one its name calls: "help"
/// is command 0, "evq" 1, "dev" 2, "gpio" 3 and "quit" 4.
pub proof fn law_bms_commands_found()
    ensures
        first_cmd(bms_commands(), "help"@, 0),
        first_cmd(bms_commands(), "evq"@, 1),
        first_cmd(bms_commands(), "dev"@, 2),
        first_cmd(bms_commands(), "gpio"@, 3),
        first_cmd(bms_commands(), "quit"@, 4),
{
    reveal_strlit("help");
    reveal_strlit("evq");
    reveal_strlit("dev");
    reveal_strlit("gpio");
    reveal_strlit("quit");
    let c = bms_commands();
    assert(c[0].0[0] == 'h' && c[1].0[0] == 'e' && c[2].0[0] == 'd');
    assert(c[3].0[0] == 'g' && c[4].0[0] == 'q');
    assert(c[0].0 != "evq"@ && c[0].0 != "dev"@ && c[0].0 != "gpio"@ && c[0].0 != "quit"@);
    assert(c[1].0 != "dev"@ && c[1].0 != "gpio"@ && c[1].0 != "quit"@);
    assert(c[2].0 != "gpio"@ && c[2].0 != "quit"@);
    assert(c[3].0 != "quit"@);
}

/// Sets the system up: the console commands "help", "evq", "dev", "gpio"
/// and "quit" (which stops the event queue); the Linux platform's devices;
/// the event handlers "plat" (every event; it hands the console the bytes
/// its serial port received) and "test" (ticks; it does nothing); a
/// console on "uart0", which also takes the log lines from then on; the
/// "Hello" that the command manager logs, to be written to the standard
/// output. The devices are not brought up yet and the event queue has
/// handed out nothing.
pub fn bms() -> (s: System)
    ensures
        s.climgr@ == bms_commands(),
        s.svc.evq@ == seq![(0u8, "plat"@, 0u32), (1u8, "test"@, 0u32)],
        s.svc.evq.actions() == seq![EvAction::Console, EvAction::Idle],
        s.svc.evq.runs(),
        s.svc.devmgr@ == seq![
            ("backlight"@, Kind::Gpio, Rv::ErrNotReady),
            ("charge"@, Kind::Gpio, Rv::ErrNotReady),
            ("discharge"@, Kind::Gpio, Rv::ErrNotReady),
            ("uart0"@, Kind::Uart, Rv::ErrNotReady),
        ],
        s.plat.layout().console == Some(3usize),
        s.plat.layout().devs.gpio.backlight == 0,
        s.plat.layout().devs.gpio.charge == 1,
        s.plat.layout().devs.gpio.discharge == 2,
        s.plat.layout().devs.uart.uart0 == 3,
        s.gpios@.len() == 3,
        s.gpios@[0].name() == "backlight"@ && s.gpios@[0].pin_number() == 13,
        s.gpios@[1].name() == "charge"@ && s.gpios@[1].pin_number() == 28,
        s.gpios@[2].name() == "discharge"@ && s.gpios@[2].pin_number() == 5,
        s.cli.wf(),
        s.cli.line() == Seq::<u8>::empty(),
        s.cli.pos() == 0,
        s.cli.escape() == 0,
        s.cli.output() == Seq::<u8>::empty(),
        s.svc.stdout@ == Seq::<u8>::empty(),
        s.svc.logger.console() == Some(3usize),
        s.svc.logger.handler_count() == 0,
        s.svc.logger.pending() == seq![
            (Level::Inf, "linux::bms::cli"@, seq![72u8, 101, 108, 108, 111], None::<usize>),
        ],
{
    let mut logger = Logger::new();
    let mut climgr = cli::Mgr::new(&mut logger);
    let mut evq = Evq::new(&mut climgr);
    let mut devmgr = dev::Mgr::new(&mut climgr);
    let gpiomgr = gpio::Mgr::new(&mut climgr);
    let (plat, gpios) = plat::linux::new(&mut evq, &mut devmgr);
    let cli = climgr.add_cli();
    let console = plat.console();
    if let Some(c) = console {
        logger.set_console(c);
    }
    climgr.reg("quit", "bye bye", Action::Quit);
    let uart0 = plat.devs().uart.uart0;
    logger.set_console(uart0);
    evq.reg_filter("test", EvType::Tick1Hz, EvAction::Idle);
    let svc = Services { evq, devmgr, gpiomgr, logger, stdout: Vec::new() };
    assert(svc.stdout@ =~= Seq::<u8>::empty());
    System { climgr, cli, svc, plat, gpios }
}

/// `b` is system `a` with nothing changed: the same commands, console,
/// services, platform and pins.
pub open spec fn same_system(a: System, b: System) -> bool {
    &&& b.climgr@ == a.climgr@
    &&& b.plat.layout() == a.plat.layout()
    &&& b.gpios@ == a.gpios@
    &&& b.cli.line() == a.cli.line()
    &&& b.cli.pos() == a.cli.pos()
    &&& b.cli.escape() == a.cli.escape()
    &&& b.cli.output() == a.cli.output()
    &&& services_after(
        a.svc,
        b.svc,
        a.svc.evq.runs(),
        Seq::<u8>::empty(),
        Seq::<(Level, Seq<char>, Seq<u8>, Option<usize>)>::empty(),
    )
}

/// `b` is system `a` after its console took byte `c` (see
/// `char_handled`); the commands, the platform and its pins stay as they
/// were. `displays[i]` and `states[i]` are device `i`'s own description
/// and pin state.
pub open spec fn byte_taken(a: System, c: u8, b: System, displays: Seq<Seq<u8>>, states: Seq<bool>) -> bool {
    &&& b.climgr@ == a.climgr@
    &&& b.plat.layout() == a.plat.layout()
    &&& b.gpios@ == a.gpios@
    &&& char_handled(a.climgr@, a.cli, a.svc, c, displays, states, b.cli, b.svc)
}

/// `b` is system `a` after its console took the bytes `bytes`, in order.
pub open spec fn bytes_taken(
    a: System,
    bytes: Seq<u8>,
    b: System,
    displays: Seq<Seq<u8>>,
    states: Seq<bool>,
) -> bool
    decreases bytes.len(),
{
    if bytes.len() == 0 {
        same_system(a, b)
    } else {
        exists|m: System|
            bytes_taken(a, bytes.drop_last(), m, displays, states) && #[trigger] byte_taken(
                m,
                bytes.last(),
                b,
                displays,
                states,
            )
    }
}

/// `b` is system `a` after its event queue handed out an event of type
/// code `e` (see `after_dispatch`); nothing else changed.
pub open spec fn dispatched(a: System, e: u8, b: System) -> bool {
    &&& b.climgr@ == a.climgr@
    &&& b.plat.layout() == a.plat.layout()
    &&& b.gpios@ == a.gpios@
    &&& b.cli.line() == a.cli.line()
    &&& b.cli.pos() == a.cli.pos()
    &&& b.cli.escape() == a.cli.escape()
    &&& b.cli.output() == a.cli.output()
    &&& after_dispatch(a.svc.evq, e, b.svc.evq)
    &&& b.svc.devmgr@ == a.svc.devmgr@
    &&& b.svc.stdout@ == a.svc.stdout@
    &&& b.svc.logger.pending() == a.svc.logger.pending()
    &&& b.svc.logger.console() == a.svc.logger.console()
    &&& b.svc.logger.handler_count() == a.svc.logger.handler_count()
}

/// The bytes that the handlers `rs` (indices into `actions`), in order,
/// hand the console: `bytes` for each one that serves the console.
pub open spec fn console_feed(rs: Seq<usize>, actions: Seq<EvAction>, bytes: Seq<u8>) -> Seq<u8>
    decreases rs.len(),
{
    if rs.len() == 0 {
        Seq::<u8>::empty()
    } else {
        console_feed(rs.drop_last(), actions, bytes) + if actions[rs.last() as int]
            == EvAction::Console {
            bytes
        } else {
            Seq::<u8>::empty()
        }
    }
}

/// What the handlers of an event hand the console, in order, splits at
/// any handler into what the ones before it and the ones from it on hand.
proof fn lemma_feed_split(rs: Seq<usize>, actions: Seq<EvAction>, bytes: Seq<u8>, k: int)
    requires
        0 <= k <= rs.len(),
    ensures
        console_feed(rs, actions, bytes) == console_feed(rs.take(k), actions, bytes) + console_feed(
            rs.skip(k),
            actions,
            bytes,
        ),
    decreases rs.len(),
{
    if k == rs.len() {
        assert(rs.take(k) =~= rs);
        assert(rs.skip(k) =~= Seq::<usize>::empty());
        assert(console_feed(rs, actions, bytes) + Seq::<u8>::empty() =~= console_feed(rs, actions, bytes));
    } else {
        let p = rs.drop_last();
        lemma_feed_split(p, actions, bytes, k);
        assert(p.take(k) =~= rs.take(k));
        assert(rs.skip(k).drop_last() =~= p.skip(k));
        assert(rs.skip(k).last() == rs.last());
        assert(console_feed(rs, actions, bytes) =~= console_feed(rs.take(k), actions, bytes)
            + console_feed(rs.skip(k), actions, bytes));
    }
}

/// An event that brings the console no bytes (a tick, or bytes from
/// another serial port) hands the console nothing, whichever handlers it
/// goes to.
pub proof fn law_quiet_event(rs: Seq<usize>, actions: Seq<EvAction>)
    ensures
        console_feed(rs, actions, Seq::<u8>::empty()) == Seq::<u8>::empty(),
    decreases rs.len(),
{
    if rs.len() > 0 {
        law_quiet_event(rs.drop_last(), actions);
        assert(Seq::<u8>::empty() + Seq::<u8>::empty() =~= Seq::<u8>::empty());
    }
}

/// A byte that the console took keeps what its later bytes rely on: the
/// console stays well formed, and the event handlers and the devices stay
/// as they were.
proof fn lemma_byte_keeps(a: System, c: u8, b: System, displays: Seq<Seq<u8>>, states: Seq<bool>)
    requires
        byte_taken(a, c, b, displays, states),
    ensures
        b.cli.wf(),
        b.svc.evq@ == a.svc.evq@,
        b.svc.evq.actions() == a.svc.evq.actions(),
        b.svc.devmgr@ == a.svc.devmgr@,
        b.plat.layout() == a.plat.layout(),
{
    if is_enter(a.cli.escape(), c) {
        let w = line_words(decode_utf8(a.cli.line()));
        match line_action(a.climgr@, w) {
            Some(x) => {},
            None => {},
        }
    }
}

/// Entering a line of words separated by single spaces runs the first
/// command named like the first word, with the other words as its
/// arguments: the console sends "\r\n", what the command sends, ": <rv>\n"
/// if it fails, "> " and the empty line; the services are those after the
/// command (so "quit" stops the event queue).
pub proof fn law_entered_command(
    a: System,
    c: u8,
    b: System,
    ws: Seq<Seq<char>>,
    i: int,
    displays: Seq<Seq<u8>>,
    states: Seq<bool>,
)
    requires
        byte_taken(a, c, b, displays, states),
        is_enter(a.cli.escape(), c),
        a.cli.line() == encode_utf8(join(ws)),
        0 < ws.len() <= MAX_PARTS,
        forall|j: int| 0 <= j < ws.len() ==> is_word(#[trigger] ws[j]),
        is_ascii_chars(join(ws)),
        first_cmd(a.climgr@, ws[0], i),
    ensures
        b.cli.output() == a.cli.output() + crlf() + action_output(
            a.climgr@[i].2,
            a.climgr@,
            ws.drop_first(),
            a.svc.devmgr@,
            displays,
            states,
        ) + line_report(ws.len(), action_rv(a.climgr@[i].2, ws.drop_first())) + line_done() + redraw(
            Seq::<u8>::empty(),
            0,
        ),
        after_action(a.climgr@[i].2, ws.drop_first(), a.svc, b.svc),
        b.cli.line() == Seq::<u8>::empty(),
        b.cli.pos() == 0,
{
    law_entered_words(ws);
    law_line_calls_first_command(a.climgr@, ws, i);
}

/// In a system with the commands that `bms` sets up, entering "quit"
/// stops the event queue, and entering "help" sends the list of the
/// commands; either way the console sends "\r\n" first and "> " and the
/// empty line last.
pub proof fn law_quit_and_help(a: System, c: u8, b: System, displays: Seq<Seq<u8>>, states: Seq<bool>)
    requires
        a.climgr@ == bms_commands(),
        byte_taken(a, c, b, displays, states),
        is_enter(a.cli.escape(), c),
    ensures
        a.cli.line() == encode_utf8("quit"@) ==> !b.svc.evq.runs() && b.cli.output() == a.cli.output()
            + crlf() + line_done() + redraw(Seq::<u8>::empty(), 0),
        a.cli.line() == encode_utf8("help"@) ==> b.svc.evq.runs() == a.svc.evq.runs()
            && b.cli.output() == a.cli.output() + crlf() + help_text(bms_commands()) + line_done()
            + redraw(Seq::<u8>::empty(), 0),
{
    law_bms_commands_found();
    reveal_strlit("quit");
    reveal_strlit("help");
    if a.cli.line() == encode_utf8("quit"@) {
        let ws = seq!["quit"@];
        assert(is_word(ws[0]));
        assert(join(ws) == "quit"@);
        assert(is_ascii_chars(join(ws)));
        law_entered_command(a, c, b, ws, 4, displays, states);
        assert(a.cli.output() + crlf() + Seq::<u8>::empty() + Seq::<u8>::empty() =~= a.cli.output()
            + crlf());
    }
    if a.cli.line() == encode_utf8("help"@) {
        let ws = seq!["help"@];
        assert(is_word(ws[0]));
        assert(join(ws) == "help"@);
        assert(is_ascii_chars(join(ws)));
        law_entered_command(a, c, b, ws, 0, displays, states);
        assert(help_text(bms_commands()) + Seq::<u8>::empty() =~= help_text(bms_commands()));
    }
}

impl System {
    /// Hands the console one byte from its serial port (see
    /// `Cli::handle_char`). `displays[i]` and `states[i]` are device `i`'s
    /// own description and pin state.
    pub fn handle_byte(&mut self, c: u8, displays: &Vec<Vec<u8>>, states: &Vec<bool>)
        requires
            old(self).cli.wf(),
            !char_fails(old(self).cli.line(), old(self).cli.pos(), old(self).cli.escape(), c),
            displays@.len() == old(self).svc.devmgr@.len(),
            states@.len() == old(self).svc.devmgr@.len(),
        ensures
            byte_taken(*old(self), c, *final(self), byte_texts(displays@), states@),
    {
        self.cli.handle_char(c, &self.climgr, &mut self.svc, displays, states);
    }

    /// The system's step for one event: the event queue hands it to its
    /// handlers (see `Evq::dispatch`); each one that serves the console
    /// hands the console, one by one, the bytes that the console's serial
    /// port received (see `routed`). Returns `false`, and stops there, at
    /// a byte that the console cannot take (see `char_fails`).
    /// `displays[i]` and `states[i]` are device `i`'s own description and
    /// pin state.
    pub fn handle_event(&mut self, ev: &Event, displays: &Vec<Vec<u8>>, states: &Vec<bool>) -> (r: bool)
        requires
            old(self).cli.wf(),
            ev matches Event::Uart { len, .. } ==> len <= 8,
            forall|j: int|
                0 <= j < old(self).svc.evq@.len() && takes(
                    #[trigger] old(self).svc.evq@[j].0,
                    event_code(*ev),
                ) ==> old(self).svc.evq@[j].2 < u32::MAX,
            displays@.len() == old(self).svc.devmgr@.len(),
            states@.len() == old(self).svc.devmgr@.len(),
        ensures
            final(self).cli.wf(),
            exists|m: System|
                #[trigger] dispatched(*old(self), event_code(*ev), m) && ({
                    let feed = console_feed(
                        receivers(old(self).svc.evq@, event_code(*ev)),
                        old(self).svc.evq.actions(),
                        routed(*ev, old(self).plat.layout().devs.uart.uart0),
                    );
                    &&& r ==> bytes_taken(m, feed, *final(self), byte_texts(displays@), states@)
                    &&& !r ==> exists|n: int|
                        0 <= n < feed.len() && #[trigger] bytes_taken(
                            m,
                            feed.take(n),
                            *final(self),
                            byte_texts(displays@),
                            states@,
                        ) && char_fails(
                            final(self).cli.line(),
                            final(self).cli.pos(),
                            final(self).cli.escape(),
                            feed[n],
                        )
                }),
    {
        let ghost texts = byte_texts(displays@);
        let ghost e = event_code(*ev);
        let _ = self.svc.evq.len();
        let rs = self.svc.evq.dispatch(ev);
        let _ = self.svc.evq.len();
        let ghost m = *self;
        let ghost acts = self.svc.evq.actions();
        proof {
            law_receivers(old(self).svc.evq@, e);
            assert(dispatched(*old(self), e, m));
        }
        let bytes = self.plat.route(ev);
        let ghost feed = console_feed(rs@, acts, bytes@);
        let ghost mut fed: Seq<u8> = Seq::<u8>::empty();
        proof {
            assert(rs@.take(0) =~= Seq::<usize>::empty());
            assert(m.svc.stdout@ + Seq::<u8>::empty() =~= m.svc.stdout@);
            assert(m.svc.logger.pending() + Seq::<(Level, Seq<char>, Seq<u8>, Option<usize>)>::empty()
                =~= m.svc.logger.pending());
            assert(bytes_taken(m, fed, *self, texts, states@));
        }
        let mut k: usize = 0;
        while k < rs.len()
            invariant
                dispatched(*old(self), e, m),
                e == event_code(*ev),
                rs@ == receivers(old(self).svc.evq@, e),
                acts == old(self).svc.evq.actions(),
                bytes@ == routed(*ev, old(self).plat.layout().devs.uart.uart0),
                k <= rs@.len(),
                forall|t: int| 0 <= t < rs@.len() ==> #[trigger] rs@[t] < m.svc.evq@.len(),
                m.svc.evq@.len() == acts.len(),
                texts == byte_texts(displays@),
                feed == console_feed(rs@, acts, bytes@),
                fed == console_feed(rs@.take(k as int), acts, bytes@),
                bytes_taken(m, fed, *self, texts, states@),
                self.cli.wf(),
                self.svc.evq@ == m.svc.evq@,
                self.svc.evq.actions() == acts,
                self.svc.devmgr@ == m.svc.devmgr@,
                displays@.len() == m.svc.devmgr@.len(),
                states@.len() == m.svc.devmgr@.len(),
            decreases rs@.len() - k,
        {
            let i = rs[k];
            proof {
                assert(rs@.take(k + 1).drop_last() =~= rs@.take(k as int));
                assert(rs@.take(k + 1).last() == rs@[k as int]);
            }
            if self.svc.evq.action(i) == EvAction::Console {
                let mut j: usize = 0;
                while j < bytes.len()
                    invariant
                        dispatched(*old(self), e, m),
                        e == event_code(*ev),
                        rs@ == receivers(old(self).svc.evq@, e),
                        acts == old(self).svc.evq.actions(),
                        bytes@ == routed(*ev, old(self).plat.layout().devs.uart.uart0),
                        forall|t: int| 0 <= t < rs@.len() ==> #[trigger] rs@[t] < m.svc.evq@.len(),
                        m.svc.evq@.len() == acts.len(),
                        j <= bytes@.len(),
                        k < rs@.len(),
                        i == rs@[k as int],
                        acts[i as int] == EvAction::Console,
                        texts == byte_texts(displays@),
                        feed == console_feed(rs@, acts, bytes@),
                        fed == console_feed(rs@.take(k as int), acts, bytes@),
                        console_feed(rs@.take(k + 1), acts, bytes@) == fed + bytes@,
                        bytes_taken(m, fed + bytes@.take(j as int), *self, texts, states@),
                        self.cli.wf(),
                        self.svc.evq@ == m.svc.evq@,
                        self.svc.evq.actions() == acts,
                        self.svc.devmgr@ == m.svc.devmgr@,
                        displays@.len() == m.svc.devmgr@.len(),
                        states@.len() == m.svc.devmgr@.len(),
                    decreases bytes@.len() - j,
                {
                    let c = bytes[j];
                    if !self.cli.takes_key(c) {
                        proof {
                            let n = fed.len() + j;
                            lemma_feed_split(rs@, acts, bytes@, k + 1);
                            assert(feed.take(n as int) =~= fed + bytes@.take(j as int));
                            assert(feed[n as int] == c);
                            assert(bytes_taken(m, feed.take(n as int), *self, texts, states@));
                        }
                        return false;
                    }
                    let ghost prev = *self;
                    self.handle_byte(c, displays, states);
                    proof {
                        lemma_byte_keeps(prev, c, *self, texts, states@);
                        let s1 = fed + bytes@.take(j + 1);
                        assert(s1.drop_last() =~= fed + bytes@.take(j as int));
                        assert(s1.last() == c);
                        assert(byte_taken(prev, s1.last(), *self, texts, states@));
                        assert(bytes_taken(m, s1, *self, texts, states@));
                    }
                    j = j + 1;
                }
                proof {
                    assert(bytes@.take(j as int) =~= bytes@);
                    fed = fed + bytes@;
                }
            } else {
                proof {
                    assert(console_feed(rs@.take(k + 1), acts, bytes@) =~= fed);
                }
            }
            k = k + 1;
        }
        proof {
            assert(rs@.take(k as int) =~= rs@);
        }
        true
    }
}

} // verus!
