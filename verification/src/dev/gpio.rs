use vstd::prelude::*;

use crate::cli;
use crate::cli::{bounded, Cli};
use crate::dev;
use crate::dev::{Dev, Kind};
use crate::log::{Level, Logger};
use crate::rv::Rv;
use crate::words::{append, byte_texts, str_eq, views};

pub mod dummy;

verus! {

/// A general purpose I/O pin.
pub trait Gpio: Dev {
    /// Drives the pin high (`true`) or low.
    fn set(&mut self, state: bool) -> Rv;

    /// The pin's state.
    fn get(&self) -> bool;
}

/// The GPIO manager: it serves the console command "gpio".
pub struct Mgr {}

/// What a "gpio" command line asks for.
pub enum GpioCommand {
    /// "list" or "l": the indices of the GPIO devices, in order.
    List(Vec<usize>),
    /// "set <name> <state>" or "s <name> <state>": the first device with
    /// that name, if any.
    SetPin(Option<usize>),
    /// Anything else.
    Unknown,
}

/// "unknown command\n".
pub open spec fn unknown_command() -> Seq<u8> {
    seq![117u8, 110, 107, 110, 111, 119, 110, 32, 99, 111, 109, 109, 97, 110, 100, 10]
}

/// The arguments are "list" or "l".
pub open spec fn is_list(args: Seq<Seq<char>>) -> bool {
    args.len() == 1 && (args[0] == "list"@ || args[0] == "l"@)
}

/// The arguments are "set" or "s", then a name and a state.
pub open spec fn is_set(args: Seq<Seq<char>>) -> bool {
    args.len() == 3 && (args[0] == "set"@ || args[0] == "s"@)
}

/// The indices of the devices of `devs` that are GPIO pins, in order.
pub open spec fn gpio_indices(devs: Seq<(Seq<char>, Kind, Rv)>) -> Seq<usize>
    decreases devs.len(),
{
    if devs.len() == 0 {
        Seq::<usize>::empty()
    } else if devs.last().1 == Kind::Gpio {
        gpio_indices(devs.drop_last()).push((devs.len() - 1) as usize)
    } else {
        gpio_indices(devs.drop_last())
    }
}

/// The indices of the GPIO devices are indices of devices.
proof fn lemma_gpio_indices_bounded(devs: Seq<(Seq<char>, Kind, Rv)>)
    requires
        devs.len() <= usize::MAX,
    ensures
        forall|t: int|
            0 <= t < gpio_indices(devs).len() ==> #[trigger] gpio_indices(devs)[t] < devs.len(),
    decreases devs.len(),
{
    if devs.len() > 0 {
        let p = devs.drop_last();
        lemma_gpio_indices_bounded(p);
        let g = gpio_indices(p);
        if devs.last().1 == Kind::Gpio {
            assert forall|t: int| 0 <= t < g.len() + 1 implies #[trigger] g.push(
                (devs.len() - 1) as usize,
            )[t] < devs.len() by {
                if t < g.len() {
                    assert(g.push((devs.len() - 1) as usize)[t] == g[t]);
                }
            }
        }
    }
}

/// "true" or "false".
pub open spec fn bool_text(b: bool) -> Seq<u8> {
    if b {
        seq![116u8, 114, 117, 101]
    } else {
        seq![102u8, 97, 108, 115, 101]
    }
}

/// What "gpio list" sends: for each GPIO device `i`, in order,
/// "<display> <state>\n" through the console's message buffer.
pub open spec fn gpio_listing(idx: Seq<usize>, displays: Seq<Seq<u8>>, states: Seq<bool>) -> Seq<u8>
    decreases idx.len(),
{
    if idx.len() == 0 {
        Seq::<u8>::empty()
    } else {
        let i = idx.last() as int;
        gpio_listing(idx.drop_last(), displays, states) + bounded(
            displays[i] + seq![32u8] + bool_text(states[i]) + seq![10u8],
        )
    }
}

/// "gpio list" sends one line per listed device, in order: listing the
/// devices `a` and then `b` sends what listing `a` sends and then what
/// listing `b` sends, and the line of device `i` carries device `i`'s own
/// description and its own state ("true" or "false").
pub proof fn law_gpio_listing_lines(
    a: Seq<usize>,
    b: Seq<usize>,
    i: usize,
    displays: Seq<Seq<u8>>,
    states: Seq<bool>,
)
    ensures
        gpio_listing(a + b, displays, states) == gpio_listing(a, displays, states) + gpio_listing(
            b,
            displays,
            states,
        ),
        gpio_listing(seq![i], displays, states) == bounded(
            displays[i as int] + seq![32u8] + bool_text(states[i as int]) + seq![10u8],
        ),
        bool_text(true) == seq![116u8, 114, 117, 101],
        bool_text(false) == seq![102u8, 97, 108, 115, 101],
    decreases b.len(),
{
    if b.len() == 0 {
        assert(a + b =~= a);
        assert(gpio_listing(a, displays, states) + Seq::<u8>::empty() =~= gpio_listing(a, displays, states));
    } else {
        law_gpio_listing_lines(a, b.drop_last(), i, displays, states);
        assert((a + b).drop_last() =~= a + b.drop_last());
        assert((a + b).last() == b.last());
        assert(gpio_listing(a + b, displays, states) =~= gpio_listing(a, displays, states)
            + gpio_listing(b, displays, states));
    }
    let one: Seq<usize> = seq![i];
    assert(one.drop_last() =~= Seq::<usize>::empty());
    assert(one.last() == i);
    assert(gpio_listing(Seq::<usize>::empty(), displays, states) == Seq::<u8>::empty());
    assert(gpio_listing(one, displays, states) == gpio_listing(one.drop_last(), displays, states)
        + bounded(displays[i as int] + seq![32u8] + bool_text(states[i as int]) + seq![10u8]));
    assert(Seq::<u8>::empty() + bounded(
        displays[i as int] + seq![32u8] + bool_text(states[i as int]) + seq![10u8],
    ) =~= bounded(displays[i as int] + seq![32u8] + bool_text(states[i as int]) + seq![10u8]));
}

/// The devices that "gpio list" lists are exactly the GPIO devices, each
/// once, in the order they were added.
pub proof fn law_gpio_indices(devs: Seq<(Seq<char>, Kind, Rv)>)
    requires
        devs.len() <= usize::MAX,
    ensures
        forall|t: int|
            0 <= t < gpio_indices(devs).len() ==> #[trigger] gpio_indices(devs)[t] < devs.len()
                && devs[gpio_indices(devs)[t] as int].1 == Kind::Gpio,
        forall|k: int, l: int|
            0 <= k < l < gpio_indices(devs).len() ==> #[trigger] gpio_indices(devs)[k]
                < #[trigger] gpio_indices(devs)[l],
        forall|j: int|
            0 <= j < devs.len() && (#[trigger] devs[j]).1 == Kind::Gpio ==> gpio_indices(
                devs,
            ).contains(j as usize),
    decreases devs.len(),
{
    if devs.len() > 0 {
        let p = devs.drop_last();
        law_gpio_indices(p);
        let g = gpio_indices(p);
        let n = devs.len() - 1;
        assert forall|t: int| 0 <= t < g.len() implies #[trigger] devs[g[t] as int] == p[g[t] as int] by {}
        if devs.last().1 == Kind::Gpio {
            let r = g.push(n as usize);
            assert(gpio_indices(devs) == r);
            assert forall|t: int| 0 <= t < r.len() implies #[trigger] r[t] < devs.len() && devs[r[t] as int].1
                == Kind::Gpio by {
                if t < g.len() {
                    assert(r[t] == g[t]);
                }
            }
            assert forall|k: int, l: int| 0 <= k < l < r.len() implies #[trigger] r[k] < #[trigger] r[l] by {
                assert(r[k] == g[k]);
                if l < g.len() {
                    assert(r[l] == g[l]);
                }
            }
            assert forall|j: int| 0 <= j < devs.len() && (#[trigger] devs[j]).1 == Kind::Gpio implies r.contains(
                j as usize,
            ) by {
                if j < n {
                    assert(devs[j] == p[j]);
                    let k = choose|k: int| 0 <= k < g.len() && g[k] == j as usize;
                    assert(r[k] == g[k]);
                } else {
                    assert(r[r.len() - 1] == n as usize);
                }
            }
        } else {
            assert forall|j: int| 0 <= j < devs.len() && (#[trigger] devs[j]).1 == Kind::Gpio implies g.contains(
                j as usize,
            ) by {
                assert(j < n);
                assert(devs[j] == p[j]);
            }
        }
    }
}

/// What the "gpio" command sends for the arguments `args`: for "list",
/// a line per GPIO device (see `gpio_listing`); for "set", nothing; for
/// anything else, "unknown command\n".
pub open spec fn gpio_output(
    args: Seq<Seq<char>>,
    devs: Seq<(Seq<char>, Kind, Rv)>,
    displays: Seq<Seq<u8>>,
    states: Seq<bool>,
) -> Seq<u8> {
    if is_list(args) {
        gpio_listing(gpio_indices(devs), displays, states)
    } else if is_set(args) {
        Seq::<u8>::empty()
    } else {
        bounded(unknown_command())
    }
}

/// The result code of the "gpio" command: `ErrInval` for arguments that
/// are neither "list" nor "set".
pub open spec fn gpio_rv(args: Seq<Seq<char>>) -> Rv {
    if is_list(args) || is_set(args) {
        Rv::Success
    } else {
        Rv::ErrInval
    }
}

/// "found dev".
pub open spec fn found_dev() -> Seq<u8> {
    seq![102u8, 111, 117, 110, 100, 32, 100, 101, 118]
}

/// What the "gpio" command logs: "found dev" at level `Tst`, to the
/// logger's console `console`, for a "set" of a device that exists.
pub open spec fn gpio_logs(
    args: Seq<Seq<char>>,
    devs: Seq<(Seq<char>, Kind, Rv)>,
    console: Option<usize>,
) -> Seq<(Level, Seq<char>, Seq<u8>, Option<usize>)> {
    if is_set(args) && dev::has_dev(devs, args[1]) {
        seq![(Level::Tst, "linux::bms::dev::gpio"@, found_dev(), console)]
    } else {
        Seq::<(Level, Seq<char>, Seq<u8>, Option<usize>)>::empty()
    }
}

impl GpioCommand {
    /// The result code of the command: `ErrInval` for an unknown one.
    pub open spec fn rv_spec(&self) -> Rv {
        if self is Unknown {
            Rv::ErrInval
        } else {
            Rv::Success
        }
    }

    /// The result code of the command: `ErrInval` for an unknown one.
    pub fn rv(&self) -> (r: Rv)
        ensures
            r == self.rv_spec(),
    {
        match self {
            GpioCommand::Unknown => Rv::ErrInval,
            _ => Rv::Success,
        }
    }
}

impl Mgr {
    /// The GPIO manager; registers the console command "gpio".
    pub fn new(climgr: &mut cli::Mgr) -> (m: Mgr)
        ensures
            final(climgr)@ == old(climgr)@.push(
                ("gpio"@, "l[ist] | s[et] <name> <0|1>"@, cli::Action::Gpio),
            ),
    {
        climgr.reg("gpio", "l[ist] | s[et] <name> <0|1>", cli::Action::Gpio);
        Mgr {}
    }

    /// Performs a "gpio" command line. "list" sends a line per GPIO device
    /// with its description (`displays[i]`) and state (`states[i]`); "set"
    /// finds the named device and, if there is one, logs "found dev" at
    /// level `Tst` (the pin is left as it is); an unknown command sends
    /// "unknown command\n".
    pub fn command(
        &self,
        cli: &mut Cli,
        devmgr: &dev::Mgr,
        displays: &Vec<Vec<u8>>,
        states: &Vec<bool>,
        logger: &mut Logger,
        args: &[&str],
    ) -> (r: GpioCommand)
        requires
            displays@.len() == devmgr@.len(),
            states@.len() == devmgr@.len(),
        ensures
            is_list(args@.map_values(|a: &str| a@)) ==> (r matches GpioCommand::List(v) && v@
                == gpio_indices(devmgr@)),
            is_set(args@.map_values(|a: &str| a@)) ==> (r matches GpioCommand::SetPin(found) && (
            found is Some <==> dev::has_dev(devmgr@, args@[1]@)) && (found matches Some(i)
                ==> dev::first_dev(devmgr@, args@[1]@, i as int))),
            !is_list(args@.map_values(|a: &str| a@)) && !is_set(args@.map_values(|a: &str| a@))
                ==> r is Unknown,
            final(cli).output() == old(cli).output() + (match r {
                GpioCommand::Unknown => bounded(unknown_command()),
                GpioCommand::List(v) => gpio_listing(
                    v@,
                    displays@.map_values(|d: Vec<u8>| d@),
                    states@,
                ),
                GpioCommand::SetPin(_) => Seq::<u8>::empty(),
            }),
            final(cli).line() == old(cli).line(),
            final(cli).pos() == old(cli).pos(),
            final(cli).escape() == old(cli).escape(),
            final(logger).pending() == (if r matches GpioCommand::SetPin(Some(_)) {
                old(logger).pending().push(
                    (
                        Level::Tst,
                        "linux::bms::dev::gpio"@,
                        seq![102u8, 111, 117, 110, 100, 32, 100, 101, 118],
                        old(logger).console(),
                    ),
                )
            } else {
                old(logger).pending()
            }),
            final(logger).console() == old(logger).console(),
            final(logger).handler_count() == old(logger).handler_count(),
            final(cli).output() == old(cli).output() + gpio_output(
                views(args@),
                devmgr@,
                byte_texts(displays@),
                states@,
            ),
            final(logger).pending() == old(logger).pending() + gpio_logs(
                views(args@),
                devmgr@,
                old(logger).console(),
            ),
            r.rv_spec() == gpio_rv(views(args@)),
    {
        let ghost a = args@.map_values(|a: &str| a@);
        if args.len() == 1 && (str_eq(args[0], "list") || str_eq(args[0], "l")) {
            assert(is_list(a));
            let mut v: Vec<usize> = Vec::new();
            let n = devmgr.len();
            let mut i: usize = 0;
            while i < n
                invariant
                    n == devmgr@.len(),
                    i <= n,
                    v@ == gpio_indices(devmgr@.take(i as int)),
                decreases n - i,
            {
                let (_, kind, _) = devmgr.info(i);
                assert(devmgr@.take(i + 1).drop_last() =~= devmgr@.take(i as int));
                if kind == Kind::Gpio {
                    v.push(i);
                }
                i = i + 1;
            }
            assert(devmgr@.take(n as int) =~= devmgr@);
            proof {
                lemma_gpio_indices_bounded(devmgr@);
            }
            let ghost texts = displays@.map_values(|d: Vec<u8>| d@);
            let ghost start = cli.output();
            let mut k: usize = 0;
            while k < v.len()
                invariant
                    k <= v@.len(),
                    v@ == gpio_indices(devmgr@),
                    forall|t: int| 0 <= t < v@.len() ==> #[trigger] v@[t] < devmgr@.len(),
                    displays@.len() == devmgr@.len(),
                    states@.len() == devmgr@.len(),
                    texts == displays@.map_values(|d: Vec<u8>| d@),
                    cli.output() == start + gpio_listing(v@.take(k as int), texts, states@),
                    cli.line() == old(cli).line(),
                    cli.pos() == old(cli).pos(),
                    cli.escape() == old(cli).escape(),
                decreases v@.len() - k,
            {
                let i = v[k];
                let mut msg: Vec<u8> = Vec::new();
                append(&mut msg, displays[i].as_slice());
                msg.push(32);
                if states[i] {
                    msg.push(116);
                    msg.push(114);
                    msg.push(117);
                    msg.push(101);
                } else {
                    msg.push(102);
                    msg.push(97);
                    msg.push(108);
                    msg.push(115);
                    msg.push(101);
                }
                msg.push(10);
                assert(msg@ =~= texts[i as int] + seq![32u8] + bool_text(states@[i as int]) + seq![10u8]);
                cli.printf(&msg);
                k = k + 1;
                assert(v@.take(k as int).drop_last() =~= v@.take(k - 1));
            }
            assert(v@.take(k as int) =~= v@);
            assert(logger.pending() =~= old(logger).pending() + gpio_logs(a, devmgr@, old(logger).console()));
            return GpioCommand::List(v);
        }
        if args.len() == 3 && (str_eq(args[0], "set") || str_eq(args[0], "s")) {
            assert(is_set(a));
            let found = devmgr.find_by_name(args[1]);
            if found.is_some() {
                let msg: [u8; 9] = [102u8, 111, 117, 110, 100, 32, 100, 101, 118];
                assert(msg@ =~= seq![102u8, 111, 117, 110, 100, 32, 100, 101, 118]);
                logger.log(Level::Tst, "linux::bms::dev::gpio", &msg);
            }
            assert(cli.output() =~= old(cli).output() + Seq::<u8>::empty());
            assert(logger.pending() =~= old(logger).pending() + gpio_logs(a, devmgr@, old(logger).console()));
            return GpioCommand::SetPin(found);
        }
        assert(!is_list(a) && !is_set(a));
        let msg: Vec<u8> = vec![117u8, 110, 107, 110, 111, 119, 110, 32, 99, 111, 109, 109, 97, 110, 100, 10];
        cli.printf(&msg);
        assert(logger.pending() =~= old(logger).pending() + gpio_logs(a, devmgr@, old(logger).console()));
        GpioCommand::Unknown
    }
}

} // verus!
