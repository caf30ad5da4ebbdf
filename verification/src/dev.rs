use vstd::prelude::*;
use vstd::string::*;
use vstd::utf8::*;

use crate::cli;
use crate::cli::{bounded, Cli};
use crate::log::{Level, Logger};
use crate::rv::{rv_name, Rv};
use crate::words::{append, str_eq};

pub mod gpio;
pub mod uart;

verus! {

broadcast use vstd::utf8::group_utf8_lib;

/// The kind of a device.
#[derive(Debug, PartialEq, Eq, Structural, Clone, Copy)]
pub enum Kind {
    Gpio,
    Uart,
}

/// The name of a device kind as the console prints it: "gpio" or "uart".
pub open spec fn kind_name(k: Kind) -> Seq<u8> {
    match k {
        Kind::Gpio => seq![103u8, 112, 105, 111],
        Kind::Uart => seq![117u8, 97, 114, 116],
    }
}

impl Kind {
    /// The bytes of the kind's name.
    pub fn name(&self) -> (r: Vec<u8>)
        ensures
            r@ == kind_name(*self),
    {
        match self {
            Kind::Gpio => vec![103u8, 112, 105, 111],
            Kind::Uart => vec![117u8, 97, 114, 116],
        }
    }
}

/// A device of the system.
pub trait Dev {
    /// Brings the device up.
    fn init(&mut self) -> Rv;

    /// The device's kind.
    fn kind(&self) -> Kind;

    /// The device's name.
    fn get_name(&self) -> &str;

    /// The device's own description, as the console shows it.
    fn display(&self) -> Vec<u8>;
}

/// What the device manager keeps of a device: its name, its kind and the
/// result of bringing it up (`ErrNotReady` until then).
pub struct DevInfo {
    name: String,
    kind: Kind,
    status: Rv,
}

/// The device manager: the system's devices in the order they were added.
pub struct Mgr {
    devs: Vec<DevInfo>,
}

/// Some device of `devs` is named `name`.
pub open spec fn has_dev(devs: Seq<(Seq<char>, Kind, Rv)>, name: Seq<char>) -> bool {
    exists|j: int| 0 <= j < devs.len() && (#[trigger] devs[j]).0 == name
}

/// Device `i` of `devs` is the first one named `name`.
pub open spec fn first_dev(devs: Seq<(Seq<char>, Kind, Rv)>, name: Seq<char>, i: int) -> bool {
    &&& 0 <= i < devs.len()
    &&& devs[i].0 == name
    &&& forall|j: int| 0 <= j < i ==> (#[trigger] devs[j]).0 != name
}

/// A device added under a name that no device has yet is the one found
/// by that name; adding devices never changes which device a name finds.
pub proof fn law_added_device_found(
    devs: Seq<(Seq<char>, Kind, Rv)>,
    more: Seq<(Seq<char>, Kind, Rv)>,
    name: Seq<char>,
    kind: Kind,
)
    requires
        !has_dev(devs, name),
    ensures
        first_dev(devs.push((name, kind, Rv::ErrNotReady)) + more, name, devs.len() as int),
{
    let d = devs.push((name, kind, Rv::ErrNotReady)) + more;
    assert(d[devs.len() as int].0 == name);
    assert forall|j: int| 0 <= j < devs.len() implies (#[trigger] d[j]).0 != name by {
        assert(d[j] == devs[j]);
    }
}

impl View for Mgr {
    type V = Seq<(Seq<char>, Kind, Rv)>;

    /// Each device's name, kind and status, in the order they were added.
    closed spec fn view(&self) -> Seq<(Seq<char>, Kind, Rv)> {
        self.devs@.map_values(|d: DevInfo| (d.name@, d.kind, d.status))
    }
}

/// The line that the "dev" command sends for a device whose own
/// description is `display`: "- <kind> <name> (<display>) <status>\n".
pub open spec fn dev_line(d: (Seq<char>, Kind, Rv), display: Seq<u8>) -> Seq<u8> {
    seq![45u8, 32] + kind_name(d.1) + seq![32u8] + encode_utf8(d.0) + seq![32u8, 40] + display
        + seq![41u8, 32] + rv_name(d.2) + seq![10u8]
}

/// What the "dev" command sends: one line per device, each through the
/// console's message buffer.
pub open spec fn dev_listing(devs: Seq<(Seq<char>, Kind, Rv)>, displays: Seq<Seq<u8>>) -> Seq<u8>
    decreases devs.len(),
{
    if devs.len() == 0 {
        Seq::<u8>::empty()
    } else {
        dev_listing(devs.drop_last(), displays) + bounded(
            dev_line(devs.last(), displays[devs.len() - 1]),
        )
    }
}

impl Mgr {
    /// An empty device manager; registers the console command "dev" that
    /// lists the devices.
    pub fn new(climgr: &mut cli::Mgr) -> (m: Mgr)
        ensures
            m@ == Seq::<(Seq<char>, Kind, Rv)>::empty(),
            final(climgr)@ == old(climgr)@.push(("dev"@, "show devices"@, cli::Action::ShowDevs)),
    {
        climgr.reg("dev", "show devices", cli::Action::ShowDevs);
        let m = Mgr { devs: Vec::new() };
        assert(m@ =~= Seq::<(Seq<char>, Kind, Rv)>::empty());
        m
    }

    /// Adds a device, not yet brought up; returns its index.
    pub fn add(&mut self, name: &str, kind: Kind) -> (i: usize)
        ensures
            final(self)@ == old(self)@.push((name@, kind, Rv::ErrNotReady)),
            i == old(self)@.len(),
    {
        let i = self.devs.len();
        self.devs.push(DevInfo { name: String::from_str(name), kind, status: Rv::ErrNotReady });
        assert(self@ =~= old(self)@.push((name@, kind, Rv::ErrNotReady)));
        i
    }

    /// The number of devices.
    pub fn len(&self) -> (n: usize)
        ensures
            n == self@.len(),
    {
        self.devs.len()
    }

    /// The name, kind and status of device `i`.
    pub fn info(&self, i: usize) -> (r: (&str, Kind, Rv))
        requires
            i < self@.len(),
        ensures
            (r.0@, r.1, r.2) == self@[i as int],
    {
        let d = &self.devs[i];
        (d.name.as_str(), d.kind, d.status)
    }

    /// Brings the devices up: logs "devmgr init" at level `Inf`, then
    /// records what bringing each device up returned, `results[i]` for
    /// device `i`.
    pub fn init(&mut self, logger: &mut Logger, results: &[Rv])
        requires
            results@.len() == old(self)@.len(),
        ensures
            final(self)@.len() == old(self)@.len(),
            forall|i: int|
                0 <= i < old(self)@.len() ==> #[trigger] final(self)@[i] == (
                    old(self)@[i].0,
                    old(self)@[i].1,
                    results@[i],
                ),
            final(logger).pending() == old(logger).pending().push(
                (
                    Level::Inf,
                    "linux::bms::dev"@,
                    seq![100u8, 101, 118, 109, 103, 114, 32, 105, 110, 105, 116],
                    old(logger).console(),
                ),
            ),
            final(logger).console() == old(logger).console(),
            final(logger).handler_count() == old(logger).handler_count(),
    {
        let msg: [u8; 11] = [100u8, 101, 118, 109, 103, 114, 32, 105, 110, 105, 116];
        assert(msg@ =~= seq![100u8, 101, 118, 109, 103, 114, 32, 105, 110, 105, 116]);
        logger.log(Level::Inf, "linux::bms::dev", &msg);
        let mut i: usize = 0;
        while i < self.devs.len()
            invariant
                i <= self@.len(),
                self@.len() == old(self)@.len(),
                self@.len() == self.devs@.len(),
                results@.len() == self@.len(),
                forall|j: int|
                    0 <= j < i ==> #[trigger] self@[j] == (old(self)@[j].0, old(self)@[j].1, results@[j]),
                forall|j: int| i <= j < self@.len() ==> #[trigger] self@[j] == old(self)@[j],
            decreases self.devs@.len() - i,
        {
            let ghost before = self.devs@;
            let d = &self.devs[i];
            let nd = DevInfo { name: d.name.clone(), kind: d.kind, status: results[i] };
            assert(self@[i as int] == (d.name@, d.kind, d.status));
            self.devs.set(i, nd);
            assert(self.devs@ == before.update(i as int, nd));
            assert(self@[i as int] == (old(self)@[i as int].0, old(self)@[i as int].1, results@[i as int]));
            assert forall|j: int| 0 <= j < self@.len() && j != i implies #[trigger] self@[j] == before.map_values(|d: DevInfo| (d.name@, d.kind, d.status))[j] by {}
            i = i + 1;
        }
    }

    /// The first device named `name`, if any.
    pub fn find_by_name(&self, name: &str) -> (r: Option<usize>)
        ensures
            r is Some <==> has_dev(self@, name@),
            r matches Some(i) ==> first_dev(self@, name@, i as int),
    {
        let mut i: usize = 0;
        while i < self.devs.len()
            invariant
                i <= self@.len(),
                self@.len() == self.devs@.len(),
                forall|j: int| 0 <= j < i ==> (#[trigger] self@[j]).0 != name@,
            decreases self.devs@.len() - i,
        {
            assert(self@[i as int].0 == self.devs@[i as int].name@);
            if str_eq(self.devs[i].name.as_str(), name) {
                return Some(i);
            }
            i = i + 1;
        }
        None
    }

    /// The "dev" command: sends one line per device (see `dev_line`);
    /// `displays[i]` is device `i`'s own description.
    pub fn show(&self, cli: &mut Cli, displays: &Vec<Vec<u8>>)
        requires
            displays@.len() == self@.len(),
        ensures
            final(cli).output() == old(cli).output() + dev_listing(
                self@,
                displays@.map_values(|v: Vec<u8>| v@),
            ),
            final(cli).line() == old(cli).line(),
            final(cli).pos() == old(cli).pos(),
            final(cli).escape() == old(cli).escape(),
    {
        let ghost texts = displays@.map_values(|v: Vec<u8>| v@);
        let ghost start = cli.output();
        let mut i: usize = 0;
        while i < self.devs.len()
            invariant
                i <= self@.len(),
                self@.len() == self.devs@.len(),
                displays@.len() == self@.len(),
                texts == displays@.map_values(|v: Vec<u8>| v@),
                cli.output() == start + dev_listing(self@.take(i as int), texts),
                cli.line() == old(cli).line(),
                cli.pos() == old(cli).pos(),
                cli.escape() == old(cli).escape(),
            decreases self.devs@.len() - i,
        {
            let d = &self.devs[i];
            let mut msg: Vec<u8> = Vec::new();
            msg.push(45);
            msg.push(32);
            let kind = d.kind.name();
            append(&mut msg, kind.as_slice());
            msg.push(32);
            append(&mut msg, d.name.as_str().as_bytes());
            msg.push(32);
            msg.push(40);
            append(&mut msg, displays[i].as_slice());
            msg.push(41);
            msg.push(32);
            let status = d.status.name();
            append(&mut msg, status.as_slice());
            msg.push(10);
            assert(self@[i as int] == (d.name@, d.kind, d.status));
            assert(msg@ =~= dev_line(self@[i as int], texts[i as int]));
            cli.printf(&msg);
            i = i + 1;
            assert(self@.take(i as int).drop_last() =~= self@.take(i - 1));
        }
        assert(self@.take(i as int) =~= self@);
    }
}

} // verus!
