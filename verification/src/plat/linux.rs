use vstd::prelude::*;

use crate::dev;
use crate::dev::gpio::dummy;
use crate::dev::gpio::dummy::Dummy;
use crate::dev::{Kind};
use crate::evq::{EvAction, Event, Evq};
use crate::plat::{Base, Devices, Gpio, Plat, Uart};
use crate::rv::Rv;

verus! {

/// The Linux platform: GPIO pins that only remember their state, and a
/// serial port on a terminal device.
pub struct Linux {
    base: Base,
}

/// The bytes that the console takes from an event: those that serial
/// port number `uart0` (a device index) received; nothing from other
/// events.
pub open spec fn routed(ev: Event, uart0: usize) -> Seq<u8> {
    match ev {
        Event::Uart { dev, data, len } => if dev == uart0 {
            data@.take(len as int)
        } else {
            Seq::<u8>::empty()
        },
        Event::Tick1Hz => Seq::<u8>::empty(),
    }
}

impl Linux {

    /// The terminal device the serial port "uart0" is on.
    pub fn uart0_path(&self) -> (r: &'static str)
        ensures
            r@ == "/dev/stdout"@,
    {
        "/dev/stdout"
    }

    /// The bytes that the console takes from an event: the bytes that the
    /// serial port "uart0" received; nothing from other events.
    pub fn route(&self, ev: &Event) -> (r: Vec<u8>)
        requires
            ev matches Event::Uart { len, .. } ==> len <= 8,
        ensures
            r@ == routed(*ev, self.layout().devs.uart.uart0),
    {
        let mut r: Vec<u8> = Vec::new();
        match ev {
            Event::Uart { dev, data, len } => {
                if *dev == self.base.devs.uart.uart0 {
                    let n = *len as usize;
                    let mut i: usize = 0;
                    while i < n
                        invariant
                            n <= 8,
                            i <= n,
                            r@ == data@.take(i as int),
                        decreases n - i,
                    {
                        r.push(data[i]);
                        i = i + 1;
                        assert(data@.take(i as int) =~= data@.take(i - 1).push(data@[i - 1]));
                    }
                }
            },
            Event::Tick1Hz => {},
        }
        r
    }
}

impl Plat for Linux {
    /// The platform's console and devices.
    closed spec fn layout(&self) -> Base {
        self.base
    }

    fn base(&self) -> (r: &Base) {
        &self.base
    }
}

/// The Linux platform: adds its devices ("backlight", "charge" and
/// "discharge", dummy pins 13, 28 and 5, then the serial port "uart0") to
/// the device manager, and to the event queue the handler "plat" of every
/// event, which hands the bytes that the console's serial port received
/// to the console (see `route`). Returns the platform,
/// whose console is "uart0", and the three pins in that order.
pub fn new(evq: &mut Evq, devmgr: &mut dev::Mgr) -> (r: (Linux, Vec<Dummy>))
    ensures
        final(devmgr)@ == old(devmgr)@.push(("backlight"@, Kind::Gpio, Rv::ErrNotReady)).push(
            ("charge"@, Kind::Gpio, Rv::ErrNotReady),
        ).push(("discharge"@, Kind::Gpio, Rv::ErrNotReady)).push(
            ("uart0"@, Kind::Uart, Rv::ErrNotReady),
        ),
        final(evq)@ == old(evq)@.push((0u8, "plat"@, 0u32)),
        final(evq).actions() == old(evq).actions().push(EvAction::Console),
        final(evq).runs() == old(evq).runs(),
        r.0.layout() == (Base {
            console: Some((old(devmgr)@.len() + 3) as usize),
            devs: Devices {
                gpio: Gpio {
                    backlight: old(devmgr)@.len() as usize,
                    charge: (old(devmgr)@.len() + 1) as usize,
                    discharge: (old(devmgr)@.len() + 2) as usize,
                },
                uart: Uart { uart0: (old(devmgr)@.len() + 3) as usize },
            },
        }),
        r.1@.len() == 3,
        r.1@[0].name() == "backlight"@ && r.1@[0].pin_number() == 13 && !r.1@[0].state(),
        r.1@[1].name() == "charge"@ && r.1@[1].pin_number() == 28 && !r.1@[1].state(),
        r.1@[2].name() == "discharge"@ && r.1@[2].pin_number() == 5 && !r.1@[2].state(),
{
    let backlight = dummy::new("backlight", evq, 13);
    let charge = dummy::new("charge", evq, 28);
    let discharge = dummy::new("discharge", evq, 5);
    let b = devmgr.add("backlight", Kind::Gpio);
    let c = devmgr.add("charge", Kind::Gpio);
    let d = devmgr.add("discharge", Kind::Gpio);
    let u = devmgr.add("uart0", Kind::Uart);
    evq.reg("plat", EvAction::Console);
    let mut gpios: Vec<Dummy> = Vec::new();
    gpios.push(backlight);
    gpios.push(charge);
    gpios.push(discharge);
    let plat = Linux {
        base: Base {
            console: Some(u),
            devs: Devices { gpio: Gpio { backlight: b, charge: c, discharge: d }, uart: Uart { uart0: u } },
        },
    };
    (plat, gpios)
}

} // verus!
