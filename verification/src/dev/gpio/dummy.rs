use vstd::prelude::*;
use vstd::string::*;

use crate::dev::gpio::Gpio;
use crate::dev::{Dev, Kind};
use crate::evq::Evq;
use crate::rv::Rv;
use crate::words::{decimal, push_decimal};

verus! {

/// A GPIO pin that only remembers the state it was set to.
pub struct Dummy {
    name: String,
    pin: u8,
    state: bool,
}

impl Dummy {
    /// The device's name.
    pub closed spec fn name(&self) -> Seq<char> {
        self.name@
    }

    /// The pin's number.
    pub closed spec fn pin_number(&self) -> u8 {
        self.pin
    }

    /// The state the pin was last set to.
    pub closed spec fn state(&self) -> bool {
        self.state
    }

    /// The pin's number.
    pub fn pin(&self) -> (r: u8)
        ensures
            r == self.pin_number(),
    {
        self.pin
    }
}

/// A dummy pin named `name` on pin number `pin`, low.
pub fn new(name: &str, _evq: &Evq, pin: u8) -> (d: Dummy)
    ensures
        d.name() == name@,
        d.pin_number() == pin,
        d.state() == false,
{
    Dummy { name: String::from_str(name), pin, state: false }
}

impl Dev for Dummy {
    fn init(&mut self) -> (r: Rv)
        ensures
            r == Rv::Success,
            *final(self) == *old(self),
    {
        Rv::Success
    }

    fn kind(&self) -> (k: Kind)
        ensures
            k == Kind::Gpio,
    {
        Kind::Gpio
    }

    fn get_name(&self) -> (r: &str)
        ensures
            r@ == self.name(),
    {
        self.name.as_str()
    }

    /// "dummy@<pin>".
    fn display(&self) -> (r: Vec<u8>)
        ensures
            r@ == seq![100u8, 117, 109, 109, 121, 64] + decimal(self.pin_number() as nat),
    {
        let mut r: Vec<u8> = vec![100u8, 117, 109, 109, 121, 64];
        push_decimal(&mut r, self.pin as u64);
        r
    }
}

impl Gpio for Dummy {
    fn set(&mut self, state: bool) -> (r: Rv)
        ensures
            r == Rv::Success,
            final(self).state() == state,
            final(self).name() == old(self).name(),
            final(self).pin_number() == old(self).pin_number(),
    {
        self.state = state;
        Rv::Success
    }

    fn get(&self) -> (r: bool)
        ensures
            r == self.state(),
    {
        self.state
    }
}

} // verus!
