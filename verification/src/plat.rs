use vstd::prelude::*;

pub mod linux;

verus! {

/// The GPIO pins of the board, by device index.
#[derive(Debug, Clone, Copy)]
pub struct Gpio {
    pub backlight: usize,
    pub charge: usize,
    pub discharge: usize,
}

/// The serial ports of the board, by device index.
#[derive(Debug, Clone, Copy)]
pub struct Uart {
    pub uart0: usize,
}

/// The devices of the board.
#[derive(Debug, Clone, Copy)]
pub struct Devices {
    pub gpio: Gpio,
    pub uart: Uart,
}

/// What every platform has: its console, if any, and its devices.
#[derive(Debug, Clone, Copy)]
pub struct Base {
    pub console: Option<usize>,
    pub devs: Devices,
}

/// A platform the system runs on.
pub trait Plat {
    /// The platform's console and devices.
    spec fn layout(&self) -> Base;

    /// The platform's console and devices.
    fn base(&self) -> (r: &Base)
        ensures
            *r == self.layout(),
    ;

    /// The platform's devices.
    fn devs(&self) -> (r: &Devices)
        ensures
            *r == self.layout().devs,
    {
        &self.base().devs
    }

    /// The serial port the platform's console is on, if any.
    fn console(&self) -> (r: Option<usize>)
        ensures
            r == self.layout().console,
    {
        self.base().console
    }
}

} // verus!
