use vstd::prelude::*;

verus! {

/// Result code of an operation of the system.
///
/// `Success` is the code that the system's console prints as `Ok`.
#[derive(Debug, PartialEq, Eq, Structural, Clone, Copy)]
pub enum Rv {
    Success,
    ErrNotReady,
    ErrInval,
}

/// The name of a result code as the console prints it (ASCII bytes):
/// "Ok", "ErrNotReady", "ErrInval".
pub open spec fn rv_name(rv: Rv) -> Seq<u8> {
    match rv {
        Rv::Success => seq![79u8, 107],
        Rv::ErrNotReady => seq![69u8, 114, 114, 78, 111, 116, 82, 101, 97, 100, 121],
        Rv::ErrInval => seq![69u8, 114, 114, 73, 110, 118, 97, 108],
    }
}

impl Rv {
    /// The bytes of the result code's name.
    pub fn name(&self) -> (r: Vec<u8>)
        ensures
            r@ == rv_name(*self),
    {
        match self {
            Rv::Success => vec![79u8, 107],
            Rv::ErrNotReady => vec![69u8, 114, 114, 78, 111, 116, 82, 101, 97, 100, 121],
            Rv::ErrInval => vec![69u8, 114, 114, 73, 110, 118, 97, 108],
        }
    }
}

} // verus!
