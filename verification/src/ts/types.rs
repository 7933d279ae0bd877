//! Small validated values used throughout a transport stream.

use vstd::prelude::*;

use crate::error::ErrorKind;

verus! {

/// PID of a program association table packet.
pub const PID_PAT: u16 = 0x0000;

/// PID of a null packet.
pub const PID_NULL: u16 = 0x1FFF;

/// Largest value a 13-bit PID can take.
pub const PID_MAX: u16 = 0x1FFF;

/// A 13-bit program identifier.
#[derive(Debug, Clone, Copy, PartialEq, Eq, Structural, Hash, PartialOrd, Ord)]
pub struct Pid(pub u16);

impl Pid {
    /// A `Pid` is well formed when its value fits in 13 bits.
    pub open spec fn wf(self) -> bool {
        self.0 <= PID_MAX
    }

    /// Makes a new `Pid` instance.
    ///
    /// Returns `ErrorKind::InvalidInput` if the value does not fit in 13
    /// bits.
    pub fn new(value: u16) -> (r: Result<Self, ErrorKind>)
        ensures
            value <= PID_MAX ==> r == Ok::<Self, ErrorKind>(Pid(value)),
            value > PID_MAX ==> r == Err::<Self, ErrorKind>(ErrorKind::InvalidInput),
            r is Ok ==> r->Ok_0.wf(),
    {
        if value <= PID_MAX {
            Ok(Pid(value))
        } else {
            Err(ErrorKind::InvalidInput)
        }
    }

    /// Returns the value of the PID.
    pub fn as_u16(&self) -> (r: u16)
        ensures
            r == self.0,
    {
        self.0
    }
}

/// A 4-bit counter that wraps modulo 16.
#[derive(Debug, Clone, Copy, PartialEq, Eq, Structural, Hash)]
pub struct ContinuityCounter(pub u8);

impl ContinuityCounter {
    /// A counter is well formed when its value fits in 4 bits.
    pub open spec fn wf(self) -> bool {
        self.0 < 16
    }

    /// Makes a new `ContinuityCounter` instance, starting at zero.
    pub fn new() -> (r: Self)
        ensures
            r == ContinuityCounter(0u8),
            r.wf(),
    {
        ContinuityCounter(0)
    }

    /// Makes a `ContinuityCounter` holding `value`.
    ///
    /// Returns `ErrorKind::InvalidInput` if the value does not fit in 4
    /// bits.
    pub fn from_u8(value: u8) -> (r: Result<Self, ErrorKind>)
        ensures
            value < 16 ==> r == Ok::<Self, ErrorKind>(ContinuityCounter(value)),
            value >= 16 ==> r == Err::<Self, ErrorKind>(ErrorKind::InvalidInput),
    {
        if value < 16 {
            Ok(ContinuityCounter(value))
        } else {
            Err(ErrorKind::InvalidInput)
        }
    }

    /// Returns the value of the counter.
    pub fn as_u8(&self) -> (r: u8)
        ensures
            r == self.0,
    {
        self.0
    }

    /// Increments the counter, wrapping around modulo 16.
    pub fn increment(&mut self)
        requires
            old(self).wf(),
        ensures
            final(self).0 == (old(self).0 + 1) % 16,
            final(self).wf(),
    {
        self.0 = (self.0 + 1) % 16;
    }
}

/// Transport scrambling control of a TS packet.
#[derive(Debug, Clone, Copy, PartialEq, Eq, Structural, Hash)]
pub enum TransportScramblingControl {
    NotScrambled,
    Reserved,
    EvenKey,
    OddKey,
}

impl TransportScramblingControl {
    /// The two-bit value carried on the wire.
    pub open spec fn spec_as_u8(self) -> u8 {
        match self {
            TransportScramblingControl::NotScrambled => 0,
            TransportScramblingControl::Reserved => 1,
            TransportScramblingControl::EvenKey => 2,
            TransportScramblingControl::OddKey => 3,
        }
    }

    /// Returns the two-bit value carried on the wire.
    pub fn as_u8(&self) -> (r: u8)
        ensures
            r == self.spec_as_u8(),
    {
        match self {
            TransportScramblingControl::NotScrambled => 0,
            TransportScramblingControl::Reserved => 1,
            TransportScramblingControl::EvenKey => 2,
            TransportScramblingControl::OddKey => 3,
        }
    }

    /// The variant encoded by a two-bit value.
    pub open spec fn spec_from_u8(value: u8) -> Self {
        if value == 0 {
            TransportScramblingControl::NotScrambled
        } else if value == 1 {
            TransportScramblingControl::Reserved
        } else if value == 2 {
            TransportScramblingControl::EvenKey
        } else {
            TransportScramblingControl::OddKey
        }
    }

    /// Decodes a two-bit value.
    pub fn from_u8(value: u8) -> (r: Result<Self, ErrorKind>)
        ensures
            value < 4 ==> r == Ok::<Self, ErrorKind>(Self::spec_from_u8(value)),
            value >= 4 ==> r == Err::<Self, ErrorKind>(ErrorKind::InvalidInput),
    {
        match value {
            0 => Ok(TransportScramblingControl::NotScrambled),
            1 => Ok(TransportScramblingControl::Reserved),
            2 => Ok(TransportScramblingControl::EvenKey),
            3 => Ok(TransportScramblingControl::OddKey),
            _ => Err(ErrorKind::InvalidInput),
        }
    }
}

/// What kind of payload travels on a PID, as learned from the program
/// tables seen so far.
#[derive(Debug, Clone, Copy, PartialEq, Eq, Structural)]
pub enum PidKind {
    /// The PID carries a program map table.
    Pmt,
    /// The PID carries an elementary stream.
    Pes,
}

/// Largest value a 33-bit clock base can take.
pub const CLOCK_BASE_MAX: u64 = 0x1_FFFF_FFFF;

/// Largest value a 9-bit clock extension can take.
pub const CLOCK_EXTENSION_MAX: u16 = 0x1FF;

/// A program clock reference: a 33-bit base at 90 kHz with a 9-bit
/// extension counting in units of 27 MHz.
#[derive(Debug, Clone, Copy, PartialEq, Eq, Structural, Hash)]
pub struct ClockReference {
    pub base: u64,
    pub extension: u16,
}

impl ClockReference {
    /// A clock reference is well formed when the base fits in 33 bits and
    /// the extension in 9 bits.
    pub open spec fn wf(self) -> bool {
        self.base <= CLOCK_BASE_MAX && self.extension <= CLOCK_EXTENSION_MAX
    }

    /// Makes a new `ClockReference` instance.
    ///
    /// Returns `ErrorKind::InvalidInput` if the base does not fit in 33
    /// bits or the extension in 9 bits.
    pub fn new(base: u64, extension: u16) -> (r: Result<Self, ErrorKind>)
        ensures
            base <= CLOCK_BASE_MAX && extension <= CLOCK_EXTENSION_MAX ==> r == Ok::<
                Self,
                ErrorKind,
            >(ClockReference { base, extension }),
            !(base <= CLOCK_BASE_MAX && extension <= CLOCK_EXTENSION_MAX) ==> r == Err::<
                Self,
                ErrorKind,
            >(ErrorKind::InvalidInput),
    {
        if base <= CLOCK_BASE_MAX && extension <= CLOCK_EXTENSION_MAX {
            Ok(ClockReference { base, extension })
        } else {
            Err(ErrorKind::InvalidInput)
        }
    }
}

} // verus!
