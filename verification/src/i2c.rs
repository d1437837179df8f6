//! The I2C ports of the board and the handles that stand for them.

use vstd::prelude::*;

verus! {

/// How many I2C ports the board has.
pub const I2C_PORTS: usize = 2;

/// An I2C port that was claimed, with the settings it was claimed for.
#[derive(Debug, PartialEq, Eq)]
pub struct WasmI2c {
    port: u32,
    frequency: u32,
    sda: u32,
    scl: u32,
}

impl WasmI2c {
    /// The number of the port.
    pub closed spec fn spec_port(&self) -> u32 {
        self.port
    }

    /// The bus frequency in hertz.
    pub closed spec fn spec_frequency(&self) -> u32 {
        self.frequency
    }

    /// The pin of the data line.
    pub closed spec fn spec_sda(&self) -> u32 {
        self.sda
    }

    /// The pin of the clock line.
    pub closed spec fn spec_scl(&self) -> u32 {
        self.scl
    }

    pub(crate) fn claim(port: u32, frequency: u32, sda: u32, scl: u32) -> (bus: WasmI2c)
        ensures
            bus.spec_port() == port,
            bus.spec_frequency() == frequency,
            bus.spec_sda() == sda,
            bus.spec_scl() == scl,
    {
        WasmI2c { port, frequency, sda, scl }
    }

    /// The number of the port.
    #[verifier::when_used_as_spec(spec_port)]
    pub fn port(&self) -> (p: u32)
        ensures
            p == self.spec_port(),
    {
        self.port
    }

    /// The bus frequency in hertz.
    #[verifier::when_used_as_spec(spec_frequency)]
    pub fn frequency(&self) -> (f: u32)
        ensures
            f == self.spec_frequency(),
    {
        self.frequency
    }

    /// The pin of the data line.
    #[verifier::when_used_as_spec(spec_sda)]
    pub fn sda(&self) -> (p: u32)
        ensures
            p == self.spec_sda(),
    {
        self.sda
    }

    /// The pin of the clock line.
    #[verifier::when_used_as_spec(spec_scl)]
    pub fn scl(&self) -> (p: u32)
        ensures
            p == self.spec_scl(),
    {
        self.scl
    }

    /// The length of a transfer as the runtime takes it, or `None` where
    /// the buffer is longer than the runtime can be told.
    pub fn transfer_len(buffer: &[u8]) -> (n: Option<u32>)
        ensures
            match n {
                Some(len) => len == buffer@.len(),
                None => buffer@.len() > u32::MAX,
            },
    {
        if buffer.len() > 0xffff_ffff {
            None
        } else {
            Some(buffer.len() as u32)
        }
    }
}

} // verus!
