//! The board as a guest program sees it.

use crate::args::WasmArgs;
use crate::i2c::WasmI2c;
use vstd::prelude::*;

verus! {

/// The board: which of its I2C ports are still free.
pub struct Esp32 {
    free: [bool; 2],
}

impl Esp32 {
    /// Whether port `index` is still free.
    pub closed spec fn is_free(&self, index: int) -> bool {
        0 <= index < 2 && self.free@[index]
    }

    /// The board with every port free.
    pub fn new() -> (board: Esp32)
        ensures
            board.is_free(0),
            board.is_free(1),
    {
        Esp32 { free: [true, true] }
    }

    /// The program's arguments, from the count and the handle that the
    /// runtime passed to the program's entry.
    pub fn args(&self, argc: u32, argv: u32) -> (args: WasmArgs)
        ensures
            args.spec_count() == argc,
            args.spec_addr() == argv,
    {
        WasmArgs::new(argc as usize, argv)
    }

    /// Claims port `index` for the given settings. There is a handle
    /// exactly when the port exists and nobody has claimed it before; the
    /// other port is left as it was.
    pub fn i2c_init(&mut self, index: usize, frequency: u32, sda_pin: u32, scl_pin: u32) -> (r:
        Option<WasmI2c>)
        ensures
            r is Some <==> old(self).is_free(index as int),
            r is Some ==> {
                &&& r->0.spec_port() == index
                &&& r->0.spec_frequency() == frequency
                &&& r->0.spec_sda() == sda_pin
                &&& r->0.spec_scl() == scl_pin
            },
            forall|i: int| final(self).is_free(i) <==> old(self).is_free(i) && i != index,
    {
        if index > 1 {
            return None;
        }
        if !self.free[index] {
            return None;
        }
        self.free[index] = false;
        Some(WasmI2c::claim(index as u32, frequency, sda_pin, scl_pin))
    }
}

} // verus!
