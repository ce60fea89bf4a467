//! The capability through which a running program reads and writes bytes.

use crate::vm::RingsVM;
use vstd::prelude::*;

verus! {

/// Where a program's `INP` takes its bytes from and where `OUT` and `ERR`
/// send theirs. Each operation may look at the machine.
///
/// Nothing is assumed of an implementation: whatever `inp` returns, the
/// machine does what the instruction says for that value.
pub trait RingsIo {
    /// One byte of input, or `None` if there is none to be had.
    fn inp(&mut self, vm: &RingsVM) -> Option<u8>;

    /// Takes one byte of output.
    fn out(&mut self, value: u8, vm: &RingsVM);

    /// Takes one byte of error output.
    fn err(&mut self, value: u8, vm: &RingsVM);
}

} // verus!
