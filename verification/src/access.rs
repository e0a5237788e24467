//! Accesses to the IS-Viewer 64 window.
//!
//! The runtime never touches the window on its own account. It says which
//! register is to be read or written next, and whoever holds the window,
//! the console at its fixed addresses or a window in memory, does so.

use vstd::prelude::*;
use crate::ring::{BUFFER_ADDR, CAPACITY, MAGIC, MAGIC_ADDR, READ_HEAD_ADDR, WRITE_HEAD_ADDR};

verus! {

/// A 32-bit register of the window.
#[derive(Clone, Copy, Debug, PartialEq, Eq, Structural)]
pub enum Register {
    /// The detection word.
    Magic,
    /// The read head, which the debugger advances.
    ReadHead,
    /// The write head, which the host advances.
    WriteHead,
    /// The word of ring storage at this word offset.
    Buffer(usize),
}

/// One aligned, volatile, 32-bit access to the window.
#[derive(Clone, Copy, Debug, PartialEq, Eq, Structural)]
pub enum Access {
    /// Read the register and hand the word read to the next step.
    Load(Register),
    /// Write the word to the register.
    Store(Register, u32),
}

/// The address of a register on the console.
pub open spec fn address_of(register: Register) -> int {
    match register {
        Register::Magic => MAGIC_ADDR as int,
        Register::ReadHead => READ_HEAD_ADDR as int,
        Register::WriteHead => WRITE_HEAD_ADDR as int,
        Register::Buffer(offset) => BUFFER_ADDR + 4 * offset,
    }
}

/// Computes the address of a register on the console. A word of ring storage
/// must lie inside the console's ring.
pub fn address(register: Register) -> (addr: u32)
    requires
        register matches Register::Buffer(offset) ==> offset < CAPACITY / 4,
    ensures
        addr == address_of(register),
        addr % 4 == 0,
{
    match register {
        Register::Magic => MAGIC_ADDR,
        Register::ReadHead => READ_HEAD_ADDR,
        Register::WriteHead => WRITE_HEAD_ADDR,
        Register::Buffer(offset) => BUFFER_ADDR + 4 * (offset as u32),
    }
}

/// The accesses of the detection probe, in order: the magic word is
/// written, both heads are cleared, and the magic word is read back.
pub open spec fn probe_script() -> Seq<Access> {
    seq![
        Access::Store(Register::Magic, MAGIC),
        Access::Store(Register::ReadHead, 0),
        Access::Store(Register::WriteHead, 0),
        Access::Load(Register::Magic),
    ]
}

/// The access that the detection probe makes at `step`, or `None` once the
/// probe is over. The word that its last access reads decides the probe.
pub fn probe_access(step: usize) -> (access: Option<Access>)
    ensures
        step < probe_script().len() ==> access == Some(probe_script()[step as int]),
        step >= probe_script().len() ==> access is None,
{
    if step == 0 {
        Some(Access::Store(Register::Magic, MAGIC))
    } else if step == 1 {
        Some(Access::Store(Register::ReadHead, 0))
    } else if step == 2 {
        Some(Access::Store(Register::WriteHead, 0))
    } else if step == 3 {
        Some(Access::Load(Register::Magic))
    } else {
        None
    }
}

} // verus!
