//! Modbus function codes (the first byte of a PDU).

use vstd::prelude::*;

verus! {

/// Read Coils (FC01)
pub const READ_COILS: u8 = 0x01;

/// Read Discrete Inputs (FC02)
pub const READ_DISCRETE_INPUTS: u8 = 0x02;

/// Read Holding Registers (FC03)
pub const READ_HOLDING_REGISTERS: u8 = 0x03;

/// Read Input Registers (FC04)
pub const READ_INPUT_REGISTERS: u8 = 0x04;

/// Write Single Coil (FC05)
pub const WRITE_SINGLE_COIL: u8 = 0x05;

/// Write Single Register (FC06)
pub const WRITE_SINGLE_REGISTER: u8 = 0x06;

/// Write Multiple Coils (FC15)
pub const WRITE_MULTIPLE_COILS: u8 = 0x0F;

/// Write Multiple Registers (FC16)
pub const WRITE_MULTIPLE_REGISTERS: u8 = 0x10;

/// Mask Write Register (FC22), listed for completeness.
pub const MASK_WRITE_REGISTER: u8 = 0x16;

/// Whether a function code is a standard read function (FC01..FC04).
pub fn is_read(fc: u8) -> (r: bool)
    ensures
        r == (0x01 <= fc <= 0x04),
{
    fc == READ_COILS || fc == READ_DISCRETE_INPUTS || fc == READ_HOLDING_REGISTERS || fc
        == READ_INPUT_REGISTERS
}

/// Whether a function code is a write function.
pub fn is_write(fc: u8) -> (r: bool)
    ensures
        r == (fc == 0x05 || fc == 0x06 || fc == 0x0F || fc == 0x10 || fc == 0x16),
{
    fc == WRITE_SINGLE_COIL || fc == WRITE_SINGLE_REGISTER || fc == WRITE_MULTIPLE_COILS || fc
        == WRITE_MULTIPLE_REGISTERS || fc == MASK_WRITE_REGISTER
}

/// No function code is both a read and a write.
pub proof fn law_read_write_disjoint(fc: u8)
    ensures
        !((0x01 <= fc <= 0x04) && (fc == 0x05 || fc == 0x06 || fc == 0x0F || fc == 0x10 || fc
            == 0x16)),
{
}

/// The function codes are those of the protocol.
pub proof fn law_function_codes()
    ensures
        READ_COILS == 1 && READ_DISCRETE_INPUTS == 2,
        READ_HOLDING_REGISTERS == 3 && READ_INPUT_REGISTERS == 4,
        WRITE_SINGLE_COIL == 5 && WRITE_SINGLE_REGISTER == 6,
        WRITE_MULTIPLE_COILS == 15 && WRITE_MULTIPLE_REGISTERS == 16,
        MASK_WRITE_REGISTER == 22,
{
}

} // verus!
