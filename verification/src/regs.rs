//! Register map, command codes and bit assignments of the ILA register
//! block: a 256-byte window of 32-bit registers.

use vstd::prelude::*;

verus! {

/// Size of the ILA register window in bytes.
pub const ILA_SIZE: usize = 0x100;

// Register offsets into the window.
pub const REG_CMD: usize = 0x00;
pub const REG_ADDR: usize = 0x04;
pub const REG_WDATA: usize = 0x08;
pub const REG_CTRL: usize = 0x0C;
pub const REG_STATUS: usize = 0x10;
pub const REG_RDATA: usize = 0x14;
pub const REG_HW_INFO: usize = 0x1C;
pub const REG_CAP_STATUS: usize = 0x20;

// Command codes - state commands.
pub const CMD_ARM: u32 = 0x01;
pub const CMD_RESET: u32 = 0x02;
pub const CMD_INIT: u32 = 0x03;

// Command codes - local reads.
pub const CMD_RD_HW_ID: u32 = 0x10;
pub const CMD_RD_STATUS: u32 = 0x12;

// Command codes - local writes.
pub const CMD_WR_TRIG_TYPE: u32 = 0x23;
pub const CMD_WR_TRIG_DIG_FIELD: u32 = 0x24;
pub const CMD_WR_DIG_POST_TRIG: u32 = 0x2A;

// Command codes - serial-bus reads.
pub const CMD_RD_HUB_FREQ: u32 = 0x30;
pub const CMD_RD_POD_COUNT: u32 = 0x31;
pub const CMD_RD_POD_REG: u32 = 0x32;
pub const CMD_RD_HUB_INSTANCE: u32 = 0x35;
pub const CMD_RD_HUB_NAME_0_3: u32 = 0x36;
pub const CMD_RD_HUB_NAME_4_7: u32 = 0x37;
pub const CMD_RD_HUB_NAME_8_11: u32 = 0x38;

// Command codes - serial-bus writes.
pub const CMD_WR_POD_REG: u32 = 0x40;

// Pod register addresses, reached through RD_POD_REG / WR_POD_REG.
pub const POD_REG_HW_CFG: u8 = 0x00;
pub const POD_REG_TRIG_CFG: u8 = 0x03;
pub const POD_REG_TRIG_EN: u8 = 0x04;
pub const POD_REG_RAM_PTR: u8 = 0x08;
pub const POD_REG_RAM_DATA: u8 = 0x09;
pub const POD_REG_RAM_CFG: u8 = 0x0A;
pub const POD_REG_TRIGGERABLE: u8 = 0x0E;
pub const POD_REG_NAME_0_3: u8 = 0x1D;
pub const POD_REG_NAME_4_7: u8 = 0x1E;
pub const POD_REG_NAME_8_11: u8 = 0x1F;

// Control register bits.
pub const CTRL_START: u32 = 0x01;

// STATUS register bits.
pub const STATUS_DONE: u32 = 0x02;
pub const STATUS_ERR: u32 = 0x04;

// Trigger type field values.
pub const TRIG_OR_RISING: u32 = 0x02;
pub const TRIG_OR_FALLING: u32 = 0x03;
pub const TRIG_EXT_RISING: u32 = 0x06;

/// Upper bound on STATUS polls for one command.
pub const POLL_LIMIT: u32 = 100000;

/// What one STATUS reading decides in the polling loop.
#[derive(Clone, Copy, PartialEq, Eq, Structural, Debug)]
pub enum PollStep {
    /// DONE clear: keep polling.
    Pending,
    /// DONE and ERR set: the command failed.
    Failed,
    /// DONE set, ERR clear: read RDATA.
    Done,
}

/// Decides one STATUS reading: pending while DONE is clear, failed
/// when ERR comes with DONE, done otherwise.
pub fn poll_step(status: u32) -> (r: PollStep)
    ensures
        status & STATUS_DONE == 0 ==> r == PollStep::Pending,
        status & STATUS_DONE != 0 && status & STATUS_ERR != 0 ==> r == PollStep::Failed,
        status & STATUS_DONE != 0 && status & STATUS_ERR == 0 ==> r == PollStep::Done,
{
    if status & STATUS_DONE == 0 {
        PollStep::Pending
    } else if status & STATUS_ERR != 0 {
        PollStep::Failed
    } else {
        PollStep::Done
    }
}

/// Serial-bus address selecting `reg` of pod `pod` on hub `hub`.
pub open spec fn spec_pod_addr(hub: u8, pod: u8, reg: u8) -> u32 {
    ((hub as u32) << 16) | ((pod as u32) << 8) | (reg as u32)
}

/// Builds the serial-bus address `hub<<16 | pod<<8 | reg`.
pub fn pod_addr(hub: u8, pod: u8, reg: u8) -> (r: u32)
    ensures
        r == spec_pod_addr(hub, pod, reg),
{
    ((hub as u32) << 16) | ((pod as u32) << 8) | (reg as u32)
}

/// The three address fields decompose a composed pod address exactly.
pub proof fn lemma_pod_addr_fields(hub: u8, pod: u8, reg: u8)
    by (bit_vector)
    ensures
        (spec_pod_addr(hub, pod, reg) >> 16) & 0xFF == hub,
        (spec_pod_addr(hub, pod, reg) >> 8) & 0xFF == pod,
        spec_pod_addr(hub, pod, reg) & 0xFF == reg,
{
}

} // verus!
