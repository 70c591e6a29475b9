//! The register window model.
//!
//! `DevMem` is a bounds-checked little-endian byte window with a
//! simulated device behind it. Host accesses go through `read32` /
//! `write32`, are refused outside the window, and are recorded in an
//! event trace; a write that raises the START bit of the control
//! register hands CMD/ADDR/WDATA to the device and latches the STATUS
//! and RDATA words it answers. `peek32` / `poke32` are the device side:
//! they move register values without appearing on the trace.

use vstd::prelude::*;

use crate::regs::{CTRL_START, REG_ADDR, REG_CMD, REG_CTRL, REG_RDATA, REG_STATUS, REG_WDATA};
use crate::sim::{spec_execute, spec_respond, spec_status, SimDevice};

verus! {

/// One host access to the window, as the backing memory observes it.
#[derive(Clone, Copy, PartialEq, Eq, Structural, Debug)]
pub struct MmioEvent {
    /// True for a store, false for a load.
    pub write: bool,
    /// Byte offset of the access.
    pub offset: usize,
    /// Value stored, or value the load answered.
    pub value: u32,
}

/// A load event.
pub open spec fn rd_ev(offset: usize, value: u32) -> MmioEvent {
    MmioEvent { write: false, offset, value }
}

/// A store event.
pub open spec fn wr_ev(offset: usize, value: u32) -> MmioEvent {
    MmioEvent { write: true, offset, value }
}

/// The 32-bit word at byte offset `o`, least significant byte first.
pub open spec fn word_at(m: Seq<u8>, o: int) -> u32
    recommends
        0 <= o,
        o + 4 <= m.len(),
{
    (m[o] as u32) | ((m[o + 1] as u32) << 8) | ((m[o + 2] as u32) << 16) | ((m[o + 3] as u32)
        << 24)
}

/// The memory after storing `v` at byte offset `o`, least significant
/// byte first.
pub open spec fn store32(m: Seq<u8>, o: int, v: u32) -> Seq<u8>
    recommends
        0 <= o,
        o + 4 <= m.len(),
{
    m.update(o, (v & 0xFF) as u8).update(o + 1, ((v >> 8) & 0xFF) as u8).update(
        o + 2,
        ((v >> 16) & 0xFF) as u8,
    ).update(o + 3, ((v >> 24) & 0xFF) as u8)
}

/// Bounds of the mask-and-shift fields this crate extracts from 32-bit
/// register words.
pub proof fn lemma_mask_bounds(v: u32)
    by (bit_vector)
    ensures
        v & 0xFF < 0x100,
        (v >> 8) & 0xFF < 0x100,
        (v >> 16) & 0xFF < 0x100,
        (v >> 24) & 0xFF < 0x100,
        v >> 24 < 0x100,
        (v >> 16) & 0xFFFF < 0x10000,
        (v >> 8) & 0xFFFF < 0x10000,
        v & 0xFFFF < 0x10000,
        v & 0xFFFFF < 0x100000,
        (v >> 20) & 0xFFF < 0x1000,
        v & 0xF < 0x10,
        v & 0x3 < 0x4,
{
}

/// Storing a word and reading it back gives the word.
pub proof fn lemma_store32_word(m: Seq<u8>, o: int, v: u32)
    requires
        0 <= o,
        o + 4 <= m.len(),
    ensures
        word_at(store32(m, o, v), o) == v,
{
    lemma_mask_bounds(v);
    let m2 = store32(m, o, v);
    assert(m2[o] == (v & 0xFF) as u8);
    assert(m2[o + 1] == ((v >> 8) & 0xFF) as u8);
    assert(m2[o + 2] == ((v >> 16) & 0xFF) as u8);
    assert(m2[o + 3] == ((v >> 24) & 0xFF) as u8);
    assert(((v & 0xFF) as u8 as u32) | (((v >> 8) & 0xFF) as u8 as u32) << 8 | (((v >> 16)
        & 0xFF) as u8 as u32) << 16 | (((v >> 24) & 0xFF) as u8 as u32) << 24 == v)
        by (bit_vector);
}

/// A store leaves every word of a disjoint range unchanged.
pub proof fn lemma_store32_other(m: Seq<u8>, o: int, v: u32, o2: int)
    requires
        0 <= o,
        o + 4 <= m.len(),
        0 <= o2,
        o2 + 4 <= m.len(),
        o2 + 4 <= o || o + 4 <= o2,
    ensures
        word_at(store32(m, o, v), o2) == word_at(m, o2),
{
}

/// Geometry of a page-aligned mapping that covers `[base_addr,
/// base_addr + size)`: the aligned base to map at, the offset of the
/// window inside the mapping, and the length to map. The mapped range
/// starts at a page boundary at or below the window and covers the
/// whole window.
pub fn map_geometry(base_addr: usize, size: usize, page_size: usize) -> (r: (usize, usize, usize))
    requires
        page_size >= 1,
        base_addr % page_size + size <= usize::MAX,
    ensures
        r.1 == base_addr % page_size,
        r.0 + r.1 == base_addr,
        r.0 % page_size == 0,
        r.0 + r.2 == base_addr + size,
{
    proof {
        vstd::arithmetic::div_mod::lemma_fundamental_div_mod(
            base_addr as int,
            page_size as int,
        );
        vstd::arithmetic::div_mod::lemma_mod_bound(base_addr as int, page_size as int);
        vstd::arithmetic::div_mod::lemma_mod_multiples_basic(
            base_addr as int / page_size as int,
            page_size as int,
        );
        assert((page_size as int) * (base_addr as int / page_size as int) == (base_addr as int
            / page_size as int) * (page_size as int)) by (nonlinear_arith);
    }
    let page_offset = base_addr % page_size;
    (base_addr - page_offset, page_offset, size + page_offset)
}

/// Model of the mapped register window: a byte window of a fixed size,
/// the simulated device behind it, and the trace of host accesses.
pub struct DevMem {
    /// Backing bytes; the window size is their count.
    pub bytes: Vec<u8>,
    /// Physical base address the window stands for (reporting only).
    pub base_addr: usize,
    /// The simulated device that answers commands.
    pub device: SimDevice,
    /// Every host access, in order.
    pub trace: Vec<MmioEvent>,
}

/// Whether a store at `offset` raises the START bit and so runs a
/// command; the window must cover the STATUS and RDATA registers.
pub open spec fn is_cmd_start(offset: usize, value: u32, len: nat) -> bool {
    offset == REG_CTRL && value & CTRL_START != 0 && len >= 0x18
}

impl DevMem {
    /// Opens a zeroed window of `size` bytes over `device`.
    pub fn new(base_addr: usize, size: usize, device: SimDevice) -> (r: DevMem)
        ensures
            r.bytes@ =~= Seq::new(size as nat, |i: int| 0u8),
            r.base_addr == base_addr,
            r.device == device,
            r.trace@ =~= Seq::<MmioEvent>::empty(),
    {
        let mut bytes: Vec<u8> = Vec::new();
        let mut i: usize = 0;
        while i < size
            invariant
                i <= size,
                bytes@ =~= Seq::new(i as nat, |j: int| 0u8),
            decreases size - i,
        {
            bytes.push(0u8);
            i += 1;
        }
        DevMem { bytes, base_addr, device, trace: Vec::new() }
    }

    /// The window size in bytes.
    pub fn size(&self) -> (r: usize)
        ensures
            r == self.bytes@.len(),
    {
        self.bytes.len()
    }

    /// The physical base address the window stands for.
    pub fn base_addr(&self) -> (r: usize)
        ensures
            r == self.base_addr,
    {
        self.base_addr
    }

    /// Device-side load: reads a word without a trace event.
    pub fn peek32(&self, offset: usize) -> (r: u32)
        requires
            offset + 4 <= self.bytes@.len(),
        ensures
            r == word_at(self.bytes@, offset as int),
    {
        let n = self.bytes.len();
        assert(offset + 4 <= n);
        let b0 = self.bytes[offset] as u32;
        let b1 = self.bytes[offset + 1] as u32;
        let b2 = self.bytes[offset + 2] as u32;
        let b3 = self.bytes[offset + 3] as u32;
        b0 | (b1 << 8) | (b2 << 16) | (b3 << 24)
    }

    /// Device-side store: writes a word without a trace event and
    /// without starting a command.
    pub fn poke32(&mut self, offset: usize, value: u32) -> (ok: bool)
        ensures
            final(self).base_addr == old(self).base_addr,
            final(self).device == old(self).device,
            final(self).trace@ == old(self).trace@,
            offset + 4 > old(self).bytes@.len() ==> !ok && final(self).bytes@ == old(self).bytes@,
            offset + 4 <= old(self).bytes@.len() ==> ok && final(self).bytes@ == store32(
                old(self).bytes@,
                offset as int,
                value,
            ),
    {
        if offset >= self.bytes.len() || self.bytes.len() - offset < 4 {
            return false;
        }
        proof {
            lemma_mask_bounds(value);
        }
        self.bytes[offset] = (value & 0xFF) as u8;
        self.bytes[offset + 1] = ((value >> 8) & 0xFF) as u8;
        self.bytes[offset + 2] = ((value >> 16) & 0xFF) as u8;
        self.bytes[offset + 3] = ((value >> 24) & 0xFF) as u8;
        true
    }

    /// Host load of the 32-bit word at a byte offset. Out of bounds, it
    /// answers nothing and the backing memory sees no access; in bounds,
    /// the load lands on the trace.
    pub fn read32(&mut self, offset: usize) -> (r: Option<u32>)
        ensures
            final(self).bytes@ == old(self).bytes@,
            final(self).base_addr == old(self).base_addr,
            final(self).device == old(self).device,
            offset + 4 > old(self).bytes@.len() ==> r is None && final(self).trace@ == old(self).trace@,
            offset + 4 <= old(self).bytes@.len() ==> {
                let v = word_at(old(self).bytes@, offset as int);
                r == Some(v) && final(self).trace@ == old(self).trace@.push(rd_ev(offset, v))
            },
    {
        if offset >= self.bytes.len() || self.bytes.len() - offset < 4 {
            return None;
        }
        let v = self.peek32(offset);
        self.trace.push(MmioEvent { write: false, offset, value: v });
        Some(v)
    }

    /// Host store of a 32-bit word at a byte offset. Out of bounds, it
    /// answers false and the backing memory sees no access. In bounds,
    /// the store lands on the trace; if it raises the START bit of the
    /// control register, the device runs the command held in
    /// CMD/ADDR/WDATA and the STATUS and RDATA words it answers are
    /// latched into the window.
    pub fn write32(&mut self, offset: usize, value: u32) -> (ok: bool)
        ensures
            final(self).base_addr == old(self).base_addr,
            offset + 4 > old(self).bytes@.len() ==> !ok && final(self).bytes@ == old(self).bytes@
                && final(self).trace@ == old(self).trace@ && final(self).device == old(self).device,
            offset + 4 <= old(self).bytes@.len() ==> ok && {
                let m1 = store32(old(self).bytes@, offset as int, value);
                final(self).trace@ == old(self).trace@.push(wr_ev(offset, value)) && if is_cmd_start(
                    offset,
                    value,
                    old(self).bytes@.len(),
                ) {
                    let cmd = word_at(m1, REG_CMD as int);
                    let addr = word_at(m1, REG_ADDR as int);
                    let wdata = word_at(m1, REG_WDATA as int);
                    final(self).device@ == spec_execute(old(self).device@, cmd, addr, wdata)
                        && final(self).bytes@ == store32(
                        store32(m1, REG_STATUS as int, spec_status(old(self).device@, cmd)),
                        REG_RDATA as int,
                        spec_respond(old(self).device@, cmd, addr, wdata),
                    )
                } else {
                    final(self).device == old(self).device && final(self).bytes@ == m1
                }
            },
    {
        if offset >= self.bytes.len() || self.bytes.len() - offset < 4 {
            return false;
        }
        self.trace.push(MmioEvent { write: true, offset, value });
        self.poke32(offset, value);
        if offset == REG_CTRL && value & CTRL_START != 0 && self.bytes.len() >= 0x18 {
            let cmd = self.peek32(REG_CMD);
            let addr = self.peek32(REG_ADDR);
            let wdata = self.peek32(REG_WDATA);
            let (st, rdata) = self.device.execute(cmd, addr, wdata);
            self.poke32(REG_STATUS, st);
            self.poke32(REG_RDATA, rdata);
        }
        true
    }
}

} // verus!
