//! Simulated ILA device: the far side of the register window.
//!
//! A `SimDevice` answers the serial-bus and local commands that the driver
//! issues through the CMD/ADDR/WDATA/CTRL registers. Its response mode
//! decides the STATUS word the window latches when a command starts:
//! `Ready` completes every command, `Fault` completes with the error bit,
//! and `Silent` never raises the done bit, so a poll loop runs out. On a
//! `Ready` device, single command codes can be marked broken, so that one
//! bus endpoint fails while the rest keep answering.

use vstd::prelude::*;

use crate::regs::{
    CMD_RD_HUB_FREQ, CMD_RD_HUB_NAME_0_3, CMD_RD_HUB_NAME_4_7, CMD_RD_HUB_NAME_8_11,
    CMD_RD_POD_COUNT, CMD_RD_POD_REG, CMD_RD_STATUS, CMD_WR_POD_REG, POD_REG_RAM_DATA,
    STATUS_DONE, STATUS_ERR,
};

verus! {

/// How the simulated device answers commands.
#[derive(Clone, Copy, PartialEq, Eq, Structural, Debug)]
pub enum SimMode {
    /// Every command completes: DONE set, ERR clear.
    Ready,
    /// Every command fails: DONE and ERR set.
    Fault,
    /// No command ever completes: DONE stays clear.
    Silent,
}

/// One capture pod of the simulated device.
pub struct SimPod {
    /// Pod register file, indexed by pod register address.
    pub regs: Vec<u32>,
    /// Low 32 bits of each RAM word (page 0).
    pub ram_lo: Vec<u32>,
    /// High 32 bits of each RAM word (page 1).
    pub ram_hi: Vec<u32>,
}

/// One hub of the simulated device.
pub struct SimHub {
    /// First four bytes of the hub name, most significant byte first.
    pub name_w0: u32,
    /// Middle four bytes of the hub name.
    pub name_w1: u32,
    /// Last four bytes of the hub name.
    pub name_w2: u32,
    /// Raw frequency register; the driver keeps bits 31:20.
    pub freq_reg: u32,
    /// Raw pod-count register; the driver keeps the low byte.
    pub pod_count_reg: u32,
    /// The pods reachable through this hub.
    pub pods: Vec<SimPod>,
}

/// The simulated device behind the register window.
pub struct SimDevice {
    /// Response mode for every command.
    pub mode: SimMode,
    /// Command codes that fail with the error bit even in `Ready`
    /// mode: one bus endpoint can be broken while the rest answer.
    pub fail_cmds: Vec<u32>,
    /// Value answered to the RD_STATUS command.
    pub status_word: u32,
    /// The hubs reachable over the serial bus.
    pub hubs: Vec<SimHub>,
}

/// Mathematical value of a `SimPod`.
#[verifier::ext_equal]
pub ghost struct SimPodV {
    pub regs: Seq<u32>,
    pub ram_lo: Seq<u32>,
    pub ram_hi: Seq<u32>,
}

/// Mathematical value of a `SimHub`.
#[verifier::ext_equal]
pub ghost struct SimHubV {
    pub name_w0: u32,
    pub name_w1: u32,
    pub name_w2: u32,
    pub freq_reg: u32,
    pub pod_count_reg: u32,
    pub pods: Seq<SimPodV>,
}

/// Mathematical value of a `SimDevice`.
#[verifier::ext_equal]
pub ghost struct SimDeviceV {
    pub mode: SimMode,
    pub fail_cmds: Seq<u32>,
    pub status_word: u32,
    pub hubs: Seq<SimHubV>,
}

impl View for SimPod {
    type V = SimPodV;

    open spec fn view(&self) -> SimPodV {
        SimPodV { regs: self.regs@, ram_lo: self.ram_lo@, ram_hi: self.ram_hi@ }
    }
}

impl View for SimHub {
    type V = SimHubV;

    open spec fn view(&self) -> SimHubV {
        SimHubV {
            name_w0: self.name_w0,
            name_w1: self.name_w1,
            name_w2: self.name_w2,
            freq_reg: self.freq_reg,
            pod_count_reg: self.pod_count_reg,
            pods: self.pods@.map_values(|p: SimPod| p@),
        }
    }
}

impl View for SimDevice {
    type V = SimDeviceV;

    open spec fn view(&self) -> SimDeviceV {
        SimDeviceV {
            mode: self.mode,
            fail_cmds: self.fail_cmds@,
            status_word: self.status_word,
            hubs: self.hubs@.map_values(|h: SimHub| h@),
        }
    }
}

/// Whether the device completes this command without the error bit.
pub open spec fn cmd_ok(d: SimDeviceV, cmd: u32) -> bool {
    d.mode is Ready && !d.fail_cmds.contains(cmd)
}

/// STATUS word the window latches when this device starts a command.
pub open spec fn spec_status(d: SimDeviceV, cmd: u32) -> u32 {
    match d.mode {
        SimMode::Ready => if d.fail_cmds.contains(cmd) {
            STATUS_DONE | STATUS_ERR
        } else {
            STATUS_DONE
        },
        SimMode::Fault => STATUS_DONE | STATUS_ERR,
        SimMode::Silent => 0u32,
    }
}

/// Value a pod register read answers: the RAM data register follows the
/// RAM pointer register (bit 20 picks the page, the low 20 bits the
/// address); every other register reads from the register file; anything
/// out of range reads as zero.
pub open spec fn spec_pod_read(d: SimDeviceV, hub: int, pod: int, reg: int) -> u32 {
    if 0 <= hub < d.hubs.len() && 0 <= pod < d.hubs[hub].pods.len() {
        let p = d.hubs[hub].pods[pod];
        if reg == POD_REG_RAM_DATA as int {
            let ptr = if 8 < p.regs.len() { p.regs[8] } else { 0u32 };
            let a = (ptr & 0xFFFFF) as int;
            if (ptr >> 20) & 1 == 0 {
                if a < p.ram_lo.len() { p.ram_lo[a] } else { 0u32 }
            } else {
                if a < p.ram_hi.len() { p.ram_hi[a] } else { 0u32 }
            }
        } else if 0 <= reg < p.regs.len() {
            p.regs[reg]
        } else {
            0u32
        }
    } else {
        0u32
    }
}

/// RDATA the device answers to one command. Unknown commands, and reads
/// addressing hubs or pods that are not there, answer zero.
pub open spec fn spec_respond(d: SimDeviceV, cmd: u32, addr: u32, wdata: u32) -> u32 {
    let hub = ((addr >> 16) & 0xFF) as int;
    let pod = ((addr >> 8) & 0xFF) as int;
    let reg = (addr & 0xFF) as int;
    if cmd == CMD_RD_STATUS {
        d.status_word
    } else if cmd == CMD_RD_HUB_FREQ {
        if hub < d.hubs.len() { d.hubs[hub].freq_reg } else { 0u32 }
    } else if cmd == CMD_RD_POD_COUNT {
        if hub < d.hubs.len() { d.hubs[hub].pod_count_reg } else { 0u32 }
    } else if cmd == CMD_RD_HUB_NAME_0_3 {
        if hub < d.hubs.len() { d.hubs[hub].name_w0 } else { 0u32 }
    } else if cmd == CMD_RD_HUB_NAME_4_7 {
        if hub < d.hubs.len() { d.hubs[hub].name_w1 } else { 0u32 }
    } else if cmd == CMD_RD_HUB_NAME_8_11 {
        if hub < d.hubs.len() { d.hubs[hub].name_w2 } else { 0u32 }
    } else if cmd == CMD_RD_POD_REG {
        spec_pod_read(d, hub, pod, reg)
    } else {
        0u32
    }
}

/// Device state after a pod register write; anything addressing a hub,
/// pod or register that is not there leaves the device as it was.
pub open spec fn spec_pod_write(d: SimDeviceV, hub: int, pod: int, reg: int, value: u32) -> SimDeviceV {
    if 0 <= hub < d.hubs.len() && 0 <= pod < d.hubs[hub].pods.len() && 0 <= reg
        < d.hubs[hub].pods[pod].regs.len() {
        let h = d.hubs[hub];
        let p = h.pods[pod];
        SimDeviceV {
            hubs: d.hubs.update(
                hub,
                SimHubV {
                    pods: h.pods.update(pod, SimPodV { regs: p.regs.update(reg, value), ..p }),
                    ..h
                },
            ),
            ..d
        }
    } else {
        d
    }
}

/// Device state after one command: only a completed pod register write
/// changes it.
pub open spec fn spec_execute(d: SimDeviceV, cmd: u32, addr: u32, wdata: u32) -> SimDeviceV {
    if cmd_ok(d, cmd) && cmd == CMD_WR_POD_REG {
        spec_pod_write(
            d,
            ((addr >> 16) & 0xFF) as int,
            ((addr >> 8) & 0xFF) as int,
            (addr & 0xFF) as int,
            wdata,
        )
    } else {
        d
    }
}

impl SimDevice {
    /// Whether this command code is on the broken list.
    fn fails(&self, cmd: u32) -> (r: bool)
        ensures
            r == self@.fail_cmds.contains(cmd),
    {
        let mut i: usize = 0;
        while i < self.fail_cmds.len()
            invariant
                i <= self.fail_cmds@.len(),
                forall|j: int| 0 <= j < i ==> self.fail_cmds@[j] != cmd,
            decreases self.fail_cmds@.len() - i,
        {
            if self.fail_cmds[i] == cmd {
                return true;
            }
            i += 1;
        }
        false
    }

    /// The STATUS word this device latches when a command starts.
    pub fn latched_status(&self, cmd: u32) -> (r: u32)
        ensures
            r == spec_status(self@, cmd),
    {
        match self.mode {
            SimMode::Ready => if self.fails(cmd) {
                STATUS_DONE | STATUS_ERR
            } else {
                STATUS_DONE
            },
            SimMode::Fault => STATUS_DONE | STATUS_ERR,
            SimMode::Silent => 0u32,
        }
    }

    /// Answers a pod register read.
    fn pod_read(&self, hub: usize, pod: usize, reg: usize) -> (r: u32)
        ensures
            r == spec_pod_read(self@, hub as int, pod as int, reg as int),
    {
        if hub < self.hubs.len() {
            let h = &self.hubs[hub];
            if pod < h.pods.len() {
                let p = &h.pods[pod];
                if reg == POD_REG_RAM_DATA as usize {
                    let ptr: u32 = if 8 < p.regs.len() {
                        p.regs[8]
                    } else {
                        0u32
                    };
                    proof {
                        crate::mmio::lemma_mask_bounds(ptr);
                    }
                    let a = (ptr & 0xFFFFF) as usize;
                    if (ptr >> 20) & 1 == 0 {
                        if a < p.ram_lo.len() {
                            p.ram_lo[a]
                        } else {
                            0u32
                        }
                    } else {
                        if a < p.ram_hi.len() {
                            p.ram_hi[a]
                        } else {
                            0u32
                        }
                    }
                } else if reg < p.regs.len() {
                    p.regs[reg]
                } else {
                    0u32
                }
            } else {
                0u32
            }
        } else {
            0u32
        }
    }

    /// Answers one command without changing the device.
    pub fn respond(&self, cmd: u32, addr: u32, wdata: u32) -> (r: u32)
        ensures
            r == spec_respond(self@, cmd, addr, wdata),
    {
        proof {
            crate::mmio::lemma_mask_bounds(addr);
            crate::mmio::lemma_mask_bounds(addr >> 8);
            crate::mmio::lemma_mask_bounds(addr >> 16);
        }
        let hub = ((addr >> 16) & 0xFF) as usize;
        let pod = ((addr >> 8) & 0xFF) as usize;
        let reg = (addr & 0xFF) as usize;
        if cmd == CMD_RD_STATUS {
            self.status_word
        } else if cmd == CMD_RD_HUB_FREQ {
            if hub < self.hubs.len() {
                self.hubs[hub].freq_reg
            } else {
                0u32
            }
        } else if cmd == CMD_RD_POD_COUNT {
            if hub < self.hubs.len() {
                self.hubs[hub].pod_count_reg
            } else {
                0u32
            }
        } else if cmd == CMD_RD_HUB_NAME_0_3 {
            if hub < self.hubs.len() {
                self.hubs[hub].name_w0
            } else {
                0u32
            }
        } else if cmd == CMD_RD_HUB_NAME_4_7 {
            if hub < self.hubs.len() {
                self.hubs[hub].name_w1
            } else {
                0u32
            }
        } else if cmd == CMD_RD_HUB_NAME_8_11 {
            if hub < self.hubs.len() {
                self.hubs[hub].name_w2
            } else {
                0u32
            }
        } else if cmd == CMD_RD_POD_REG {
            self.pod_read(hub, pod, reg)
        } else {
            0u32
        }
    }

    /// Performs a pod register write on the register file.
    fn pod_write(&mut self, hub: usize, pod: usize, reg: usize, value: u32)
        ensures
            final(self)@ == spec_pod_write(old(self)@, hub as int, pod as int, reg as int, value),
    {
        let ghost d0 = self@;
        if hub < self.hubs.len() {
            let mut h = self.hubs.remove(hub);
            let ghost h0 = h@;
            if pod < h.pods.len() {
                let mut p = h.pods.remove(pod);
                let ghost p0 = p@;
                if reg < p.regs.len() {
                    p.regs[reg] = value;
                    assert(p@ =~= SimPodV { regs: p0.regs.update(reg as int, value), ..p0 });
                }
                h.pods.insert(pod, p);
                assert(h@.pods =~= h0.pods.update(pod as int, p@));
            }
            self.hubs.insert(hub, h);
            assert(self@.hubs =~= d0.hubs.update(hub as int, h@));
        }
        assert(self@ =~~= spec_pod_write(d0, hub as int, pod as int, reg as int, value));
    }

    /// Runs one command: returns the latched STATUS and RDATA words and
    /// applies the command's effect on the device.
    pub fn execute(&mut self, cmd: u32, addr: u32, wdata: u32) -> (r: (u32, u32))
        ensures
            final(self)@ == spec_execute(old(self)@, cmd, addr, wdata),
            r.0 == spec_status(old(self)@, cmd),
            r.1 == spec_respond(old(self)@, cmd, addr, wdata),
    {
        let st = self.latched_status(cmd);
        let rdata = self.respond(cmd, addr, wdata);
        let ready = matches!(self.mode, SimMode::Ready);
        if ready && !self.fails(cmd) && cmd == CMD_WR_POD_REG {
            proof {
                crate::mmio::lemma_mask_bounds(addr);
                crate::mmio::lemma_mask_bounds(addr >> 8);
                crate::mmio::lemma_mask_bounds(addr >> 16);
            }
            let hub = ((addr >> 16) & 0xFF) as usize;
            let pod = ((addr >> 8) & 0xFF) as usize;
            let reg = (addr & 0xFF) as usize;
            self.pod_write(hub, pod, reg, wdata);
        }
        (st, rdata)
    }
}

} // verus!
