//! The ILA driver: the command/status protocol over the register
//! window, pod register indirection, name decoding, pod configuration
//! and RLE sample reads.
//!
//! Every operation takes the driver exclusively (`&mut`), which is what
//! serializes commands: the transport keeps one driver behind one lock,
//! so the accesses of one command never interleave with another's.

use vstd::prelude::*;

use crate::fmt::{trim_back_chars, trim_trailing, utf8_lossy, utf8_lossy_string};
use crate::mmio::{
    lemma_mask_bounds, lemma_store32_other, lemma_store32_word, rd_ev, store32, word_at, wr_ev,
    DevMem, MmioEvent,
};
use crate::records::RleSample;
use crate::regs::{
    spec_pod_addr, CMD_RD_HUB_NAME_0_3, CMD_RD_HUB_NAME_4_7, CMD_RD_HUB_NAME_8_11, CMD_RD_POD_REG,
    CMD_WR_POD_REG, CTRL_START, ILA_SIZE, POD_REG_NAME_0_3, POD_REG_NAME_4_7, POD_REG_NAME_8_11,
    POD_REG_RAM_CFG, POD_REG_RAM_DATA, POD_REG_RAM_PTR, POLL_LIMIT, REG_ADDR, REG_CAP_STATUS,
    REG_CMD, REG_CTRL, REG_HW_INFO, REG_RDATA, REG_STATUS, REG_WDATA, STATUS_DONE, STATUS_ERR,
};
use crate::sim::{
    cmd_ok, spec_execute, spec_pod_read, spec_pod_write, spec_respond, spec_status, SimDevice,
    SimDeviceV,
};

verus! {

/// One command as the driver issued it: the CMD, ADDR and WDATA words.
pub ghost struct CmdRec {
    pub cmd: u32,
    pub addr: u32,
    pub wdata: u32,
}

/// Shorthand for a command record.
pub open spec fn rec(cmd: u32, addr: u32, wdata: u32) -> CmdRec {
    CmdRec { cmd, addr, wdata }
}

/// Value a command answers: the device's response when it completes,
/// nothing when it fails or times out.
pub open spec fn cmd_result(d: SimDeviceV, cmd: u32, addr: u32, wdata: u32) -> Option<u32> {
    if cmd_ok(d, cmd) {
        Some(spec_respond(d, cmd, addr, wdata))
    } else {
        None
    }
}

/// No command changes the device's mode, its broken-command list or
/// its status word: only pod register files move.
pub proof fn lemma_execute_keeps_identity(d: SimDeviceV, cmd: u32, addr: u32, wdata: u32)
    ensures
        spec_execute(d, cmd, addr, wdata).mode == d.mode,
        spec_execute(d, cmd, addr, wdata).fail_cmds == d.fail_cmds,
        spec_execute(d, cmd, addr, wdata).status_word == d.status_word,
        spec_execute(d, cmd, addr, wdata).hubs.len() == d.hubs.len(),
{
}

/// An option's value, zero when there is none.
pub open spec fn opt_or_zero(o: Option<u32>) -> u32 {
    match o {
        Option::Some(v) => v,
        Option::None => 0u32,
    }
}

/// The four parameter stores that open every command, in order.
pub open spec fn frame_events(cmd: u32, addr: u32, wdata: u32) -> Seq<MmioEvent> {
    seq![
        wr_ev(REG_CMD, cmd),
        wr_ev(REG_ADDR, addr),
        wr_ev(REG_WDATA, wdata),
        wr_ev(REG_CTRL, CTRL_START),
    ]
}

/// Everything the backing memory observes for one command: the frame,
/// the STATUS polls, and — exactly when the command completes without
/// error — one RDATA read.
pub open spec fn cmd_bus_events(d: SimDeviceV, cmd: u32, addr: u32, wdata: u32) -> Seq<MmioEvent> {
    let frame = frame_events(cmd, addr, wdata);
    if d.mode is Silent {
        frame + Seq::new(POLL_LIMIT as nat, |i: int| rd_ev(REG_STATUS, spec_status(d, cmd)))
    } else if cmd_ok(d, cmd) {
        frame + seq![
            rd_ev(REG_STATUS, spec_status(d, cmd)),
            rd_ev(REG_RDATA, spec_respond(d, cmd, addr, wdata)),
        ]
    } else {
        frame + seq![rd_ev(REG_STATUS, spec_status(d, cmd))]
    }
}

/// The window bytes after one command: the four parameter stores, then
/// the latched STATUS and RDATA words.
pub open spec fn win_after_cmd(m: Seq<u8>, d: SimDeviceV, cmd: u32, addr: u32, wdata: u32) -> Seq<
    u8,
> {
    let m1 = store32(
        store32(
            store32(store32(m, REG_CMD as int, cmd), REG_ADDR as int, addr),
            REG_WDATA as int,
            wdata,
        ),
        REG_CTRL as int,
        CTRL_START,
    );
    store32(
        store32(m1, REG_STATUS as int, spec_status(d, cmd)),
        REG_RDATA as int,
        spec_respond(d, cmd, addr, wdata),
    )
}

/// Device state after a pod register write command.
pub open spec fn pod_write_dev(d: SimDeviceV, hub: u8, pod: u8, reg: u8, v: u32) -> SimDeviceV {
    spec_execute(d, CMD_WR_POD_REG, spec_pod_addr(hub, pod, reg), v)
}

/// Value a pod register read command answers.
pub open spec fn pod_read_val(d: SimDeviceV, hub: u8, pod: u8, reg: u8) -> u32 {
    spec_respond(d, CMD_RD_POD_REG, spec_pod_addr(hub, pod, reg), 0)
}

/// The composed-address pod operations reach exactly the addressed
/// register file entry.
pub proof fn lemma_pod_ops(d: SimDeviceV, hub: u8, pod: u8, reg: u8, v: u32)
    ensures
        pod_read_val(d, hub, pod, reg) == spec_pod_read(d, hub as int, pod as int, reg as int),
        cmd_ok(d, CMD_WR_POD_REG) ==> pod_write_dev(d, hub, pod, reg, v) == spec_pod_write(
            d,
            hub as int,
            pod as int,
            reg as int,
            v,
        ),
        !cmd_ok(d, CMD_WR_POD_REG) ==> pod_write_dev(d, hub, pod, reg, v) == d,
{
    crate::regs::lemma_pod_addr_fields(hub, pod, reg);
}

/// Two commands in sequence leave their event blocks whole and in
/// order on the trace: the first command's accesses sit as one
/// contiguous block, the second command's right after it, with
/// nothing interleaved. (Concurrent callers are serialized before
/// this applies: by the exclusive borrow here, and by the one lock
/// the transport holds across each command.)
pub proof fn lemma_commands_do_not_interleave(
    b0: Seq<MmioEvent>,
    b1: Seq<MmioEvent>,
    b2: Seq<MmioEvent>,
    d1: SimDeviceV,
    c1: (u32, u32, u32),
    d2: SimDeviceV,
    c2: (u32, u32, u32),
)
    requires
        b1 == b0 + cmd_bus_events(d1, c1.0, c1.1, c1.2),
        b2 == b1 + cmd_bus_events(d2, c2.0, c2.1, c2.2),
    ensures
        b2 == b0 + cmd_bus_events(d1, c1.0, c1.1, c1.2) + cmd_bus_events(d2, c2.0, c2.1, c2.2),
        b2.subrange(b0.len() as int, b1.len() as int) == cmd_bus_events(d1, c1.0, c1.1, c1.2),
        b2.subrange(b1.len() as int, b2.len() as int) == cmd_bus_events(d2, c2.0, c2.1, c2.2),
{
    assert(b2 =~= b0 + cmd_bus_events(d1, c1.0, c1.1, c1.2) + cmd_bus_events(d2, c2.0, c2.1, c2.2));
    assert(b2.subrange(b0.len() as int, b1.len() as int) =~= cmd_bus_events(
        d1,
        c1.0,
        c1.1,
        c1.2,
    ));
    assert(b2.subrange(b1.len() as int, b2.len() as int) =~= cmd_bus_events(
        d2,
        c2.0,
        c2.1,
        c2.2,
    ));
}

/// Splits the identity word into the 16-bit ID, the hub count and the
/// revision.
pub fn decode_hw_info(v: u32) -> (r: (u32, u8, u8))
    ensures
        r.0 == (v >> 16) & 0xFFFF,
        r.1 == ((v >> 8) & 0xFF) as u8,
        r.2 == (v & 0xFF) as u8,
{
    proof {
        lemma_mask_bounds(v);
    }
    ((v >> 16) & 0xFFFF, ((v >> 8) & 0xFF) as u8, (v & 0xFF) as u8)
}

/// Splits a pod's hardware configuration word into `(hw_rev,
/// view_dwords, view_words, view_bytes, view_bits, rle_disable,
/// view_rom_en)`.
pub fn decode_hw_cfg(v: u32) -> (r: (u8, bool, bool, bool, bool, bool, bool))
    ensures
        r.0 == ((v >> 24) & 0xFF) as u8,
        r.1 == (v & 0x0800 != 0),
        r.2 == (v & 0x0400 != 0),
        r.3 == (v & 0x0200 != 0),
        r.4 == (v & 0x0100 != 0),
        r.5 == (v & 0x04 != 0),
        r.6 == (v & 0x02 != 0),
{
    proof {
        lemma_mask_bounds(v);
    }
    (
        ((v >> 24) & 0xFF) as u8,
        v & 0x0800 != 0,
        v & 0x0400 != 0,
        v & 0x0200 != 0,
        v & 0x0100 != 0,
        v & 0x04 != 0,
        v & 0x02 != 0,
    )
}

/// Splits a sample's high word into its RLE code and timestamp.
pub fn split_rle_word(hi: u32, ts_bits: u8) -> (r: (u8, u32))
    ensures
        r.0 == spec_rle_code(hi, ts_bits),
        r.1 == spec_timestamp(hi, ts_bits),
{
    if ts_bits < 32 {
        let tb = ts_bits as u32;
        proof {
            lemma_mask_bounds(hi >> tb);
            assert(1u32 << tb >= 1) by (bit_vector)
                requires
                    tb < 32,
            ;
        }
        (((hi >> tb) & 0x3) as u8, hi & ((1u32 << tb) - 1))
    } else {
        (0u8, hi)
    }
}

/// Bit tests on the constant STATUS words and the START bit.
pub proof fn lemma_status_bits()
    by (bit_vector)
    ensures
        STATUS_DONE & STATUS_DONE != 0,
        (STATUS_DONE | STATUS_ERR) & STATUS_DONE != 0,
        (STATUS_DONE | STATUS_ERR) & STATUS_ERR != 0,
        STATUS_DONE & STATUS_ERR == 0,
        0u32 & STATUS_DONE == 0,
        0u32 & STATUS_ERR == 0,
        CTRL_START & CTRL_START != 0,
{
}

/// The frame stores leave the CMD, ADDR and WDATA words readable.
proof fn lemma_frame_words(m: Seq<u8>, cmd: u32, addr: u32, wdata: u32)
    requires
        m.len() >= 0x18,
    ensures
        ({
            let m1 = store32(
                store32(
                    store32(store32(m, REG_CMD as int, cmd), REG_ADDR as int, addr),
                    REG_WDATA as int,
                    wdata,
                ),
                REG_CTRL as int,
                CTRL_START,
            );
            word_at(m1, REG_CMD as int) == cmd && word_at(m1, REG_ADDR as int) == addr && word_at(
                m1,
                REG_WDATA as int,
            ) == wdata
        }),
{
    let a = store32(m, REG_CMD as int, cmd);
    let b = store32(a, REG_ADDR as int, addr);
    let c = store32(b, REG_WDATA as int, wdata);
    lemma_store32_word(m, REG_CMD as int, cmd);
    lemma_store32_other(a, REG_ADDR as int, addr, REG_CMD as int);
    lemma_store32_other(b, REG_WDATA as int, wdata, REG_CMD as int);
    lemma_store32_other(c, REG_CTRL as int, CTRL_START, REG_CMD as int);
    lemma_store32_word(a, REG_ADDR as int, addr);
    lemma_store32_other(b, REG_WDATA as int, wdata, REG_ADDR as int);
    lemma_store32_other(c, REG_CTRL as int, CTRL_START, REG_ADDR as int);
    lemma_store32_word(b, REG_WDATA as int, wdata);
    lemma_store32_other(c, REG_CTRL as int, CTRL_START, REG_WDATA as int);
}

/// The latched STATUS and RDATA words are readable after a command.
proof fn lemma_latch_words(m1: Seq<u8>, st: u32, rdata: u32)
    requires
        m1.len() >= 0x18,
    ensures
        ({
            let mf = store32(store32(m1, REG_STATUS as int, st), REG_RDATA as int, rdata);
            word_at(mf, REG_STATUS as int) == st && word_at(mf, REG_RDATA as int) == rdata
        }),
{
    let s1 = store32(m1, REG_STATUS as int, st);
    lemma_store32_word(m1, REG_STATUS as int, st);
    lemma_store32_other(s1, REG_RDATA as int, rdata, REG_STATUS as int);
    lemma_store32_word(s1, REG_RDATA as int, rdata);
}

/// The driver: one register window, taken exclusively for the span of
/// every command.
pub struct IlaState {
    mem: DevMem,
    log: Ghost<Seq<CmdRec>>,
}

impl IlaState {
    /// The simulated device behind the window.
    pub closed spec fn dev(&self) -> SimDeviceV {
        self.mem.device@
    }

    /// Every host access the window has observed.
    pub closed spec fn bus(&self) -> Seq<MmioEvent> {
        self.mem.trace@
    }

    /// The window bytes.
    pub closed spec fn win(&self) -> Seq<u8> {
        self.mem.bytes@
    }

    /// The reported base address.
    pub closed spec fn base(&self) -> usize {
        self.mem.base_addr
    }

    /// Every command issued so far, in order.
    pub closed spec fn issued(&self) -> Seq<CmdRec> {
        self.log@
    }

    /// The window covers the whole ILA register block, and its base is
    /// a 32-bit bus address.
    pub open spec fn wf(&self) -> bool {
        self.win().len() == ILA_SIZE && self.base() <= 0xFFFF_FFFF
    }

    /// Opens a driver over a fresh window: the device behind it, and the
    /// values the read-only HW_INFO and CAP_STATUS registers show.
    pub fn new(base_addr: usize, device: SimDevice, hw_info: u32, cap_status: u32) -> (r: IlaState)
        requires
            base_addr <= 0xFFFF_FFFF,
        ensures
            r.wf(),
            r.dev() == device@,
            r.base() == base_addr,
            r.bus() == Seq::<MmioEvent>::empty(),
            r.issued() == Seq::<CmdRec>::empty(),
            word_at(r.win(), REG_HW_INFO as int) == hw_info,
            word_at(r.win(), REG_CAP_STATUS as int) == cap_status,
    {
        let mut mem = DevMem::new(base_addr, ILA_SIZE, device);
        let ghost m0 = mem.bytes@;
        mem.poke32(REG_HW_INFO, hw_info);
        let ghost m1 = mem.bytes@;
        mem.poke32(REG_CAP_STATUS, cap_status);
        proof {
            lemma_store32_word(m0, REG_HW_INFO as int, hw_info);
            lemma_store32_other(m1, REG_CAP_STATUS as int, cap_status, REG_HW_INFO as int);
            lemma_store32_word(m1, REG_CAP_STATUS as int, cap_status);
        }
        IlaState { mem, log: Ghost(Seq::empty()) }
    }

    /// The window, for inspection: its bytes, its device, its trace.
    pub fn window(&self) -> (r: &DevMem)
        ensures
            r.bytes@ == self.win(),
            r.trace@ == self.bus(),
            r.device@ == self.dev(),
            r.base_addr == self.base(),
    {
        &self.mem
    }

    /// The physical base address the driver reports.
    pub fn base_addr(&self) -> (r: usize)
        ensures
            r == self.base(),
    {
        self.mem.base_addr()
    }

    /// Host read of one window register, as the raw-register route and
    /// enumeration use it.
    pub fn read_reg32(&mut self, offset: usize) -> (r: Option<u32>)
        requires
            old(self).wf(),
        ensures
            final(self).wf(),
            final(self).base() == old(self).base(),
            final(self).dev() == old(self).dev(),
            final(self).win() == old(self).win(),
            final(self).issued() == old(self).issued(),
            offset + 4 > ILA_SIZE ==> r is None && final(self).bus() == old(self).bus(),
            offset + 4 <= ILA_SIZE ==> r == Some(word_at(old(self).win(), offset as int))
                && final(self).bus() == old(self).bus().push(
                rd_ev(offset, word_at(old(self).win(), offset as int)),
            ),
    {
        self.mem.read32(offset)
    }

    /// Executes one command and waits for completion by polling.
    ///
    /// The backing memory observes exactly: the four parameter stores,
    /// then STATUS polls — one when the first poll shows DONE, the full
    /// `POLL_LIMIT` when DONE never rises — and one RDATA read exactly
    /// when the command completed without the error bit.
    pub fn exec_cmd(&mut self, cmd: u32, addr: u32, wdata: u32) -> (r: Option<u32>)
        requires
            old(self).wf(),
        ensures
            final(self).wf(),
            final(self).base() == old(self).base(),
            r == cmd_result(old(self).dev(), cmd, addr, wdata),
            final(self).dev() == spec_execute(old(self).dev(), cmd, addr, wdata),
            final(self).issued() == old(self).issued().push(rec(cmd, addr, wdata)),
            final(self).bus() == old(self).bus() + cmd_bus_events(old(self).dev(), cmd, addr, wdata),
            final(self).win() == win_after_cmd(old(self).win(), old(self).dev(), cmd, addr, wdata),
            forall|o: int|
                0x18 <= o < ILA_SIZE ==> final(self).win()[o] == old(self).win()[o],
    {
        let ghost d0 = self.dev();
        let ghost w0 = self.win();
        let ghost bus_pre = self.bus();
        let ghost iss0 = self.issued();
        proof {
            lemma_status_bits();
        }
        self.mem.write32(REG_CMD, cmd);
        self.mem.write32(REG_ADDR, addr);
        self.mem.write32(REG_WDATA, wdata);
        proof {
            lemma_frame_words(w0, cmd, addr, wdata);
        }
        self.mem.write32(REG_CTRL, CTRL_START);
        self.log = Ghost(self.log@.push(rec(cmd, addr, wdata)));
        let ghost st = spec_status(d0, cmd);
        let ghost resp = spec_respond(d0, cmd, addr, wdata);
        let ghost mpost = self.win();
        let ghost dpost = self.dev();
        let ghost frame_bus = self.bus();
        proof {
            let m1 = store32(
                store32(
                    store32(store32(w0, REG_CMD as int, cmd), REG_ADDR as int, addr),
                    REG_WDATA as int,
                    wdata,
                ),
                REG_CTRL as int,
                CTRL_START,
            );
            lemma_latch_words(m1, st, resp);
            assert(frame_bus =~= bus_pre + frame_events(cmd, addr, wdata));
        }
        let mut k: u32 = 0;
        while k < POLL_LIMIT
            invariant
                d0 == old(self).dev(),
                w0 == old(self).win(),
                bus_pre == old(self).bus(),
                iss0 == old(self).issued(),
                self.wf(),
                self.win() == mpost,
                self.dev() == dpost,
                self.base() == old(self).base(),
                self.issued() == iss0.push(rec(cmd, addr, wdata)),
                k <= POLL_LIMIT,
                word_at(mpost, REG_STATUS as int) == st,
                word_at(mpost, REG_RDATA as int) == resp,
                st == spec_status(d0, cmd),
                resp == spec_respond(d0, cmd, addr, wdata),
                dpost == spec_execute(d0, cmd, addr, wdata),
                mpost == win_after_cmd(w0, d0, cmd, addr, wdata),
                forall|o: int| 0x18 <= o < ILA_SIZE ==> mpost[o] == w0[o],
                self.bus() == frame_bus + Seq::new(k as nat, |i: int| rd_ev(REG_STATUS, st)),
                frame_bus == bus_pre + frame_events(cmd, addr, wdata),
                k > 0 ==> d0.mode is Silent,
            decreases POLL_LIMIT - k,
        {
            proof {
                lemma_status_bits();
            }
            let status = match self.mem.read32(REG_STATUS) {
                Some(s) => s,
                None => {
                    return None;
                },
            };
            if status & STATUS_DONE != 0 {
                if status & STATUS_ERR != 0 {
                    proof {
                        assert(!(d0.mode is Silent));
                        assert(!cmd_ok(d0, cmd));
                        assert(self.bus() =~= bus_pre + cmd_bus_events(d0, cmd, addr, wdata));
                    }
                    return None;
                }
                let r = self.mem.read32(REG_RDATA);
                proof {
                    assert(cmd_ok(d0, cmd));
                    assert(self.bus() =~= bus_pre + cmd_bus_events(d0, cmd, addr, wdata));
                }
                return r;
            }
            proof {
                assert(d0.mode is Silent);
            }
            k = k + 1;
            proof {
                assert(self.bus() =~= frame_bus + Seq::new(
                    k as nat,
                    |i: int| rd_ev(REG_STATUS, st),
                ));
            }
        }
        proof {
            assert(d0.mode is Silent);
            assert(self.bus() =~= bus_pre + cmd_bus_events(d0, cmd, addr, wdata));
        }
        None
    }

    /// Reads one pod register over the serial bus.
    pub fn read_pod_reg(&mut self, hub: u8, pod: u8, reg: u8) -> (r: Option<u32>)
        requires
            old(self).wf(),
        ensures
            final(self).wf(),
            final(self).base() == old(self).base(),
            r == cmd_result(old(self).dev(), CMD_RD_POD_REG, spec_pod_addr(hub, pod, reg), 0),
            final(self).dev() == old(self).dev(),
            final(self).issued() == old(self).issued().push(
                rec(CMD_RD_POD_REG, spec_pod_addr(hub, pod, reg), 0),
            ),
            forall|o: int|
                0x18 <= o < ILA_SIZE ==> final(self).win()[o] == old(self).win()[o],
    {
        let addr = crate::regs::pod_addr(hub, pod, reg);
        self.exec_cmd(CMD_RD_POD_REG, addr, 0)
    }

    /// Writes one pod register over the serial bus; true exactly when
    /// the command completed.
    pub fn write_pod_reg(&mut self, hub: u8, pod: u8, reg: u8, value: u32) -> (r: bool)
        requires
            old(self).wf(),
        ensures
            final(self).wf(),
            final(self).base() == old(self).base(),
            r == cmd_ok(old(self).dev(), CMD_WR_POD_REG),
            final(self).dev() == pod_write_dev(old(self).dev(), hub, pod, reg, value),
            final(self).issued() == old(self).issued().push(
                rec(CMD_WR_POD_REG, spec_pod_addr(hub, pod, reg), value),
            ),
            forall|o: int|
                0x18 <= o < ILA_SIZE ==> final(self).win()[o] == old(self).win()[o],
    {
        let addr = crate::regs::pod_addr(hub, pod, reg);
        let r = self.exec_cmd(CMD_WR_POD_REG, addr, value);
        r.is_some()
    }

    /// Reads a hub's 12-byte name and decodes it.
    pub fn read_hub_name(&mut self, hub: u8) -> (r: String)
        requires
            old(self).wf(),
        ensures
            final(self).wf(),
            final(self).base() == old(self).base(),
            final(self).dev() == old(self).dev(),
            r@ == spec_hub_name(old(self).dev(), hub),
            final(self).issued() == old(self).issued() + seq![
                rec(CMD_RD_HUB_NAME_0_3, (hub as u32) << 16, 0),
                rec(CMD_RD_HUB_NAME_4_7, (hub as u32) << 16, 0),
                rec(CMD_RD_HUB_NAME_8_11, (hub as u32) << 16, 0),
            ],
    {
        let ghost iss0 = self.issued();
        let addr = (hub as u32) << 16;
        let w0 = self.exec_cmd(CMD_RD_HUB_NAME_0_3, addr, 0);
        let w1 = self.exec_cmd(CMD_RD_HUB_NAME_4_7, addr, 0);
        let w2 = self.exec_cmd(CMD_RD_HUB_NAME_8_11, addr, 0);
        proof {
            assert(self.issued() =~= iss0 + seq![
                rec(CMD_RD_HUB_NAME_0_3, (hub as u32) << 16, 0),
                rec(CMD_RD_HUB_NAME_4_7, (hub as u32) << 16, 0),
                rec(CMD_RD_HUB_NAME_8_11, (hub as u32) << 16, 0),
            ]);
        }
        decode_name3(w0, w1, w2)
    }

    /// Reads a pod's 12-byte name and decodes it.
    pub fn read_pod_name(&mut self, hub: u8, pod: u8) -> (r: String)
        requires
            old(self).wf(),
        ensures
            final(self).wf(),
            final(self).base() == old(self).base(),
            final(self).dev() == old(self).dev(),
            r@ == spec_pod_name(old(self).dev(), hub, pod),
            final(self).issued() == old(self).issued() + seq![
                rec(CMD_RD_POD_REG, spec_pod_addr(hub, pod, POD_REG_NAME_0_3), 0),
                rec(CMD_RD_POD_REG, spec_pod_addr(hub, pod, POD_REG_NAME_4_7), 0),
                rec(CMD_RD_POD_REG, spec_pod_addr(hub, pod, POD_REG_NAME_8_11), 0),
            ],
    {
        let ghost iss0 = self.issued();
        let w0 = self.read_pod_reg(hub, pod, POD_REG_NAME_0_3);
        let w1 = self.read_pod_reg(hub, pod, POD_REG_NAME_4_7);
        let w2 = self.read_pod_reg(hub, pod, POD_REG_NAME_8_11);
        proof {
            assert(self.issued() =~= iss0 + seq![
                rec(CMD_RD_POD_REG, spec_pod_addr(hub, pod, POD_REG_NAME_0_3), 0),
                rec(CMD_RD_POD_REG, spec_pod_addr(hub, pod, POD_REG_NAME_4_7), 0),
                rec(CMD_RD_POD_REG, spec_pod_addr(hub, pod, POD_REG_NAME_8_11), 0),
            ]);
        }
        decode_name3(w0, w1, w2)
    }

    /// Reads a pod's RAM configuration register and decodes it into
    /// `(ts_bits, data_bits, ram_depth)`. A failed read leaves all
    /// three fields zero — the pod is offline, it has no RAM.
    pub fn get_pod_config(&mut self, hub: u8, pod: u8) -> (r: (u8, u16, u32))
        requires
            old(self).wf(),
        ensures
            final(self).wf(),
            final(self).base() == old(self).base(),
            final(self).dev() == old(self).dev(),
            final(self).issued() == old(self).issued().push(
                rec(CMD_RD_POD_REG, spec_pod_addr(hub, pod, POD_REG_RAM_CFG), 0),
            ),
            r == spec_pod_config(old(self).dev(), hub, pod),
    {
        match self.read_pod_reg(hub, pod, POD_REG_RAM_CFG) {
            Some(v) => decode_ram_cfg(v),
            None => (0u8, 0u16, 0u32),
        }
    }

    /// Reads and decodes one RLE sample out of a pod's RAM: sets the RAM
    /// pointer to page 0 of `addr`, reads the low word, moves to page 1,
    /// reads the high word, and splits the high word into timestamp and
    /// code. Any failing step yields nothing: a refused pointer write
    /// aborts before the data read, a refused data read after the
    /// pointer was already moved.
    pub fn read_rle_sample(&mut self, hub: u8, pod: u8, addr: u32, ts_bits: u8) -> (r: Option<
        RleSample,
    >)
        requires
            old(self).wf(),
        ensures
            final(self).wf(),
            final(self).base() == old(self).base(),
            !cmd_ok(old(self).dev(), CMD_WR_POD_REG) ==> r is None && final(self).dev() == old(
                self,
            ).dev() && final(self).issued() == old(self).issued().push(
                rec(CMD_WR_POD_REG, spec_pod_addr(hub, pod, POD_REG_RAM_PTR), addr),
            ),
            cmd_ok(old(self).dev(), CMD_WR_POD_REG) && !cmd_ok(old(self).dev(), CMD_RD_POD_REG)
                ==> r is None && final(self).dev() == pod_write_dev(
                old(self).dev(),
                hub,
                pod,
                POD_REG_RAM_PTR,
                addr,
            ) && final(self).issued() == old(self).issued() + seq![
                rec(CMD_WR_POD_REG, spec_pod_addr(hub, pod, POD_REG_RAM_PTR), addr),
                rec(CMD_RD_POD_REG, spec_pod_addr(hub, pod, POD_REG_RAM_DATA), 0),
            ],
            cmd_ok(old(self).dev(), CMD_WR_POD_REG) && cmd_ok(old(self).dev(), CMD_RD_POD_REG)
                ==> ({
                let d0 = old(self).dev();
                let d1 = pod_write_dev(d0, hub, pod, POD_REG_RAM_PTR, addr);
                let data = pod_read_val(d1, hub, pod, POD_REG_RAM_DATA);
                let d2 = pod_write_dev(d1, hub, pod, POD_REG_RAM_PTR, (1u32 << 20) | addr);
                let hi = pod_read_val(d2, hub, pod, POD_REG_RAM_DATA);
                final(self).dev() == d2 && r == Some(
                    RleSample {
                        address: addr,
                        code: spec_rle_code(hi, ts_bits),
                        timestamp: spec_timestamp(hi, ts_bits),
                        data,
                    },
                ) && final(self).issued() == old(self).issued() + seq![
                    rec(CMD_WR_POD_REG, spec_pod_addr(hub, pod, POD_REG_RAM_PTR), addr),
                    rec(CMD_RD_POD_REG, spec_pod_addr(hub, pod, POD_REG_RAM_DATA), 0),
                    rec(
                        CMD_WR_POD_REG,
                        spec_pod_addr(hub, pod, POD_REG_RAM_PTR),
                        (1u32 << 20) | addr,
                    ),
                    rec(CMD_RD_POD_REG, spec_pod_addr(hub, pod, POD_REG_RAM_DATA), 0),
                ]
            }),
    {
        let ghost iss0 = self.issued();
        let ghost d0 = self.dev();
        if !self.write_pod_reg(hub, pod, POD_REG_RAM_PTR, addr) {
            return None;
        }
        proof {
            lemma_execute_keeps_identity(
                d0,
                CMD_WR_POD_REG,
                spec_pod_addr(hub, pod, POD_REG_RAM_PTR),
                addr,
            );
        }
        let data = match self.read_pod_reg(hub, pod, POD_REG_RAM_DATA) {
            Some(v) => v,
            None => {
                proof {
                    assert(self.issued() =~= iss0 + seq![
                        rec(CMD_WR_POD_REG, spec_pod_addr(hub, pod, POD_REG_RAM_PTR), addr),
                        rec(CMD_RD_POD_REG, spec_pod_addr(hub, pod, POD_REG_RAM_DATA), 0),
                    ]);
                }
                return None;
            },
        };
        proof {
            lemma_execute_keeps_identity(
                self.dev(),
                CMD_WR_POD_REG,
                spec_pod_addr(hub, pod, POD_REG_RAM_PTR),
                (1u32 << 20) | addr,
            );
        }
        if !self.write_pod_reg(hub, pod, POD_REG_RAM_PTR, (1u32 << 20) | addr) {
            return None;
        }
        let hi = match self.read_pod_reg(hub, pod, POD_REG_RAM_DATA) {
            Some(v) => v,
            None => {
                return None;
            },
        };
        let decoded = split_rle_word(hi, ts_bits);
        let code = decoded.0;
        let timestamp = decoded.1;
        proof {
            assert(self.issued() =~= iss0 + seq![
                rec(CMD_WR_POD_REG, spec_pod_addr(hub, pod, POD_REG_RAM_PTR), addr),
                rec(CMD_RD_POD_REG, spec_pod_addr(hub, pod, POD_REG_RAM_DATA), 0),
                rec(CMD_WR_POD_REG, spec_pod_addr(hub, pod, POD_REG_RAM_PTR), (1u32 << 20) | addr),
                rec(CMD_RD_POD_REG, spec_pod_addr(hub, pod, POD_REG_RAM_DATA), 0),
            ]);
        }
        Some(RleSample { address: addr, code, timestamp, data })
    }
}

/// The bytes of one register name word, most significant byte first;
/// a word whose read failed contributes nothing.
pub open spec fn name_word_bytes(w: Option<u32>) -> Seq<u8> {
    match w {
        Option::None => Seq::<u8>::empty(),
        Option::Some(v) => seq![
            ((v >> 24) & 0xFF) as u8,
            ((v >> 16) & 0xFF) as u8,
            ((v >> 8) & 0xFF) as u8,
            (v & 0xFF) as u8,
        ],
    }
}

/// A 12-byte register name, decoded: the three words' bytes read as
/// lossy UTF-8, with trailing whitespace and NULs trimmed.
pub open spec fn name_chars(w0: Option<u32>, w1: Option<u32>, w2: Option<u32>) -> Seq<char> {
    trim_back_chars(utf8_lossy(name_word_bytes(w0) + name_word_bytes(w1) + name_word_bytes(w2)))
}

/// The name enumeration reports for hub `hub`.
pub open spec fn spec_hub_name(d: SimDeviceV, hub: u8) -> Seq<char> {
    name_chars(
        cmd_result(d, CMD_RD_HUB_NAME_0_3, (hub as u32) << 16, 0),
        cmd_result(d, CMD_RD_HUB_NAME_4_7, (hub as u32) << 16, 0),
        cmd_result(d, CMD_RD_HUB_NAME_8_11, (hub as u32) << 16, 0),
    )
}

/// The name enumeration reports for pod `pod` of hub `hub`.
pub open spec fn spec_pod_name(d: SimDeviceV, hub: u8, pod: u8) -> Seq<char> {
    name_chars(
        cmd_result(d, CMD_RD_POD_REG, spec_pod_addr(hub, pod, POD_REG_NAME_0_3), 0),
        cmd_result(d, CMD_RD_POD_REG, spec_pod_addr(hub, pod, POD_REG_NAME_4_7), 0),
        cmd_result(d, CMD_RD_POD_REG, spec_pod_addr(hub, pod, POD_REG_NAME_8_11), 0),
    )
}

/// What a pod's configuration read yields as `(ts_bits, data_bits,
/// ram_depth)`: the decoded register when the command completes, all
/// three fields zero when it fails (the pod is offline).
pub open spec fn spec_pod_config(d: SimDeviceV, hub: u8, pod: u8) -> (u8, u16, u32) {
    match cmd_result(d, CMD_RD_POD_REG, spec_pod_addr(hub, pod, POD_REG_RAM_CFG), 0) {
        Option::Some(ram_cfg) => (
            ((ram_cfg >> 24) & 0xFF) as u8,
            ((ram_cfg >> 8) & 0xFFFF) as u16,
            spec_ram_depth((ram_cfg & 0xFF) as u8),
        ),
        Option::None => (0u8, 0u16, 0u32),
    }
}

/// RAM entry count for a reported depth width; widths of 32 bits or
/// more do not fit a 32-bit count and saturate.
pub open spec fn spec_ram_depth(depth_bits: u8) -> u32 {
    if depth_bits < 32 {
        (1u32 << (depth_bits as u32))
    } else {
        0xFFFF_FFFFu32
    }
}

/// The low `ts_bits` bits of a sample's high word.
pub open spec fn spec_timestamp(hi: u32, ts_bits: u8) -> u32 {
    if ts_bits < 32 {
        hi & ((1u32 << (ts_bits as u32)) - 1) as u32
    } else {
        hi
    }
}

/// The two RLE code bits above the timestamp of a sample's high word.
pub open spec fn spec_rle_code(hi: u32, ts_bits: u8) -> u8 {
    if ts_bits < 32 {
        ((hi >> (ts_bits as u32)) & 0x3) as u8
    } else {
        0u8
    }
}

/// Splits a RAM configuration word into `(ts_bits, data_bits,
/// ram_depth)`: timestamp width in the top byte, data width in the
/// middle sixteen bits, and the RAM entry count from the depth width
/// in the low byte.
pub fn decode_ram_cfg(ram_cfg: u32) -> (r: (u8, u16, u32))
    ensures
        r.0 == ((ram_cfg >> 24) & 0xFF) as u8,
        r.1 == ((ram_cfg >> 8) & 0xFFFF) as u16,
        r.2 == spec_ram_depth((ram_cfg & 0xFF) as u8),
{
    proof {
        lemma_mask_bounds(ram_cfg);
    }
    let depth_bits = (ram_cfg & 0xFF) as u8;
    let data_bits = ((ram_cfg >> 8) & 0xFFFF) as u16;
    let ts_bits = ((ram_cfg >> 24) & 0xFF) as u8;
    let ram_depth: u32 = if depth_bits < 32 {
        1u32 << (depth_bits as u32)
    } else {
        0xFFFF_FFFFu32
    };
    (ts_bits, data_bits, ram_depth)
}

/// Appends the four bytes of one name word, most significant first.
fn push_name_word(b: &mut Vec<u8>, w: Option<u32>)
    ensures
        final(b)@ == old(b)@ + name_word_bytes(w),
{
    match w {
        None => {
            proof {
                assert(b@ =~= old(b)@ + name_word_bytes(w));
            }
        },
        Some(v) => {
            proof {
                lemma_mask_bounds(v);
            }
            b.push(((v >> 24) & 0xFF) as u8);
            b.push(((v >> 16) & 0xFF) as u8);
            b.push(((v >> 8) & 0xFF) as u8);
            b.push((v & 0xFF) as u8);
            proof {
                assert(b@ =~= old(b)@ + name_word_bytes(w));
            }
        },
    }
}

/// Decodes a 12-byte register name out of its three words: the bytes
/// in word order, most significant byte first, read as lossy UTF-8
/// and trimmed of trailing whitespace and NULs.
pub fn decode_name3(w0: Option<u32>, w1: Option<u32>, w2: Option<u32>) -> (r: String)
    ensures
        r@ == name_chars(w0, w1, w2),
{
    let mut b: Vec<u8> = Vec::new();
    push_name_word(&mut b, w0);
    push_name_word(&mut b, w1);
    push_name_word(&mut b, w2);
    proof {
        assert(b@ =~= name_word_bytes(w0) + name_word_bytes(w1) + name_word_bytes(w2));
    }
    let decoded = utf8_lossy_string(&b);
    trim_trailing(decoded.as_str())
}

} // verus!
