//! The request-oriented facade over the driver: info, status, the
//! state commands, trigger configuration, capture reads and raw
//! register reads, each producing one result record.
//!
//! The quiescing waits the hardware wants after INIT are the
//! transport's to perform between calls; no operation here sleeps.

use vstd::prelude::*;
use vstd::string::StringExecFns;

use crate::driver::{
    cmd_bus_events, cmd_result, lemma_pod_ops, opt_or_zero, pod_read_val, pod_write_dev, rec,
    spec_hub_name, spec_pod_config, spec_pod_name, spec_ram_depth, spec_rle_code, spec_timestamp,
    CmdRec, IlaState,
};
use crate::fmt::{
    ascii_or_query, dec_chars, dec_string, hex8_chars, hex8_string, string_from_ascii,
};
use crate::records::{
    CaptureData, CaptureStatus, CommandResult, HubInfo, HubInfoV, IlaInfo, IlaInfoV, PodInfo,
    PodInfoV, RegisterValue, RleSample, SignalInfoV, TriggerConfig,
};
use crate::regs::{
    spec_pod_addr, CMD_ARM, CMD_INIT, CMD_RD_HUB_FREQ, CMD_RD_HUB_NAME_0_3, CMD_RD_HUB_NAME_4_7,
    CMD_RD_HUB_NAME_8_11, CMD_RD_POD_COUNT, CMD_RD_POD_REG, CMD_RD_STATUS, CMD_RESET,
    CMD_WR_DIG_POST_TRIG, CMD_WR_POD_REG, CMD_WR_TRIG_DIG_FIELD, CMD_WR_TRIG_TYPE, ILA_SIZE,
    POD_REG_HW_CFG, POD_REG_NAME_0_3, POD_REG_NAME_4_7, POD_REG_NAME_8_11, POD_REG_RAM_CFG,
    POD_REG_RAM_DATA, POD_REG_RAM_PTR, POD_REG_TRIGGERABLE, POD_REG_TRIG_CFG, POD_REG_TRIG_EN,
    REG_CAP_STATUS, REG_HW_INFO, TRIG_EXT_RISING, TRIG_OR_FALLING, TRIG_OR_RISING,
};
use crate::signals::{generate_norom_signals, name_field, spec_norom};
use crate::sim::{cmd_ok, SimDeviceV};
use crate::mmio::{lemma_mask_bounds, rd_ev, word_at};

verus! {

/// The five capture state bits of a status word.
pub open spec fn spec_capture_status(v: u32) -> CaptureStatus {
    CaptureStatus {
        armed: v & 0x01 != 0,
        pre_trigger: v & 0x02 != 0,
        triggered: v & 0x04 != 0,
        acquired: v & 0x08 != 0,
        init_in_progress: v & 0x10 != 0,
    }
}

/// The trigger field value of a trigger type name; unknown names fall
/// back to OR of rising edges.
pub open spec fn spec_trig_code(t: Seq<char>) -> u32 {
    if t == "or_falling"@ {
        TRIG_OR_FALLING
    } else if t == "external"@ {
        TRIG_EXT_RISING
    } else {
        TRIG_OR_RISING
    }
}

/// The trigger bit mask actually programmed: zero falls back to bit 0.
pub open spec fn spec_trig_bits(b: u32) -> u32 {
    if b == 0 {
        1u32
    } else {
        b
    }
}

/// Number of samples a capture aims for: the request, capped by the
/// RAM depth and by 2048.
pub open spec fn spec_capture_count(count: u32, ram_depth: u32) -> u32 {
    let a = if ram_depth < count {
        ram_depth
    } else {
        count
    };
    if 2048 < a {
        2048u32
    } else {
        a
    }
}

/// The sample one RAM read yields, if every step of it completes.
pub open spec fn spec_sample_opt(d: SimDeviceV, hub: u8, pod: u8, a: u32, ts_bits: u8) -> Option<
    RleSample,
> {
    if cmd_ok(d, CMD_WR_POD_REG) && cmd_ok(d, CMD_RD_POD_REG) {
        let d1 = pod_write_dev(d, hub, pod, POD_REG_RAM_PTR, a);
        let data = pod_read_val(d1, hub, pod, POD_REG_RAM_DATA);
        let d2 = pod_write_dev(d1, hub, pod, POD_REG_RAM_PTR, (1u32 << 20) | a);
        let hi = pod_read_val(d2, hub, pod, POD_REG_RAM_DATA);
        Some(
            RleSample {
                address: a,
                code: spec_rle_code(hi, ts_bits),
                timestamp: spec_timestamp(hi, ts_bits),
                data,
            },
        )
    } else {
        None
    }
}

/// The device after one RAM read: its RAM pointer register has seen
/// both page selects — or only the first when the data read is
/// refused, or neither when the pointer write already is.
pub open spec fn spec_dev_after_sample(d: SimDeviceV, hub: u8, pod: u8, a: u32) -> SimDeviceV {
    if !cmd_ok(d, CMD_WR_POD_REG) {
        d
    } else if !cmd_ok(d, CMD_RD_POD_REG) {
        pod_write_dev(d, hub, pod, POD_REG_RAM_PTR, a)
    } else {
        pod_write_dev(
            pod_write_dev(d, hub, pod, POD_REG_RAM_PTR, a),
            hub,
            pod,
            POD_REG_RAM_PTR,
            (1u32 << 20) | a,
        )
    }
}

/// The commands one RAM read issues: all four steps when the device
/// answers, fewer when the pointer write or the data read is refused.
pub open spec fn spec_sample_cmds(ok_w: bool, ok_r: bool, hub: u8, pod: u8, a: u32) -> Seq<CmdRec> {
    if !ok_w {
        seq![rec(CMD_WR_POD_REG, spec_pod_addr(hub, pod, POD_REG_RAM_PTR), a)]
    } else if !ok_r {
        seq![
            rec(CMD_WR_POD_REG, spec_pod_addr(hub, pod, POD_REG_RAM_PTR), a),
            rec(CMD_RD_POD_REG, spec_pod_addr(hub, pod, POD_REG_RAM_DATA), 0),
        ]
    } else {
        seq![
            rec(CMD_WR_POD_REG, spec_pod_addr(hub, pod, POD_REG_RAM_PTR), a),
            rec(CMD_RD_POD_REG, spec_pod_addr(hub, pod, POD_REG_RAM_DATA), 0),
            rec(CMD_WR_POD_REG, spec_pod_addr(hub, pod, POD_REG_RAM_PTR), (1u32 << 20) | a),
            rec(CMD_RD_POD_REG, spec_pod_addr(hub, pod, POD_REG_RAM_DATA), 0),
        ]
    }
}

/// The commands the capture loop issues for addresses `i..n`.
pub open spec fn spec_capture_cmds(
    ok_w: bool,
    ok_r: bool,
    hub: u8,
    pod: u8,
    i: u32,
    n: u32,
) -> Seq<CmdRec>
    decreases n - i,
{
    if i >= n {
        Seq::<CmdRec>::empty()
    } else {
        spec_sample_cmds(ok_w, ok_r, hub, pod, i) + spec_capture_cmds(
            ok_w,
            ok_r,
            hub,
            pod,
            (i + 1) as u32,
            n,
        )
    }
}

/// A sample read really reads the RAM: on a device whose addressed
/// pod is there, with a full register file and RAM words at `addr`,
/// the four-step read yields the pod's low RAM word as data and splits
/// its high RAM word into timestamp and code.
pub proof fn lemma_sample_reads_ram(d: SimDeviceV, hub: u8, pod: u8, addr: u32, ts_bits: u8)
    requires
        cmd_ok(d, CMD_WR_POD_REG),
        cmd_ok(d, CMD_RD_POD_REG),
        0 <= hub < d.hubs.len(),
        0 <= pod < d.hubs[hub as int].pods.len(),
        d.hubs[hub as int].pods[pod as int].regs.len() == 32,
        addr < 0x100000,
        addr < d.hubs[hub as int].pods[pod as int].ram_lo.len(),
        addr < d.hubs[hub as int].pods[pod as int].ram_hi.len(),
    ensures
        ({
            let p = d.hubs[hub as int].pods[pod as int];
            let hi = p.ram_hi[addr as int];
            spec_sample_opt(d, hub, pod, addr, ts_bits) == Some(
                RleSample {
                    address: addr,
                    code: spec_rle_code(hi, ts_bits),
                    timestamp: spec_timestamp(hi, ts_bits),
                    data: p.ram_lo[addr as int],
                },
            )
        }),
{
    assert(addr & 0xFFFFF == addr && (addr >> 20) & 1 == 0 && ((1u32 << 20) | addr) & 0xFFFFF
        == addr && ((((1u32 << 20) | addr) >> 20) & 1) == 1u32) by (bit_vector)
        requires
            addr < 0x100000,
    ;
    lemma_pod_ops(d, hub, pod, POD_REG_RAM_PTR, addr);
    let d1 = pod_write_dev(d, hub, pod, POD_REG_RAM_PTR, addr);
    crate::driver::lemma_execute_keeps_identity(
        d,
        CMD_WR_POD_REG,
        spec_pod_addr(hub, pod, POD_REG_RAM_PTR),
        addr,
    );
    lemma_pod_ops(d1, hub, pod, POD_REG_RAM_DATA, 0);
    lemma_pod_ops(d1, hub, pod, POD_REG_RAM_PTR, (1u32 << 20) | addr);
    let d2 = pod_write_dev(d1, hub, pod, POD_REG_RAM_PTR, (1u32 << 20) | addr);
    lemma_pod_ops(d2, hub, pod, POD_REG_RAM_DATA, 0);
}

/// Device state and collected samples after reading addresses
/// `i..n`; addresses whose read fails are skipped.
pub open spec fn spec_capture_rec(
    d: SimDeviceV,
    hub: u8,
    pod: u8,
    i: u32,
    n: u32,
    ts_bits: u8,
) -> (SimDeviceV, Seq<RleSample>)
    decreases n - i,
{
    if i >= n {
        (d, Seq::<RleSample>::empty())
    } else {
        let s = spec_sample_opt(d, hub, pod, i, ts_bits);
        let d2 = spec_dev_after_sample(d, hub, pod, i);
        let rest = spec_capture_rec(d2, hub, pod, (i + 1) as u32, n, ts_bits);
        (
            rest.0,
            match s {
                Option::Some(x) => seq![x] + rest.1,
                Option::None => rest.1,
            },
        )
    }
}

/// The two hardware identifier characters of an ID word.
pub open spec fn spec_hw_id_chars(id: u32) -> Seq<char> {
    seq![
        ascii_or_query(((id >> 8) & 0xFF) as u8) as char,
        ascii_or_query((id & 0xFF) as u8) as char,
    ]
}

/// What the trigger configuration sequence does: its outcome and
/// message, the device it leaves behind, and the commands it issues,
/// aborting at the first refused step with that step's message. The
/// two pod pre-programming writes are best-effort: their outcome is
/// ignored.
pub open spec fn spec_configure(d: SimDeviceV, ttype: Seq<char>, tbits: u32, post: u32) -> (
    bool,
    Seq<char>,
    SimDeviceV,
    Seq<CmdRec>,
) {
    let code = spec_trig_code(ttype);
    let bits = spec_trig_bits(tbits);
    let cfgv = (code & 0x07) | 0x20;
    if !cmd_ok(d, CMD_RESET) {
        (false, "Reset failed"@, d, seq![rec(CMD_RESET, 0, 0)])
    } else if !cmd_ok(d, CMD_WR_TRIG_TYPE) {
        (
            false,
            "Failed to set trigger type"@,
            d,
            seq![rec(CMD_RESET, 0, 0), rec(CMD_WR_TRIG_TYPE, 0, code)],
        )
    } else if !cmd_ok(d, CMD_WR_TRIG_DIG_FIELD) {
        (
            false,
            "Failed to set trigger field"@,
            d,
            seq![
                rec(CMD_RESET, 0, 0),
                rec(CMD_WR_TRIG_TYPE, 0, code),
                rec(CMD_WR_TRIG_DIG_FIELD, 0, bits),
            ],
        )
    } else if !cmd_ok(d, CMD_WR_DIG_POST_TRIG) {
        (
            false,
            "Failed to set post-trigger"@,
            d,
            seq![
                rec(CMD_RESET, 0, 0),
                rec(CMD_WR_TRIG_TYPE, 0, code),
                rec(CMD_WR_TRIG_DIG_FIELD, 0, bits),
                rec(CMD_WR_DIG_POST_TRIG, 0, post),
            ],
        )
    } else {
        let d2 = pod_write_dev(
            pod_write_dev(d, 0, 0, POD_REG_TRIG_CFG, cfgv),
            0,
            0,
            POD_REG_TRIG_EN,
            bits,
        );
        let lead = seq![
            rec(CMD_RESET, 0, 0),
            rec(CMD_WR_TRIG_TYPE, 0, code),
            rec(CMD_WR_TRIG_DIG_FIELD, 0, bits),
            rec(CMD_WR_DIG_POST_TRIG, 0, post),
            rec(CMD_WR_POD_REG, spec_pod_addr(0, 0, POD_REG_TRIG_CFG), cfgv),
            rec(CMD_WR_POD_REG, spec_pod_addr(0, 0, POD_REG_TRIG_EN), bits),
        ];
        if !cmd_ok(d, CMD_INIT) {
            (false, "Init failed"@, d2, lead.push(rec(CMD_INIT, 0, 0)))
        } else if !cmd_ok(d, CMD_ARM) {
            (false, "Arm failed"@, d2, lead + seq![rec(CMD_INIT, 0, 0), rec(CMD_ARM, 0, 0)])
        } else {
            (
                true,
                "Configured: type="@ + ttype + ", bits=0x"@ + hex8_chars(bits) + ", post="@
                    + dec_chars(post as nat),
                d2,
                lead + seq![rec(CMD_INIT, 0, 0), rec(CMD_ARM, 0, 0)],
            )
        }
    }
}

/// Everything enumeration reports about pod `pod` of hub `hub`.
pub open spec fn spec_pod_info(d: SimDeviceV, hub: u8, pod: u8) -> PodInfoV {
    let name = spec_pod_name(d, hub, pod);
    let hw_cfg = opt_or_zero(
        cmd_result(d, CMD_RD_POD_REG, spec_pod_addr(hub, pod, POD_REG_HW_CFG), 0),
    );
    let ram_cfg = opt_or_zero(
        cmd_result(d, CMD_RD_POD_REG, spec_pod_addr(hub, pod, POD_REG_RAM_CFG), 0),
    );
    let triggerable = opt_or_zero(
        cmd_result(d, CMD_RD_POD_REG, spec_pod_addr(hub, pod, POD_REG_TRIGGERABLE), 0),
    );
    let rle_disable = hw_cfg & 0x04 != 0;
    let view_rom_en = hw_cfg & 0x02 != 0;
    let data_bits = ((ram_cfg >> 8) & 0xFFFF) as u16;
    let vm = if view_rom_en {
        ("custom"@, Seq::<SignalInfoV>::empty())
    } else {
        spec_norom(
            name_field(name),
            data_bits,
            hw_cfg & 0x0800 != 0,
            hw_cfg & 0x0400 != 0,
            hw_cfg & 0x0200 != 0,
            hw_cfg & 0x0100 != 0,
            rle_disable,
        )
    };
    PodInfoV {
        index: pod,
        name,
        hw_rev: ((hw_cfg >> 24) & 0xFF) as u8,
        ram_depth: spec_ram_depth((ram_cfg & 0xFF) as u8),
        data_bits,
        ts_bits: ((ram_cfg >> 24) & 0xFF) as u8,
        triggerable,
        rle_disable,
        view_rom_en,
        view_mode: vm.0,
        signals: vm.1,
    }
}

/// Everything enumeration reports about hub `hub`.
pub open spec fn spec_hub_info(d: SimDeviceV, hub: u8) -> HubInfoV {
    let freq = opt_or_zero(cmd_result(d, CMD_RD_HUB_FREQ, (hub as u32) << 16, 0));
    let pod_count = (opt_or_zero(cmd_result(d, CMD_RD_POD_COUNT, (hub as u32) << 16, 0))
        & 0xFF) as u8;
    HubInfoV {
        index: hub,
        name: spec_hub_name(d, hub),
        freq_mhz: (freq >> 20) & 0xFFF,
        pod_count,
        pods: Seq::new(pod_count as nat, |p: int| spec_pod_info(d, hub, p as u8)),
    }
}

/// The commands enumerating one pod issues: its three name words,
/// then HW_CFG, RAM_CFG and TRIGGERABLE.
pub open spec fn spec_pod_cmds(hub: u8, pod: u8) -> Seq<CmdRec> {
    seq![
        rec(CMD_RD_POD_REG, spec_pod_addr(hub, pod, POD_REG_NAME_0_3), 0),
        rec(CMD_RD_POD_REG, spec_pod_addr(hub, pod, POD_REG_NAME_4_7), 0),
        rec(CMD_RD_POD_REG, spec_pod_addr(hub, pod, POD_REG_NAME_8_11), 0),
        rec(CMD_RD_POD_REG, spec_pod_addr(hub, pod, POD_REG_HW_CFG), 0),
        rec(CMD_RD_POD_REG, spec_pod_addr(hub, pod, POD_REG_RAM_CFG), 0),
        rec(CMD_RD_POD_REG, spec_pod_addr(hub, pod, POD_REG_TRIGGERABLE), 0),
    ]
}

/// The commands enumerating pods `p..count` of one hub issues.
pub open spec fn spec_pods_cmds(hub: u8, p: u8, count: u8) -> Seq<CmdRec>
    decreases count - p,
{
    if p >= count {
        Seq::<CmdRec>::empty()
    } else {
        spec_pod_cmds(hub, p) + spec_pods_cmds(hub, (p + 1) as u8, count)
    }
}

/// The commands enumerating one hub issues: its three name words, the
/// frequency, the pod count, then every reported pod.
pub open spec fn spec_hub_cmds(d: SimDeviceV, hub: u8) -> Seq<CmdRec> {
    let pc = (opt_or_zero(cmd_result(d, CMD_RD_POD_COUNT, (hub as u32) << 16, 0)) & 0xFF) as u8;
    seq![
        rec(CMD_RD_HUB_NAME_0_3, (hub as u32) << 16, 0),
        rec(CMD_RD_HUB_NAME_4_7, (hub as u32) << 16, 0),
        rec(CMD_RD_HUB_NAME_8_11, (hub as u32) << 16, 0),
        rec(CMD_RD_HUB_FREQ, (hub as u32) << 16, 0),
        rec(CMD_RD_POD_COUNT, (hub as u32) << 16, 0),
    ] + spec_pods_cmds(hub, 0, pc)
}

/// The commands enumerating hubs `h..count` issues.
pub open spec fn spec_hubs_cmds(d: SimDeviceV, h: u8, count: u8) -> Seq<CmdRec>
    decreases count - h,
{
    if h >= count {
        Seq::<CmdRec>::empty()
    } else {
        spec_hub_cmds(d, h) + spec_hubs_cmds(d, (h + 1) as u8, count)
    }
}

/// Every command the info route issues: nothing when the ID word does
/// not match, the whole hub and pod enumeration when it does.
pub open spec fn spec_info_cmds(d: SimDeviceV, hw_info: u32) -> Seq<CmdRec> {
    if (hw_info >> 16) & 0xFFFF == 0x5303 {
        spec_hubs_cmds(d, 0, ((hw_info >> 8) & 0xFF) as u8)
    } else {
        Seq::<CmdRec>::empty()
    }
}

/// Everything the info route reports, from the HW_INFO and CAP_STATUS
/// words and the enumerated topology; a device whose ID word is not
/// the expected one reports no hubs.
pub open spec fn spec_ila_info(d: SimDeviceV, hw_info: u32, cap_status: u32, base: usize) -> IlaInfoV {
    let id = (hw_info >> 16) & 0xFFFF;
    let hub_count = ((hw_info >> 8) & 0xFF) as u8;
    let connected = id == 0x5303;
    IlaInfoV {
        connected,
        hw_id: spec_hw_id_chars(id),
        revision: (hw_info & 0xFF) as u8,
        hub_count,
        is_armed: cap_status & 0x01 != 0,
        is_awake: cap_status & 0x02 != 0,
        base_addr: "0x"@ + hex8_chars(base as u32),
        hubs: if connected {
            Seq::new(hub_count as nat, |h: int| spec_hub_info(d, h as u8))
        } else {
            Seq::<HubInfoV>::empty()
        },
    }
}

/// Enumeration mirrors the device's counts in order: an info record
/// is connected exactly when the ID word matches, a disconnected one
/// lists no hubs, a connected one lists `hub_count` hubs with hub `h`
/// at index `h`, and every hub lists as many pods as its pod count
/// reports, pod `p` at index `p`.
pub proof fn lemma_info_shape(d: SimDeviceV, hw_info: u32, cap_status: u32, base: usize)
    ensures
        ({
            let info = spec_ila_info(d, hw_info, cap_status, base);
            info.connected == ((hw_info >> 16) & 0xFFFF == 0x5303) && (!info.connected
                ==> info.hubs.len() == 0) && (info.connected ==> info.hubs.len()
                == info.hub_count) && (forall|h: int|
                0 <= h < info.hubs.len() ==> (#[trigger] info.hubs[h]).index == h
                    && info.hubs[h].pods.len() == info.hubs[h].pod_count && (forall|p: int|
                    0 <= p < info.hubs[h].pods.len() ==> (#[trigger] info.hubs[h].pods[p]).index
                        == p))
        }),
{
    let info = spec_ila_info(d, hw_info, cap_status, base);
    crate::mmio::lemma_mask_bounds(hw_info >> 8);
    assert forall|h: int| 0 <= h < info.hubs.len() implies (#[trigger] info.hubs[h]).index == h
        && info.hubs[h].pods.len() == info.hubs[h].pod_count && (forall|p: int|
        0 <= p < info.hubs[h].pods.len() ==> (#[trigger] info.hubs[h].pods[p]).index == p) by {
        assert(info.hubs[h] == spec_hub_info(d, h as u8));
        let hub = info.hubs[h];
        assert forall|p: int| 0 <= p < hub.pods.len() implies (#[trigger] hub.pods[p]).index
            == p by {
            assert(hub.pods[p] == spec_pod_info(d, h as u8, p as u8));
        }
    }
}

/// Decodes the five capture state bits of a status word.
pub fn decode_capture_status(v: u32) -> (r: CaptureStatus)
    ensures
        r == spec_capture_status(v),
{
    CaptureStatus {
        armed: v & 0x01 != 0,
        pre_trigger: v & 0x02 != 0,
        triggered: v & 0x04 != 0,
        acquired: v & 0x08 != 0,
        init_in_progress: v & 0x10 != 0,
    }
}

/// Renders the two hardware identifier characters of an ID word,
/// `'?'` standing in for non-ASCII bytes.
pub fn hw_id_string(id: u32) -> (r: String)
    ensures
        r@ == spec_hw_id_chars(id),
{
    proof {
        lemma_mask_bounds(id);
        lemma_mask_bounds(id >> 8);
    }
    let mut idb: Vec<u8> = Vec::new();
    let b_hi = ((id >> 8) & 0xFF) as u8;
    let b_lo = (id & 0xFF) as u8;
    idb.push(if b_hi < 0x80 { b_hi } else { 0x3F });
    idb.push(if b_lo < 0x80 { b_lo } else { 0x3F });
    let r = string_from_ascii(idb);
    proof {
        assert(r@ =~= spec_hw_id_chars(id));
    }
    r
}

/// Maps a trigger type name to its field value; unknown names fall
/// back to OR of rising edges.
pub fn trigger_type_code(name: &String) -> (r: u32)
    ensures
        r == spec_trig_code(name@),
{
    if *name == String::from_str("or_falling") {
        TRIG_OR_FALLING
    } else if *name == String::from_str("external") {
        TRIG_EXT_RISING
    } else {
        TRIG_OR_RISING
    }
}

/// The trigger bit mask actually programmed: zero falls back to bit 0.
pub fn trigger_bits_value(b: u32) -> (r: u32)
    ensures
        r == spec_trig_bits(b),
{
    if b == 0 {
        0x00000001
    } else {
        b
    }
}

/// Caps a requested sample count by the RAM depth and by 2048.
pub fn capture_target(count: u32, ram_depth: u32) -> (r: u32)
    ensures
        r == spec_capture_count(count, ram_depth),
{
    let mut n = count;
    if ram_depth < n {
        n = ram_depth;
    }
    if 2048 < n {
        n = 2048;
    }
    n
}

impl IlaState {
    /// Issues the capture-status read and decodes its five bits; a
    /// failed command decodes as all clear.
    pub fn get_capture_status(&mut self) -> (r: CaptureStatus)
        requires
            old(self).wf(),
        ensures
            final(self).wf(),
            final(self).base() == old(self).base(),
            final(self).dev() == old(self).dev(),
            final(self).issued() == old(self).issued().push(rec(CMD_RD_STATUS, 0, 0)),
            final(self).bus() == old(self).bus() + cmd_bus_events(old(self).dev(), CMD_RD_STATUS, 0, 0),
            r == spec_capture_status(opt_or_zero(cmd_result(old(self).dev(), CMD_RD_STATUS, 0, 0))),
    {
        let v = match self.exec_cmd(CMD_RD_STATUS, 0, 0) {
            Some(v) => v,
            None => 0u32,
        };
        decode_capture_status(v)
    }

    /// Issues the RESET command.
    pub fn post_reset(&mut self) -> (r: CommandResult)
        requires
            old(self).wf(),
        ensures
            final(self).wf(),
            final(self).base() == old(self).base(),
            final(self).dev() == old(self).dev(),
            final(self).issued() == old(self).issued().push(rec(CMD_RESET, 0, 0)),
            final(self).bus() == old(self).bus() + cmd_bus_events(old(self).dev(), CMD_RESET, 0, 0),
            r.success == cmd_ok(old(self).dev(), CMD_RESET),
            r.success ==> r.message@ == "Reset complete"@,
            !r.success ==> r.message@ == "Reset failed"@,
    {
        let success = self.exec_cmd(CMD_RESET, 0, 0).is_some();
        CommandResult {
            success,
            message: if success {
                String::from_str("Reset complete")
            } else {
                String::from_str("Reset failed")
            },
        }
    }

    /// Issues the INIT command. The hardware wants 100 ms of quiet for
    /// RAM initialization afterwards; that wait is the transport's.
    pub fn post_init(&mut self) -> (r: CommandResult)
        requires
            old(self).wf(),
        ensures
            final(self).wf(),
            final(self).base() == old(self).base(),
            final(self).dev() == old(self).dev(),
            final(self).issued() == old(self).issued().push(rec(CMD_INIT, 0, 0)),
            final(self).bus() == old(self).bus() + cmd_bus_events(old(self).dev(), CMD_INIT, 0, 0),
            r.success == cmd_ok(old(self).dev(), CMD_INIT),
            r.success ==> r.message@ == "Init complete"@,
            !r.success ==> r.message@ == "Init failed"@,
    {
        let success = self.exec_cmd(CMD_INIT, 0, 0).is_some();
        CommandResult {
            success,
            message: if success {
                String::from_str("Init complete")
            } else {
                String::from_str("Init failed")
            },
        }
    }

    /// Issues the ARM command.
    pub fn post_arm(&mut self) -> (r: CommandResult)
        requires
            old(self).wf(),
        ensures
            final(self).wf(),
            final(self).base() == old(self).base(),
            final(self).dev() == old(self).dev(),
            final(self).issued() == old(self).issued().push(rec(CMD_ARM, 0, 0)),
            final(self).bus() == old(self).bus() + cmd_bus_events(old(self).dev(), CMD_ARM, 0, 0),
            r.success == cmd_ok(old(self).dev(), CMD_ARM),
            r.success ==> r.message@ == "Armed"@,
            !r.success ==> r.message@ == "Arm failed"@,
    {
        let success = self.exec_cmd(CMD_ARM, 0, 0).is_some();
        CommandResult {
            success,
            message: if success {
                String::from_str("Armed")
            } else {
                String::from_str("Arm failed")
            },
        }
    }

    /// Runs the whole trigger configuration sequence: RESET, the three
    /// trigger parameter writes, the best-effort pre-programming of pod
    /// 0 of hub 0, INIT and ARM. The first refused step aborts with its
    /// own message. The hardware wants 200 ms of quiet after INIT;
    /// that wait is the transport's, between this call's INIT and ARM
    /// being observable.
    pub fn post_configure_trigger(&mut self, config: &TriggerConfig) -> (r: CommandResult)
        requires
            old(self).wf(),
        ensures
            final(self).wf(),
            final(self).base() == old(self).base(),
            ({
                let sc = spec_configure(
                    old(self).dev(),
                    config.trigger_type@,
                    config.trigger_bits,
                    config.post_trigger,
                );
                r.success == sc.0 && r.message@ == sc.1 && final(self).dev() == sc.2
                    && final(self).issued() == old(self).issued() + sc.3
            }),
    {
        let ghost d0 = self.dev();
        let ghost sc = spec_configure(
            d0,
            config.trigger_type@,
            config.trigger_bits,
            config.post_trigger,
        );
        let ghost iss0 = self.issued();
        if self.exec_cmd(CMD_RESET, 0, 0).is_none() {
            proof {
                assert(self.issued() =~= iss0 + sc.3);
            }
            return CommandResult { success: false, message: String::from_str("Reset failed") };
        }
        let trig_code: u32 = trigger_type_code(&config.trigger_type);
        if self.exec_cmd(CMD_WR_TRIG_TYPE, 0, trig_code).is_none() {
            proof {
                assert(self.issued() =~= iss0 + sc.3);
            }
            return CommandResult {
                success: false,
                message: String::from_str("Failed to set trigger type"),
            };
        }
        let trig_bits: u32 = trigger_bits_value(config.trigger_bits);
        if self.exec_cmd(CMD_WR_TRIG_DIG_FIELD, 0, trig_bits).is_none() {
            proof {
                assert(self.issued() =~= iss0 + sc.3);
            }
            return CommandResult {
                success: false,
                message: String::from_str("Failed to set trigger field"),
            };
        }
        if self.exec_cmd(CMD_WR_DIG_POST_TRIG, 0, config.post_trigger).is_none() {
            proof {
                assert(self.issued() =~= iss0 + sc.3);
            }
            return CommandResult {
                success: false,
                message: String::from_str("Failed to set post-trigger"),
            };
        }
        let pod_trig_cfg = (trig_code & 0x07) | 0x20;
        self.write_pod_reg(0, 0, POD_REG_TRIG_CFG, pod_trig_cfg);
        proof {
            crate::driver::lemma_execute_keeps_identity(
                d0,
                CMD_WR_POD_REG,
                spec_pod_addr(0, 0, POD_REG_TRIG_CFG),
                pod_trig_cfg,
            );
        }
        let ghost dmid1 = self.dev();
        self.write_pod_reg(0, 0, POD_REG_TRIG_EN, trig_bits);
        proof {
            crate::driver::lemma_execute_keeps_identity(
                dmid1,
                CMD_WR_POD_REG,
                spec_pod_addr(0, 0, POD_REG_TRIG_EN),
                trig_bits,
            );
            assert(self.dev().mode == d0.mode && self.dev().fail_cmds == d0.fail_cmds);
        }
        if self.exec_cmd(CMD_INIT, 0, 0).is_none() {
            proof {
                assert(self.issued() =~= iss0 + sc.3);
            }
            return CommandResult { success: false, message: String::from_str("Init failed") };
        }
        if self.exec_cmd(CMD_ARM, 0, 0).is_none() {
            proof {
                assert(self.issued() =~= iss0 + sc.3);
            }
            return CommandResult { success: false, message: String::from_str("Arm failed") };
        }
        let mut message = String::from_str("Configured: type=");
        message.append(config.trigger_type.as_str());
        message.append(", bits=0x");
        message.append(hex8_string(trig_bits).as_str());
        message.append(", post=");
        message.append(dec_string(config.post_trigger).as_str());
        proof {
            assert(self.issued() =~= iss0 + sc.3);
        }
        CommandResult { success: true, message }
    }

    /// Reads the capture status, the pod configuration, and up to
    /// `count` samples from the pod's RAM, capped by the RAM depth and
    /// by 2048 — an offline pod reports no RAM, so nothing is read.
    /// Samples whose read fails are skipped, while `sample_count`
    /// reports the target.
    pub fn get_capture_from_pod(&mut self, hub: u8, pod: u8, count: u32) -> (r: CaptureData)
        requires
            old(self).wf(),
        ensures
            final(self).wf(),
            final(self).base() == old(self).base(),
            ({
                let d0 = old(self).dev();
                let status_v = opt_or_zero(cmd_result(d0, CMD_RD_STATUS, 0, 0));
                let cfg = spec_pod_config(d0, hub, pod);
                let n = spec_capture_count(count, cfg.2);
                r.hub == hub && r.pod == pod && r.ts_bits == cfg.0 && r.data_bits == cfg.1
                    && r.status == spec_capture_status(status_v) && r.sample_count == n
                    && r.samples@ == spec_capture_rec(d0, hub, pod, 0, n, cfg.0).1
                    && final(self).dev() == spec_capture_rec(d0, hub, pod, 0, n, cfg.0).0
                    && final(self).issued() == old(self).issued() + seq![
                    rec(CMD_RD_STATUS, 0, 0),
                    rec(CMD_RD_POD_REG, spec_pod_addr(hub, pod, POD_REG_RAM_CFG), 0),
                ] + spec_capture_cmds(
                    cmd_ok(d0, CMD_WR_POD_REG),
                    cmd_ok(d0, CMD_RD_POD_REG),
                    hub,
                    pod,
                    0,
                    n,
                )
            }),
    {
        let status = self.get_capture_status();
        let cfg = self.get_pod_config(hub, pod);
        let ts_bits = cfg.0;
        let data_bits = cfg.1;
        let ram_depth = cfg.2;
        let n = capture_target(count, ram_depth);
        let ghost dstart = self.dev();
        let ghost ok_w = cmd_ok(dstart, CMD_WR_POD_REG);
        let ghost ok_r = cmd_ok(dstart, CMD_RD_POD_REG);
        let ghost goal = spec_capture_rec(dstart, hub, pod, 0, n, ts_bits);
        let ghost iss_head = self.issued();
        proof {
            assert(iss_head =~= old(self).issued() + seq![
                rec(CMD_RD_STATUS, 0, 0),
                rec(CMD_RD_POD_REG, spec_pod_addr(hub, pod, POD_REG_RAM_CFG), 0),
            ]);
        }
        let mut samples: Vec<RleSample> = Vec::new();
        let mut i: u32 = 0;
        while i < n
            invariant
                dstart == old(self).dev(),
                ok_w == cmd_ok(dstart, CMD_WR_POD_REG),
                ok_r == cmd_ok(dstart, CMD_RD_POD_REG),
                goal == spec_capture_rec(dstart, hub, pod, 0, n, ts_bits),
                old(self).wf(),
                self.wf(),
                self.base() == old(self).base(),
                i <= n,
                self.dev().mode == dstart.mode,
                self.dev().fail_cmds == dstart.fail_cmds,
                goal.0 == spec_capture_rec(self.dev(), hub, pod, i, n, ts_bits).0,
                goal.1 == samples@ + spec_capture_rec(self.dev(), hub, pod, i, n, ts_bits).1,
                self.issued() + spec_capture_cmds(ok_w, ok_r, hub, pod, i, n) == iss_head
                    + spec_capture_cmds(ok_w, ok_r, hub, pod, 0, n),
            decreases n - i,
        {
            let ghost dcur = self.dev();
            let ghost iss_cur = self.issued();
            let s = self.read_rle_sample(hub, pod, i, ts_bits);
            proof {
                crate::driver::lemma_execute_keeps_identity(
                    dcur,
                    CMD_WR_POD_REG,
                    spec_pod_addr(hub, pod, POD_REG_RAM_PTR),
                    i,
                );
                crate::driver::lemma_execute_keeps_identity(
                    pod_write_dev(dcur, hub, pod, POD_REG_RAM_PTR, i),
                    CMD_WR_POD_REG,
                    spec_pod_addr(hub, pod, POD_REG_RAM_PTR),
                    (1u32 << 20) | i,
                );
                assert(s == spec_sample_opt(dcur, hub, pod, i, ts_bits));
                assert(self.dev() == spec_dev_after_sample(dcur, hub, pod, i));
                assert(self.issued() =~= iss_cur + spec_sample_cmds(ok_w, ok_r, hub, pod, i));
            }
            match s {
                Some(x) => {
                    samples.push(x);
                },
                None => {},
            }
            i = i + 1;
            proof {
                assert(goal.1 =~= samples@ + spec_capture_rec(self.dev(), hub, pod, i, n, ts_bits).1);
                assert(self.issued() + spec_capture_cmds(ok_w, ok_r, hub, pod, i, n) =~= iss_head
                    + spec_capture_cmds(ok_w, ok_r, hub, pod, 0, n));
            }
        }
        proof {
            assert(goal.1 =~= samples@);
            assert(self.issued() =~= iss_head + spec_capture_cmds(ok_w, ok_r, hub, pod, 0, n));
            assert(self.issued() =~= old(self).issued() + seq![
                rec(CMD_RD_STATUS, 0, 0),
                rec(CMD_RD_POD_REG, spec_pod_addr(hub, pod, POD_REG_RAM_CFG), 0),
            ] + spec_capture_cmds(ok_w, ok_r, hub, pod, 0, n));
        }
        CaptureData { hub, pod, ts_bits, data_bits, status, samples, sample_count: n }
    }

    /// Reads one raw register of the window; offsets outside it read
    /// as no value.
    pub fn get_register(&mut self, offset: usize) -> (r: RegisterValue)
        requires
            old(self).wf(),
        ensures
            final(self).wf(),
            final(self).base() == old(self).base(),
            final(self).dev() == old(self).dev(),
            final(self).win() == old(self).win(),
            r.offset == offset,
            offset + 4 <= ILA_SIZE ==> r.value == Some(word_at(old(self).win(), offset as int)),
            offset + 4 > ILA_SIZE ==> r.value is None,
    {
        let value = if offset < ILA_SIZE {
            self.read_reg32(offset)
        } else {
            None
        };
        RegisterValue { offset, value }
    }

    /// Reads the identity registers and enumerates every hub and pod.
    pub fn get_info(&mut self) -> (r: IlaInfo)
        requires
            old(self).wf(),
        ensures
            final(self).wf(),
            final(self).base() == old(self).base(),
            final(self).dev() == old(self).dev(),
            r@ == spec_ila_info(
                old(self).dev(),
                word_at(old(self).win(), REG_HW_INFO as int),
                word_at(old(self).win(), REG_CAP_STATUS as int),
                old(self).base(),
            ),
            final(self).issued() == old(self).issued() + spec_info_cmds(
                old(self).dev(),
                word_at(old(self).win(), REG_HW_INFO as int),
            ),
            ({
                let hw_info = word_at(old(self).win(), REG_HW_INFO as int);
                ((hw_info >> 16) & 0xFFFF != 0x5303) ==> final(self).bus() == old(self).bus().push(
                    rd_ev(REG_HW_INFO, hw_info),
                ).push(rd_ev(REG_CAP_STATUS, word_at(old(self).win(), REG_CAP_STATUS as int)))
            }),
    {
        let hw_info = match self.read_reg32(REG_HW_INFO) {
            Some(v) => v,
            None => 0u32,
        };
        let decoded = crate::driver::decode_hw_info(hw_info);
        let id = decoded.0;
        let hub_count = decoded.1;
        let revision = decoded.2;
        let connected = id == 0x5303;
        let hw_id = hw_id_string(id);
        let cap_status = match self.read_reg32(REG_CAP_STATUS) {
            Some(v) => v,
            None => 0u32,
        };
        let is_armed = cap_status & 0x01 != 0;
        let is_awake = cap_status & 0x02 != 0;
        let mut base_addr = String::from_str("0x");
        let base = self.base_addr();
        base_addr.append(hex8_string(base as u32).as_str());
        let ghost dv = self.dev();
        let ghost iss0 = self.issued();
        let mut hubs: Vec<HubInfo> = Vec::new();
        if connected {
            let mut h: u8 = 0;
            while h < hub_count
                invariant
                    dv == old(self).dev(),
                    iss0 == old(self).issued(),
                    old(self).wf(),
                    self.wf(),
                    self.dev() == dv,
                    self.base() == old(self).base(),
                    h <= hub_count,
                    hubs@.len() == h as nat,
                    forall|k: int| 0 <= k < h ==> (#[trigger] hubs@[k])@ == spec_hub_info(dv, k as u8),
                    self.issued() + spec_hubs_cmds(dv, h, hub_count) == iss0 + spec_hubs_cmds(
                        dv,
                        0,
                        hub_count,
                    ),
                decreases hub_count - h,
            {
                let ghost iss_hs = self.issued();
                let name = self.read_hub_name(h);
                let freq = match self.exec_cmd(CMD_RD_HUB_FREQ, (h as u32) << 16, 0) {
                    Some(v) => v,
                    None => 0u32,
                };
                let freq_mhz = (freq >> 20) & 0xFFF;
                let pc_raw = match self.exec_cmd(CMD_RD_POD_COUNT, (h as u32) << 16, 0) {
                    Some(v) => v,
                    None => 0u32,
                };
                proof {
                    lemma_mask_bounds(pc_raw);
                }
                let pod_count = (pc_raw & 0xFF) as u8;
                let ghost iss_hub = self.issued();
                proof {
                    assert(pod_count == (opt_or_zero(
                        cmd_result(dv, CMD_RD_POD_COUNT, (h as u32) << 16, 0),
                    ) & 0xFF) as u8);
                }
                let mut pods: Vec<PodInfo> = Vec::new();
                let mut p: u8 = 0;
                while p < pod_count
                    invariant
                        dv == old(self).dev(),
                        old(self).wf(),
                        self.wf(),
                        self.dev() == dv,
                        self.base() == old(self).base(),
                        p <= pod_count,
                        pods@.len() == p as nat,
                        forall|k: int|
                            0 <= k < p ==> (#[trigger] pods@[k])@ == spec_pod_info(dv, h, k as u8),
                        self.issued() + spec_pods_cmds(h, p, pod_count) == iss_hub
                            + spec_pods_cmds(h, 0, pod_count),
                    decreases pod_count - p,
                {
                    let ghost iss_p = self.issued();
                    let pod_name = self.read_pod_name(h, p);
                    let hw_cfg = match self.read_pod_reg(h, p, POD_REG_HW_CFG) {
                        Some(v) => v,
                        None => 0u32,
                    };
                    let cfg_fields = crate::driver::decode_hw_cfg(hw_cfg);
                    let hw_rev = cfg_fields.0;
                    let norom_view_dwords = cfg_fields.1;
                    let norom_view_words = cfg_fields.2;
                    let norom_view_bytes = cfg_fields.3;
                    let norom_view_bits = cfg_fields.4;
                    let rle_disable = cfg_fields.5;
                    let view_rom_en = cfg_fields.6;
                    let ram_cfg = match self.read_pod_reg(h, p, POD_REG_RAM_CFG) {
                        Some(v) => v,
                        None => 0u32,
                    };
                    proof {
                        lemma_mask_bounds(ram_cfg);
                    }
                    let depth_bits = (ram_cfg & 0xFF) as u8;
                    let data_bits = ((ram_cfg >> 8) & 0xFFFF) as u16;
                    let ts_bits = ((ram_cfg >> 24) & 0xFF) as u8;
                    let ram_depth: u32 = if depth_bits < 32 {
                        1u32 << (depth_bits as u32)
                    } else {
                        0xFFFF_FFFFu32
                    };
                    let triggerable = match self.read_pod_reg(h, p, POD_REG_TRIGGERABLE) {
                        Some(v) => v,
                        None => 0u32,
                    };
                    let vm: (String, Vec<crate::records::SignalInfo>) = if view_rom_en {
                        (String::from_str("custom"), Vec::new())
                    } else {
                        generate_norom_signals(
                            pod_name.as_str(),
                            data_bits,
                            norom_view_dwords,
                            norom_view_words,
                            norom_view_bytes,
                            norom_view_bits,
                            rle_disable,
                        )
                    };
                    let pi = PodInfo {
                        index: p,
                        name: pod_name,
                        hw_rev,
                        ram_depth,
                        data_bits,
                        ts_bits,
                        triggerable,
                        rle_disable,
                        view_rom_en,
                        view_mode: vm.0,
                        signals: vm.1,
                    };
                    proof {
                        assert(pi@ =~= spec_pod_info(dv, h, p));
                        assert(self.issued() =~= iss_p + spec_pod_cmds(h, p));
                    }
                    pods.push(pi);
                    p = p + 1;
                    proof {
                        assert(self.issued() + spec_pods_cmds(h, p, pod_count) =~= iss_hub
                            + spec_pods_cmds(h, 0, pod_count));
                    }
                }
                proof {
                    assert(self.issued() + spec_pods_cmds(h, pod_count, pod_count)
                        =~= self.issued());
                    assert(self.issued() =~= iss_hub + spec_pods_cmds(h, 0, pod_count));
                }
                let hi = HubInfo { index: h, name, freq_mhz, pod_count, pods };
                proof {
                    let target = spec_hub_info(dv, h);
                    assert forall|k: int| 0 <= k < target.pods.len() implies hi@.pods[k]
                        == target.pods[k] by {
                        assert(hi.pods@[k]@ == spec_pod_info(dv, h, k as u8));
                    }
                    assert(hi@.pods =~= target.pods);
                    assert(hi@ =~= target);
                }
                hubs.push(hi);
                proof {
                    assert(self.issued() =~= iss_hs + spec_hub_cmds(dv, h));
                    assert(self.issued() + spec_hubs_cmds(dv, (h + 1) as u8, hub_count) =~= iss0
                        + spec_hubs_cmds(dv, 0, hub_count));
                }
                h = h + 1;
            }
            proof {
                assert(self.issued() + spec_hubs_cmds(dv, hub_count, hub_count) =~= self.issued());
                assert(self.issued() =~= iss0 + spec_hubs_cmds(dv, 0, hub_count));
            }
        }
        let info = IlaInfo {
            connected,
            hw_id,
            revision,
            hub_count,
            is_armed,
            is_awake,
            base_addr,
            hubs,
        };
        proof {
            let target = spec_ila_info(
                old(self).dev(),
                word_at(old(self).win(), REG_HW_INFO as int),
                word_at(old(self).win(), REG_CAP_STATUS as int),
                old(self).base(),
            );
            assert forall|k: int| 0 <= k < target.hubs.len() implies info@.hubs[k]
                == target.hubs[k] by {
                assert(info.hubs@[k]@ == spec_hub_info(dv, k as u8));
            }
            assert(info@.hubs =~= target.hubs);
            assert(info@ =~= target);
            assert(self.issued() =~= old(self).issued() + spec_info_cmds(
                old(self).dev(),
                word_at(old(self).win(), REG_HW_INFO as int),
            ));
        }
        info
    }
}

} // verus!
