//! The service operations: status decoding, the state commands, the
//! trigger configuration sequence, capture truncation and raw register
//! reads.

use sump_ila::driver::IlaState;
use sump_ila::records::TriggerConfig;
use sump_ila::sim::{SimDevice, SimHub, SimMode, SimPod};

fn device_with_pod(mode: SimMode, status_word: u32, ram_cfg: u32) -> SimDevice {
    let mut regs = vec![0u32; 32];
    regs[0x0A] = ram_cfg;
    SimDevice {
        mode,
        fail_cmds: vec![],
        status_word,
        hubs: vec![SimHub {
            name_w0: 0x20202020,
            name_w1: 0x20202020,
            name_w2: 0x20202020,
            freq_reg: 0,
            pod_count_reg: 1,
            pods: vec![SimPod { regs, ram_lo: vec![], ram_hi: vec![] }],
        }],
    }
}

#[test]
fn capture_status_decodes_five_bits() {
    let dev = SimDevice { mode: SimMode::Ready, fail_cmds: vec![], status_word: 0x15, hubs: vec![] };
    let mut st = IlaState::new(0x43C2_0000, dev, 0, 0);
    let s = st.get_capture_status();
    assert!(s.armed);
    assert!(!s.pre_trigger);
    assert!(s.triggered);
    assert!(!s.acquired);
    assert!(s.init_in_progress);
}

#[test]
fn capture_status_of_a_dead_bus_is_all_clear() {
    let dev = SimDevice { mode: SimMode::Silent, fail_cmds: vec![], status_word: 0x1F, hubs: vec![] };
    let mut st = IlaState::new(0x43C2_0000, dev, 0, 0);
    let s = st.get_capture_status();
    assert!(!s.armed && !s.pre_trigger && !s.triggered && !s.acquired && !s.init_in_progress);
}

#[test]
fn state_commands_report_success() {
    let dev = SimDevice { mode: SimMode::Ready, fail_cmds: vec![], status_word: 0, hubs: vec![] };
    let mut st = IlaState::new(0x43C2_0000, dev, 0, 0);
    let r = st.post_reset();
    assert!(r.success);
    assert_eq!(r.message, "Reset complete");
    let r = st.post_init();
    assert!(r.success);
    assert_eq!(r.message, "Init complete");
    let r = st.post_arm();
    assert!(r.success);
    assert_eq!(r.message, "Armed");
}

#[test]
fn state_commands_report_failure() {
    let dev = SimDevice { mode: SimMode::Fault, fail_cmds: vec![], status_word: 0, hubs: vec![] };
    let mut st = IlaState::new(0x43C2_0000, dev, 0, 0);
    assert_eq!(st.post_reset().message, "Reset failed");
    assert_eq!(st.post_init().message, "Init failed");
    assert_eq!(st.post_arm().message, "Arm failed");
}

#[test]
fn configure_trigger_sequence_and_message() {
    let dev = device_with_pod(SimMode::Ready, 0, 0);
    let mut st = IlaState::new(0x43C2_0000, dev, 0x5303_0101, 0);
    let cfg = TriggerConfig {
        trigger_type: "external".to_string(),
        trigger_bits: 0x8,
        post_trigger: 128,
    };
    let r = st.post_configure_trigger(&cfg);
    assert!(r.success);
    assert_eq!(r.message, "Configured: type=external, bits=0x00000008, post=128");
    let trace = &st.window().trace;
    let cmds: Vec<u32> =
        trace.iter().filter(|e| e.write && e.offset == 0x00).map(|e| e.value).collect();
    assert_eq!(cmds, vec![0x02, 0x23, 0x24, 0x2A, 0x40, 0x40, 0x03, 0x01]);
    let wdatas: Vec<u32> =
        trace.iter().filter(|e| e.write && e.offset == 0x08).map(|e| e.value).collect();
    assert_eq!(wdatas, vec![0, 0x06, 0x8, 128, 0x26, 0x8, 0, 0]);
    // the pod 0 pre-programming landed in its register file
    assert_eq!(st.window().device.hubs[0].pods[0].regs[0x03], 0x26);
    assert_eq!(st.window().device.hubs[0].pods[0].regs[0x04], 0x8);
}

#[test]
fn configure_trigger_defaults() {
    // unknown type name falls back to OR_RISING, zero bits to bit 0
    let dev = device_with_pod(SimMode::Ready, 0, 0);
    let mut st = IlaState::new(0x43C2_0000, dev, 0x5303_0101, 0);
    let cfg = TriggerConfig {
        trigger_type: "sideways".to_string(),
        trigger_bits: 0,
        post_trigger: 64,
    };
    let r = st.post_configure_trigger(&cfg);
    assert!(r.success);
    assert_eq!(r.message, "Configured: type=sideways, bits=0x00000001, post=64");
    let wdatas: Vec<u32> = st
        .window()
        .trace
        .iter()
        .filter(|e| e.write && e.offset == 0x08)
        .map(|e| e.value)
        .collect();
    assert_eq!(wdatas[1], 0x02);
    assert_eq!(wdatas[2], 0x01);
}

#[test]
fn configure_trigger_reports_the_failing_step() {
    let dev = SimDevice { mode: SimMode::Fault, fail_cmds: vec![], status_word: 0, hubs: vec![] };
    let mut st = IlaState::new(0x43C2_0000, dev, 0, 0);
    let cfg = TriggerConfig {
        trigger_type: "or_falling".to_string(),
        trigger_bits: 1,
        post_trigger: 64,
    };
    let r = st.post_configure_trigger(&cfg);
    assert!(!r.success);
    assert_eq!(r.message, "Reset failed");
}

#[test]
fn configure_trigger_reports_each_failing_step() {
    let steps: [(u32, &str); 6] = [
        (0x02, "Reset failed"),
        (0x23, "Failed to set trigger type"),
        (0x24, "Failed to set trigger field"),
        (0x2A, "Failed to set post-trigger"),
        (0x03, "Init failed"),
        (0x01, "Arm failed"),
    ];
    for (cmd, msg) in steps {
        let mut dev = device_with_pod(SimMode::Ready, 0, 0);
        dev.fail_cmds = vec![cmd];
        let mut st = IlaState::new(0x43C2_0000, dev, 0x5303_0101, 0);
        let cfg = TriggerConfig {
            trigger_type: "external".to_string(),
            trigger_bits: 1,
            post_trigger: 64,
        };
        let r = st.post_configure_trigger(&cfg);
        assert!(!r.success);
        assert_eq!(r.message, msg);
    }
}

#[test]
fn configure_trigger_tolerates_refused_pod_preprogramming() {
    // the pod pre-programming writes are best-effort: a broken
    // WR_POD_REG endpoint does not abort the sequence
    let mut dev = device_with_pod(SimMode::Ready, 0, 0);
    dev.fail_cmds = vec![0x40];
    let mut st = IlaState::new(0x43C2_0000, dev, 0x5303_0101, 0);
    let cfg = TriggerConfig {
        trigger_type: "or_falling".to_string(),
        trigger_bits: 2,
        post_trigger: 32,
    };
    let r = st.post_configure_trigger(&cfg);
    assert!(r.success);
    assert_eq!(r.message, "Configured: type=or_falling, bits=0x00000002, post=32");
    // nothing landed in the pod's register file
    assert_eq!(st.window().device.hubs[0].pods[0].regs[0x03], 0);
    assert_eq!(st.window().device.hubs[0].pods[0].regs[0x04], 0);
}

#[test]
fn capture_truncates_to_the_ram_depth() {
    // depth_bits = 6: 64 entries
    let dev = device_with_pod(SimMode::Ready, 0, 0x1000_0006);
    let mut st = IlaState::new(0x43C2_0000, dev, 0x5303_0101, 0);
    let data = st.get_capture_from_pod(0, 0, 10000);
    assert_eq!(data.sample_count, 64);
    assert!(data.samples.len() <= 64);
    assert_eq!(data.samples.len(), 64);
    assert_eq!(data.ts_bits, 16);
    assert_eq!(data.samples[63].address, 63);
}

#[test]
fn capture_caps_at_2048() {
    // depth_bits = 14: 16384 entries
    let dev = device_with_pod(SimMode::Ready, 0, 0x1000_000E);
    let mut st = IlaState::new(0x43C2_0000, dev, 0x5303_0101, 0);
    let data = st.get_capture_from_pod(0, 0, 10000);
    assert_eq!(data.sample_count, 2048);
    assert_eq!(data.samples.len(), 2048);
}

#[test]
fn capture_on_a_dead_bus_collects_nothing() {
    let dev = device_with_pod(SimMode::Fault, 0, 0x1000_0006);
    let mut st = IlaState::new(0x43C2_0000, dev, 0, 0);
    let data = st.get_capture_from_pod(0, 0, 4);
    // a failed configuration read means an offline pod: no RAM at all
    assert_eq!(data.sample_count, 0);
    assert_eq!(data.ts_bits, 0);
    assert_eq!(data.data_bits, 0);
    assert!(data.samples.is_empty());
}

#[test]
fn raw_register_reads_are_bounds_checked() {
    let dev = SimDevice { mode: SimMode::Ready, fail_cmds: vec![], status_word: 0, hubs: vec![] };
    let mut st = IlaState::new(0x43C2_0000, dev, 0xDEAD_BEEF, 0x0000_0002);
    let r = st.get_register(0x1C);
    assert_eq!(r.offset, 0x1C);
    assert_eq!(r.value, Some(0xDEAD_BEEF));
    assert_eq!(st.get_register(0x20).value, Some(2));
    assert_eq!(st.get_register(253).value, None);
    assert_eq!(st.get_register(0x100).value, None);
    assert_eq!(st.get_register(usize::MAX).value, None);
}

#[test]
fn default_post_trigger_is_64() {
    assert_eq!(sump_ila::default_post_trigger(), 64);
}
