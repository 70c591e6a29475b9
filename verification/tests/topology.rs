//! Enumeration over simulated devices: the offline device, the single
//! hub and pod, and the two-hub round trip.

use sump_ila::driver::IlaState;
use sump_ila::sim::{SimDevice, SimHub, SimMode, SimPod};

fn pod_with(hw_cfg: u32, ram_cfg: u32, triggerable: u32, name: [u32; 3]) -> SimPod {
    let mut regs = vec![0u32; 32];
    regs[0x00] = hw_cfg;
    regs[0x0A] = ram_cfg;
    regs[0x0E] = triggerable;
    regs[0x1D] = name[0];
    regs[0x1E] = name[1];
    regs[0x1F] = name[2];
    SimPod { regs, ram_lo: vec![], ram_hi: vec![] }
}

fn blank_pod() -> SimPod {
    pod_with(0, 0, 0, [0x20202020, 0x20202020, 0x20202020])
}

#[test]
fn offline_device_reports_nothing() {
    let dev = SimDevice { mode: SimMode::Ready, fail_cmds: vec![], status_word: 0, hubs: vec![] };
    let mut st = IlaState::new(0x43C2_0000, dev, 0, 0);
    let info = st.get_info();
    assert!(!info.connected);
    assert_eq!(info.hw_id, "\0\0");
    assert_eq!(info.revision, 0);
    assert_eq!(info.hub_count, 0);
    assert!(!info.is_armed);
    assert!(!info.is_awake);
    assert!(info.hubs.is_empty());
    assert_eq!(info.base_addr, "0x43C20000");
}

#[test]
fn online_single_hub_and_pod() {
    // hub 0 named "hub0", 160 MHz; its pod has the view ROM enabled.
    let dev = SimDevice {
        mode: SimMode::Ready,
        fail_cmds: vec![],
        status_word: 0,
        hubs: vec![SimHub {
            name_w0: 0x68756230,
            name_w1: 0x20202020,
            name_w2: 0x20202020,
            freq_reg: 0x0A00_0000,
            pod_count_reg: 1,
            pods: vec![pod_with(
                0x0200_0802,
                0x1008_0008,
                0xFFFF_FFFF,
                [0x706F_6430, 0x2020_2020, 0x2020_2020],
            )],
        }],
    };
    let mut st = IlaState::new(0x43C2_0000, dev, 0x5303_0101, 0x0000_0003);
    let info = st.get_info();
    assert!(info.connected);
    // the ID word 0x5303 renders as 'S' and the control byte 0x03
    assert_eq!(info.hw_id, "S\u{3}");
    assert_eq!(info.revision, 1);
    assert_eq!(info.hub_count, 1);
    assert!(info.is_armed);
    assert!(info.is_awake);
    assert_eq!(info.hubs.len(), 1);
    let hub = &info.hubs[0];
    assert_eq!(hub.index, 0);
    assert_eq!(hub.name, "hub0");
    assert_eq!(hub.freq_mhz, 160);
    assert_eq!(hub.pod_count, 1);
    assert_eq!(hub.pods.len(), 1);
    let pod = &hub.pods[0];
    assert_eq!(pod.index, 0);
    assert_eq!(pod.name, "pod0");
    assert_eq!(pod.hw_rev, 2);
    assert_eq!(pod.ram_depth, 256);
    assert_eq!(pod.ts_bits, 16);
    assert_eq!(pod.triggerable, 0xFFFF_FFFF);
    assert!(pod.view_rom_en);
    assert_eq!(pod.view_mode, "custom");
    assert!(pod.signals.is_empty());
}

#[test]
fn enumeration_round_trip_two_hubs() {
    let hub = |pods: Vec<SimPod>, count: u32| SimHub {
        name_w0: 0x20202020,
        name_w1: 0x20202020,
        name_w2: 0x20202020,
        freq_reg: 0,
        pod_count_reg: count,
        pods,
    };
    let dev = SimDevice {
        mode: SimMode::Ready,
        fail_cmds: vec![],
        status_word: 0,
        hubs: vec![
            hub(vec![blank_pod()], 1),
            hub(vec![blank_pod(), blank_pod(), blank_pod()], 3),
        ],
    };
    let mut st = IlaState::new(0x43C2_0000, dev, 0x5303_0200, 0);
    let info = st.get_info();
    assert!(info.connected);
    assert_eq!(info.hub_count, 2);
    assert_eq!(info.hubs.len(), 2);
    assert_eq!(info.hubs[0].index, 0);
    assert_eq!(info.hubs[1].index, 1);
    assert_eq!(info.hubs[0].pods.len(), 1);
    assert_eq!(info.hubs[1].pods.len(), 3);
    for (p, pod) in info.hubs[1].pods.iter().enumerate() {
        assert_eq!(pod.index as usize, p);
    }
}

#[test]
fn enumeration_survives_a_silent_bus() {
    // the ID register reads fine, but no serial-bus command completes
    let dev = SimDevice { mode: SimMode::Fault, fail_cmds: vec![], status_word: 0, hubs: vec![] };
    let mut st = IlaState::new(0x43C2_0000, dev, 0x5303_0101, 0);
    let info = st.get_info();
    assert!(info.connected);
    assert_eq!(info.hubs.len(), 1);
    assert_eq!(info.hubs[0].name, "");
    assert_eq!(info.hubs[0].freq_mhz, 0);
    assert_eq!(info.hubs[0].pod_count, 0);
    assert!(info.hubs[0].pods.is_empty());
}

#[test]
fn enumeration_with_one_broken_command_keeps_the_rest() {
    // only the pod-count command is broken: the hub's name and
    // frequency still read, and its pod list falls back to empty
    let dev = SimDevice {
        mode: SimMode::Ready,
        fail_cmds: vec![0x31],
        status_word: 0,
        hubs: vec![SimHub {
            name_w0: 0x68756230,
            name_w1: 0x20202020,
            name_w2: 0x20202020,
            freq_reg: 0x0A00_0000,
            pod_count_reg: 1,
            pods: vec![blank_pod()],
        }],
    };
    let mut st = IlaState::new(0x43C2_0000, dev, 0x5303_0100, 0);
    let info = st.get_info();
    assert_eq!(info.hubs[0].name, "hub0");
    assert_eq!(info.hubs[0].freq_mhz, 160);
    assert_eq!(info.hubs[0].pod_count, 0);
    assert!(info.hubs[0].pods.is_empty());
}

#[test]
fn hub_names_decode_as_lossy_utf8() {
    // an invalid byte becomes one replacement character
    let dev = SimDevice {
        mode: SimMode::Ready,
        fail_cmds: vec![],
        status_word: 0,
        hubs: vec![SimHub {
            name_w0: 0x68FF6230, // 'h', invalid 0xFF, 'b', '0'
            name_w1: 0x20202020,
            name_w2: 0x20202020,
            freq_reg: 0,
            pod_count_reg: 0,
            pods: vec![],
        }],
    };
    let mut st = IlaState::new(0x43C2_0000, dev, 0x5303_0100, 0);
    let info = st.get_info();
    assert_eq!(info.hubs[0].name, "h\u{FFFD}b0");
}

#[test]
fn hub_names_keep_valid_multibyte_characters() {
    let dev = SimDevice {
        mode: SimMode::Ready,
        fail_cmds: vec![],
        status_word: 0,
        hubs: vec![SimHub {
            name_w0: 0x68C3A930, // 'h', then 'e' with an acute accent, then '0'
            name_w1: 0x20202020,
            name_w2: 0x20202020,
            freq_reg: 0,
            pod_count_reg: 0,
            pods: vec![],
        }],
    };
    let mut st = IlaState::new(0x43C2_0000, dev, 0x5303_0100, 0);
    let info = st.get_info();
    assert_eq!(info.hubs[0].name, "h\u{E9}0");
}

#[test]
fn hub_names_keep_leading_padding() {
    // only trailing whitespace and NULs are trimmed
    let dev = SimDevice {
        mode: SimMode::Ready,
        fail_cmds: vec![],
        status_word: 0,
        hubs: vec![SimHub {
            name_w0: 0x20206830, // two spaces, 'h', '0'
            name_w1: 0x20202020,
            name_w2: 0x20202020,
            freq_reg: 0,
            pod_count_reg: 0,
            pods: vec![],
        }],
    };
    let mut st = IlaState::new(0x43C2_0000, dev, 0x5303_0100, 0);
    let info = st.get_info();
    assert_eq!(info.hubs[0].name, "  h0");
}
