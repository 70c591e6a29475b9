//! The command protocol against the simulated window: bounds, framing,
//! timeout, the error bit, and the RAM sample read sequence.

use sump_ila::driver::IlaState;
use sump_ila::mmio::{DevMem, MmioEvent};
use sump_ila::sim::{SimDevice, SimHub, SimMode, SimPod};

fn ready_device() -> SimDevice {
    SimDevice { mode: SimMode::Ready, fail_cmds: vec![], status_word: 0, hubs: vec![] }
}

fn one_pod_device(ram_lo: Vec<u32>, ram_hi: Vec<u32>) -> SimDevice {
    SimDevice {
        mode: SimMode::Ready,
        fail_cmds: vec![],
        status_word: 0,
        hubs: vec![SimHub {
            name_w0: 0x68756230,
            name_w1: 0x20202020,
            name_w2: 0x20202020,
            freq_reg: 0,
            pod_count_reg: 1,
            pods: vec![SimPod { regs: vec![0u32; 32], ram_lo, ram_hi }],
        }],
    }
}

fn cmd_writes(trace: &[MmioEvent]) -> Vec<u32> {
    trace.iter().filter(|e| e.write && e.offset == 0x00).map(|e| e.value).collect()
}

#[test]
fn read32_rejects_offsets_near_the_end() {
    let mut win = DevMem::new(0, 256, ready_device());
    for offset in [253usize, 254, 255, 256, 300] {
        assert_eq!(win.read32(offset), None);
        assert!(!win.write32(offset, 0xFFFF_FFFF));
    }
    assert_eq!(win.read32(usize::MAX), None);
    assert!(win.trace.is_empty());
    assert!(win.bytes.iter().all(|b| *b == 0));
    // the last word of the window is still reachable
    assert_eq!(win.read32(252), Some(0));
}

#[test]
fn read32_and_write32_work_inside_the_window() {
    let mut win = DevMem::new(0, 256, ready_device());
    assert!(win.write32(0x40, 0x12345678));
    assert_eq!(win.read32(0x40), Some(0x12345678));
    assert_eq!(win.read32(0x44), Some(0));
    assert_eq!(win.trace.len(), 3);
}

#[test]
fn map_geometry_covers_the_window() {
    let (map_base, page_offset, map_size) =
        sump_ila::mmio::map_geometry(0x43C2_0100, 0x100, 0x1000);
    assert_eq!(map_base, 0x43C2_0000);
    assert_eq!(page_offset, 0x100);
    assert_eq!(map_size, 0x200);
    assert_eq!(map_base % 0x1000, 0);
}

#[test]
fn command_framing_on_success() {
    let mut st = IlaState::new(0x43C2_0000, ready_device(), 0x53030101, 0);
    let r = st.exec_cmd(0x12, 0, 0);
    assert_eq!(r, Some(0));
    let trace = &st.window().trace;
    assert_eq!(trace.len(), 6);
    assert_eq!(trace[0], MmioEvent { write: true, offset: 0x00, value: 0x12 });
    assert_eq!(trace[1], MmioEvent { write: true, offset: 0x04, value: 0 });
    assert_eq!(trace[2], MmioEvent { write: true, offset: 0x08, value: 0 });
    assert_eq!(trace[3], MmioEvent { write: true, offset: 0x0C, value: 1 });
    assert_eq!(trace[4], MmioEvent { write: false, offset: 0x10, value: 0x02 });
    assert_eq!(trace[5].write, false);
    assert_eq!(trace[5].offset, 0x14);
}

#[test]
fn command_answers_the_status_word() {
    let mut dev = ready_device();
    dev.status_word = 0x1F;
    let mut st = IlaState::new(0x43C2_0000, dev, 0x53030101, 0);
    assert_eq!(st.exec_cmd(0x12, 0, 0), Some(0x1F));
}

#[test]
fn timeout_polls_exactly_the_limit() {
    let dev = SimDevice { mode: SimMode::Silent, fail_cmds: vec![], status_word: 0, hubs: vec![] };
    let mut st = IlaState::new(0x43C2_0000, dev, 0, 0);
    let r = st.exec_cmd(0x12, 0, 0);
    assert_eq!(r, None);
    let trace = &st.window().trace;
    assert_eq!(trace.len(), 4 + 100000);
    for e in trace[4..].iter() {
        assert_eq!(*e, MmioEvent { write: false, offset: 0x10, value: 0 });
    }
}

#[test]
fn error_bit_fails_without_reading_rdata() {
    let dev = SimDevice { mode: SimMode::Fault, fail_cmds: vec![], status_word: 0, hubs: vec![] };
    let mut st = IlaState::new(0x43C2_0000, dev, 0, 0);
    let r = st.exec_cmd(0x12, 0, 0);
    assert_eq!(r, None);
    let trace = &st.window().trace;
    assert_eq!(trace.len(), 5);
    assert_eq!(trace[4], MmioEvent { write: false, offset: 0x10, value: 0x06 });
    assert!(trace.iter().all(|e| !(e.offset == 0x14 && !e.write)));
}

#[test]
fn rle_sample_read_layering() {
    let dev = one_pod_device(
        vec![0x1111_1111, 0x2222_2222],
        vec![0x0003_0005, 0x000A_0007],
    );
    let mut st = IlaState::new(0x43C2_0000, dev, 0x53030101, 0);
    let s = st.read_rle_sample(0, 0, 1, 16).expect("sample");
    assert_eq!(s.address, 1);
    assert_eq!(s.data, 0x2222_2222);
    assert_eq!(s.timestamp, 0x0007);
    assert_eq!(s.code, 2);
    // exactly: write RAM_PTR, read RAM_DATA, write RAM_PTR (page 1), read RAM_DATA
    assert_eq!(cmd_writes(&st.window().trace), vec![0x40, 0x32, 0x40, 0x32]);
    // and the second pointer write selected page 1 of the same address
    let wdatas: Vec<u32> = st
        .window()
        .trace
        .iter()
        .filter(|e| e.write && e.offset == 0x08)
        .map(|e| e.value)
        .collect();
    assert_eq!(wdatas, vec![1, 0, (1 << 20) | 1, 0]);
}

#[test]
fn rle_sample_decode_wide_timestamp() {
    let dev = one_pod_device(vec![5], vec![0xFFFF_FFFF]);
    let mut st = IlaState::new(0x43C2_0000, dev, 0x53030101, 0);
    let s = st.read_rle_sample(0, 0, 0, 30).expect("sample");
    assert_eq!(s.timestamp, 0x3FFF_FFFF);
    assert_eq!(s.code, 3);
}

#[test]
fn rle_sample_fails_when_the_device_does_not_answer() {
    let dev = SimDevice { mode: SimMode::Fault, fail_cmds: vec![], status_word: 0, hubs: vec![] };
    let mut st = IlaState::new(0x43C2_0000, dev, 0, 0);
    assert!(st.read_rle_sample(0, 0, 0, 16).is_none());
}

#[test]
fn rle_sample_aborts_after_a_refused_data_read() {
    // writes complete, reads are refused: the pointer moves, then the
    // data read aborts the sample
    let mut dev = one_pod_device(vec![7, 8], vec![9, 10]);
    dev.fail_cmds = vec![0x32];
    let mut st = IlaState::new(0x43C2_0000, dev, 0x53030101, 0);
    assert!(st.read_rle_sample(0, 0, 1, 16).is_none());
    assert_eq!(st.window().device.hubs[0].pods[0].regs[0x08], 1);
    assert_eq!(cmd_writes(&st.window().trace), vec![0x40, 0x32]);
}

#[test]
fn unknown_commands_answer_zero() {
    let mut st = IlaState::new(0x43C2_0000, ready_device(), 0, 0);
    assert_eq!(st.exec_cmd(0x99, 0, 0), Some(0));
}

#[test]
fn pod_register_writes_out_of_range_complete_without_effect() {
    let dev = one_pod_device(vec![], vec![]);
    let mut st = IlaState::new(0x43C2_0000, dev, 0x53030101, 0);
    // the command completes, but there is no hub 5 to write to
    assert!(st.write_pod_reg(5, 0, 0x04, 0xABCD));
    assert_eq!(st.window().device.hubs[0].pods[0].regs[0x04], 0);
    assert_eq!(st.read_pod_reg(5, 0, 0x04), Some(0));
}

#[test]
fn pod_register_writes_land_in_the_register_file() {
    let dev = one_pod_device(vec![], vec![]);
    let mut st = IlaState::new(0x43C2_0000, dev, 0x53030101, 0);
    assert!(st.write_pod_reg(0, 0, 0x04, 0xABCD));
    assert_eq!(st.window().device.hubs[0].pods[0].regs[0x04], 0xABCD);
    assert_eq!(st.read_pod_reg(0, 0, 0x04), Some(0xABCD));
}
