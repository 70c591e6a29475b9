//! The result records the service hands out: topology, capture status,
//! samples and command outcomes, with their mathematical views.

use vstd::prelude::*;

verus! {

/// One signal displayed out of a pod's data bits.
#[derive(Debug, Clone)]
pub struct SignalInfo {
    pub name: String,
    pub bit_high: u16,
    pub bit_low: u16,
    pub signal_type: String,
}

/// Mathematical value of a `SignalInfo`.
#[verifier::ext_equal]
pub ghost struct SignalInfoV {
    pub name: Seq<char>,
    pub bit_high: u16,
    pub bit_low: u16,
    pub signal_type: Seq<char>,
}

impl View for SignalInfo {
    type V = SignalInfoV;

    open spec fn view(&self) -> SignalInfoV {
        SignalInfoV {
            name: self.name@,
            bit_high: self.bit_high,
            bit_low: self.bit_low,
            signal_type: self.signal_type@,
        }
    }
}

/// One RAM word of a pod, decoded.
#[derive(Debug, Clone, Copy, PartialEq, Eq, Structural)]
pub struct RleSample {
    pub address: u32,
    pub code: u8,
    pub timestamp: u32,
    pub data: u32,
}

/// The five bits of the capture state machine.
#[derive(Debug, Clone, Copy, PartialEq, Eq, Structural)]
pub struct CaptureStatus {
    pub armed: bool,
    pub pre_trigger: bool,
    pub triggered: bool,
    pub acquired: bool,
    pub init_in_progress: bool,
}

/// One pod of a hub, as enumeration reports it.
#[derive(Debug)]
pub struct PodInfo {
    pub index: u8,
    pub name: String,
    pub hw_rev: u8,
    pub ram_depth: u32,
    pub data_bits: u16,
    pub ts_bits: u8,
    pub triggerable: u32,
    pub rle_disable: bool,
    pub view_rom_en: bool,
    pub view_mode: String,
    pub signals: Vec<SignalInfo>,
}

/// Mathematical value of a `PodInfo`.
#[verifier::ext_equal]
pub ghost struct PodInfoV {
    pub index: u8,
    pub name: Seq<char>,
    pub hw_rev: u8,
    pub ram_depth: u32,
    pub data_bits: u16,
    pub ts_bits: u8,
    pub triggerable: u32,
    pub rle_disable: bool,
    pub view_rom_en: bool,
    pub view_mode: Seq<char>,
    pub signals: Seq<SignalInfoV>,
}

impl View for PodInfo {
    type V = PodInfoV;

    open spec fn view(&self) -> PodInfoV {
        PodInfoV {
            index: self.index,
            name: self.name@,
            hw_rev: self.hw_rev,
            ram_depth: self.ram_depth,
            data_bits: self.data_bits,
            ts_bits: self.ts_bits,
            triggerable: self.triggerable,
            rle_disable: self.rle_disable,
            view_rom_en: self.view_rom_en,
            view_mode: self.view_mode@,
            signals: self.signals@.map_values(|s: SignalInfo| s@),
        }
    }
}

/// One hub, as enumeration reports it.
#[derive(Debug)]
pub struct HubInfo {
    pub index: u8,
    pub name: String,
    pub freq_mhz: u32,
    pub pod_count: u8,
    pub pods: Vec<PodInfo>,
}

/// Mathematical value of a `HubInfo`.
#[verifier::ext_equal]
pub ghost struct HubInfoV {
    pub index: u8,
    pub name: Seq<char>,
    pub freq_mhz: u32,
    pub pod_count: u8,
    pub pods: Seq<PodInfoV>,
}

impl View for HubInfo {
    type V = HubInfoV;

    open spec fn view(&self) -> HubInfoV {
        HubInfoV {
            index: self.index,
            name: self.name@,
            freq_mhz: self.freq_mhz,
            pod_count: self.pod_count,
            pods: self.pods@.map_values(|p: PodInfo| p@),
        }
    }
}

/// The whole instrument, as enumeration reports it.
#[derive(Debug)]
pub struct IlaInfo {
    pub connected: bool,
    pub hw_id: String,
    pub revision: u8,
    pub hub_count: u8,
    pub is_armed: bool,
    pub is_awake: bool,
    pub base_addr: String,
    pub hubs: Vec<HubInfo>,
}

/// Mathematical value of an `IlaInfo`.
#[verifier::ext_equal]
pub ghost struct IlaInfoV {
    pub connected: bool,
    pub hw_id: Seq<char>,
    pub revision: u8,
    pub hub_count: u8,
    pub is_armed: bool,
    pub is_awake: bool,
    pub base_addr: Seq<char>,
    pub hubs: Seq<HubInfoV>,
}

impl View for IlaInfo {
    type V = IlaInfoV;

    open spec fn view(&self) -> IlaInfoV {
        IlaInfoV {
            connected: self.connected,
            hw_id: self.hw_id@,
            revision: self.revision,
            hub_count: self.hub_count,
            is_armed: self.is_armed,
            is_awake: self.is_awake,
            base_addr: self.base_addr@,
            hubs: self.hubs@.map_values(|h: HubInfo| h@),
        }
    }
}

/// One capture read: status, configuration and the decoded samples.
#[derive(Debug)]
pub struct CaptureData {
    pub hub: u8,
    pub pod: u8,
    pub ts_bits: u8,
    pub data_bits: u16,
    pub status: CaptureStatus,
    pub samples: Vec<RleSample>,
    pub sample_count: u32,
}

/// Mathematical value of a `CaptureData`.
#[verifier::ext_equal]
pub ghost struct CaptureDataV {
    pub hub: u8,
    pub pod: u8,
    pub ts_bits: u8,
    pub data_bits: u16,
    pub status: CaptureStatus,
    pub samples: Seq<RleSample>,
    pub sample_count: u32,
}

impl View for CaptureData {
    type V = CaptureDataV;

    open spec fn view(&self) -> CaptureDataV {
        CaptureDataV {
            hub: self.hub,
            pod: self.pod,
            ts_bits: self.ts_bits,
            data_bits: self.data_bits,
            status: self.status,
            samples: self.samples@,
            sample_count: self.sample_count,
        }
    }
}

/// A trigger request: type name, participating bits, post-trigger count.
#[derive(Debug)]
pub struct TriggerConfig {
    pub trigger_type: String,
    pub trigger_bits: u32,
    pub post_trigger: u32,
}

/// A raw register read: the offset asked for and the value, if the
/// offset lay inside the window.
#[derive(Debug)]
pub struct RegisterValue {
    pub offset: usize,
    pub value: Option<u32>,
}

/// Outcome of a state command, with a human-readable message.
#[derive(Debug)]
pub struct CommandResult {
    pub success: bool,
    pub message: String,
}

} // verus!
