//! Core of a userspace bridge to a memory-mapped integrated logic analyzer
//! (ILA): the command/status register protocol, the hub/pod object model
//! with its bit-packed configuration fields, and the capture service.
//!
//! The register window in this crate is a model: a bounds-checked byte
//! window that records every host access and answers commands from a
//! simulated device, so that the protocol driver and every decoder can be
//! verified and exercised against it. The raw hardware mapping lives with
//! the transport, outside the verified core.

pub mod driver;
pub mod fmt;
pub mod records;
pub mod mmio;
pub mod regs;
pub mod service;
pub mod signals;
pub mod sim;

use vstd::prelude::*;

verus! {

/// Default number of post-trigger samples when a trigger request leaves
/// the field out.
pub fn default_post_trigger() -> (r: u32)
    ensures
        r == 64,
{
    64
}

} // verus!
