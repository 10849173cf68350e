//! The Walkplay-platform USB HID EQ protocol: its fixed packets, the order a
//! push writes in, its read requests and the Custom-slot check. (Band and
//! global-gain packets carry scaled floating-point values and are built
//! outside this library.)

use crate::moondrop_family::{CMD_EQ_BAND, CMD_READ, CMD_VER};
use crate::protocol::{plan_view, push_step, PushStep, PushStepV};
use vstd::prelude::*;

verus! {

/// Write command byte.
pub const CMD_WRITE: u8 = 0x01;

/// Write with no arguments: persist the registers to flash. With
/// `(enable, slot)`: activate an EQ slot.
pub const CMD_FLASH_EQ: u8 = 0x01;

/// The one-byte signed global-gain register.
pub const CMD_GLOBAL_GAIN: u8 = 0x03;

/// Reset the EQ.
pub const CMD_RESET_EQ: u8 = 0x05;

/// Apply the written coefficients to the running DSP registers (all bands).
pub const CMD_TEMP_WRITE: u8 = 0x0A;

/// Reset the flash copy.
pub const CMD_RESET_FLASH: u8 = 0x17;

/// The writable "Custom" EQ slot every band packet is tagged with.
pub const CUSTOM_SLOT: u8 = 101;

/// The apply-all payload.
pub open spec fn apply_bytes() -> Seq<u8> {
    seq![CMD_WRITE, CMD_TEMP_WRITE, 0x04u8, 0x00u8, 0x00u8, 0xFFu8, 0xFFu8]
}

/// The apply-all payload that loads the written coefficients into the
/// running DSP registers: `[01 0A 04 00 00 FF FF]`.
pub fn apply_packet() -> (p: Vec<u8>)
    ensures
        p@ == apply_bytes(),
{
    vec![CMD_WRITE, CMD_TEMP_WRITE, 0x04, 0x00, 0x00, 0xFF, 0xFF]
}

/// A Walkplay push: every slot's band packet (flat fillers past the bands
/// given), the global gain, then — when committing — the save sequence
/// reset, reset flash, apply, flash; otherwise just the apply.
pub open spec fn walkplay_plan(max_filters: nat, commit: bool) -> Seq<PushStepV> {
    Seq::new(max_filters, |k: int| PushStepV::Band(k as u8)) + seq![PushStepV::Gain] + if commit {
        seq![
            PushStepV::Packet(seq![CMD_WRITE, CMD_RESET_EQ]),
            PushStepV::Packet(seq![CMD_WRITE, CMD_RESET_FLASH]),
            PushStepV::Packet(apply_bytes()),
            PushStepV::Packet(seq![CMD_WRITE, CMD_FLASH_EQ]),
        ]
    } else {
        seq![PushStepV::Packet(apply_bytes())]
    }
}

/// Plan a Walkplay push over `max_filters` slots.
pub fn push_plan(max_filters: usize, commit: bool) -> (plan: Vec<PushStep>)
    requires
        max_filters <= 256,
    ensures
        plan_view(plan@) == walkplay_plan(max_filters as nat, commit),
{
    let mut plan: Vec<PushStep> = Vec::new();
    let mut i: usize = 0;
    while i < max_filters
        invariant
            i <= max_filters <= 256,
            plan_view(plan@) == Seq::new(i as nat, |k: int| PushStepV::Band(k as u8)),
        decreases max_filters - i,
    {
        push_step(&mut plan, PushStep::Band(i as u8));
        i = i + 1;
        assert(plan_view(plan@) =~= Seq::new(i as nat, |k: int| PushStepV::Band(k as u8)));
    }
    let ghost bands = plan_view(plan@);
    push_step(&mut plan, PushStep::Gain);
    let ghost with_gain = plan_view(plan@);
    if commit {
        push_step(&mut plan, PushStep::Packet(vec![CMD_WRITE, CMD_RESET_EQ]));
        push_step(&mut plan, PushStep::Packet(vec![CMD_WRITE, CMD_RESET_FLASH]));
        push_step(&mut plan, PushStep::Packet(apply_packet()));
        push_step(&mut plan, PushStep::Packet(vec![CMD_WRITE, CMD_FLASH_EQ]));
    } else {
        push_step(&mut plan, PushStep::Packet(apply_packet()));
    }
    proof {
        assert(with_gain =~= bands + seq![PushStepV::Gain]);
        assert(plan_view(plan@) =~= walkplay_plan(max_filters as nat, commit));
    }
    plan
}

/// The global-gain write for a register value in dB:
/// `[01 03 02 00 reg]`, the register as its two's-complement byte.
pub fn global_gain_packet(reg: i8) -> (p: Vec<u8>)
    ensures
        p@ == seq![0x01u8, 0x03u8, 0x02u8, 0x00u8, reg as u8],
{
    vec![CMD_WRITE, CMD_GLOBAL_GAIN, 0x02, 0x00, reg as u8]
}

/// The read request for band slot `index`: `[80 09 00 00 index 00]`.
pub fn band_request(index: u8) -> (p: Vec<u8>)
    ensures
        p@ == seq![CMD_READ, CMD_EQ_BAND, 0u8, 0u8, index, 0u8],
{
    vec![CMD_READ, CMD_EQ_BAND, 0, 0, index, 0]
}

/// The firmware-version request: `[80 0C 00]`.
pub fn version_request() -> (p: Vec<u8>)
    ensures
        p@ == seq![CMD_READ, CMD_VER, 0u8],
{
    vec![CMD_READ, CMD_VER, 0]
}

/// The bulk EQ read whose reply carries the active slot: `[80 09 00]`.
pub fn slot_request() -> (p: Vec<u8>)
    ensures
        p@ == seq![CMD_READ, CMD_EQ_BAND, 0u8],
{
    vec![CMD_READ, CMD_EQ_BAND, 0]
}

/// The active slot a bulk EQ reply reports: its byte 35, when it has one.
pub fn active_slot(reply: &[u8]) -> (s: Option<u8>)
    ensures
        s == (if reply@.len() > 35 {
            Some(reply@[35])
        } else {
            None
        }),
{
    if reply.len() > 35 {
        Some(reply[35])
    } else {
        None
    }
}

/// The packet that activates the Custom slot, unless the device is known
/// to run it already: `[01 01 01 65 00]` (flash-EQ with enable and slot).
pub fn slot_activation(active: Option<u8>) -> (p: Option<Vec<u8>>)
    ensures
        active == Some(CUSTOM_SLOT) ==> p is None,
        active != Some(CUSTOM_SLOT) ==> (p matches Some(v) && v@ == seq![
            CMD_WRITE,
            CMD_FLASH_EQ,
            0x01u8,
            CUSTOM_SLOT,
            0x00u8,
        ]),
{
    match active {
        Some(s) => if s == CUSTOM_SLOT {
            None
        } else {
            Some(vec![CMD_WRITE, CMD_FLASH_EQ, 0x01, CUSTOM_SLOT, 0x00])
        },
        None => Some(vec![CMD_WRITE, CMD_FLASH_EQ, 0x01, CUSTOM_SLOT, 0x00]),
    }
}

} // verus!
