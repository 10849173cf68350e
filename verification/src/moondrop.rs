//! The Moondrop DHA15 USB HID EQ protocol: its fixed packets, the order a
//! push writes in, and its read requests. (Band and pregain packets carry
//! scaled floating-point values and are built outside this library.)

use crate::moondrop_family::{CMD_EQ_BAND, CMD_READ, CMD_VER};
use crate::protocol::{plan_view, push_step, PushStep, PushStepV};
use vstd::prelude::*;

verus! {

/// Write command byte.
pub const CMD_WRITE: u8 = 0x01;

/// Commit written coefficients into the running registers.
pub const CMD_COEFF_TO_REG: u8 = 0x0A;

/// Save the running EQ to flash — the only write the DHA15 latches.
pub const CMD_SAVE_TO_FLASH: u8 = 0x01;

/// Host pregain command.
pub const CMD_PRE_GAIN: u8 = 0x23;

/// Byte 35 of a band packet: a fixed tag on Moondrop devices.
pub const PEQ_INDEX: u8 = 7;

/// The payload that commits band slot `index` into the active registers.
pub open spec fn enable_bytes(index: u8) -> Seq<u8> {
    seq![CMD_WRITE, CMD_COEFF_TO_REG, index, 0u8, 255u8, 255u8, 255u8]
}

/// The payload that commits a written band slot into the active register
/// set: `[01 0A index 00 FF FF FF]`.
pub fn enable_packet(index: u8) -> (p: Vec<u8>)
    ensures
        p@ == enable_bytes(index),
{
    vec![CMD_WRITE, CMD_COEFF_TO_REG, index, 0, 255, 255, 255]
}

/// A DHA15 push: every slot's band packet followed by its register enable
/// (unused slots get a flat filler, clearing stale bands), then the host
/// pregain when the device takes one (its boosts clip without it), then
/// the flash save when committing.
pub open spec fn moondrop_plan(max_filters: nat, pregain: bool, commit: bool) -> Seq<PushStepV> {
    Seq::new(
        2 * max_filters,
        |k: int|
            if k % 2 == 0 {
                PushStepV::Band((k / 2) as u8)
            } else {
                PushStepV::Packet(enable_bytes((k / 2) as u8))
            },
    ) + (if pregain {
        seq![PushStepV::Gain]
    } else {
        Seq::empty()
    }) + (if commit {
        seq![PushStepV::Packet(seq![CMD_WRITE, CMD_SAVE_TO_FLASH])]
    } else {
        Seq::empty()
    })
}

/// Plan a DHA15 push over `max_filters` slots.
pub fn push_plan(max_filters: usize, user_pregain: bool, commit: bool) -> (plan: Vec<PushStep>)
    requires
        max_filters <= 256,
    ensures
        plan_view(plan@) == moondrop_plan(max_filters as nat, user_pregain, commit),
{
    let mut plan: Vec<PushStep> = Vec::new();
    let mut i: usize = 0;
    while i < max_filters
        invariant
            i <= max_filters <= 256,
            plan_view(plan@) == moondrop_plan(max_filters as nat, false, false).take(2 * i),
        decreases max_filters - i,
    {
        let ghost before = plan_view(plan@);
        push_step(&mut plan, PushStep::Band(i as u8));
        push_step(&mut plan, PushStep::Packet(enable_packet(i as u8)));
        i = i + 1;
        proof {
            let m = moondrop_plan(max_filters as nat, false, false);
            assert(m[2 * i - 2] == PushStepV::Band((i - 1) as u8));
            assert(m[2 * i - 1] == PushStepV::Packet(enable_bytes((i - 1) as u8)));
            assert(plan_view(plan@) =~= m.take(2 * i));
        }
    }
    proof {
        let m = moondrop_plan(max_filters as nat, false, false);
        assert(m.take(2 * i) =~= Seq::new(
            2 * (max_filters as nat),
            |k: int|
                if k % 2 == 0 {
                    PushStepV::Band((k / 2) as u8)
                } else {
                    PushStepV::Packet(enable_bytes((k / 2) as u8))
                },
        ));
    }
    let ghost bands = plan_view(plan@);
    if user_pregain {
        push_step(&mut plan, PushStep::Gain);
    }
    let ghost mid = plan_view(plan@);
    if commit {
        push_step(&mut plan, PushStep::Packet(vec![CMD_WRITE, CMD_SAVE_TO_FLASH]));
    }
    proof {
        let tail_g: Seq<PushStepV> = if user_pregain {
            seq![PushStepV::Gain]
        } else {
            Seq::empty()
        };
        let tail_c: Seq<PushStepV> = if commit {
            seq![PushStepV::Packet(seq![CMD_WRITE, CMD_SAVE_TO_FLASH])]
        } else {
            Seq::empty()
        };
        assert(mid =~= bands + tail_g);
        assert(plan_view(plan@) =~= bands + tail_g + tail_c);
    }
    plan
}

/// The host-pregain write for a register value in 1/256 dB:
/// `[01 23 00 lo hi]`, the value as its little-endian 16-bit two's
/// complement.
pub fn pregain_packet(scaled: i64) -> (p: Vec<u8>)
    ensures
        p@ == seq![0x01u8, 0x23u8, 0u8, ((scaled as u16) % 256) as u8, ((scaled as u16) / 256) as u8],
{
    let v = crate::moondrop_family::le16(scaled);
    vec![CMD_WRITE, CMD_PRE_GAIN, 0, v[0], v[1]]
}

/// The read request for band slot `index`: `[80 09 18 00 index 00]`.
pub fn band_request(index: u8) -> (p: Vec<u8>)
    ensures
        p@ == seq![CMD_READ, CMD_EQ_BAND, 0x18u8, 0u8, index, 0u8],
{
    vec![CMD_READ, CMD_EQ_BAND, 0x18, 0, index, 0]
}

/// The firmware-version request: `[80 0C]`.
pub fn version_request() -> (p: Vec<u8>)
    ensures
        p@ == seq![CMD_READ, CMD_VER],
{
    vec![CMD_READ, CMD_VER]
}

/// The host pregain rides with every push of a device that takes one,
/// committing or not: the plan holds a pregain step exactly when the device
/// takes host pregain, right after the bands, and committing only appends
/// the flash save `[01 01]` to the same plan.
pub proof fn law_pregain_rides_with_every_push(max_filters: nat, pregain: bool, commit: bool)
    ensures
        moondrop_plan(max_filters, pregain, commit).contains(PushStepV::Gain) <==> pregain,
        pregain ==> moondrop_plan(max_filters, pregain, commit)[2 * max_filters as int] == PushStepV::Gain,
        moondrop_plan(max_filters, pregain, true) == moondrop_plan(max_filters, pregain, false).push(
            PushStepV::Packet(seq![0x01u8, 0x01u8]),
        ),
        moondrop_plan(max_filters, pregain, commit).len() == 2 * max_filters + (if pregain { 1int } else { 0int })
            + (if commit { 1int } else { 0int }),
        forall|i: int|
            0 <= i < max_filters && i < 256 ==> #[trigger] moondrop_plan(max_filters, pregain, commit)[2 * i]
                == PushStepV::Band(i as u8) && moondrop_plan(max_filters, pregain, commit)[2 * i + 1]
                == PushStepV::Packet(seq![0x01u8, 0x0Au8, i as u8, 0u8, 0xFFu8, 0xFFu8, 0xFFu8]),
{
    let bands = Seq::new(
        2 * max_filters,
        |k: int|
            if k % 2 == 0 {
                PushStepV::Band((k / 2) as u8)
            } else {
                PushStepV::Packet(enable_bytes((k / 2) as u8))
            },
    );
    let g: Seq<PushStepV> = if pregain { seq![PushStepV::Gain] } else { Seq::empty() };
    let c: Seq<PushStepV> = if commit { seq![PushStepV::Packet(seq![CMD_WRITE, CMD_SAVE_TO_FLASH])] } else { Seq::empty() };
    let p = moondrop_plan(max_filters, pregain, commit);
    assert(p == bands + g + c);
    assert forall|i: int| 0 <= i < max_filters && i < 256 implies #[trigger] p[2 * i] == PushStepV::Band(i as u8)
        && p[2 * i + 1] == PushStepV::Packet(seq![0x01u8, 0x0Au8, i as u8, 0u8, 0xFFu8, 0xFFu8, 0xFFu8]) by {
        assert(p[2 * i] == bands[2 * i]);
        assert(p[2 * i + 1] == bands[2 * i + 1]);
        assert((2 * i) % 2 == 0 && (2 * i) / 2 == i);
        assert((2 * i + 1) % 2 == 1 && (2 * i + 1) / 2 == i);
    }
    assert(moondrop_plan(max_filters, pregain, true) =~= moondrop_plan(max_filters, pregain, false).push(
        PushStepV::Packet(seq![0x01u8, 0x01u8]),
    ));
    if pregain {
        assert(p[2 * max_filters as int] == PushStepV::Gain);
    } else {
        assert forall|k: int| 0 <= k < p.len() implies p[k] != PushStepV::Gain by {
            if k < bands.len() {
                assert(p[k] == bands[k]);
            } else {
                assert(p[k] == c[k - bands.len()]);
            }
        }
    }
}

} // verus!
