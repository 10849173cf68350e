//! The FiiO KA17 USB HID EQ protocol: recognizing the device's control
//! collection, the fixed-layout set/get packets, reply matching, the user
//! preset slot the edits land in, the order a push writes in, reading bands
//! back, and the version reply. (Gain and frequency fields are scaled
//! floating-point values and are encoded outside this library.)

use crate::hardware::{occurs, DeviceInfo, DeviceInfoV, Recognized};
use crate::moondrop_family::{printable_chars, printable_run};
use crate::offload::HwFilterType;
use crate::protocol::{plan_view, push_step, PushStep, PushStepV};
use crate::text;
use crate::text::{trimmed, upper_seq};
use vstd::prelude::*;

verus! {

/// The HID usage page of the KA17's control collection.
pub const CONTROL_USAGE_PAGE: u16 = 0x0001;

/// First two bytes of a set packet.
pub const SET_HEADER: [u8; 2] = [0xAA, 0x0A];

/// First two bytes of a get packet.
pub const GET_HEADER: [u8; 2] = [0xBB, 0x0B];

/// Last byte of every packet.
pub const END_BYTE: u8 = 0xEE;

/// Per-band parameters command.
pub const CMD_FILTER_PARAMS: u8 = 0x15;

/// The KA17's HID report id.
pub const REPORT_ID: u8 = 0x01;

/// Payload length of a report (the report on the wire is one byte longer).
pub const REPORT_LEN: usize = 32;

/// Switch (or, as a get, query) the active preset slot.
pub const CMD_PRESET_SWITCH: u8 = 0x16;

/// The global-gain register.
pub const CMD_GLOBAL_GAIN: u8 = 0x17;

/// The number of bands in use.
pub const CMD_FILTER_COUNT: u8 = 0x18;

/// Persist the running EQ to a slot's flash (the newer save command).
pub const CMD_SAVE: u8 = 0x21;

/// Firmware-version query.
pub const CMD_VERSION: u8 = 0x0B;

/// The first writable user preset slot (USER1).
pub const USER1_SLOT: u8 = 4;

/// The writable user preset slots USER1/2/3.
pub open spec fn is_user_slot(s: u8) -> bool {
    s == 4 || s == 8 || s == 9
}

/// Whether a reply payload answers the get for `cmd`: `[BB 0B ? ? cmd …]`
/// with at least one argument byte.
pub fn reply_matches(p: &[u8], cmd: u8) -> (b: bool)
    ensures
        b == (p@.len() > 6 && p@[0] == 0xBB && p@[1] == 0x0B && p@[4] == cmd),
{
    p.len() > 6 && p[0] == GET_HEADER[0] && p[1] == GET_HEADER[1] && p[4] == cmd
}

/// The writable slot edits land in, given the preset the device reported
/// (if it answered): that preset when it is a user slot, else USER1 — and
/// whether USER1 must be switched to first, so edits are audible and no
/// factory curve is overwritten.
pub fn user_slot(current: Option<u8>) -> (r: (u8, bool))
    ensures
        match current {
            Some(s) => if is_user_slot(s) {
                r == (s, false)
            } else {
                r == (USER1_SLOT, true)
            },
            None => r == (USER1_SLOT, true),
        },
{
    match current {
        Some(s) => if s == 4 || s == 8 || s == 9 {
            (s, false)
        } else {
            (USER1_SLOT, true)
        },
        None => (USER1_SLOT, true),
    }
}

/// The preset a preset reply reports (its first argument byte).
pub fn reported_preset(reply: &[u8]) -> (s: u8)
    requires
        reply@.len() > 6,
    ensures
        s == reply@[6],
{
    reply[6]
}

/// A KA17 push: the global gain, the band count pinned at the device
/// maximum, a settle pause, every slot's parameters (flat fillers past the
/// bands given — the count read-back can't be trusted to silence stale
/// bands), then — when committing — another settle and the save to `slot`.
pub open spec fn fiio_plan(max_filters: nat, slot: u8, commit: bool) -> Seq<PushStepV> {
    seq![
        PushStepV::Gain,
        PushStepV::Packet(seq![0xAAu8, 0x0Au8, 0u8, 0u8, CMD_FILTER_COUNT, 1u8, max_filters as u8, 0u8, 0xEEu8]),
        PushStepV::Settle,
    ] + Seq::new(max_filters, |k: int| PushStepV::Band(k as u8)) + if commit {
        seq![PushStepV::Settle, PushStepV::Packet(seq![0xAAu8, 0x0Au8, 0u8, 0u8, CMD_SAVE, 1u8, slot, 0u8, 0xEEu8])]
    } else {
        Seq::empty()
    }
}

/// Plan a KA17 push over `max_filters` slots, saving to `slot` when
/// committing.
pub fn push_plan(max_filters: usize, slot: u8, commit: bool) -> (plan: Vec<PushStep>)
    requires
        max_filters <= 255,
    ensures
        plan_view(plan@) == fiio_plan(max_filters as nat, slot, commit),
{
    let mut plan: Vec<PushStep> = Vec::new();
    push_step(&mut plan, PushStep::Gain);
    push_step(&mut plan, PushStep::Packet(set1_packet(CMD_FILTER_COUNT, max_filters as u8)));
    push_step(&mut plan, PushStep::Settle);
    let ghost head = plan_view(plan@);
    let mut i: usize = 0;
    while i < max_filters
        invariant
            i <= max_filters <= 255,
            plan_view(plan@) == head + Seq::new(i as nat, |k: int| PushStepV::Band(k as u8)),
        decreases max_filters - i,
    {
        push_step(&mut plan, PushStep::Band(i as u8));
        i = i + 1;
        assert(plan_view(plan@) =~= head + Seq::new(i as nat, |k: int| PushStepV::Band(k as u8)));
    }
    let ghost body = plan_view(plan@);
    if commit {
        push_step(&mut plan, PushStep::Settle);
        push_step(&mut plan, PushStep::Packet(set1_packet(CMD_SAVE, slot)));
    }
    proof {
        assert(head =~= seq![
            PushStepV::Gain,
            PushStepV::Packet(seq![0xAAu8, 0x0Au8, 0u8, 0u8, CMD_FILTER_COUNT, 1u8, max_filters as u8, 0u8, 0xEEu8]),
            PushStepV::Settle,
        ]);
        assert(plan_view(plan@) =~= fiio_plan(max_filters as nat, slot, commit));
    }
    plan
}

/// How many times a preset switch is sent before giving up: the firmware
/// drops switches that arrive while it is still settling.
pub const SWITCH_TRIES: u32 = 3;

/// The message when the device never confirmed a preset switch.
pub open spec fn refused_message(preset: u8) -> Seq<char> {
    "Device refused to switch to preset "@ + text::dec(preset as nat)
}

/// Whether a preset read-back (when the device answered) confirms the
/// switch to `preset`.
pub fn switch_confirmed(reply: Option<&[u8]>, preset: u8) -> (b: bool)
    requires
        reply matches Some(p) ==> p@.len() > 6,
    ensures
        b == (reply matches Some(p) && p@[6] == preset),
{
    match reply {
        Some(p) => p[6] == preset,
        None => false,
    }
}

/// The message for a switch the device never confirmed.
pub fn refused(preset: u8) -> (m: String)
    ensures
        m@ == refused_message(preset),
{
    let mut m = text::owned("Device refused to switch to preset ");
    let n = text::u64_text(preset as u64);
    m.append(n.as_str());
    proof {
        reveal_strlit("Device refused to switch to preset ");
    }
    m
}

/// How many bands a pull reads: the count the device reports (its first
/// argument byte), at most the device maximum.
pub fn pull_count(count_reply: &[u8], max_filters: usize) -> (n: usize)
    requires
        count_reply@.len() > 6,
    ensures
        n == (if (count_reply@[6] as int) < max_filters {
            count_reply@[6] as usize
        } else {
            max_filters
        }),
{
    let c = count_reply[6] as usize;
    if c < max_filters {
        c
    } else {
        max_filters
    }
}

/// Where a band reply goes among the `n` bands read: the band index it
/// carries (replies are trusted over arrival order), when below `n`.
pub fn band_slot(reply: &[u8], n: usize) -> (r: Option<usize>)
    requires
        reply@.len() > 6,
    ensures
        r == (if (reply@[6] as int) < n {
            Some(reply@[6] as usize)
        } else {
            None
        }),
{
    let idx = reply[6] as usize;
    if idx < n {
        Some(idx)
    } else {
        None
    }
}

/// The device's code for a filter class: peaking 0, low shelf 1, high shelf 2.
pub open spec fn fiio_code(kind: HwFilterType) -> u8 {
    match kind {
        HwFilterType::Peak => 0,
        HwFilterType::LowShelf => 1,
        HwFilterType::HighShelf => 2,
    }
}

/// The device's code for a filter class.
pub fn type_byte(kind: HwFilterType) -> (b: u8)
    ensures
        b == fiio_code(kind),
{
    match kind {
        HwFilterType::Peak => 0,
        HwFilterType::LowShelf => 1,
        HwFilterType::HighShelf => 2,
    }
}

/// A set packet with a 1-byte argument: `[AA 0A 0 0 cmd 1 arg 0 EE]`.
pub fn set1_packet(cmd: u8, arg: u8) -> (p: Vec<u8>)
    ensures
        p@ == seq![0xAAu8, 0x0Au8, 0u8, 0u8, cmd, 1u8, arg, 0u8, 0xEEu8],
{
    vec![SET_HEADER[0], SET_HEADER[1], 0, 0, cmd, 1, arg, 0, END_BYTE]
}

/// The big-endian bytes of `v`'s 16-bit two's complement (`v` wraps modulo
/// 2^16).
pub open spec fn be16_of(v: i64) -> (u8, u8) {
    (((v as u16) / 256) as u8, ((v as u16) % 256) as u8)
}

fn be16(v: i64) -> (r: (u8, u8))
    ensures
        r == be16_of(v),
{
    let u: u16 = v as u16;
    ((u / 256) as u8, (u % 256) as u8)
}

/// The global-gain set packet for a register value in tenths of a dB:
/// `[AA 0A 0 0 17 2 hi lo 0 EE]`.
pub fn global_gain_packet(tenths: i64) -> (p: Vec<u8>)
    ensures
        p@ == seq![0xAAu8, 0x0Au8, 0u8, 0u8, 0x17u8, 2u8, be16_of(tenths).0, be16_of(tenths).1, 0u8, 0xEEu8],
{
    let (hi, lo) = be16(tenths);
    vec![SET_HEADER[0], SET_HEADER[1], 0, 0, CMD_GLOBAL_GAIN, 2, hi, lo, 0, END_BYTE]
}

/// The per-band parameter set packet, for the gain in tenths of a dB, the
/// frequency in Hz and Q in hundredths: `[AA 0A 0 0 15 8 idx gain(2) freq(2)
/// q(2) type 0 EE]`, each two-byte field big-endian.
pub fn params_packet(index: u8, gain_tenths: i64, freq: u16, q_hundredths: u16, kind: HwFilterType) -> (p: Vec<u8>)
    ensures
        p@ == seq![
            0xAAu8,
            0x0Au8,
            0u8,
            0u8,
            0x15u8,
            8u8,
            index,
            be16_of(gain_tenths).0,
            be16_of(gain_tenths).1,
            (freq / 256) as u8,
            (freq % 256) as u8,
            (q_hundredths / 256) as u8,
            (q_hundredths % 256) as u8,
            fiio_code(kind),
            0u8,
            0xEEu8,
        ],
{
    let (gain_hi, gain_lo) = be16(gain_tenths);
    vec![
        SET_HEADER[0],
        SET_HEADER[1],
        0,
        0,
        CMD_FILTER_PARAMS,
        8,
        index,
        gain_hi,
        gain_lo,
        (freq / 256) as u8,
        (freq % 256) as u8,
        (q_hundredths / 256) as u8,
        (q_hundredths % 256) as u8,
        type_byte(kind),
        0,
        END_BYTE,
    ]
}

/// A get packet: `[BB 0B 0 0 cmd 0 0 EE]`.
pub fn get_packet(cmd: u8) -> (p: Vec<u8>)
    ensures
        p@ == seq![0xBBu8, 0x0Bu8, 0u8, 0u8, cmd, 0u8, 0u8, 0xEEu8],
{
    vec![GET_HEADER[0], GET_HEADER[1], 0, 0, cmd, 0, 0, END_BYTE]
}

/// The per-band get packet: `[BB 0B 0 0 15 1 idx 0 EE]`.
pub fn get_band_packet(index: u8) -> (p: Vec<u8>)
    ensures
        p@ == seq![0xBBu8, 0x0Bu8, 0u8, 0u8, 0x15u8, 1u8, index, 0u8, 0xEEu8],
{
    vec![GET_HEADER[0], GET_HEADER[1], 0, 0, CMD_FILTER_PARAMS, 1, index, 0, END_BYTE]
}

/// The version a reply reports: the printable ASCII after the length byte,
/// up to a NUL or the end byte, trimmed.
pub open spec fn fiio_version_of(p: Seq<u8>) -> Seq<char> {
    trimmed(printable_run(p, 6, true))
}

/// Decode a version reply (e.g. `"1.23"`); empty when the reply carries
/// none. A reply always holds its six header bytes.
pub fn decode_version(p: &[u8]) -> (s: String)
    requires
        p.len() >= 6,
    ensures
        s@ == fiio_version_of(p@),
{
    let run = printable_chars(p, 6, true);
    let joined = text::string_of(&run);
    text::owned(text::trim(joined.as_str()))
}

/// The KA17: FiiO's vendor id, `KA17` in the product string (ASCII case
/// ignored), and only on its control collection.
pub open spec fn is_ka17(info: DeviceInfoV) -> bool {
    info.vendor_id == 0x2972 && occurs(upper_seq(info.product), "KA17"@) && info.usage_page
        == CONTROL_USAGE_PAGE
}

/// Recognize a FiiO device this driver can drive: the KA17 (10 bands, host
/// pregain), on its control collection only.
pub fn identify(info: &DeviceInfo) -> (r: Option<Recognized>)
    ensures
        is_ka17(info@) ==> (r matches Some(d) && d.model@ == "KA17"@ && d.max_filters == 10
            && d.user_pregain),
        !is_ka17(info@) ==> r is None,
{
    let product = text::upper_chars(info.product.as_str());
    let needle = text::chars_of("KA17");
    if info.vendor_id == 0x2972 && text::find_str_from(&product, &needle, 0).is_some()
        && info.usage_page == CONTROL_USAGE_PAGE {
        return Some(Recognized { model: text::owned("KA17"), max_filters: 10, user_pregain: true });
    }
    None
}

} // verus!
