//! The wire format shared by the Moondrop and Walkplay USB HID EQ protocols:
//! report framing, command bytes, filter-type codes, 16-bit little-endian
//! fields, reply matching and the version reply.
//! (Band packets carry biquad coefficients computed in floating point and are
//! built outside this library.)

use crate::offload::HwFilterType;
use crate::text;
use crate::text::{dec, trimmed};
use vstd::prelude::*;

verus! {

/// The report id every report of the family carries.
pub const REPORT_ID: u8 = 0x4B;

/// Payload length of a report (the report on the wire is one byte longer).
pub const REPORT_LEN: usize = 63;

/// Write command byte (first payload byte).
pub const CMD_WRITE: u8 = 0x01;

/// Read command byte (first payload byte).
pub const CMD_READ: u8 = 0x80;

/// The per-band EQ packet (second payload byte).
pub const CMD_EQ_BAND: u8 = 0x09;

/// Firmware-version query (second payload byte).
pub const CMD_VER: u8 = 0x0C;

/// Whether a reply payload carries the tag `(c0, c1)` in its first two
/// bytes — the reply to the request with that tag.
pub fn reply_matches(p: &[u8], c0: u8, c1: u8) -> (b: bool)
    ensures
        b == (p@.len() > 1 && p@[0] == c0 && p@[1] == c1),
{
    p.len() > 1 && p[0] == c0 && p[1] == c1
}

/// The device's code for a filter class: peaking 2, low shelf 1, high shelf 3.
pub open spec fn family_code(kind: HwFilterType) -> u8 {
    match kind {
        HwFilterType::Peak => 2,
        HwFilterType::LowShelf => 1,
        HwFilterType::HighShelf => 3,
    }
}

/// The device's code for a filter class.
pub fn type_byte(kind: HwFilterType) -> (b: u8)
    ensures
        b == family_code(kind),
{
    match kind {
        HwFilterType::Peak => 2,
        HwFilterType::LowShelf => 1,
        HwFilterType::HighShelf => 3,
    }
}

/// A signed 16-bit little-endian value: the two's-complement low 16 bits of
/// `v` (its truncation to `u16`), low byte first.
pub fn le16(v: i64) -> (r: [u8; 2])
    ensures
        r[0] == (v as u16) % 256,
        r[1] == (v as u16) / 256,
{
    let u: u16 = v as u16;
    [(u % 256) as u8, (u / 256) as u8]
}

/// The byte at `i`, or 0 past the end.
pub open spec fn byte_at(p: Seq<u8>, i: int) -> u8 {
    if 0 <= i < p.len() {
        p[i]
    } else {
        0
    }
}

/// A printable ASCII byte (graphic characters and the space).
pub open spec fn printable(b: u8) -> bool {
    (0x21 <= b && b <= 0x7e) || b == 0x20
}

/// The printable characters of the text run starting at `i` and ending at
/// the first byte in `stops` (or the end).
pub open spec fn printable_run(p: Seq<u8>, i: int, stop_ee: bool) -> Seq<char>
    decreases p.len() - i,
{
    if i < 0 || i >= p.len() || p[i] == 0 || (stop_ee && p[i] == 0xee) {
        Seq::empty()
    } else if printable(p[i]) {
        seq![p[i] as char] + printable_run(p, i + 1, stop_ee)
    } else {
        printable_run(p, i + 1, stop_ee)
    }
}

/// The version a reply reports: the printable text from byte 3, trimmed, or
/// when there is none, bytes 3, 4 and 5 as `a.b.c` (missing bytes read 0).
pub open spec fn version_of(p: Seq<u8>) -> Seq<char> {
    let t = trimmed(printable_run(p, 3, false));
    if t.len() == 0 {
        dec(byte_at(p, 3) as nat) + seq!['.'] + dec(byte_at(p, 4) as nat) + seq!['.'] + dec(
            byte_at(p, 5) as nat,
        )
    } else {
        t
    }
}

/// The printable run of `p` from `from`, as characters.
pub fn printable_chars(p: &[u8], from: usize, stop_ee: bool) -> (r: Vec<char>)
    ensures
        r@ == printable_run(p@, from as int, stop_ee),
{
    let mut out: Vec<char> = Vec::new();
    let mut i: usize = from;
    while i < p.len() && p[i] != 0 && !(stop_ee && p[i] == 0xee)
        invariant
            from <= i,
            out@ + printable_run(p@, i as int, stop_ee) == printable_run(p@, from as int, stop_ee),
        decreases p.len() - i,
    {
        let b = p[i];
        let ghost rest = printable_run(p@, i + 1, stop_ee);
        if (0x21 <= b && b <= 0x7e) || b == 0x20 {
            let ghost before = out@;
            out.push(b as char);
            assert(out@ + rest =~= before + (seq![b as char] + rest));
        }
        i = i + 1;
    }
    assert(out@ + Seq::<char>::empty() =~= out@);
    out
}

/// Decode a version reply: the printable ASCII text from payload byte 3
/// (the DHA15 reports `"V0.5.0"`), trimmed; when the payload is not text,
/// the raw numeric form `a.b.c` of bytes 3–5. Short replies read as zeros.
pub fn decode_version(p: &[u8]) -> (s: String)
    ensures
        s@ == version_of(p@),
{
    let run = printable_chars(p, 3, false);
    let joined = text::string_of(&run);
    let t = text::trim(joined.as_str());
    if t.unicode_len() > 0 {
        return text::owned(t);
    }
    let b3: u8 = if p.len() > 3 { p[3] } else { 0 };
    let b4: u8 = if p.len() > 4 { p[4] } else { 0 };
    let b5: u8 = if p.len() > 5 { p[5] } else { 0 };
    let mut s = text::u64_text(b3 as u64);
    text::push_char(&mut s, '.');
    s.append(text::u64_text(b4 as u64).as_str());
    text::push_char(&mut s, '.');
    s.append(text::u64_text(b5 as u64).as_str());
    s
}

} // verus!
