//! Report framing shared by the USB HID EQ drivers, and the steps a push
//! takes. A push is planned here as a sequence of steps — band packets, the
//! pregain packet, fixed command packets and settle pauses — in the order
//! the device needs them; the driver builds the packets whose fields are
//! scaled floating-point values and performs the writes and waits.

use vstd::prelude::*;

verus! {

/// One step of a push, in device order.
#[derive(Debug, Clone, PartialEq, Eq)]
pub enum PushStep {
    /// The band packet for slot `i`: the `i`-th band pushed, or a flat
    /// filler past the bands given, so stale bands are cleared.
    Band(u8),
    /// The pregain (global gain) packet for the requested pregain.
    Gain,
    /// A fixed command packet.
    Packet(Vec<u8>),
    /// Wait the device's settle time before going on.
    Settle,
}

/// A push step over plain values.
pub enum PushStepV {
    Band(u8),
    Gain,
    Packet(Seq<u8>),
    Settle,
}

impl View for PushStep {
    type V = PushStepV;

    open spec fn view(&self) -> PushStepV {
        match self {
            PushStep::Band(i) => PushStepV::Band(*i),
            PushStep::Gain => PushStepV::Gain,
            PushStep::Packet(p) => PushStepV::Packet(p@),
            PushStep::Settle => PushStepV::Settle,
        }
    }
}

/// The views of a plan.
pub open spec fn plan_view(v: Seq<PushStep>) -> Seq<PushStepV> {
    Seq::new(v.len(), |i: int| v[i]@)
}

/// Append a step to a plan.
pub fn push_step(plan: &mut Vec<PushStep>, step: PushStep)
    ensures
        plan_view(final(plan)@) == plan_view(old(plan)@).push(step@),
{
    let ghost before = plan@;
    plan.push(step);
    assert(plan_view(plan@) =~= plan_view(before).push(plan@.last()@));
}

/// What a report's payload is: the bytes read, with the leading report id
/// dropped when the report starts with it (devices differ in whether they
/// echo it).
pub open spec fn payload_of(report: Seq<u8>, n: int, report_id: u8) -> Seq<u8> {
    if report[0] == report_id {
        report.subrange(1, n)
    } else {
        report.subrange(0, n)
    }
}

/// The payload of a report of `n` bytes read into `report`.
pub fn report_payload(report: &[u8], n: usize, report_id: u8) -> (p: Vec<u8>)
    requires
        0 < n <= report@.len(),
    ensures
        p@ == payload_of(report@, n as int, report_id),
{
    let start: usize = if report[0] == report_id {
        1
    } else {
        0
    };
    let mut p: Vec<u8> = Vec::new();
    let mut i: usize = start;
    while i < n
        invariant
            start <= i <= n <= report@.len(),
            p@ == report@.subrange(start as int, i as int),
        decreases n - i,
    {
        p.push(report[i]);
        i = i + 1;
        assert(p@ =~= report@.subrange(start as int, i as int));
    }
    p
}

/// A report as written: the report id, then the payload, zero-padded to
/// the report length.
pub open spec fn framed_report(report_id: u8, report_len: nat, payload: Seq<u8>) -> Seq<u8> {
    seq![report_id] + payload + Seq::new((report_len - payload.len()) as nat, |i: int| 0u8)
}

/// Frame a payload into a report.
pub fn frame(report_id: u8, report_len: usize, payload: &[u8]) -> (r: Vec<u8>)
    requires
        payload@.len() <= report_len,
    ensures
        r@ == framed_report(report_id, report_len as nat, payload@),
{
    let mut r: Vec<u8> = Vec::new();
    r.push(report_id);
    let mut i: usize = 0;
    while i < payload.len()
        invariant
            i <= payload@.len(),
            r@ == seq![report_id] + payload@.take(i as int),
        decreases payload.len() - i,
    {
        r.push(payload[i]);
        i = i + 1;
        assert(r@ =~= seq![report_id] + payload@.take(i as int));
    }
    assert(payload@.take(i as int) =~= payload@);
    let mut k: usize = payload.len();
    while k < report_len
        invariant
            payload@.len() <= k <= report_len,
            r@ == seq![report_id] + payload@ + Seq::new((k - payload@.len()) as nat, |j: int| 0u8),
        decreases report_len - k,
    {
        r.push(0);
        k = k + 1;
        assert(r@ =~= seq![report_id] + payload@ + Seq::new((k - payload@.len()) as nat, |j: int| 0u8));
    }
    r
}

} // verus!
