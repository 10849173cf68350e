//! What the app remembers between the commands it serves: whether the EQ is
//! bypassed and what un-bypassing restores, which preset is active (when that
//! is known without a look at the disk), the full EQ while a hardware device
//! runs part of it, and what the offload session was last reconciled
//! against.
//!
//! Reading and writing `config.txt`, asking which output is the default, and
//! driving the device are the caller's. It hands in what it read and what the
//! device took; these functions decide what to write and what to remember,
//! and the caller records an outcome only once its write has succeeded.

use crate::hardware::DetectedDevice;
use crate::manager::{applied, bypassed, law_applied_preset_is_active, law_bypass_has_no_filters_and_no_preset, Manager};
use crate::model::{Config, LineV};
use crate::provenance;
use crate::provenance::{is_stamp, name_of, stamp_prefix, stamped, without_stamps};
use crate::text;
use crate::tone::{composed, find_marker, flip_line, flipped, swap_in, tone_filters, tone_lines, without_tone, Tone, ToneV, TONE_BEGIN, TONE_END};
use vstd::prelude::*;

verus! {

/// The active preset as cached: known (possibly none), or to be derived
/// from the live config on the next read.
#[derive(Debug)]
pub enum Active {
    Known(Option<String>),
    Unknown,
}

/// The cached active preset over plain values.
pub enum ActiveV {
    Known(Option<Seq<char>>),
    Unknown,
}

impl View for Active {
    type V = ActiveV;

    open spec fn view(&self) -> ActiveV {
        match self {
            Active::Known(Some(n)) => ActiveV::Known(Some(n@)),
            Active::Known(None) => ActiveV::Known(None),
            Active::Unknown => ActiveV::Unknown,
        }
    }
}

/// The views of an optional config.
pub open spec fn opt_lines(c: Option<Config>) -> Option<Seq<LineV>> {
    match c {
        Some(x) => Some(x@),
        None => None,
    }
}

/// The app's memory of the EQ between commands.
#[derive(Debug)]
pub struct EqMemory {
    /// Whether the EQ is bypassed, so the toggle is a true toggle.
    pub bypassed: bool,
    /// The base config that was live when bypass began, re-applied on
    /// un-bypass so the exact prior state returns (unsaved edits too).
    pub restore: Option<Config>,
    /// The cached active preset.
    pub active: Active,
    /// While offloading, the most recent full (un-split) base EQ applied:
    /// the live config then only holds the software remainder.
    pub last_full: Option<Config>,
}

/// The memory over plain values.
pub struct EqMemoryV {
    pub bypassed: bool,
    pub restore: Option<Seq<LineV>>,
    pub active: ActiveV,
    pub last_full: Option<Seq<LineV>>,
}

impl View for EqMemory {
    type V = EqMemoryV;

    open spec fn view(&self) -> EqMemoryV {
        EqMemoryV {
            bypassed: self.bypassed,
            restore: opt_lines(self.restore),
            active: self.active@,
            last_full: opt_lines(self.last_full),
        }
    }
}

/// What a bypass writes and what it keeps for un-bypass: the live config
/// with the EQ dropped, and the base EQ that was running — while offloading,
/// the full EQ last applied (when none was, the base as read back from what
/// was just written); otherwise the live config with the tone overlay
/// stripped.
pub open spec fn bypass_of(m: EqMemoryV, live: Seq<LineV>, offloaded: bool) -> (Seq<LineV>, Seq<LineV>) {
    let written = bypassed(live);
    let restore = if offloaded {
        match m.last_full {
            Some(f) => f,
            None => without_tone(written),
        }
    } else {
        without_tone(live)
    };
    (written, restore)
}

/// The memory after a bypass that kept `restore`.
pub open spec fn after_bypass(m: EqMemoryV, restore: Seq<LineV>) -> EqMemoryV {
    EqMemoryV { bypassed: true, restore: Some(restore), active: ActiveV::Known(None), ..m }
}

/// What un-bypass writes to `config.txt`: the kept base, re-applied over the
/// live config with the tone on top, unless the device already took it
/// (then the offload wrote the software part) or nothing was kept.
pub open spec fn unbypass_of(m: EqMemoryV, t: ToneV, live: Seq<LineV>, on_device: bool) -> Option<Seq<LineV>> {
    match m.restore {
        Some(b) => if on_device {
            None
        } else {
            Some(applied(b, t, live))
        },
        None => None,
    }
}

/// The memory after an un-bypass: nothing kept, and the active preset to
/// be derived again (the restored EQ may or may not match a preset).
pub open spec fn after_unbypass(m: EqMemoryV) -> EqMemoryV {
    EqMemoryV { bypassed: false, restore: None, active: ActiveV::Unknown, ..m }
}

fn copy_opt_config(c: &Option<Config>) -> (r: Option<Config>)
    ensures
        opt_lines(r) == opt_lines(*c),
{
    match c {
        Some(x) => Some(x.duplicate()),
        None => None,
    }
}

impl EqMemory {
    /// Fresh memory: not bypassed, nothing kept, the active preset unknown.
    pub fn new() -> (m: EqMemory)
        ensures
            m@ == (EqMemoryV { bypassed: false, restore: None, active: ActiveV::Unknown, last_full: None }),
    {
        EqMemory { bypassed: false, restore: None, active: Active::Unknown, last_full: None }
    }

    /// The active preset when the cache knows it; `None` when it must be
    /// derived from the live config (see [`EqMemory::set_active`]).
    pub fn known_active(&self) -> (r: Option<Option<String>>)
        ensures
            match self.active@ {
                ActiveV::Known(Some(n)) => r matches Some(Some(x)) && x@ == n,
                ActiveV::Known(None) => r matches Some(None),
                ActiveV::Unknown => r is None,
            },
    {
        match &self.active {
            Active::Known(Some(n)) => Some(Some(text::owned(n.as_str()))),
            Active::Known(None) => Some(None),
            Active::Unknown => None,
        }
    }

    /// Cache the active preset as just derived from the live config.
    pub fn set_active(&mut self, derived: Option<String>)
        ensures
            final(self)@ == (EqMemoryV {
                active: ActiveV::Known(match derived {
                    Some(n) => Some(n@),
                    None => None,
                }),
                ..old(self)@
            }),
    {
        self.active = Active::Known(derived);
    }

    /// Mark the cached active preset stale: after any edit that may change
    /// what is active.
    pub fn invalidate(&mut self)
        ensures
            final(self)@ == (EqMemoryV { active: ActiveV::Unknown, ..old(self)@ }),
    {
        self.active = Active::Unknown;
    }

    /// Preset `name` (with content `config`) was applied, to the device as
    /// well when `offloaded`: it is active, the bypass is over, and while
    /// offloading its stamped full EQ is what a later bypass keeps.
    pub fn preset_applied(&mut self, name: &str, config: &Config, offloaded: bool)
        ensures
            final(self)@ == (EqMemoryV {
                bypassed: false,
                restore: None,
                active: ActiveV::Known(Some(name@)),
                last_full: if offloaded {
                    Some(stamped(config@, name@))
                } else {
                    None
                },
            }),
    {
        self.last_full = if offloaded {
            Some(provenance::set(config, name))
        } else {
            None
        };
        self.bypassed = false;
        self.restore = None;
        self.active = Active::Known(Some(text::owned(name)));
    }

    /// A live edit wrote `config`: real filters run again (the bypass flag
    /// drops), unsaved edits may match no preset, and while offloading the
    /// edit is the full EQ.
    pub fn live_applied(&mut self, config: &Config, offloaded: bool)
        ensures
            final(self)@ == (EqMemoryV {
                bypassed: false,
                active: ActiveV::Unknown,
                last_full: if offloaded {
                    Some(config@)
                } else {
                    old(self)@.last_full
                },
                ..old(self)@
            }),
    {
        if offloaded {
            self.last_full = Some(config.duplicate());
        }
        self.bypassed = false;
        self.active = Active::Unknown;
    }

    /// Plan a bypass on the live config: the config to write and the base
    /// to keep for un-bypass. `offloaded` says whether a device runs part of
    /// the EQ (the caller flattens it first).
    pub fn bypass_plan(&self, manager: &Manager, live: &Config, offloaded: bool) -> (r: (Config, Config))
        requires
            !self.bypassed,
        ensures
            (r.0@, r.1@) == bypass_of(self@, live@, offloaded),
    {
        let written = manager.bypass(live);
        let restore = if offloaded {
            match &self.last_full {
                Some(f) => f.duplicate(),
                None => manager.base_config(&written),
            }
        } else {
            manager.base_config(live)
        };
        (written, restore)
    }

    /// The bypass was written: remember what un-bypass restores; no preset
    /// is active.
    pub fn bypass_done(&mut self, restore: Config)
        ensures
            final(self)@ == after_bypass(old(self)@, restore@),
    {
        self.bypassed = true;
        self.restore = Some(restore);
        self.active = Active::Known(None);
    }

    /// Plan an un-bypass over the live config: what to write, if anything.
    /// `on_device` says whether the device took the kept base (the caller
    /// offered it when offloading).
    pub fn unbypass_plan(&self, manager: &Manager, tone: &Tone, live: &Config, on_device: bool) -> (r: Option<Config>)
        requires
            self.bypassed,
        ensures
            opt_lines(r) == unbypass_of(self@, tone@, live@, on_device),
    {
        match &self.restore {
            Some(b) => if on_device {
                None
            } else {
                Some(manager.apply_config(b, tone, live))
            },
            None => None,
        }
    }

    /// The un-bypass was written.
    pub fn unbypass_done(&mut self)
        ensures
            final(self)@ == after_unbypass(old(self)@),
    {
        self.bypassed = false;
        self.restore = None;
        self.active = Active::Unknown;
    }

    /// The full (un-split) EQ while offloading, as remembered.
    pub fn full_eq(&self) -> (r: Option<Config>)
        ensures
            opt_lines(r) == self@.last_full,
    {
        copy_opt_config(&self.last_full)
    }

    /// The device took `full` (when `Some`) — a session opened on it, or the
    /// bands were split anew after a mode change: it is the full EQ from now
    /// on. The active preset is derived again either way.
    pub fn device_took(&mut self, pushed: Option<&Config>)
        ensures
            final(self)@ == (EqMemoryV {
                active: ActiveV::Unknown,
                last_full: match pushed {
                    Some(f) => Some(f@),
                    None => old(self)@.last_full,
                },
                ..old(self)@
            }),
    {
        match pushed {
            Some(f) => {
                self.last_full = Some(f.duplicate());
            },
            None => {},
        }
        self.active = Active::Unknown;
    }

    /// The base EQ to split anew when the offload mode changes mid-session:
    /// the full EQ last applied, else the live config without its tone.
    pub fn resplit_base(&self, manager: &Manager, live: &Config) -> (r: Config)
        ensures
            r@ == match self@.last_full {
                Some(f) => f,
                None => without_tone(live@),
            },
    {
        match &self.last_full {
            Some(f) => f.duplicate(),
            None => manager.base_config(live),
        }
    }

    /// The full (un-split) EQ to carry over when the session changes: the
    /// full EQ last applied while offloading, else the active preset's
    /// content stamped with its name (when one is active and loads), else
    /// the live config as it is (when it reads).
    pub fn full_eq_from(&self, preset: Option<(&str, &Config)>, live: Option<&Config>) -> (r: Option<Config>)
        ensures
            opt_lines(r) == match self@.last_full {
                Some(f) => Some(f),
                None => match preset {
                    Some((n, c)) => Some(stamped(c@, n@)),
                    None => match live {
                        Some(l) => Some(l@),
                        None => None,
                    },
                },
            },
    {
        match &self.last_full {
            Some(f) => Some(f.duplicate()),
            None => match preset {
                Some((n, c)) => Some(provenance::set(c, n)),
                None => match live {
                    Some(l) => Some(l.duplicate()),
                    None => None,
                },
            },
        }
    }

    /// The offload session closed: the full EQ is back in software, so no
    /// split is remembered, and the active preset is derived again.
    pub fn session_closed(&mut self)
        ensures
            final(self)@ == (EqMemoryV { active: ActiveV::Unknown, last_full: None, ..old(self)@ }),
    {
        self.last_full = None;
        self.active = Active::Unknown;
    }
}

/// The software part of an offloaded EQ as written: stamped with the
/// preset's name when a preset is applied, else as the split left it.
pub fn software_part(software: &Config, preset: Option<&str>) -> (r: Config)
    ensures
        r@ == match preset {
            Some(n) => stamped(software@, n@),
            None => software@,
        },
{
    match preset {
        Some(n) => provenance::set(software, n),
        None => software.duplicate(),
    }
}

/// Why no manager is available: the detection error, else that Equalizer
/// APO was not found.
pub fn unavailable(apo_error: &Option<String>) -> (r: String)
    ensures
        r@ == match apo_error {
            Some(e) => e@,
            None => "Equalizer APO is not detected"@,
        },
{
    match apo_error {
        Some(e) => text::owned(e.as_str()),
        None => text::owned("Equalizer APO is not detected"),
    }
}

/// What to do with the offload session once the default output is known.
#[derive(Debug, Clone, Copy, PartialEq, Eq, Structural)]
pub enum Reconcile {
    /// Already on the right device, or already off.
    Stay,
    /// Stop the session and put the full EQ back into software.
    Close,
    /// Open a session on the target device; when `replacing`, stop the
    /// running one first.
    Open { replacing: bool },
}

/// Reconcile the session (on the device with id `current`, if any) with the
/// device the default output turned out to be (`target`, if it is one).
pub fn reconcile(target: Option<&DetectedDevice>, current: Option<&str>) -> (r: Reconcile)
    ensures
        match (target, current) {
            (Some(t), Some(c)) => if t.id@ == c@ {
                r == Reconcile::Stay
            } else {
                r == (Reconcile::Open { replacing: true })
            },
            (Some(t), None) => r == (Reconcile::Open { replacing: false }),
            (None, Some(c)) => r == Reconcile::Close,
            (None, None) => r == Reconcile::Stay,
        },
{
    match (target, current) {
        (Some(t), Some(c)) => if text::str_eq(t.id.as_str(), c) {
            Reconcile::Stay
        } else {
            Reconcile::Open { replacing: true }
        },
        (Some(_), None) => Reconcile::Open { replacing: false },
        (None, Some(_)) => Reconcile::Close,
        (None, None) => Reconcile::Stay,
    }
}

/// The views of an optional name.
pub open spec fn opt_text(o: Option<String>) -> Option<Seq<char>> {
    match o {
        Some(s) => Some(s@),
        None => None,
    }
}

/// What the offload session was last reconciled against: whether offload
/// was on, and the default output's name (looked up only while it is on).
#[derive(Debug)]
pub struct SyncMemory {
    pub last: Option<(bool, Option<String>)>,
}

/// The reconcile key over plain values.
pub open spec fn key_view(k: Option<(bool, Option<String>)>) -> Option<(bool, Option<Seq<char>>)> {
    match k {
        Some((e, o)) => Some((e, opt_text(o))),
        None => None,
    }
}

/// One reconcile request against the last key: whether to reconcile, and
/// the key from then on.
pub open spec fn sync_step(
    last: Option<(bool, Option<Seq<char>>)>,
    enabled: bool,
    output: Option<Seq<char>>,
) -> (bool, Option<(bool, Option<Seq<char>>)>) {
    (last != Some((enabled, output)), Some((enabled, output)))
}

impl SyncMemory {
    /// Nothing reconciled yet.
    pub fn new() -> (s: SyncMemory)
        ensures
            key_view(s.last) is None,
    {
        SyncMemory { last: None }
    }

    /// Whether the session must be reconciled for this on/off state and
    /// default output: only when they differ from the last ones seen, which
    /// become the key either way. Skipping an unchanged key spares the HID
    /// enumeration.
    pub fn changed(&mut self, enabled: bool, output: Option<String>) -> (go: bool)
        ensures
            (go, key_view(final(self).last)) == sync_step(key_view(old(self).last), enabled, opt_text(output)),
    {
        let same = match &self.last {
            Some((e, o)) => *e == enabled && match (o, &output) {
                (Some(a), Some(b)) => text::str_eq(a.as_str(), b.as_str()),
                (None, None) => true,
                _ => false,
            },
            None => false,
        };
        self.last = Some((enabled, output));
        !same
    }

    /// Forget the key, so the next reconcile runs whatever it is (after a
    /// mode change, a failed open, or a dead worker).
    pub fn forget(&mut self)
        ensures
            key_view(final(self).last) is None,
    {
        self.last = None;
    }
}

/// Bypassing and then un-bypassing, with no device taking the EQ back,
/// writes back the base EQ that bypass kept — the one running when bypass
/// began — re-applied with the tone of the moment over the config live then;
/// the bypass flag drops, nothing stays kept, and the full EQ remembered for
/// offload is untouched.
pub proof fn law_unbypass_reapplies_what_bypass_kept(
    m: EqMemoryV,
    live: Seq<LineV>,
    offloaded: bool,
    t: ToneV,
    later: Seq<LineV>,
)
    requires
        !m.bypassed,
    ensures
        ({
            let kept = bypass_of(m, live, offloaded).1;
            let b = after_bypass(m, kept);
            &&& b.bypassed
            &&& b.active == ActiveV::Known(None)
            &&& kept == (if offloaded {
                match m.last_full {
                    Some(f) => f,
                    None => without_tone(bypassed(live)),
                }
            } else {
                without_tone(live)
            })
            &&& unbypass_of(b, t, later, false) == Some(applied(kept, t, later))
            &&& after_unbypass(b) == (EqMemoryV {
                bypassed: false,
                restore: None,
                active: ActiveV::Unknown,
                last_full: m.last_full,
            })
        }),
{
}

proof fn lemma_line_not_stamp_start(s: Seq<char>, c: char)
    requires
        s.len() > 0,
        s[0] == c,
        c != '#',
        !text::is_ws(c),
    ensures
        !is_stamp(LineV::Raw(s)),
{
    provenance::lemma_prefix_facts();
    reveal_strlit("# fastpeq:preset=");
    let ts = text::trimmed_start(s);
    assert(ts == s);
    let t = text::trimmed_end(ts);
    text::lemma_trim_end_shape(ts);
    if t.len() > 0 {
        text::lemma_trim_end_keeps_start(ts);
        assert(t[0] == c);
        assert(stamp_prefix()[0] == '#');
        if stamp_prefix().is_prefix_of(t) {
            assert(t[0] == stamp_prefix()[0]);
        }
    }
}

proof fn lemma_tone_lines_unstamped(t: ToneV)
    ensures
        forall|k: int| 0 <= k < tone_lines(t).len() ==> !is_stamp(#[trigger] tone_lines(t)[k]),
{
    reveal_strlit("# fastpeq tone overlay (managed — edit with the app's tone knobs)");
    reveal_strlit("# end fastpeq tone overlay");
    reveal_strlit("# fastpeq:preset=");
    provenance::lemma_prefix_facts();
    text::lemma_trim_fixed(TONE_BEGIN@);
    text::lemma_trim_fixed(TONE_END@);
    let p = stamp_prefix();
    assert(!p.is_prefix_of(TONE_BEGIN@)) by {
        if p.is_prefix_of(TONE_BEGIN@) {
            assert(p[9] == TONE_BEGIN@[9]);
        }
    }
    assert(!p.is_prefix_of(TONE_END@)) by {
        if p.is_prefix_of(TONE_END@) {
            assert(p[2] == TONE_END@[2]);
        }
    }
    let f = tone_filters(t);
    assert forall|k: int| 0 <= k < f.len() implies #[trigger] f[k] is Filter by {
        let a = crate::tone::knob_lines(crate::model::FilterKind::LowShelfQ, crate::tone::BASS_FREQ@, t.bass, crate::tone::BASS_Q@);
        let b = crate::tone::knob_lines(crate::model::FilterKind::Peak, crate::tone::MID_FREQ@, t.mid, crate::tone::MID_Q@);
        let c = crate::tone::knob_lines(crate::model::FilterKind::HighShelfQ, crate::tone::TREBLE_FREQ@, t.treble, crate::tone::TREBLE_Q@);
        assert(f == a + b + c);
        if k < a.len() {
            assert(f[k] == a[k]);
        } else if k < a.len() + b.len() {
            assert(f[k] == b[k - a.len()]);
        } else {
            assert(f[k] == c[k - a.len() - b.len()]);
        }
    }
    let tl = tone_lines(t);
    match crate::tone::copy_text(t) {
        Some(c) => {
            assert(c[0] == 'C');
            lemma_line_not_stamp_start(c, 'C');
            assert forall|k: int| 0 <= k < tl.len() implies !is_stamp(#[trigger] tl[k]) by {
                if k == 0 {
                    assert(tl[k] == LineV::Raw(TONE_BEGIN@));
                } else if k <= f.len() {
                    assert(tl[k] == f[k - 1]);
                } else if k == f.len() + 1 {
                    assert(tl[k] == LineV::Raw(c));
                } else {
                    assert(tl[k] == LineV::Raw(TONE_END@));
                }
            }
        },
        None => {
            assert forall|k: int| 0 <= k < tl.len() implies !is_stamp(#[trigger] tl[k]) by {
                if k == 0 {
                    assert(tl[k] == LineV::Raw(TONE_BEGIN@));
                } else if k <= f.len() {
                    assert(tl[k] == f[k - 1]);
                } else {
                    assert(tl[k] == LineV::Raw(TONE_END@));
                }
            }
        },
    }
}

proof fn lemma_flip_keeps_unstamped(c: Seq<LineV>)
    requires
        forall|k: int| 0 <= k < c.len() ==> !is_stamp(#[trigger] c[k]),
    ensures
        forall|k: int| 0 <= k < flipped(c).len() ==> !is_stamp(#[trigger] flipped(c)[k]),
{
    assert forall|k: int| 0 <= k < flipped(c).len() implies !is_stamp(#[trigger] flipped(c)[k]) by {
        assert(flipped(c)[k] == flip_line(c[k]));
        assert(!is_stamp(c[k]));
    }
}

/// A config without stamps, composed with any tone, names no preset.
proof fn lemma_unstamped_compose_names_none(b: Seq<LineV>, t: ToneV)
    requires
        forall|k: int| 0 <= k < b.len() ==> !is_stamp(#[trigger] b[k]),
    ensures
        name_of(composed(b, t)) is None,
{
    let s = without_tone(b);
    assert forall|k: int| 0 <= k < s.len() implies !is_stamp(#[trigger] s[k]) by {
        match find_marker(b, TONE_BEGIN@, 0) {
            None => {},
            Some(bi) => {
                crate::tone::lemma_find_marker_bounds(b, TONE_BEGIN@, 0);
                crate::tone::lemma_find_marker_bounds(b, TONE_END@, bi);
                let e = match find_marker(b, TONE_END@, bi) {
                    Some(e) => e,
                    None => b.len() - 1,
                };
                let kept = b.take(bi) + b.skip(e + 1);
                assert forall|j: int| 0 <= j < kept.len() implies !is_stamp(#[trigger] kept[j]) by {
                    if j < bi {
                        assert(kept[j] == b[j]);
                    } else {
                        assert(kept[j] == b[e + 1 + (j - bi)]);
                    }
                }
                if swap_in(b, bi, e) {
                    lemma_flip_keeps_unstamped(kept);
                    assert(s == flipped(kept));
                } else {
                    assert(s == kept);
                }
            },
        }
    }
    let out = if t.swap {
        lemma_flip_keeps_unstamped(s);
        flipped(s)
    } else {
        s
    };
    lemma_tone_lines_unstamped(t);
    let tl = tone_lines(t);
    let all = out + tl;
    assert(composed(b, t) == all);
    assert forall|k: int| 0 <= k < all.len() implies !is_stamp(#[trigger] all[k]) by {
        if k < out.len() {
            assert(all[k] == out[k]);
        } else {
            assert(all[k] == tl[k - out.len()]);
        }
    }
    provenance::lemma_no_stamps_fixed(all);
}

/// Toggling bypass twice, with nothing else written in between and no
/// device taking the EQ, brings the preset back: the config un-bypass writes
/// names the same preset (or none) as the base EQ that was live when bypass
/// began — whatever the tone is by then.
pub proof fn law_bypass_round_trip_keeps_the_preset(m: EqMemoryV, live: Seq<LineV>, t: ToneV)
    requires
        !m.bypassed,
    ensures
        ({
            let (written, kept) = bypass_of(m, live, false);
            unbypass_of(after_bypass(m, kept), t, written, false) matches Some(w) && name_of(w)
                == name_of(without_tone(live))
        }),
{
    let r = without_tone(live);
    law_bypass_has_no_filters_and_no_preset(live);
    match name_of(r) {
        Some(n) => {
            provenance::lemma_name_has_no_trailing_space(r);
            law_applied_preset_is_active(r, t, n);
        },
        None => {
            provenance::lemma_without_stamps_has_none(r);
            lemma_unstamped_compose_names_none(without_stamps(r), t);
        },
    }
}

/// Reconciling twice against the same on/off state and default output does
/// the work once: whatever was seen before, the second ask finds the key
/// unchanged; and any other state or output is reconciled again.
pub proof fn law_unchanged_output_is_reconciled_once(
    last: Option<(bool, Option<Seq<char>>)>,
    enabled: bool,
    output: Option<Seq<char>>,
    other: (bool, Option<Seq<char>>),
)
    requires
        other != (enabled, output),
    ensures
        ({
            let (_, key) = sync_step(last, enabled, output);
            &&& !sync_step(key, enabled, output).0
            &&& sync_step(key, other.0, other.1).0
        }),
{
}

} // verus!
