//! Hardware EQ offload: which filter kinds a hardware PEQ device can run, the
//! strategies for picking the bands it runs, which lines of a config are
//! candidates, and what stays in Equalizer APO once bands are chosen. The
//! band values, the ranking of bands by their response and the biquad
//! arithmetic work on floating-point values and stay outside this library.

use crate::model::{ChannelV, Config, FilterKind, Line, LineV, Num, lines_view, lemma_lines_view_push};
use vstd::prelude::*;

verus! {

/// How bands are split between Equalizer APO and a hardware device.
#[derive(Debug, Clone, Copy, PartialEq, Eq, Structural)]
pub enum OffloadMode {
    /// Don't offload — every band stays in Equalizer APO. (Offload off.)
    ApoOnly,
    /// The first X offloadable bands in document order.
    FirstX,
    /// The X bands that alter the response most.
    LargestChange,
    /// The X bands that let Equalizer APO's preamp sit closest to 0.
    MinimizePreamp,
    /// The EQ runs entirely on the device and Equalizer APO stays flat.
    HardwareOnly,
}

impl Default for OffloadMode {
    /// Offload is off unless chosen.
    fn default() -> (m: OffloadMode)
        ensures
            m == OffloadMode::ApoOnly,
    {
        OffloadMode::ApoOnly
    }
}

/// The parametric-filter classes a hardware PEQ device can represent.
#[derive(Debug, Clone, Copy, PartialEq, Eq, Structural)]
pub enum HwFilterType {
    Peak,
    LowShelf,
    HighShelf,
}

/// The hardware class of a filter kind: peaking stays peaking, both shelf
/// forms collapse to their shelf class, and everything else has none.
pub open spec fn hw_class(kind: FilterKind) -> Option<HwFilterType> {
    match kind {
        FilterKind::Peak => Some(HwFilterType::Peak),
        FilterKind::LowShelf | FilterKind::LowShelfQ => Some(HwFilterType::LowShelf),
        FilterKind::HighShelf | FilterKind::HighShelfQ => Some(HwFilterType::HighShelf),
        _ => None,
    }
}

impl HwFilterType {
    /// Map a filter kind to the hardware class, or `None` if no device of
    /// this family can represent it (low/high pass, notch, …).
    pub fn from_kind(kind: FilterKind) -> (r: Option<HwFilterType>)
        ensures
            r == hw_class(kind),
    {
        match kind {
            FilterKind::Peak => Some(HwFilterType::Peak),
            FilterKind::LowShelf | FilterKind::LowShelfQ => Some(HwFilterType::LowShelf),
            FilterKind::HighShelf | FilterKind::HighShelfQ => Some(HwFilterType::HighShelf),
            _ => None,
        }
    }
}

/// Whether a line is a band a device with these shelf capabilities can
/// take: an enabled filter on both channels whose kind has a hardware class
/// the device supports.
pub open spec fn offloadable(l: LineV, low_shelf: bool, high_shelf: bool) -> bool {
    match l {
        LineV::Filter(f) => f.enabled && f.channel == ChannelV::Both && match hw_class(f.kind) {
            Some(HwFilterType::LowShelf) => low_shelf,
            Some(HwFilterType::HighShelf) => high_shelf,
            Some(HwFilterType::Peak) => true,
            None => false,
        },
        _ => false,
    }
}

/// The candidates for offload among the first `n` lines, each as its line
/// position and its position among the filter lines, in document order.
pub open spec fn candidates_in(c: Seq<LineV>, n: int, low_shelf: bool, high_shelf: bool) -> Seq<(usize, usize)>
    decreases n,
{
    if n <= 0 {
        Seq::empty()
    } else {
        let rest = candidates_in(c, n - 1, low_shelf, high_shelf);
        if offloadable(c[n - 1], low_shelf, high_shelf) {
            rest.push(((n - 1) as usize, filters_before(c, n - 1) as usize))
        } else {
            rest
        }
    }
}

/// How many of the first `n` lines are filters.
pub open spec fn filters_before(c: Seq<LineV>, n: int) -> nat
    decreases n,
{
    if n <= 0 {
        0
    } else {
        filters_before(c, n - 1) + if c[n - 1] is Filter {
            1nat
        } else {
            0nat
        }
    }
}

/// The bands a device could take from `config`: each candidate's line
/// position and its position among the filter lines, in document order.
pub fn candidates(config: &Config, low_shelf: bool, high_shelf: bool) -> (r: Vec<(usize, usize)>)
    ensures
        r@ == candidates_in(lines_view(config.lines@), config.lines@.len() as int, low_shelf, high_shelf),
{
    let ghost c = lines_view(config.lines@);
    let mut out: Vec<(usize, usize)> = Vec::new();
    let mut filters: usize = 0;
    let mut i: usize = 0;
    while i < config.lines.len()
        invariant
            i <= config.lines@.len(),
            c == lines_view(config.lines@),
            out@ == candidates_in(c, i as int, low_shelf, high_shelf),
            filters == filters_before(c, i as int),
            filters <= i,
        decreases config.lines.len() - i,
    {
        assert(c[i as int] == config.lines@[i as int]@);
        match &config.lines[i] {
            Line::Filter(f) => {
                let ok = f.enabled && match f.channel {
                    crate::model::Channel::Both => true,
                    _ => false,
                } && match HwFilterType::from_kind(f.kind) {
                    Some(HwFilterType::LowShelf) => low_shelf,
                    Some(HwFilterType::HighShelf) => high_shelf,
                    Some(HwFilterType::Peak) => true,
                    None => false,
                };
                if ok {
                    out.push((i, filters));
                }
                filters = filters + 1;
            },
            _ => {},
        }
        i = i + 1;
    }
    out
}

/// The first `max` candidates: what the first-X mode offloads.
pub fn first_x(candidates: &Vec<(usize, usize)>, max: usize) -> (r: Vec<(usize, usize)>)
    ensures
        r@ == candidates@.take(if max < candidates@.len() {
            max as int
        } else {
            candidates@.len() as int
        }),
{
    let n = if max < candidates.len() {
        max
    } else {
        candidates.len()
    };
    let mut out: Vec<(usize, usize)> = Vec::new();
    let mut i: usize = 0;
    while i < n
        invariant
            i <= n <= candidates@.len(),
            out@ == candidates@.take(i as int),
        decreases n - i,
    {
        out.push(candidates[i]);
        i = i + 1;
        assert(out@ =~= candidates@.take(i as int));
    }
    out
}

/// Whether line position `i` is among the chosen.
pub open spec fn picked(chosen: Seq<usize>, i: int) -> bool {
    exists|k: int| 0 <= k < chosen.len() && chosen[k] as int == i
}

/// The candidates that were chosen, in document order (whatever order the
/// choice was made in).
pub open spec fn chosen_in_order(cands: Seq<(usize, usize)>, chosen: Seq<usize>) -> Seq<(usize, usize)>
    decreases cands.len(),
{
    if cands.len() == 0 {
        Seq::empty()
    } else {
        let rest = chosen_in_order(cands.drop_last(), chosen);
        if picked(chosen, cands.last().0 as int) {
            rest.push(cands.last())
        } else {
            rest
        }
    }
}

fn contains_pos(chosen: &Vec<usize>, i: usize) -> (b: bool)
    ensures
        b == picked(chosen@, i as int),
{
    let mut k: usize = 0;
    while k < chosen.len()
        invariant
            k <= chosen@.len(),
            forall|j: int| 0 <= j < k ==> chosen@[j] != i,
        decreases chosen.len() - k,
    {
        if chosen[k] == i {
            return true;
        }
        k = k + 1;
    }
    false
}

/// The chosen candidates (by line position) in document order.
pub fn in_order(candidates: &Vec<(usize, usize)>, chosen: &Vec<usize>) -> (r: Vec<(usize, usize)>)
    ensures
        r@ == chosen_in_order(candidates@, chosen@),
{
    let mut out: Vec<(usize, usize)> = Vec::new();
    let mut i: usize = 0;
    while i < candidates.len()
        invariant
            i <= candidates@.len(),
            out@ == chosen_in_order(candidates@.take(i as int), chosen@),
        decreases candidates.len() - i,
    {
        proof {
            assert(candidates@.take(i + 1).drop_last() =~= candidates@.take(i as int));
            assert(candidates@.take(i + 1).last() == candidates@[i as int]);
        }
        if contains_pos(chosen, candidates[i].0) {
            out.push(candidates[i]);
        }
        i = i + 1;
    }
    assert(candidates@.take(i as int) =~= candidates@);
    out
}

/// Whether line `i` stays in Equalizer APO: in hardware-only mode every
/// line but the filters and preamps (APO stays flat); otherwise every line
/// not offloaded.
pub open spec fn stays(l: LineV, i: int, chosen: Seq<usize>, mode: OffloadMode) -> bool {
    match mode {
        OffloadMode::HardwareOnly => !(l is Filter || l is Preamp),
        _ => !picked(chosen, i),
    }
}

/// The lines among the first `n` that stay in Equalizer APO.
pub open spec fn software_lines(c: Seq<LineV>, n: int, chosen: Seq<usize>, mode: OffloadMode) -> Seq<LineV>
    decreases n,
{
    if n <= 0 {
        Seq::empty()
    } else {
        let rest = software_lines(c, n - 1, chosen, mode);
        if stays(c[n - 1], n - 1, chosen, mode) {
            rest.push(c[n - 1])
        } else {
            rest
        }
    }
}

/// The config Equalizer APO keeps once the lines at `chosen` went to the
/// device.
pub fn software_part(config: &Config, chosen: &Vec<usize>, mode: OffloadMode) -> (r: Config)
    ensures
        lines_view(r.lines@) == software_lines(lines_view(config.lines@), config.lines@.len() as int, chosen@, mode),
{
    let ghost c = lines_view(config.lines@);
    let mut out: Vec<Line> = Vec::new();
    let mut i: usize = 0;
    while i < config.lines.len()
        invariant
            i <= config.lines@.len(),
            c == lines_view(config.lines@),
            lines_view(out@) == software_lines(c, i as int, chosen@, mode),
        decreases config.lines.len() - i,
    {
        assert(c[i as int] == config.lines@[i as int]@);
        let keep = match mode {
            OffloadMode::HardwareOnly => match &config.lines[i] {
                Line::Filter(_) | Line::Preamp { .. } => false,
                _ => true,
            },
            _ => !contains_pos(chosen, i),
        };
        if keep {
            let l = config.lines[i].duplicate();
            proof {
                lemma_lines_view_push(out@, l);
            }
            out.push(l);
        }
        i = i + 1;
    }
    Config { lines: out }
}

/// In hardware-only mode Equalizer APO stays flat: what it keeps holds no
/// filter and no preamp.
pub proof fn law_hardware_only_leaves_apo_flat(c: Seq<LineV>, n: int, chosen: Seq<usize>)
    ensures
        forall|k: int|
            0 <= k < software_lines(c, n, chosen, OffloadMode::HardwareOnly).len() ==> !(#[trigger] software_lines(
                c,
                n,
                chosen,
                OffloadMode::HardwareOnly,
            )[k] is Filter || software_lines(c, n, chosen, OffloadMode::HardwareOnly)[k] is Preamp),
    decreases n,
{
    if n > 0 {
        law_hardware_only_leaves_apo_flat(c, n - 1, chosen);
    }
}

/// How many of the first `n` line positions are chosen.
pub open spec fn picked_count(n: int, chosen: Seq<usize>) -> nat
    decreases n,
{
    if n <= 0 {
        0
    } else {
        picked_count(n - 1, chosen) + if picked(chosen, n - 1) {
            1nat
        } else {
            0nat
        }
    }
}

/// Outside hardware-only mode a split loses no line and duplicates none:
/// the lines kept in Equalizer APO and the lines offloaded add up to the
/// whole config.
pub proof fn law_split_loses_no_line(c: Seq<LineV>, n: int, chosen: Seq<usize>, mode: OffloadMode)
    requires
        mode != OffloadMode::HardwareOnly,
        n >= 0,
    ensures
        software_lines(c, n, chosen, mode).len() + picked_count(n, chosen) == n,
    decreases n,
{
    if n > 0 {
        law_split_loses_no_line(c, n - 1, chosen, mode);
    }
}

/// The position of the first master preamp among the first `n` lines.
pub open spec fn first_master(c: Seq<LineV>, n: int) -> Option<int>
    decreases n,
{
    if n <= 0 {
        None
    } else {
        match first_master(c, n - 1) {
            Some(k) => Some(k),
            None => if crate::model::is_master(c[n - 1]) {
                Some(n - 1)
            } else {
                None
            },
        }
    }
}

/// `c` with its master preamp set to `gain`: the first master preamp line
/// takes the gain, or one is inserted at the top when there is none.
pub open spec fn with_master(c: Seq<LineV>, gain: Seq<char>) -> Seq<LineV> {
    let line = LineV::Preamp { gain, channel: ChannelV::Both };
    match first_master(c, c.len() as int) {
        Some(k) => c.update(k, line),
        None => seq![line] + c,
    }
}

pub proof fn lemma_first_master_bounds(c: Seq<LineV>, n: int)
    ensures
        first_master(c, n) matches Some(k) ==> 0 <= k < n && crate::model::is_master(c[k]) && forall|j: int|
            0 <= j < k ==> !crate::model::is_master(#[trigger] c[j]),
        first_master(c, n) is None ==> forall|j: int| 0 <= j < n ==> !crate::model::is_master(#[trigger] c[j]),
    decreases n,
{
    if n > 0 {
        lemma_first_master_bounds(c, n - 1);
    }
}

/// Set the master preamp of `config` to `gain`, replacing the first master
/// preamp line or inserting one at the top.
pub fn set_master_gain(config: &mut Config, gain: Num)
    ensures
        lines_view(final(config).lines@) == with_master(lines_view(old(config).lines@), gain@),
{
    let ghost c = lines_view(config.lines@);
    let mut i: usize = 0;
    while i < config.lines.len()
        invariant
            i <= config.lines@.len(),
            c == lines_view(config.lines@),
            c == lines_view(old(config).lines@),
            first_master(c, i as int) is None,
        decreases config.lines.len() - i,
    {
        assert(c[i as int] == config.lines@[i as int]@);
        let hit = match &config.lines[i] {
            Line::Preamp { channel: crate::model::Channel::Both, .. } => true,
            _ => false,
        };
        if hit {
            proof {
                assert(first_master(c, i + 1) == Some(i as int));
                lemma_first_master_bounds(c, i + 1);
                lemma_first_master_bounds(c, c.len() as int);
                lemma_first_master_prefix(c, i + 1, c.len() as int);
            }
            let ghost gv = gain@;
            config.lines.set(i, Line::Preamp { gain, channel: crate::model::Channel::Both });
            proof {
                assert(lines_view(config.lines@) =~= c.update(i as int, LineV::Preamp { gain: gv, channel: ChannelV::Both }));
            }
            return;
        }
        i = i + 1;
    }
    let ghost gv = gain@;
    config.lines.insert(0, Line::Preamp { gain, channel: crate::model::Channel::Both });
    proof {
        assert(lines_view(config.lines@) =~= seq![LineV::Preamp { gain: gv, channel: ChannelV::Both }] + c);
    }
}

proof fn lemma_first_master_prefix(c: Seq<LineV>, m: int, n: int)
    requires
        0 <= m <= n,
        first_master(c, m) is Some,
    ensures
        first_master(c, n) == first_master(c, m),
    decreases n - m,
{
    if n > m {
        lemma_first_master_prefix(c, m, n - 1);
    }
}

} // verus!
