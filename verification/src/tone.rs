//! The global "tone control" overlay: bass, mid and treble knobs plus polarity
//! and channel-swap switches, layered over whatever preset is active.
//!
//! The overlay is written into `config.txt` as a block fenced by sentinel
//! comments, so it can be recomposed when a knob moves and stripped back out
//! to recover the base EQ.

use crate::model::{canonical_num, lemma_lines_view_push, Channel, ChannelV, Config, Filter, FilterKind, FilterV, Line, LineV, Num, num_is_zero};
use crate::text;
use crate::text::{find_from, trimmed};
use vstd::prelude::*;

verus! {

/// The comment that opens the managed tone block.
pub const TONE_BEGIN: &'static str = "# fastpeq tone overlay (managed — edit with the app's tone knobs)";

/// The comment that closes the managed tone block.
pub const TONE_END: &'static str = "# end fastpeq tone overlay";

/// The `Copy:` directive prefix the routing line starts with.
pub const COPY_PREFIX: &'static str = "Copy:";

/// Centre of the bass low shelf, in Hz.
pub const BASS_FREQ: &'static str = "105";
/// Q of the bass low shelf.
pub const BASS_Q: &'static str = "0.71";
/// Centre of the mid peak, in Hz.
pub const MID_FREQ: &'static str = "1000";
/// Q of the mid peak.
pub const MID_Q: &'static str = "0.7";
/// Corner of the treble high shelf, in Hz.
pub const TREBLE_FREQ: &'static str = "4000";
/// Q of the treble high shelf.
pub const TREBLE_Q: &'static str = "0.71";

/// Bass / mid / treble gains (dB) plus two routing switches. All gains zero and
/// both switches off means "flat" — no overlay written.
#[derive(Debug, Clone)]
pub struct Tone {
    pub bass: Num,
    pub mid: Num,
    pub treble: Num,
    /// Flip polarity (180°) on both channels.
    pub invert: bool,
    /// Swap the left and right channels.
    pub swap: bool,
}

/// The mathematical value of a [`Tone`].
pub struct ToneV {
    pub bass: Seq<char>,
    pub mid: Seq<char>,
    pub treble: Seq<char>,
    pub invert: bool,
    pub swap: bool,
}

impl View for Tone {
    type V = ToneV;

    open spec fn view(&self) -> ToneV {
        ToneV {
            bass: self.bass@,
            mid: self.mid@,
            treble: self.treble@,
            invert: self.invert,
            swap: self.swap,
        }
    }
}

/// Whether a tone writes nothing.
pub open spec fn tone_is_flat(t: ToneV) -> bool {
    num_is_zero(t.bass) && num_is_zero(t.mid) && num_is_zero(t.treble) && !t.invert && !t.swap
}

/// The overlay filter for one knob, at its fixed frequency and Q.
pub open spec fn knob_filter(kind: FilterKind, freq: Seq<char>, gain: Seq<char>, q: Seq<char>) -> LineV {
    LineV::Filter(
        FilterV {
            enabled: true,
            kind,
            freq,
            gain: Some(gain),
            q: Some(q),
            index: None,
            channel: ChannelV::Both,
        },
    )
}

/// The one-line sequence for a knob, empty when the knob is at 0 dB.
pub open spec fn knob_lines(kind: FilterKind, freq: Seq<char>, gain: Seq<char>, q: Seq<char>) -> Seq<LineV> {
    if num_is_zero(gain) {
        Seq::empty()
    } else {
        seq![knob_filter(kind, freq, gain, q)]
    }
}

/// The filters a tone produces, skipping any knob left at 0 dB.
pub open spec fn tone_filters(t: ToneV) -> Seq<LineV> {
    knob_lines(FilterKind::LowShelfQ, BASS_FREQ@, t.bass, BASS_Q@) + knob_lines(
        FilterKind::Peak,
        MID_FREQ@,
        t.mid,
        MID_Q@,
    ) + knob_lines(FilterKind::HighShelfQ, TREBLE_FREQ@, t.treble, TREBLE_Q@)
}

/// The `Copy:` routing text for the switches, when either is on.
pub open spec fn copy_text(t: ToneV) -> Option<Seq<char>> {
    if !t.invert && !t.swap {
        None
    } else {
        let l_src = if t.swap { seq!['R'] } else { seq!['L'] };
        let r_src = if t.swap { seq!['L'] } else { seq!['R'] };
        let coef = if t.invert { seq!['-', '1', '*'] } else { Seq::<char>::empty() };
        Some(seq!['C', 'o', 'p', 'y', ':', ' ', 'L', '='] + coef + l_src + seq![' ', 'R', '='] + coef
            + r_src)
    }
}

/// The fenced block a tone writes, empty when flat.
pub open spec fn tone_lines(t: ToneV) -> Seq<LineV> {
    let f = tone_filters(t);
    match copy_text(t) {
        None => if f.len() == 0 {
            Seq::empty()
        } else {
            seq![LineV::Raw(TONE_BEGIN@)] + f + seq![LineV::Raw(TONE_END@)]
        },
        Some(c) => seq![LineV::Raw(TONE_BEGIN@)] + f + seq![LineV::Raw(c), LineV::Raw(TONE_END@)],
    }
}

/// Whether a line is the given sentinel comment (surrounding whitespace allowed).
pub open spec fn is_marker(l: LineV, marker: Seq<char>) -> bool {
    match l {
        LineV::Raw(s) => trimmed(s) == marker,
        _ => false,
    }
}

/// The first line at or after `from` that is the sentinel `marker`.
pub open spec fn find_marker(c: Seq<LineV>, marker: Seq<char>, from: int) -> Option<int>
    decreases c.len() - from,
{
    if from < 0 || from >= c.len() {
        None
    } else if is_marker(c[from], marker) {
        Some(from)
    } else {
        find_marker(c, marker, from + 1)
    }
}

/// `s` without any number of leading `-1*` coefficients.
pub open spec fn strip_negations(s: Seq<char>) -> Seq<char>
    decreases s.len(),
{
    if s.len() >= 3 && s.take(3) == seq!['-', '1', '*'] {
        strip_negations(s.skip(3))
    } else {
        s
    }
}

/// Whether a `Copy:` line swaps the channels: its left output is sourced from
/// the right input (`L=R` or `L=-1*R`).
pub open spec fn copy_swaps(line: Seq<char>) -> bool {
    let s = trimmed(line);
    COPY_PREFIX@.is_prefix_of(s) && match find_from(s, seq!['L', '='], 0) {
        Some(i) => {
            let r = strip_negations(s.skip(i + 2));
            r.len() > 0 && r[0] == 'R'
        },
        None => false,
    }
}

/// Whether any raw line in `c[lo..=hi]` is a swapping `Copy:` line.
pub open spec fn swap_in(c: Seq<LineV>, lo: int, hi: int) -> bool {
    exists|k: int|
        #![trigger c[k]]
        lo <= k <= hi && 0 <= k < c.len() && (c[k] matches LineV::Raw(s) && copy_swaps(s))
}

/// A line with `Left`/`Right` exchanged on preamps; everything else kept.
pub open spec fn flip_line(l: LineV) -> LineV {
    match l {
        LineV::Preamp { gain, channel: ChannelV::Left } => LineV::Preamp {
            gain,
            channel: ChannelV::Right,
        },
        LineV::Preamp { gain, channel: ChannelV::Right } => LineV::Preamp {
            gain,
            channel: ChannelV::Left,
        },
        _ => l,
    }
}

/// Every line flipped by [`flip_line`].
pub open spec fn flipped(c: Seq<LineV>) -> Seq<LineV> {
    Seq::new(c.len(), |i: int| flip_line(c[i]))
}

/// `c` with its tone block removed (sentinels, filters and routing line). A
/// block without an end sentinel runs to the end of the config. When the
/// block swapped the channels, the per-channel preamps are flipped back.
pub open spec fn without_tone(c: Seq<LineV>) -> Seq<LineV> {
    match find_marker(c, TONE_BEGIN@, 0) {
        None => c,
        Some(b) => {
            let e = match find_marker(c, TONE_END@, b) {
                Some(e) => e,
                None => c.len() - 1,
            };
            let kept = c.take(b) + c.skip(e + 1);
            if swap_in(c, b, e) {
                flipped(kept)
            } else {
                kept
            }
        },
    }
}

/// `base` with its old block removed (flipped for a swap) and the tone's
/// block appended.
pub open spec fn composed(base: Seq<LineV>, t: ToneV) -> Seq<LineV> {
    let stripped = without_tone(base);
    let out = if t.swap {
        flipped(stripped)
    } else {
        stripped
    };
    out + tone_lines(t)
}

} // verus!

verus! {

/// The views of a vector of lines.
pub open spec fn lv(lines: Seq<Line>) -> Seq<LineV> {
    crate::model::lines_view(lines)
}

/// The knobs' fixed frequencies and Qs are canonical number texts.
proof fn lemma_knob_texts_are_canonical()
    ensures
        canonical_num(BASS_FREQ@),
        canonical_num(BASS_Q@),
        canonical_num(MID_FREQ@),
        canonical_num(MID_Q@),
        canonical_num(TREBLE_FREQ@),
        canonical_num(TREBLE_Q@),
        canonical_num("0"@),
{
    reveal_strlit("105");
    reveal_strlit("0.71");
    reveal_strlit("1000");
    reveal_strlit("0.7");
    reveal_strlit("4000");
    reveal_strlit("0");
    reveal_with_fuel(text::first_index_of, 5);
    let a = BASS_FREQ@;
    assert(text::first_index_of(a, '.') is None);
    assert(a.take(a.len() as int) =~= a);
    let b = BASS_Q@;
    assert(text::first_index_of(b, '.') == Some(1int));
    assert(b.take(1) =~= seq!['0']);
    assert(b.skip(2) =~= seq!['7', '1']);
    let c = MID_FREQ@;
    assert(text::first_index_of(c, '.') is None);
    assert(c.take(c.len() as int) =~= c);
    let d = MID_Q@;
    assert(text::first_index_of(d, '.') == Some(1int));
    assert(d.take(1) =~= seq!['0']);
    assert(d.skip(2) =~= seq!['7']);
    let e = TREBLE_FREQ@;
    assert(text::first_index_of(e, '.') is None);
    assert(e.take(e.len() as int) =~= e);
    let z = "0"@;
    assert(text::first_index_of(z, '.') is None);
    assert(z.take(z.len() as int) =~= z);
}

fn knob(kind: FilterKind, freq: &str, gain: &Num, q: &str, out: &mut Vec<Line>)
    requires
        canonical_num(freq@),
        canonical_num(q@),
    ensures
        lv(final(out)@) == lv(old(out)@) + knob_lines(kind, freq@, gain@, q@),
{
    let ghost before = lv(out@);
    if !gain.is_zero() {
        let f = Filter {
            enabled: true,
            kind,
            freq: Num::new(freq),
            gain: Some(gain.duplicate()),
            q: Some(Num::new(q)),
            index: None,
            channel: Channel::Both,
        };
        out.push(Line::Filter(f));
        assert(lv(out@) =~= before + knob_lines(kind, freq@, gain@, q@));
    } else {
        assert(lv(out@) =~= before + knob_lines(kind, freq@, gain@, q@));
    }
}

impl Default for Tone {
    /// The flat tone.
    fn default() -> (t: Tone)
        ensures
            tone_is_flat(t@),
            t@.bass == seq!['0'],
            t@.mid == seq!['0'],
            t@.treble == seq!['0'],
            !t@.invert,
            !t@.swap,
    {
        Tone::flat()
    }
}

impl Tone {
    /// The flat tone: all knobs at 0 dB, both switches off.
    pub fn flat() -> (t: Tone)
        ensures
            t@.bass == seq!['0'],
            t@.mid == seq!['0'],
            t@.treble == seq!['0'],
            !t@.invert,
            !t@.swap,
            tone_is_flat(t@),
    {
        proof {
            reveal_strlit("0");
            lemma_knob_texts_are_canonical();
        }
        Tone { bass: Num::new("0"), mid: Num::new("0"), treble: Num::new("0"), invert: false, swap: false }
    }

    /// Whether this tone writes nothing.
    pub fn is_flat(&self) -> (b: bool)
        ensures
            b == tone_is_flat(self@),
    {
        self.bass.is_zero() && self.mid.is_zero() && self.treble.is_zero() && !self.invert && !self.swap
    }

    /// The overlay filter lines, skipping any knob left at 0 dB.
    pub fn filter_lines(&self) -> (r: Vec<Line>)
        ensures
            lv(r@) == tone_filters(self@),
    {
        let mut out: Vec<Line> = Vec::new();
        proof {
            lemma_knob_texts_are_canonical();
        }
        knob(FilterKind::LowShelfQ, BASS_FREQ, &self.bass, BASS_Q, &mut out);
        knob(FilterKind::Peak, MID_FREQ, &self.mid, MID_Q, &mut out);
        knob(FilterKind::HighShelfQ, TREBLE_FREQ, &self.treble, TREBLE_Q, &mut out);
        assert(lv(out@) =~= tone_filters(self@));
        out
    }

    /// The `Copy:` routing line for the polarity / swap switches, or `None`
    /// when both are off.
    pub fn copy_line(&self) -> (r: Option<String>)
        ensures
            match r {
                Some(s) => copy_text(self@) == Some(s@),
                None => copy_text(self@) is None,
            },
    {
        if !self.invert && !self.swap {
            return None;
        }
        let (l_src, r_src) = if self.swap {
            ("R", "L")
        } else {
            ("L", "R")
        };
        let coef = if self.invert {
            "-1*"
        } else {
            ""
        };
        let mut s = text::owned("Copy: L=");
        s.append(coef);
        s.append(l_src);
        s.append(" R=");
        s.append(coef);
        s.append(r_src);
        proof {
            reveal_strlit("Copy: L=");
            reveal_strlit("-1*");
            reveal_strlit("");
            reveal_strlit("R");
            reveal_strlit("L");
            reveal_strlit(" R=");
            assert(s@ =~= copy_text(self@)->0);
        }
        Some(s)
    }

    /// The fenced config lines for this tone, or empty when flat.
    pub fn lines(&self) -> (r: Vec<Line>)
        ensures
            lv(r@) == tone_lines(self@),
    {
        let filters = self.filter_lines();
        let copy = self.copy_line();
        if filters.len() == 0 && copy.is_none() {
            let r: Vec<Line> = Vec::new();
            assert(lv(r@) =~= tone_lines(self@));
            return r;
        }
        let mut out: Vec<Line> = Vec::new();
        out.push(Line::Raw(text::owned(TONE_BEGIN)));
        let mut i: usize = 0;
        while i < filters.len()
            invariant
                i <= filters.len(),
                lv(out@) == seq![LineV::Raw(TONE_BEGIN@)] + lv(filters@).take(i as int),
            decreases filters.len() - i,
        {
            let l = filters[i].duplicate();
            proof {
                lemma_lines_view_push(out@, l);
            }
            out.push(l);
            i = i + 1;
            assert(lv(out@) =~= seq![LineV::Raw(TONE_BEGIN@)] + lv(filters@).take(i as int));
        }
        assert(lv(filters@).take(i as int) =~= lv(filters@));
        match copy {
            Some(c) => {
                out.push(Line::Raw(c));
            },
            None => {},
        }
        out.push(Line::Raw(text::owned(TONE_END)));
        assert(lv(out@) =~= tone_lines(self@));
        out
    }
}

proof fn lemma_strip_negations_step(v: Seq<char>, j: int)
    requires
        0 <= j,
        j + 3 <= v.len(),
        v[j] == '-',
        v[j + 1] == '1',
        v[j + 2] == '*',
    ensures
        strip_negations(v.skip(j)) == strip_negations(v.skip(j + 3)),
{
    assert(v.skip(j).take(3) =~= seq!['-', '1', '*']);
    assert(v.skip(j).skip(3) =~= v.skip(j + 3));
}

/// Whether a `Copy:` line swaps the channels.
pub fn copy_is_swap(line: &str) -> (b: bool)
    ensures
        b == copy_swaps(line@),
{
    let s = text::trim(line);
    if !text::starts_with(s, COPY_PREFIX) {
        return false;
    }
    let v = text::chars_of(s);
    let pat: Vec<char> = vec!['L', '='];
    assert(pat@ =~= seq!['L', '=']);
    match text::find_str_from(&v, &pat, 0) {
        None => false,
        Some(i) => {
            proof {
                text::lemma_find_from_bounds(v@, pat@, 0);
                assert(find_from(v@, pat@, 0) == Some(i as int));
                assert(i + 2 <= v.len());
            }
            let mut j: usize = i + 2;
            while v.len() - j >= 3 && v[j] == '-' && v[j + 1] == '1' && v[j + 2] == '*'
                invariant
                    i + 2 <= j <= v.len(),
                    strip_negations(v@.skip(i + 2)) == strip_negations(v@.skip(j as int)),
                decreases v.len() - j,
            {
                proof {
                    lemma_strip_negations_step(v@, j as int);
                }
                j = j + 3;
            }
            proof {
                if j + 3 <= v.len() {
                    assert(v@.skip(j as int).take(3) != seq!['-', '1', '*']) by {
                        if v@.skip(j as int).take(3) == seq!['-', '1', '*'] {
                            assert(v@.skip(j as int).take(3)[0] == v@[j as int]);
                            assert(v@.skip(j as int).take(3)[1] == v@[j + 1]);
                            assert(v@.skip(j as int).take(3)[2] == v@[j + 2]);
                        }
                    }
                }
            }
            j < v.len() && v[j] == 'R'
        },
    }
}

/// Whether a line is the sentinel `marker`.
pub fn is_marker_line(line: &Line, marker: &str) -> (b: bool)
    ensures
        b == is_marker(line@, marker@),
{
    match line {
        Line::Raw(s) => text::str_eq(text::trim(s.as_str()), marker),
        _ => false,
    }
}

fn find_marker_line(lines: &Vec<Line>, marker: &str, from: usize) -> (r: Option<usize>)
    requires
        from <= lines.len(),
    ensures
        match r {
            Some(i) => find_marker(lv(lines@), marker@, from as int) == Some(i as int),
            None => find_marker(lv(lines@), marker@, from as int) is None,
        },
    decreases lines.len() - from,
{
    if from >= lines.len() {
        return None;
    }
    if is_marker_line(&lines[from], marker) {
        Some(from)
    } else {
        find_marker_line(lines, marker, from + 1)
    }
}

fn flip_line_exec(l: &Line) -> (r: Line)
    ensures
        r@ == flip_line(l@),
{
    match l {
        Line::Preamp { gain, channel: Channel::Left } => Line::Preamp {
            gain: gain.duplicate(),
            channel: Channel::Right,
        },
        Line::Preamp { gain, channel: Channel::Right } => Line::Preamp {
            gain: gain.duplicate(),
            channel: Channel::Left,
        },
        other => other.duplicate(),
    }
}

/// Swap `Left`/`Right` on every `Preamp:` line, leaving filters and
/// `Both`/other channels untouched. Its own inverse.
pub fn flip_preamp_channels(config: &Config) -> (r: Config)
    ensures
        r@ == flipped(config@),
{
    let mut out: Vec<Line> = Vec::new();
    let mut i: usize = 0;
    while i < config.lines.len()
        invariant
            i <= config.lines.len(),
            out.len() == i,
            forall|k: int| 0 <= k < i ==> (#[trigger] out@[k])@ == flip_line(config.lines@[k]@),
        decreases config.lines.len() - i,
    {
        out.push(flip_line_exec(&config.lines[i]));
        i = i + 1;
    }
    let r = Config { lines: out };
    assert(r@ =~= flipped(config@));
    r
}

fn copy_range(lines: &Vec<Line>, lo: usize, hi: usize, out: &mut Vec<Line>)
    requires
        lo <= hi <= lines.len(),
    ensures
        lv(final(out)@) == lv(old(out)@) + lv(lines@).subrange(lo as int, hi as int),
{
    let ghost start = lv(out@);
    let mut i: usize = lo;
    while i < hi
        invariant
            lo <= i <= hi <= lines.len(),
            lv(out@) == start + lv(lines@).subrange(lo as int, i as int),
        decreases hi - i,
    {
        let l = lines[i].duplicate();
        proof {
            lemma_lines_view_push(out@, l);
        }
        out.push(l);
        i = i + 1;
        assert(lv(out@) =~= start + lv(lines@).subrange(lo as int, i as int));
    }
}

fn swap_between(lines: &Vec<Line>, lo: usize, hi: usize) -> (b: bool)
    requires
        lo <= hi < lines.len(),
    ensures
        b == swap_in(lv(lines@), lo as int, hi as int),
{
    let ghost c = lv(lines@);
    let mut k: usize = lo;
    while k <= hi
        invariant
            lo <= k <= hi + 1,
            hi < lines.len(),
            c == lv(lines@),
            forall|j: int| lo <= j < k ==> !(#[trigger] c[j] matches LineV::Raw(s) && copy_swaps(s)),
        decreases hi + 1 - k,
    {
        match &lines[k] {
            Line::Raw(s) => {
                if copy_is_swap(s.as_str()) {
                    assert(c[k as int] matches LineV::Raw(t) && copy_swaps(t));
                    return true;
                }
            },
            _ => {},
        }
        k = k + 1;
    }
    false
}

/// Remove a previously written tone block (the sentinels and everything
/// between them) from a config, leaving the base EQ. A no-op when no block is
/// present. A block whose end sentinel is missing runs to the end.
pub fn strip(config: &Config) -> (r: Config)
    ensures
        r@ == without_tone(config@),
{
    let lines = &config.lines;
    let begin = match find_marker_line(lines, TONE_BEGIN, 0) {
        None => {
            return config.duplicate();
        },
        Some(b) => b,
    };
    proof {
        lemma_find_marker_bounds(config@, TONE_BEGIN@, 0);
        lemma_find_marker_bounds(config@, TONE_END@, begin as int);
    }
    let end = match find_marker_line(lines, TONE_END, begin) {
        Some(e) => e,
        None => lines.len() - 1,
    };
    assert(end < lines.len());
    let had_swap = swap_between(lines, begin, end);
    let mut kept: Vec<Line> = Vec::new();
    copy_range(lines, 0, begin, &mut kept);
    copy_range(lines, end + 1, lines.len(), &mut kept);
    let base = Config { lines: kept };
    assert(base@ =~= config@.take(begin as int) + config@.skip(end + 1));
    if had_swap {
        flip_preamp_channels(&base)
    } else {
        base
    }
}

pub proof fn lemma_find_marker_bounds(c: Seq<LineV>, m: Seq<char>, from: int)
    ensures
        find_marker(c, m, from) matches Some(i) ==> from <= i < c.len() && 0 <= i && is_marker(
            c[i],
            m,
        ),
    decreases c.len() - from,
{
    if 0 <= from < c.len() && !is_marker(c[from], m) {
        lemma_find_marker_bounds(c, m, from + 1);
    }
}

/// Lay the tone overlay over a base config. The base is first stripped of any
/// existing block, so recomposing never stacks overlays. With the channel
/// swap on, the per-channel preamps are flipped first, so a balance trim
/// stays on its physical side once the final `Copy:` swaps the outputs.
pub fn compose(base: &Config, tone: &Tone) -> (r: Config)
    ensures
        r@ == composed(base@, tone@),
{
    let mut out = strip(base);
    if tone.swap {
        out = flip_preamp_channels(&out);
    }
    let extra = tone.lines();
    let ghost before = out@;
    let mut lines = out.lines;
    let mut i: usize = 0;
    while i < extra.len()
        invariant
            i <= extra.len(),
            lv(lines@) == before + lv(extra@).take(i as int),
        decreases extra.len() - i,
    {
        let l = extra[i].duplicate();
        proof {
            lemma_lines_view_push(lines@, l);
        }
        lines.push(l);
        i = i + 1;
        assert(lv(lines@) =~= before + lv(extra@).take(i as int));
    }
    assert(lv(extra@).take(i as int) =~= lv(extra@));
    Config { lines }
}

} // verus!

verus! {

proof fn lemma_literals()
    ensures
        trimmed(TONE_BEGIN@) == TONE_BEGIN@,
        trimmed(TONE_END@) == TONE_END@,
        TONE_BEGIN@ != TONE_END@,
        TONE_BEGIN@.len() > 0 && TONE_BEGIN@[0] == '#',
        TONE_END@.len() > 0 && TONE_END@[0] == '#',
        COPY_PREFIX@ == seq!['C', 'o', 'p', 'y', ':'],
{
    reveal_strlit("# fastpeq tone overlay (managed — edit with the app's tone knobs)");
    reveal_strlit("# end fastpeq tone overlay");
    reveal_strlit("Copy:");
    text::lemma_trim_fixed(TONE_BEGIN@);
    text::lemma_trim_fixed(TONE_END@);
    assert(TONE_BEGIN@.len() != TONE_END@.len());
    assert(COPY_PREFIX@ =~= seq!['C', 'o', 'p', 'y', ':']);
}

proof fn lemma_not_copy(s: Seq<char>)
    requires
        trimmed(s) == s,
        s.len() > 0,
        s[0] == '#',
    ensures
        !copy_swaps(s),
{
    lemma_literals();
}

proof fn lemma_find_step(c: Seq<char>, k: int)
    requires
        0 <= k,
        k + 2 <= c.len(),
        c[k] != 'L',
    ensures
        find_from(c, seq!['L', '='], k) == find_from(c, seq!['L', '='], k + 1),
{
    assert(c.subrange(k, k + 2)[0] == c[k]);
}

proof fn lemma_copy_text(t: ToneV)
    requires
        copy_text(t) is Some,
    ensures
        trimmed(copy_text(t)->0) == copy_text(t)->0,
        (copy_text(t)->0)[0] == 'C',
        copy_swaps(copy_text(t)->0) == t.swap,
{
    let c = copy_text(t)->0;
    let l_src = if t.swap { 'R' } else { 'L' };
    let off: int = if t.invert { 3 } else { 0 };
    assert(c[0] == 'C');
    assert(c.len() == 13 + 2 * off);
    assert(c[8 + off] == l_src);
    assert(c.last() == 'L' || c.last() == 'R');
    text::lemma_trim_fixed(c);
    lemma_literals();
    assert(COPY_PREFIX@.is_prefix_of(c)) by {
        assert(c.take(5) =~= seq!['C', 'o', 'p', 'y', ':']);
    }
    let p = seq!['L', '='];
    lemma_find_step(c, 0);
    lemma_find_step(c, 1);
    lemma_find_step(c, 2);
    lemma_find_step(c, 3);
    lemma_find_step(c, 4);
    lemma_find_step(c, 5);
    assert(c.subrange(6, 8) =~= p);
    assert(find_from(c, p, 6) == Some(6int));
    assert(find_from(c, p, 0) == Some(6int));
    let r0 = c.skip(8);
    if t.invert {
        lemma_strip_negations_step(c, 8);
        let r1 = c.skip(11);
        assert(r1[0] == l_src);
        assert(r1.take(3)[0] == l_src);
        assert(strip_negations(r1) == r1);
    } else {
        assert(r0[0] == l_src);
        assert(r0.take(3)[0] == l_src);
        assert(strip_negations(r0) == r0);
    }
}

proof fn lemma_flip_markers(c: Seq<LineV>, m: Seq<char>, from: int)
    ensures
        find_marker(flipped(c), m, from) == find_marker(c, m, from),
    decreases c.len() - from,
{
    if 0 <= from < c.len() {
        assert(flipped(c)[from] == flip_line(c[from]));
        lemma_flip_markers(c, m, from + 1);
    }
}

proof fn lemma_no_marker_before(c: Seq<LineV>, extra: Seq<LineV>, m: Seq<char>, from: int)
    requires
        0 <= from <= c.len(),
        find_marker(c, m, from) is None,
    ensures
        find_marker(c + extra, m, from) == find_marker(c + extra, m, c.len() as int),
    decreases c.len() - from,
{
    if from < c.len() {
        assert((c + extra)[from] == c[from]);
        lemma_no_marker_before(c, extra, m, from + 1);
    }
}

/// Flipping preamp channels twice changes nothing.
pub proof fn law_flip_is_involution(c: Seq<LineV>)
    ensures
        flipped(flipped(c)) == c,
{
    assert forall|i: int| 0 <= i < c.len() implies #[trigger] flipped(flipped(c))[i] == c[i] by {
        match c[i] {
            LineV::Preamp { gain, channel } => {
                match channel {
                    _ => {},
                }
            },
            _ => {},
        }
    }
    assert(flipped(flipped(c)) =~= c);
}

/// Stripping the overlay from a composed config restores the base exactly —
/// also with the channel swap on — for any base that holds no tone block.
pub proof fn law_compose_then_strip(base: Seq<LineV>, t: ToneV)
    requires
        find_marker(base, TONE_BEGIN@, 0) is None,
    ensures
        without_tone(composed(base, t)) == base,
{
    lemma_literals();
    let out = if t.swap {
        flipped(base)
    } else {
        base
    };
    lemma_flip_markers(base, TONE_BEGIN@, 0);
    law_flip_is_involution(base);
    let tl = tone_lines(t);
    let c = out + tl;
    assert(composed(base, t) == c);
    if tl.len() == 0 {
        assert(c =~= out);
        assert(copy_text(t) is None);
    } else {
        let f = tone_filters(t);
        let b = out.len() as int;
        lemma_no_marker_before(out, tl, TONE_BEGIN@, 0);
        assert(c[b] == LineV::Raw(TONE_BEGIN@));
        assert(find_marker(c, TONE_BEGIN@, 0) == Some(b));
        let e = c.len() - 1;
        assert(c[e] == LineV::Raw(TONE_END@));
        assert forall|k: int| b <= k < e implies !is_marker(#[trigger] c[k], TONE_END@) by {
            if k == b {
            } else if k < b + 1 + f.len() {
                assert(c[k] == f[k - b - 1]);
            } else {
                lemma_copy_text(t);
            }
        }
        lemma_find_end(c, b, e);
        assert(c.take(b) + c.skip(e + 1) =~= out);
        if copy_text(t) is Some {
            lemma_copy_text(t);
            lemma_not_copy(TONE_BEGIN@);
            lemma_not_copy(TONE_END@);
            let k0 = b + 1 + f.len();
            assert(c[k0] == LineV::Raw(copy_text(t)->0));
            if t.swap {
                assert(swap_in(c, b, e));
            } else {
                assert forall|k: int| b <= k <= e && 0 <= k < c.len() implies !(#[trigger] c[k] matches LineV::Raw(s) && copy_swaps(s)) by {
                    if k > b && k < b + 1 + f.len() {
                        assert(c[k] == f[k - b - 1]);
                    }
                }
            }
        } else {
            lemma_not_copy(TONE_BEGIN@);
            lemma_not_copy(TONE_END@);
            assert forall|k: int| b <= k <= e && 0 <= k < c.len() implies !(#[trigger] c[k] matches LineV::Raw(s) && copy_swaps(s)) by {
                if k > b && k < e {
                    assert(c[k] == f[k - b - 1]);
                }
            }
        }
    }
}

proof fn lemma_find_end(c: Seq<LineV>, b: int, e: int)
    requires
        0 <= b <= e < c.len(),
        is_marker(c[e], TONE_END@),
        forall|k: int| b <= k < e ==> !is_marker(#[trigger] c[k], TONE_END@),
    ensures
        find_marker(c, TONE_END@, b) == Some(e),
    decreases e - b,
{
    if b < e {
        lemma_find_end(c, b + 1, e);
    }
}

} // verus!

verus! {

/// A flat tone composes to nothing: the base is written unchanged.
pub proof fn law_flat_tone_writes_nothing(base: Seq<LineV>, t: ToneV)
    requires
        find_marker(base, TONE_BEGIN@, 0) is None,
        tone_is_flat(t),
    ensures
        tone_lines(t).len() == 0,
        composed(base, t) == base,
{
    assert(tone_filters(t) =~= Seq::<LineV>::empty());
    assert(composed(base, t) =~= base);
}

/// Recomposing replaces the previous overlay rather than stacking a second
/// one: stripping after two composes still gives the base.
pub proof fn law_recompose_replaces(base: Seq<LineV>, first: ToneV, second: ToneV)
    requires
        find_marker(base, TONE_BEGIN@, 0) is None,
    ensures
        composed(composed(base, first), second) == composed(base, second),
        without_tone(composed(composed(base, first), second)) == base,
{
    law_compose_then_strip(base, first);
    law_compose_then_strip(base, second);
}

/// A knob's overlay band, written out: enabled, unnumbered, on both channels.
pub open spec fn band_line(kind: FilterKind, freq: Seq<char>, gain: Seq<char>, q: Seq<char>) -> LineV {
    LineV::Filter(FilterV { enabled: true, kind, freq, gain: Some(gain), q: Some(q), index: None, channel: ChannelV::Both })
}

/// Each knob shapes its own band: bass a Q-adjustable low shelf at 105 Hz
/// with Q 0.71, mid a broad peak at 1000 Hz with Q 0.7, treble a
/// Q-adjustable high shelf at 4000 Hz with Q 0.71, each at the knob's gain,
/// in that order, and a knob at 0 dB writes nothing.
pub proof fn law_knobs_shape_their_own_bands(t: ToneV)
    ensures
        tone_filters(t) == (if num_is_zero(t.bass) {
            Seq::<LineV>::empty()
        } else {
            seq![band_line(FilterKind::LowShelfQ, seq!['1', '0', '5'], t.bass, seq!['0', '.', '7', '1'])]
        }) + (if num_is_zero(t.mid) {
            Seq::<LineV>::empty()
        } else {
            seq![band_line(FilterKind::Peak, seq!['1', '0', '0', '0'], t.mid, seq!['0', '.', '7'])]
        }) + (if num_is_zero(t.treble) {
            Seq::<LineV>::empty()
        } else {
            seq![band_line(FilterKind::HighShelfQ, seq!['4', '0', '0', '0'], t.treble, seq!['0', '.', '7', '1'])]
        }),
        num_is_zero(t.bass) && num_is_zero(t.treble) && !num_is_zero(t.mid) ==> tone_filters(t) == seq![
            band_line(FilterKind::Peak, seq!['1', '0', '0', '0'], t.mid, seq!['0', '.', '7']),
        ],
{
    reveal_strlit("105");
    reveal_strlit("0.71");
    reveal_strlit("1000");
    reveal_strlit("0.7");
    reveal_strlit("4000");
    assert(BASS_FREQ@ =~= seq!['1', '0', '5']);
    assert(BASS_Q@ =~= seq!['0', '.', '7', '1']);
    assert(MID_FREQ@ =~= seq!['1', '0', '0', '0']);
    assert(MID_Q@ =~= seq!['0', '.', '7']);
    assert(TREBLE_FREQ@ =~= seq!['4', '0', '0', '0']);
    assert(TREBLE_Q@ =~= seq!['0', '.', '7', '1']);
    let e = Seq::<LineV>::empty();
    let m = seq![band_line(FilterKind::Peak, seq!['1', '0', '0', '0'], t.mid, seq!['0', '.', '7'])];
    assert(e + m + e =~= m);
}

} // verus!
