//! PEACE (`.peace`) preset files are INI text: `[Section]` headers and
//! `key=value` lines; `;` starts a comment line. This module reads that
//! structure, decides which channel each PEACE speaker grid maps to, and
//! lays out each grid's active bands — a sparse `[Gains]` section names the
//! bands that are on, by grid index, and the frequency and quality grids
//! give their other values. The numeric conversion of the values into
//! filters works on floating-point values and is done outside this library.

use crate::model::{Channel, ChannelV};
use crate::order::{sort_pairs, sorted_pairs};
use crate::text;
use crate::text::{dec, eq_ignore_case, first_index_of, pieces, trimmed, u64_of_text};
use vstd::prelude::*;

verus! {

/// A parsed INI file: the section headers in order, and every assignment
/// `(section, key, value)` in order (later ones win).
#[derive(Debug, Clone)]
pub struct Ini {
    pub sections: Vec<String>,
    pub entries: Vec<(String, String, String)>,
}

/// An INI file over plain values.
pub struct IniV {
    pub section: Seq<char>,
    pub sections: Seq<Seq<char>>,
    pub entries: Seq<(Seq<char>, Seq<char>, Seq<char>)>,
}

/// Reading one line: blank lines and `;` comments change nothing; a
/// `[name]` header opens a section; `key = value` (both trimmed, split at
/// the first `=`) assigns in the current section; anything else is ignored.
pub open spec fn ini_step(st: IniV, raw: Seq<char>) -> IniV {
    let line = trimmed(raw);
    if line.len() == 0 || line[0] == ';' {
        st
    } else if line.len() >= 2 && line[0] == '[' && line.last() == ']' {
        let name = line.subrange(1, line.len() - 1);
        IniV { section: name, sections: st.sections.push(name), entries: st.entries }
    } else {
        match first_index_of(line, '=') {
            Some(eq) => IniV {
                entries: st.entries.push((st.section, trimmed(line.take(eq)), trimmed(line.skip(eq + 1)))),
                ..st
            },
            None => st,
        }
    }
}

/// Reading lines in order, starting outside any section (the `""` section).
pub open spec fn ini_read(lines: Seq<Seq<char>>) -> IniV
    decreases lines.len(),
{
    if lines.len() == 0 {
        IniV { section: Seq::empty(), sections: Seq::empty(), entries: Seq::empty() }
    } else {
        ini_step(ini_read(lines.drop_last()), lines.last())
    }
}

/// The INI structure of a text, read line by line. (Splitting at `\n` and
/// trimming each piece reads the same lines as `str::lines`: the `\r` of a
/// CRLF ending and a final empty piece vanish in the trim and the blank-line
/// skip.)
pub open spec fn ini_of(text: Seq<char>) -> IniV {
    ini_read(pieces(text, '\n'))
}

/// The views of INI assignments.
pub open spec fn entries_view(v: Seq<(String, String, String)>) -> Seq<(Seq<char>, Seq<char>, Seq<char>)> {
    Seq::new(v.len(), |i: int| (v[i].0@, v[i].1@, v[i].2@))
}

impl View for Ini {
    type V = (Seq<Seq<char>>, Seq<(Seq<char>, Seq<char>, Seq<char>)>);

    open spec fn view(&self) -> (Seq<Seq<char>>, Seq<(Seq<char>, Seq<char>, Seq<char>)>) {
        (text::strings_view(self.sections@), entries_view(self.entries@))
    }
}

/// The value last assigned to `key` in `section`.
pub open spec fn ini_value(entries: Seq<(Seq<char>, Seq<char>, Seq<char>)>, section: Seq<char>, key: Seq<char>) -> Option<Seq<char>>
    decreases entries.len(),
{
    if entries.len() == 0 {
        None
    } else if entries.last().0 == section && entries.last().1 == key {
        Some(entries.last().2)
    } else {
        ini_value(entries.drop_last(), section, key)
    }
}

/// Whether a section exists: it has a header or an assignment.
pub open spec fn ini_has_section(ini: (Seq<Seq<char>>, Seq<(Seq<char>, Seq<char>, Seq<char>)>), section: Seq<char>) -> bool {
    ini.0.contains(section) || exists|i: int| 0 <= i < ini.1.len() && (#[trigger] ini.1[i]).0 == section
}

/// The (key, value) pairs of a section, one per key with its last value, in
/// order of each key's last assignment.
pub open spec fn last_values(entries: Seq<(Seq<char>, Seq<char>, Seq<char>)>, section: Seq<char>) -> Seq<(Seq<char>, Seq<char>)>
    decreases entries.len(),
{
    if entries.len() == 0 {
        Seq::empty()
    } else {
        let rest = last_values(entries.drop_last(), section);
        let e = entries.last();
        if e.0 == section {
            crate::order::pairs_without(rest, e.1).push((e.1, e.2))
        } else {
            rest
        }
    }
}

/// A section's (key, value) pairs in key order, as iterating its map gives them.
pub open spec fn section_pairs(entries: Seq<(Seq<char>, Seq<char>, Seq<char>)>, section: Seq<char>) -> Seq<(Seq<char>, Seq<char>)> {
    sorted_pairs(last_values(entries, section))
}

/// Parse INI text into its sections and assignments.
pub fn parse_ini(text: &str) -> (r: Ini)
    ensures
        r@.0 == ini_of(text@).sections,
        r@.1 == ini_of(text@).entries,
{
    let chars = text::chars_of(text);
    let lines = text::split_on(&chars, '\n', 0);
    proof {
        assert(chars@.skip(0) =~= text@);
    }
    let ghost ls = text::strings_view(lines@);
    let mut section = String::new();
    let mut sections: Vec<String> = Vec::new();
    let mut entries: Vec<(String, String, String)> = Vec::new();
    let mut i: usize = 0;
    while i < lines.len()
        invariant
            i <= lines.len(),
            ls == text::strings_view(lines@),
            ({
                let st = ini_read(ls.take(i as int));
                &&& section@ == st.section
                &&& text::strings_view(sections@) == st.sections
                &&& entries_view(entries@) == st.entries
            }),
        decreases lines.len() - i,
    {
        proof {
            assert(ls.take(i + 1).drop_last() =~= ls.take(i as int));
            assert(ls.take(i + 1).last() == lines@[i as int]@);
        }
        let line = text::trim(lines[i].as_str());
        let v = text::chars_of(line);
        let n = v.len();
        if n == 0 || v[0] == ';' {
        } else if n >= 2 && v[0] == '[' && v[n - 1] == ']' {
            let name = text::string_of_range(&v, 1, n - 1);
            let name2 = text::owned(name.as_str());
            let ghost nv = name@;
            let ghost before = sections@;
            sections.push(name);
            proof {
                assert(text::strings_view(sections@) =~= text::strings_view(before).push(nv));
            }
            section = name2;
        } else {
            match text::find_char(&v, '=') {
                Some(eq) => {
                    let key_raw = text::string_of_range(&v, 0, eq);
                    let val_raw = text::string_of_range(&v, eq + 1, n);
                    proof {
                        assert(key_raw@ =~= line@.take(eq as int));
                        assert(val_raw@ =~= line@.skip(eq + 1));
                    }
                    let key = text::owned(text::trim(key_raw.as_str()));
                    let val = text::owned(text::trim(val_raw.as_str()));
                    let sec = text::owned(section.as_str());
                    let ghost ev = (sec@, key@, val@);
                    let ghost before = entries@;
                    entries.push((sec, key, val));
                    proof {
                        assert(entries_view(entries@) =~= entries_view(before).push(ev));
                    }
                },
                None => {},
            }
        }
        i = i + 1;
    }
    proof {
        assert(ls.take(i as int) =~= ls);
    }
    Ini { sections, entries }
}

impl Ini {
    /// The value last assigned to `key` in `section`.
    pub fn get(&self, section: &str, key: &str) -> (r: Option<String>)
        ensures
            match ini_value(self@.1, section@, key@) {
                Some(v) => r matches Some(s) && s@ == v,
                None => r is None,
            },
    {
        let ghost ev = self@.1;
        let mut i: usize = self.entries.len();
        assert(ev.take(i as int) =~= ev);
        while i > 0
            invariant
                i <= self.entries.len(),
                ev == self@.1,
                ini_value(ev, section@, key@) == ini_value(ev.take(i as int), section@, key@),
            decreases i,
        {
            proof {
                assert(ev.take(i as int).drop_last() =~= ev.take(i - 1));
                assert(ev.take(i as int).last() == ev[i - 1]);
            }
            let e = &self.entries[i - 1];
            if text::str_eq(e.0.as_str(), section) && text::str_eq(e.1.as_str(), key) {
                return Some(text::owned(e.2.as_str()));
            }
            i = i - 1;
        }
        proof {
            assert(ev.take(0) =~= Seq::<(Seq<char>, Seq<char>, Seq<char>)>::empty());
            assert(ev.take(self.entries.len() as int) =~= ev);
        }
        None
    }

    /// Whether `section` exists (has a header or an assignment).
    pub fn has_section(&self, section: &str) -> (b: bool)
        ensures
            b == ini_has_section(self@, section@),
    {
        let mut i: usize = 0;
        while i < self.sections.len()
            invariant
                i <= self.sections.len(),
                forall|k: int| 0 <= k < i ==> self.sections@[k]@ != section@,
            decreases self.sections.len() - i,
        {
            if text::str_eq(self.sections[i].as_str(), section) {
                assert(text::strings_view(self.sections@)[i as int] == section@);
                return true;
            }
            i = i + 1;
        }
        let mut j: usize = 0;
        while j < self.entries.len()
            invariant
                j <= self.entries.len(),
                forall|k: int| 0 <= k < j ==> self.entries@[k].0@ != section@,
            decreases self.entries.len() - j,
        {
            if text::str_eq(self.entries[j].0.as_str(), section) {
                assert(self@.1[j as int].0 == section@);
                return true;
            }
            j = j + 1;
        }
        proof {
            if text::strings_view(self.sections@).contains(section@) {
                let k = choose|k: int| 0 <= k < self.sections@.len() && text::strings_view(self.sections@)[k] == section@;
                assert(self.sections@[k]@ == section@);
            }
            if exists|i: int| 0 <= i < self@.1.len() && (#[trigger] self@.1[i]).0 == section@ {
                let k = choose|k: int| 0 <= k < self@.1.len() && (#[trigger] self@.1[k]).0 == section@;
                assert(self.entries@[k].0@ == section@);
            }
        }
        false
    }

    /// The (key, value) pairs of `section`, one per key with its last value,
    /// in key order.
    pub fn section_pairs(&self, section: &str) -> (r: Vec<(String, String)>)
        ensures
            crate::order::pairs_view(r@) == section_pairs(self@.1, section@),
    {
        let ghost ev = self@.1;
        let mut acc: Vec<(String, String)> = Vec::new();
        let mut i: usize = 0;
        while i < self.entries.len()
            invariant
                i <= self.entries.len(),
                ev == self@.1,
                crate::order::pairs_view(acc@) == last_values(ev.take(i as int), section@),
            decreases self.entries.len() - i,
        {
            proof {
                assert(ev.take(i + 1).drop_last() =~= ev.take(i as int));
                assert(ev.take(i + 1).last() == ev[i as int]);
            }
            let e = &self.entries[i];
            if text::str_eq(e.0.as_str(), section) {
                let mut kept = crate::order::without_key(&acc, e.1.as_str());
                let k = text::owned(e.1.as_str());
                let v = text::owned(e.2.as_str());
                let ghost pv = (k@, v@);
                let ghost before = kept@;
                kept.push((k, v));
                proof {
                    assert(crate::order::pairs_view(kept@) =~= crate::order::pairs_view(before).push(pv));
                }
                acc = kept;
            }
            i = i + 1;
        }
        proof {
            assert(ev.take(i as int) =~= ev);
        }
        sort_pairs(&acc)
    }
}

/// The channel a PEACE speaker grid maps to, from its trimmed
/// `[Speakers] SpeakerTargets<n>` value: `L` and `R` are the left and right
/// channels; a missing, empty or `all` (any case) target is both; anything
/// else is kept as a channel spec.
pub open spec fn speaker_channel_of(target: Option<Seq<char>>) -> ChannelV {
    match target {
        Some(t) => {
            let s = trimmed(t);
            if s == seq!['L'] {
                ChannelV::Left
            } else if s == seq!['R'] {
                ChannelV::Right
            } else if s.len() > 0 && !eq_ignore_case(s, seq!['a', 'l', 'l']) {
                ChannelV::Other(s)
            } else {
                ChannelV::Both
            }
        },
        None => ChannelV::Both,
    }
}

/// The key naming speaker grid `n`'s target: `SpeakerTargets<n>`.
pub open spec fn speaker_key(n: u32) -> Seq<char> {
    "SpeakerTargets"@ + dec(n as nat)
}

/// The channel PEACE speaker grid `n` applies to.
pub fn speaker_channel(ini: &Ini, n: u32) -> (c: Channel)
    ensures
        c@ == speaker_channel_of(ini_value(ini@.1, "Speakers"@, speaker_key(n))),
{
    let key = text::concat("SpeakerTargets", text::u64_text(n as u64).as_str());
    let target = ini.get("Speakers", key.as_str());
    match target {
        Some(t) => {
            let s = text::trim(t.as_str());
            let v = text::chars_of(s);
            if v.len() == 1 && v[0] == 'L' {
                proof {
                    assert(s@ =~= seq!['L']);
                }
                Channel::Left
            } else if v.len() == 1 && v[0] == 'R' {
                proof {
                    assert(s@ =~= seq!['R']);
                }
                Channel::Right
            } else if v.len() > 0 && !text::eq_ignore_ascii_case(s, "all") {
                proof {
                    reveal_strlit("all");
                    assert("all"@ =~= seq!['a', 'l', 'l']);
                    assert(s@ != seq!['L']);
                    assert(s@ != seq!['R']);
                }
                Channel::Other(text::owned(s))
            } else {
                proof {
                    reveal_strlit("all");
                    assert("all"@ =~= seq!['a', 'l', 'l']);
                    if v.len() == 1 {
                        assert(s@ != seq!['L']);
                        assert(s@ != seq!['R']);
                    }
                }
                Channel::Both
            }
        },
        None => Channel::Both,
    }
}

/// The number of the last speaker grid (grid 0 is "all", 1 to 8 are the
/// per-channel grids).
pub const LAST_GRID: u32 = 8;

/// A grid's section: `base` for grid 0, else `base` followed by the grid
/// number (`Gains`, `Gains1`, …).
pub open spec fn grid_section(base: Seq<char>, n: u32) -> Seq<char> {
    if n == 0 {
        base
    } else {
        base + dec(n as nat)
    }
}

fn grid_section_name(base: &str, n: u32) -> (r: String)
    ensures
        r@ == grid_section(base@, n),
{
    let mut r = text::owned(base);
    if n > 0 {
        let d = text::u64_text(n as u64);
        r.append(d.as_str());
    }
    r
}

/// What `u32`'s `FromStr` makes of `s`.
pub open spec fn u32_of_text(s: Seq<char>) -> Option<u32> {
    match u64_of_text(s) {
        Some(v) => if v <= u32::MAX {
            Some(v as u32)
        } else {
            None
        },
        None => None,
    }
}

/// The band a gains key names: `Gain` followed by a band number.
pub open spec fn band_of_key(k: Seq<char>) -> Option<u32> {
    if "Gain"@.is_prefix_of(k) {
        u32_of_text(k.skip(4))
    } else {
        None
    }
}

/// The gains pairs whose key names a band, as (band, gain text), in order.
pub open spec fn keyed(pairs: Seq<(Seq<char>, Seq<char>)>) -> Seq<(u32, Seq<char>)>
    decreases pairs.len(),
{
    if pairs.len() == 0 {
        Seq::empty()
    } else {
        let rest = keyed(pairs.drop_last());
        match band_of_key(pairs.last().0) {
            Some(b) => rest.push((b, pairs.last().1)),
            None => rest,
        }
    }
}

/// `e` inserted after every entry whose band is not greater.
pub open spec fn insert_by_band(s: Seq<(u32, Seq<char>)>, e: (u32, Seq<char>)) -> Seq<(u32, Seq<char>)>
    decreases s.len(),
{
    if s.len() == 0 || s.last().0 <= e.0 {
        s.push(e)
    } else {
        insert_by_band(s.drop_last(), e).push(s.last())
    }
}

/// The entries ordered by band, entries with the same band kept in their
/// order (a stable sort).
pub open spec fn by_band(s: Seq<(u32, Seq<char>)>) -> Seq<(u32, Seq<char>)>
    decreases s.len(),
{
    if s.len() == 0 {
        Seq::empty()
    } else {
        insert_by_band(by_band(s.drop_last()), s.last())
    }
}

/// One active band of a speaker grid: its grid index, its gain text, and
/// the frequency and quality texts the grids give it, if any.
#[derive(Debug, Clone, PartialEq, Eq)]
pub struct GridBand {
    pub band: u32,
    pub gain: String,
    pub freq: Option<String>,
    pub q: Option<String>,
}

/// A grid band over plain values.
pub struct GridBandV {
    pub band: u32,
    pub gain: Seq<char>,
    pub freq: Option<Seq<char>>,
    pub q: Option<Seq<char>>,
}

/// The view of an optional text.
pub open spec fn opt_text(o: Option<String>) -> Option<Seq<char>> {
    match o {
        Some(s) => Some(s@),
        None => None,
    }
}

impl View for GridBand {
    type V = GridBandV;

    open spec fn view(&self) -> GridBandV {
        GridBandV { band: self.band, gain: self.gain@, freq: opt_text(self.freq), q: opt_text(self.q) }
    }
}

/// The views of grid bands.
pub open spec fn grid_view(v: Seq<GridBand>) -> Seq<GridBandV> {
    Seq::new(v.len(), |i: int| v[i]@)
}

/// A band's grid entry with its frequency and quality looked up.
pub open spec fn grid_band(entries: Seq<(Seq<char>, Seq<char>, Seq<char>)>, n: u32, e: (u32, Seq<char>)) -> GridBandV {
    GridBandV {
        band: e.0,
        gain: e.1,
        freq: ini_value(entries, grid_section("Frequencies"@, n), "Frequency"@ + dec(e.0 as nat)),
        q: ini_value(entries, grid_section("Qualities"@, n), "Quality"@ + dec(e.0 as nat)),
    }
}

/// Grid `n`'s active bands in band order, when the grid has a gains
/// section.
pub open spec fn grid_of(ini: (Seq<Seq<char>>, Seq<(Seq<char>, Seq<char>, Seq<char>)>), n: u32) -> Option<Seq<GridBandV>> {
    let gains = grid_section("Gains"@, n);
    if !ini_has_section(ini, gains) {
        None
    } else {
        let bands = by_band(keyed(section_pairs(ini.1, gains)));
        Some(Seq::new(bands.len(), |i: int| grid_band(ini.1, n, bands[i])))
    }
}

/// The band a gains key names, read as `u32`.
fn band_of(k: &str) -> (r: Option<u32>)
    ensures
        r == band_of_key(k@),
{
    let cs = text::chars_of(k);
    proof {
        reveal_strlit("Gain");
    }
    let prefix = text::chars_of("Gain");
    if cs.len() >= 4 && cs[0] == prefix[0] && cs[1] == prefix[1] && cs[2] == prefix[2] && cs[3] == prefix[3] {
        assert("Gain"@.is_prefix_of(k@)) by {
            assert(k@.take(4) =~= "Gain"@);
        }
        let rest = text::string_of_range(&cs, 4, cs.len());
        assert(rest@ =~= k@.skip(4));
        match text::parse_u64(rest.as_str()) {
            Some(v) => if v <= 0xffff_ffff {
                Some(v as u32)
            } else {
                None
            },
            None => None,
        }
    } else {
        proof {
            if "Gain"@.is_prefix_of(k@) {
                assert(k@[0] == "Gain"@[0] && k@[1] == "Gain"@[1] && k@[2] == "Gain"@[2] && k@[3] == "Gain"@[3]);
            }
        }
        None
    }
}

/// The view of (band, text) entries.
pub open spec fn bands_view(v: Seq<(u32, String)>) -> Seq<(u32, Seq<char>)> {
    Seq::new(v.len(), |i: int| (v[i].0, v[i].1@))
}

/// Insert `e` after every entry whose band is not greater.
fn insert_band(v: Vec<(u32, String)>, e: (u32, String)) -> (r: Vec<(u32, String)>)
    ensures
        bands_view(r@) == insert_by_band(bands_view(v@), (e.0, e.1@)),
    decreases v.len(),
{
    let mut v = v;
    let ghost before = bands_view(v@);
    if v.len() == 0 || v[v.len() - 1].0 <= e.0 {
        let ghost ev = (e.0, e.1@);
        v.push(e);
        assert(bands_view(v@) =~= before.push(ev));
        v
    } else {
        let last = v.pop().unwrap();
        assert(bands_view(v@) =~= before.drop_last());
        let ghost lv = (last.0, last.1@);
        assert(lv == before.last());
        let mut r = insert_band(v, e);
        let ghost mid = bands_view(r@);
        r.push(last);
        assert(bands_view(r@) =~= mid.push(lv));
        r
    }
}

/// Grid `n`'s active bands in band order, each with its frequency and
/// quality texts; `None` when the grid has no gains section.
pub fn grid(ini: &Ini, n: u32) -> (r: Option<Vec<GridBand>>)
    ensures
        match grid_of(ini@, n) {
            Some(g) => r matches Some(v) && grid_view(v@) == g,
            None => r is None,
        },
{
    let gains = grid_section_name("Gains", n);
    if !ini.has_section(gains.as_str()) {
        return None;
    }
    let pairs = ini.section_pairs(gains.as_str());
    let ghost pv = crate::order::pairs_view(pairs@);
    let mut sorted: Vec<(u32, String)> = Vec::new();
    let ghost mut seen: Seq<(u32, Seq<char>)> = Seq::empty();
    let mut i: usize = 0;
    while i < pairs.len()
        invariant
            i <= pairs@.len(),
            pv == crate::order::pairs_view(pairs@),
            seen == keyed(pv.take(i as int)),
            bands_view(sorted@) == by_band(seen),
        decreases pairs.len() - i,
    {
        proof {
            assert(pv.take(i + 1).drop_last() =~= pv.take(i as int));
            assert(pv.take(i + 1).last() == pv[i as int]);
        }
        match band_of(pairs[i].0.as_str()) {
            Some(b) => {
                let e = (b, text::owned(pairs[i].1.as_str()));
                proof {
                    seen = seen.push((b, pairs@[i as int].1@));
                    assert(seen.drop_last() == keyed(pv.take(i as int)));
                }
                sorted = insert_band(sorted, e);
            },
            None => {},
        }
        i = i + 1;
    }
    assert(pv.take(i as int) =~= pv);
    let freqs = grid_section_name("Frequencies", n);
    let quals = grid_section_name("Qualities", n);
    let ghost bands = by_band(seen);
    let mut out: Vec<GridBand> = Vec::new();
    let mut k: usize = 0;
    while k < sorted.len()
        invariant
            k <= sorted@.len(),
            bands == bands_view(sorted@),
            freqs@ == grid_section("Frequencies"@, n),
            quals@ == grid_section("Qualities"@, n),
            grid_view(out@) == Seq::new(k as nat, |j: int| grid_band(ini@.1, n, bands[j])),
        decreases sorted.len() - k,
    {
        let band = sorted[k].0;
        let d = text::u64_text(band as u64);
        let fkey = text::concat("Frequency", d.as_str());
        let qkey = text::concat("Quality", d.as_str());
        let gb = GridBand {
            band,
            gain: text::owned(sorted[k].1.as_str()),
            freq: ini.get(freqs.as_str(), fkey.as_str()),
            q: ini.get(quals.as_str(), qkey.as_str()),
        };
        proof {
            assert(bands[k as int] == (band, sorted@[k as int].1@));
            assert(d@ == dec(band as nat));
            assert(fkey@ == "Frequency"@ + dec(band as nat));
            assert(qkey@ == "Quality"@ + dec(band as nat));
            assert(gb@.freq == grid_band(ini@.1, n, bands[k as int]).freq);
            assert(gb@.q == grid_band(ini@.1, n, bands[k as int]).q);
            assert(gb@.gain == grid_band(ini@.1, n, bands[k as int]).gain);
            assert(gb@ == grid_band(ini@.1, n, bands[k as int]));
        }
        let ghost before = out@;
        let ghost gbv = gb@;
        out.push(gb);
        k = k + 1;
        proof {
            assert(grid_view(out@) =~= grid_view(before).push(gbv));
            assert(grid_view(out@) =~= Seq::new(k as nat, |j: int| grid_band(ini@.1, n, bands[j])));
        }
    }
    Some(out)
}

/// A grid's bands read their frequency and Q from the same grid: band `b`
/// of grid `n` takes `Frequency<b>` from `[Frequencies<n>]` and `Quality<b>`
/// from `[Qualities<n>]` (the unnumbered sections for grid 0), as its gain
/// comes from `[Gains<n>]`.
pub proof fn law_grid_bands_read_their_own_grid(
    ini: (Seq<Seq<char>>, Seq<(Seq<char>, Seq<char>, Seq<char>)>),
    n: u32,
)
    ensures
        grid_of(ini, n) matches Some(g) ==> forall|i: int|
            0 <= i < g.len() ==> {
                let freqs = if n == 0 {
                    seq!['F', 'r', 'e', 'q', 'u', 'e', 'n', 'c', 'i', 'e', 's']
                } else {
                    seq!['F', 'r', 'e', 'q', 'u', 'e', 'n', 'c', 'i', 'e', 's'] + dec(n as nat)
                };
                let quals = if n == 0 {
                    seq!['Q', 'u', 'a', 'l', 'i', 't', 'i', 'e', 's']
                } else {
                    seq!['Q', 'u', 'a', 'l', 'i', 't', 'i', 'e', 's'] + dec(n as nat)
                };
                &&& (#[trigger] g[i]).freq == ini_value(
                    ini.1,
                    freqs,
                    seq!['F', 'r', 'e', 'q', 'u', 'e', 'n', 'c', 'y'] + dec(g[i].band as nat),
                )
                &&& g[i].q == ini_value(ini.1, quals, seq!['Q', 'u', 'a', 'l', 'i', 't', 'y'] + dec(g[i].band as nat))
            },
{
    reveal_strlit("Frequencies");
    reveal_strlit("Qualities");
    reveal_strlit("Frequency");
    reveal_strlit("Quality");
    assert("Frequencies"@ =~= seq!['F', 'r', 'e', 'q', 'u', 'e', 'n', 'c', 'i', 'e', 's']);
    assert("Qualities"@ =~= seq!['Q', 'u', 'a', 'l', 'i', 't', 'i', 'e', 's']);
    assert("Frequency"@ =~= seq!['F', 'r', 'e', 'q', 'u', 'e', 'n', 'c', 'y']);
    assert("Quality"@ =~= seq!['Q', 'u', 'a', 'l', 'i', 't', 'y']);
}

} // verus!
