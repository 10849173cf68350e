//! The structured representation of an Equalizer APO configuration.
//!
//! A [`Config`] is an ordered list of [`Line`]s. Only `Preamp:` and `Filter:`
//! lines are modeled; everything else is kept as [`Line::Raw`] so it survives
//! untouched. Numeric parameters are held as [`Num`]: the exact decimal text
//! the value is written with (the shortest text that reads back as the same
//! binary64 number), so the model never rounds and writes back byte for byte.

use crate::text;
use vstd::prelude::*;

verus! {

/// The text of a number in canonical decimal form, e.g. `-6.5` or `1000`.
#[derive(Debug, Clone)]
pub struct Num {
    pub text: String,
}

impl View for Num {
    type V = Seq<char>;

    open spec fn view(&self) -> Seq<char> {
        self.text@
    }
}

/// The two spellings of zero.
pub open spec fn num_is_zero(t: Seq<char>) -> bool {
    t == seq!['0'] || t == seq!['-', '0']
}

/// The spelling of a not-a-number value.
pub open spec fn num_is_nan(t: Seq<char>) -> bool {
    t == seq!['N', 'a', 'N']
}

/// Numeric equality of two canonical number texts: equal spellings denote the
/// same value, except that not-a-number equals nothing and both zeros are
/// equal.
pub open spec fn num_same(a: Seq<char>, b: Seq<char>) -> bool {
    (a == b && !num_is_nan(a)) || (num_is_zero(a) && num_is_zero(b))
}

/// An unsigned decimal in shortest form: an integer part that is `0` or
/// has no leading zero, and, when there is a `.`, a fractional part of at
/// least one digit that does not end in `0`.
pub open spec fn shortest_decimal(t: Seq<char>) -> bool {
    let k = match text::first_index_of(t, '.') {
        Some(k) => k,
        None => t.len() as int,
    };
    let whole = t.take(k);
    &&& whole.len() > 0
    &&& text::all_digits(whole)
    &&& (whole.len() == 1 || whole[0] != '0')
    &&& match text::first_index_of(t, '.') {
        Some(k) => {
            let frac = t.skip(k + 1);
            frac.len() > 0 && text::all_digits(frac) && frac.last() != '0'
        },
        None => true,
    }
}

/// The canonical text of a number, as a binary64 value is written in
/// decimal: `NaN`, `inf`, `-inf`, or a shortest decimal with an optional `-`.
pub open spec fn canonical_num(t: Seq<char>) -> bool {
    ||| num_is_nan(t)
    ||| t == seq!['i', 'n', 'f']
    ||| t == seq!['-', 'i', 'n', 'f']
    ||| shortest_decimal(t)
    ||| (t.len() > 0 && t[0] == '-' && shortest_decimal(t.drop_first()))
}

fn is_shortest_decimal(v: &Vec<char>, from: usize) -> (b: bool)
    requires
        from <= v.len(),
    ensures
        b == shortest_decimal(v@.skip(from as int)),
{
    let ghost t = v@.skip(from as int);
    let mut k: usize = from;
    while k < v.len() && v[k] != '.'
        invariant
            from <= k <= v.len(),
            t == v@.skip(from as int),
            forall|i: int| from <= i < k ==> v@[i] != '.',
        decreases v.len() - k,
    {
        k = k + 1;
    }
    proof {
        text::lemma_first_index_of(t, '.');
        if k < v.len() {
            assert(t[k - from] == '.');
            match text::first_index_of(t, '.') {
                Some(j) => {
                    if j < k - from {
                        assert(t[j] == v@[from + j]);
                    }
                },
                None => {},
            }
            assert(text::first_index_of(t, '.') == Some((k - from) as int));
        } else {
            assert forall|i: int| 0 <= i < t.len() implies t[i] != '.' by {
                assert(t[i] == v@[from + i]);
            }
            assert(text::first_index_of(t, '.') is None);
        }
    }
    let ghost whole = t.take(k - from);
    let ghost at = if k < v.len() { Some((k - from) as int) } else { None };
    assert(text::first_index_of(t, '.') == at);
    if k == from {
        return false;
    }
    let mut i: usize = from;
    while i < k
        invariant
            from <= i <= k <= v.len(),
            t == v@.skip(from as int),
            whole == t.take(k - from),
            text::first_index_of(t, '.') == at,
            at == if k < v.len() { Some((k - from) as int) } else { None::<int> },
            forall|j: int| from <= j < i ==> text::is_digit(v@[j]),
        decreases k - i,
    {
        if !(v[i] >= '0' && v[i] <= '9') {
            assert(whole[i - from] == v@[i as int]);
            return false;
        }
        i = i + 1;
    }
    assert(text::all_digits(whole)) by {
        assert forall|j: int| 0 <= j < whole.len() implies text::is_digit(#[trigger] whole[j]) by {
            assert(whole[j] == v@[from + j]);
        }
    }
    if k - from > 1 && v[from] == '0' {
        assert(whole[0] == v@[from as int]);
        return false;
    }
    assert(k - from == 1 || whole[0] == v@[from as int]);
    if k == v.len() {
        return true;
    }
    let ghost frac = t.skip(k - from + 1);
    if k + 1 == v.len() {
        assert(frac.len() == 0);
        return false;
    }
    let mut j: usize = k + 1;
    while j < v.len()
        invariant
            from <= k,
            k + 1 <= j <= v.len(),
            t == v@.skip(from as int),
            frac == t.skip(k - from + 1),
            text::first_index_of(t, '.') == Some((k - from) as int),
            forall|m: int| k + 1 <= m < j ==> text::is_digit(v@[m]),
        decreases v.len() - j,
    {
        if !(v[j] >= '0' && v[j] <= '9') {
            assert(frac[j - k - 1] == v@[j as int]);
            return false;
        }
        j = j + 1;
    }
    assert(text::all_digits(frac)) by {
        assert forall|m: int| 0 <= m < frac.len() implies text::is_digit(#[trigger] frac[m]) by {
            assert(frac[m] == v@[k + 1 + m]);
        }
    }
    assert(frac.last() == v@[v.len() - 1]);
    v[v.len() - 1] != '0'
}

impl Num {
    /// A number from its canonical decimal text.
    pub fn new(text: &str) -> (n: Num)
        requires
            canonical_num(text@),
        ensures
            n@ == text@,
    {
        Num { text: text::owned(text) }
    }

    /// Whether `text` is the canonical text of a number (see
    /// [`canonical_num`]).
    pub fn is_canonical(text: &str) -> (b: bool)
        ensures
            b == canonical_num(text@),
    {
        let v = text::chars_of(text);
        let n = v.len();
        if n == 3 && v[0] == 'N' && v[1] == 'a' && v[2] == 'N' {
            assert(text@ =~= seq!['N', 'a', 'N']);
            return true;
        }
        if n == 3 && v[0] == 'i' && v[1] == 'n' && v[2] == 'f' {
            assert(text@ =~= seq!['i', 'n', 'f']);
            return true;
        }
        if n == 4 && v[0] == '-' && v[1] == 'i' && v[2] == 'n' && v[3] == 'f' {
            assert(text@ =~= seq!['-', 'i', 'n', 'f']);
            return true;
        }
        assert(!num_is_nan(text@) && text@ != seq!['i', 'n', 'f'] && text@ != seq!['-', 'i', 'n', 'f']) by {
            if num_is_nan(text@) {
                assert(text@[0] == 'N' && text@[1] == 'a' && text@[2] == 'N');
            }
            if text@ == seq!['i', 'n', 'f'] {
                assert(text@[0] == 'i' && text@[1] == 'n' && text@[2] == 'f');
            }
            if text@ == seq!['-', 'i', 'n', 'f'] {
                assert(text@[0] == '-' && text@[1] == 'i' && text@[2] == 'n' && text@[3] == 'f');
            }
        }
        assert(v@.skip(0) =~= text@);
        if is_shortest_decimal(&v, 0) {
            return true;
        }
        if n > 0 && v[0] == '-' {
            assert(v@.skip(1) =~= text@.drop_first());
            return is_shortest_decimal(&v, 1);
        }
        false
    }

    /// Whether the number is zero (of either sign).
    pub fn is_zero(&self) -> (b: bool)
        ensures
            b == num_is_zero(self@),
    {
        let v = text::chars_of(self.text.as_str());
        let r = (v.len() == 1 && v[0] == '0') || (v.len() == 2 && v[0] == '-' && v[1] == '0');
        proof {
            if v.len() == 1 && v[0] == '0' {
                assert(self@ =~= seq!['0']);
            }
            if v.len() == 2 && v[0] == '-' && v[1] == '0' {
                assert(self@ =~= seq!['-', '0']);
            }
        }
        r
    }

    /// Whether the number is not-a-number.
    pub fn is_nan(&self) -> (b: bool)
        ensures
            b == num_is_nan(self@),
    {
        let v = text::chars_of(self.text.as_str());
        let r = v.len() == 3 && v[0] == 'N' && v[1] == 'a' && v[2] == 'N';
        proof {
            if r {
                assert(self@ =~= seq!['N', 'a', 'N']);
            }
        }
        r
    }

    /// Numeric equality (see [`num_same`]).
    pub fn same(&self, other: &Num) -> (b: bool)
        ensures
            b == num_same(self@, other@),
    {
        (text::str_eq(self.text.as_str(), other.text.as_str()) && !self.is_nan()) || (self.is_zero()
            && other.is_zero())
    }

    /// A copy of this number.
    pub fn duplicate(&self) -> (n: Num)
        ensures
            n@ == self@,
    {
        Num { text: self.text.clone() }
    }
}

/// Which channel(s) a preamp or filter applies to — Equalizer APO's stateful
/// `Channel:` directive. `Other` keeps channel specs that are not modeled.
#[derive(Debug, Clone, PartialEq, Eq)]
pub enum Channel {
    Both,
    Left,
    Right,
    Other(String),
}

/// The mathematical value of a [`Channel`].
pub enum ChannelV {
    Both,
    Left,
    Right,
    Other(Seq<char>),
}

impl View for Channel {
    type V = ChannelV;

    open spec fn view(&self) -> ChannelV {
        match self {
            Channel::Both => ChannelV::Both,
            Channel::Left => ChannelV::Left,
            Channel::Right => ChannelV::Right,
            Channel::Other(s) => ChannelV::Other(s@),
        }
    }
}

impl Channel {
    /// A copy of this channel.
    pub fn duplicate(&self) -> (c: Channel)
        ensures
            c@ == self@,
    {
        match self {
            Channel::Both => Channel::Both,
            Channel::Left => Channel::Left,
            Channel::Right => Channel::Right,
            Channel::Other(s) => Channel::Other(s.clone()),
        }
    }

    /// Whether two channels are the same.
    pub fn same(&self, other: &Channel) -> (b: bool)
        ensures
            b == (self@ == other@),
    {
        match (self, other) {
            (Channel::Both, Channel::Both) => true,
            (Channel::Left, Channel::Left) => true,
            (Channel::Right, Channel::Right) => true,
            (Channel::Other(a), Channel::Other(b)) => text::str_eq(a.as_str(), b.as_str()),
            _ => false,
        }
    }
}

/// The supported filter types, each with its APO token.
#[derive(Debug, Clone, Copy, PartialEq, Eq, Structural)]
pub enum FilterKind {
    /// `PK` — peaking / parametric.
    Peak,
    /// `LS` — low shelf (fixed slope).
    LowShelf,
    /// `HS` — high shelf (fixed slope).
    HighShelf,
    /// `LSC` — low shelf with adjustable Q/corner.
    LowShelfQ,
    /// `HSC` — high shelf with adjustable Q/corner.
    HighShelfQ,
    /// `LP` — low pass.
    LowPass,
    /// `HP` — high pass.
    HighPass,
    /// `LPQ` — low pass with adjustable Q.
    LowPassQ,
    /// `HPQ` — high pass with adjustable Q.
    HighPassQ,
    /// `BP` — band pass.
    BandPass,
    /// `NO` — notch.
    Notch,
    /// `AP` — all pass.
    AllPass,
}

/// A parametric filter band: `Filter[ N]: ON|OFF <type> Fc <hz> Hz [Gain <db> dB] [Q <q>]`.
#[derive(Debug, Clone)]
pub struct Filter {
    pub enabled: bool,
    pub kind: FilterKind,
    /// Centre/corner frequency `Fc`, in Hz.
    pub freq: Num,
    /// Gain in dB (peaking and shelving filters).
    pub gain: Option<Num>,
    /// Quality factor `Q`.
    pub q: Option<Num>,
    /// The label of a numbered `Filter N:` line, or `None` for bare `Filter:`.
    pub index: Option<u32>,
    /// Which channel(s) this band applies to.
    pub channel: Channel,
}

/// The mathematical value of a [`Filter`].
pub struct FilterV {
    pub enabled: bool,
    pub kind: FilterKind,
    pub freq: Seq<char>,
    pub gain: Option<Seq<char>>,
    pub q: Option<Seq<char>>,
    pub index: Option<u32>,
    pub channel: ChannelV,
}

/// The view of an optional number.
pub open spec fn opt_num_view(o: Option<Num>) -> Option<Seq<char>> {
    match o {
        Some(n) => Some(n@),
        None => None,
    }
}

impl View for Filter {
    type V = FilterV;

    open spec fn view(&self) -> FilterV {
        FilterV {
            enabled: self.enabled,
            kind: self.kind,
            freq: self.freq@,
            gain: opt_num_view(self.gain),
            q: opt_num_view(self.q),
            index: self.index,
            channel: self.channel@,
        }
    }
}

fn dup_opt_num(o: &Option<Num>) -> (r: Option<Num>)
    ensures
        opt_num_view(r) == opt_num_view(*o),
{
    match o {
        Some(n) => Some(n.duplicate()),
        None => None,
    }
}

impl Filter {
    /// A peaking band at `freq` with `gain` and `q`, enabled, unnumbered, on both channels.
    pub fn peak(freq: Num, gain: Num, q: Num) -> (f: Filter)
        ensures
            f@ == (FilterV {
                enabled: true,
                kind: FilterKind::Peak,
                freq: freq@,
                gain: Some(gain@),
                q: Some(q@),
                index: None,
                channel: ChannelV::Both,
            }),
    {
        Filter {
            enabled: true,
            kind: FilterKind::Peak,
            freq,
            gain: Some(gain),
            q: Some(q),
            index: None,
            channel: Channel::Both,
        }
    }

    /// A copy of this filter.
    pub fn duplicate(&self) -> (f: Filter)
        ensures
            f@ == self@,
    {
        Filter {
            enabled: self.enabled,
            kind: self.kind,
            freq: self.freq.duplicate(),
            gain: dup_opt_num(&self.gain),
            q: dup_opt_num(&self.q),
            index: self.index,
            channel: self.channel.duplicate(),
        }
    }
}

/// A single line of an APO configuration.
#[derive(Debug, Clone)]
pub enum Line {
    /// `Preamp: <value> dB`, scoped to `channel`.
    Preamp { gain: Num, channel: Channel },
    /// A parametric filter band.
    Filter(Filter),
    /// Any line that is not modeled, preserved exactly as written.
    Raw(String),
}

/// The mathematical value of a [`Line`].
pub enum LineV {
    Preamp { gain: Seq<char>, channel: ChannelV },
    Filter(FilterV),
    Raw(Seq<char>),
}

impl View for Line {
    type V = LineV;

    open spec fn view(&self) -> LineV {
        match self {
            Line::Preamp { gain, channel } => LineV::Preamp { gain: gain@, channel: channel@ },
            Line::Filter(f) => LineV::Filter(f@),
            Line::Raw(s) => LineV::Raw(s@),
        }
    }
}

impl Line {
    /// A copy of this line.
    pub fn duplicate(&self) -> (l: Line)
        ensures
            l@ == self@,
    {
        match self {
            Line::Preamp { gain, channel } => Line::Preamp {
                gain: gain.duplicate(),
                channel: channel.duplicate(),
            },
            Line::Filter(f) => Line::Filter(f.duplicate()),
            Line::Raw(s) => Line::Raw(s.clone()),
        }
    }
}

/// A whole `config.txt` (or a preset file), in document order.
#[derive(Debug, Clone)]
pub struct Config {
    pub lines: Vec<Line>,
}

/// The views of a sequence of lines.
pub open spec fn lines_view(lines: Seq<Line>) -> Seq<LineV> {
    Seq::new(lines.len(), |i: int| lines[i]@)
}

/// Viewing commutes with pushing a line.
pub proof fn lemma_lines_view_push(s: Seq<Line>, l: Line)
    ensures
        lines_view(s.push(l)) == lines_view(s).push(l@),
{
    assert(lines_view(s.push(l)) =~= lines_view(s).push(l@));
}

impl View for Config {
    type V = Seq<LineV>;

    open spec fn view(&self) -> Seq<LineV> {
        lines_view(self.lines@)
    }
}

impl Config {
    /// An empty configuration (APO passthrough — no processing).
    pub fn new() -> (c: Config)
        ensures
            c@ == Seq::<LineV>::empty(),
    {
        Config { lines: Vec::new() }
    }

    /// A copy of this configuration.
    pub fn duplicate(&self) -> (c: Config)
        ensures
            c@ == self@,
    {
        let mut out: Vec<Line> = Vec::new();
        let mut i: usize = 0;
        while i < self.lines.len()
            invariant
                i <= self.lines.len(),
                out.len() == i,
                forall|k: int| 0 <= k < i ==> (#[trigger] out@[k])@ == self.lines@[k]@,
            decreases self.lines.len() - i,
        {
            let l = self.lines[i].duplicate();
            out.push(l);
            i = i + 1;
        }
        let c = Config { lines: out };
        assert(c@ =~= self@);
        c
    }
}

} // verus!

verus! {

/// The canonical APO token of a filter type.
pub open spec fn token_of(k: FilterKind) -> Seq<char> {
    match k {
        FilterKind::Peak => seq!['P', 'K'],
        FilterKind::LowShelf => seq!['L', 'S'],
        FilterKind::HighShelf => seq!['H', 'S'],
        FilterKind::LowShelfQ => seq!['L', 'S', 'C'],
        FilterKind::HighShelfQ => seq!['H', 'S', 'C'],
        FilterKind::LowPass => seq!['L', 'P'],
        FilterKind::HighPass => seq!['H', 'P'],
        FilterKind::LowPassQ => seq!['L', 'P', 'Q'],
        FilterKind::HighPassQ => seq!['H', 'P', 'Q'],
        FilterKind::BandPass => seq!['B', 'P'],
        FilterKind::Notch => seq!['N', 'O'],
        FilterKind::AllPass => seq!['A', 'P'],
    }
}

/// The filter type a token names, ignoring ASCII case.
pub open spec fn kind_of_token(t: Seq<char>) -> Option<FilterKind> {
    let u = crate::text::upper_seq(t);
    if u == token_of(FilterKind::Peak) {
        Some(FilterKind::Peak)
    } else if u == token_of(FilterKind::LowShelf) {
        Some(FilterKind::LowShelf)
    } else if u == token_of(FilterKind::HighShelf) {
        Some(FilterKind::HighShelf)
    } else if u == token_of(FilterKind::LowShelfQ) {
        Some(FilterKind::LowShelfQ)
    } else if u == token_of(FilterKind::HighShelfQ) {
        Some(FilterKind::HighShelfQ)
    } else if u == token_of(FilterKind::LowPass) {
        Some(FilterKind::LowPass)
    } else if u == token_of(FilterKind::HighPass) {
        Some(FilterKind::HighPass)
    } else if u == token_of(FilterKind::LowPassQ) {
        Some(FilterKind::LowPassQ)
    } else if u == token_of(FilterKind::HighPassQ) {
        Some(FilterKind::HighPassQ)
    } else if u == token_of(FilterKind::BandPass) {
        Some(FilterKind::BandPass)
    } else if u == token_of(FilterKind::Notch) {
        Some(FilterKind::Notch)
    } else if u == token_of(FilterKind::AllPass) {
        Some(FilterKind::AllPass)
    } else {
        None
    }
}

/// Whether a filter type carries a `Gain` parameter.
pub open spec fn kind_has_gain(k: FilterKind) -> bool {
    matches!(k, FilterKind::Peak | FilterKind::LowShelf | FilterKind::HighShelf | FilterKind::LowShelfQ | FilterKind::HighShelfQ)
}

/// Whether a filter type carries a `Q` parameter.
pub open spec fn kind_has_q(k: FilterKind) -> bool {
    matches!(k, FilterKind::Peak | FilterKind::LowShelfQ | FilterKind::HighShelfQ | FilterKind::LowPassQ | FilterKind::HighPassQ | FilterKind::BandPass | FilterKind::Notch | FilterKind::AllPass)
}

proof fn lemma_token_literals()
    ensures
        "PK"@ == seq!['P', 'K'],
        "LS"@ == seq!['L', 'S'],
        "HS"@ == seq!['H', 'S'],
        "LSC"@ == seq!['L', 'S', 'C'],
        "HSC"@ == seq!['H', 'S', 'C'],
        "LP"@ == seq!['L', 'P'],
        "HP"@ == seq!['H', 'P'],
        "LPQ"@ == seq!['L', 'P', 'Q'],
        "HPQ"@ == seq!['H', 'P', 'Q'],
        "BP"@ == seq!['B', 'P'],
        "NO"@ == seq!['N', 'O'],
        "AP"@ == seq!['A', 'P'],
{
    reveal_strlit("PK");
    reveal_strlit("LS");
    reveal_strlit("HS");
    reveal_strlit("LSC");
    reveal_strlit("HSC");
    reveal_strlit("LP");
    reveal_strlit("HP");
    reveal_strlit("LPQ");
    reveal_strlit("HPQ");
    reveal_strlit("BP");
    reveal_strlit("NO");
    reveal_strlit("AP");
    assert("PK"@ =~= seq!['P', 'K']);
    assert("LS"@ =~= seq!['L', 'S']);
    assert("HS"@ =~= seq!['H', 'S']);
    assert("LSC"@ =~= seq!['L', 'S', 'C']);
    assert("HSC"@ =~= seq!['H', 'S', 'C']);
    assert("LP"@ =~= seq!['L', 'P']);
    assert("HP"@ =~= seq!['H', 'P']);
    assert("LPQ"@ =~= seq!['L', 'P', 'Q']);
    assert("HPQ"@ =~= seq!['H', 'P', 'Q']);
    assert("BP"@ =~= seq!['B', 'P']);
    assert("NO"@ =~= seq!['N', 'O']);
    assert("AP"@ =~= seq!['A', 'P']);
}

impl FilterKind {
    /// Parse an APO type token (ASCII case-insensitive), or `None` if unsupported.
    pub fn from_token(token: &str) -> (r: Option<FilterKind>)
        ensures
            r == kind_of_token(token@),
    {
        proof {
            lemma_token_literals();
        }
        let u = crate::text::upper_chars(token);
        if crate::text::chars_eq(&u, "PK") {
            Some(FilterKind::Peak)
        } else if crate::text::chars_eq(&u, "LS") {
            Some(FilterKind::LowShelf)
        } else if crate::text::chars_eq(&u, "HS") {
            Some(FilterKind::HighShelf)
        } else if crate::text::chars_eq(&u, "LSC") {
            Some(FilterKind::LowShelfQ)
        } else if crate::text::chars_eq(&u, "HSC") {
            Some(FilterKind::HighShelfQ)
        } else if crate::text::chars_eq(&u, "LP") {
            Some(FilterKind::LowPass)
        } else if crate::text::chars_eq(&u, "HP") {
            Some(FilterKind::HighPass)
        } else if crate::text::chars_eq(&u, "LPQ") {
            Some(FilterKind::LowPassQ)
        } else if crate::text::chars_eq(&u, "HPQ") {
            Some(FilterKind::HighPassQ)
        } else if crate::text::chars_eq(&u, "BP") {
            Some(FilterKind::BandPass)
        } else if crate::text::chars_eq(&u, "NO") {
            Some(FilterKind::Notch)
        } else if crate::text::chars_eq(&u, "AP") {
            Some(FilterKind::AllPass)
        } else {
            None
        }
    }

    /// The canonical APO token this filter type serializes to.
    pub fn as_token(self) -> (r: &'static str)
        ensures
            r@ == token_of(self),
    {
        proof {
            lemma_token_literals();
        }
        match self {
            FilterKind::Peak => "PK",
            FilterKind::LowShelf => "LS",
            FilterKind::HighShelf => "HS",
            FilterKind::LowShelfQ => "LSC",
            FilterKind::HighShelfQ => "HSC",
            FilterKind::LowPass => "LP",
            FilterKind::HighPass => "HP",
            FilterKind::LowPassQ => "LPQ",
            FilterKind::HighPassQ => "HPQ",
            FilterKind::BandPass => "BP",
            FilterKind::Notch => "NO",
            FilterKind::AllPass => "AP",
        }
    }

    /// Whether this type carries a `Gain` parameter.
    pub fn has_gain(self) -> (b: bool)
        ensures
            b == kind_has_gain(self),
    {
        matches!(self, FilterKind::Peak | FilterKind::LowShelf | FilterKind::HighShelf | FilterKind::LowShelfQ | FilterKind::HighShelfQ)
    }

    /// Whether this type carries a `Q` parameter.
    pub fn has_q(self) -> (b: bool)
        ensures
            b == kind_has_q(self),
    {
        matches!(self, FilterKind::Peak | FilterKind::LowShelfQ | FilterKind::HighShelfQ | FilterKind::LowPassQ | FilterKind::HighPassQ | FilterKind::BandPass | FilterKind::Notch | FilterKind::AllPass)
    }
}

/// Every filter type's token reads back as that type, in any ASCII case.
pub proof fn law_token_round_trip(k: FilterKind, t: Seq<char>)
    requires
        crate::text::upper_seq(t) == token_of(k),
    ensures
        kind_of_token(t) == Some(k),
{
    law_canonical_token_reads_back(k);
    assert(crate::text::upper_seq(token_of(k)) =~= token_of(k));
}

/// Upper-casing a canonical token leaves it unchanged, so each canonical token
/// reads back as its own type.
pub proof fn law_canonical_token_reads_back(k: FilterKind)
    ensures
        kind_of_token(token_of(k)) == Some(k),
{
    assert(crate::text::upper_seq(token_of(k)) =~= token_of(k));
}

} // verus!

verus! {

/// The lines of `c` satisfying `p`, in order.
pub open spec fn keep_where(c: Seq<LineV>, p: spec_fn(LineV) -> bool) -> Seq<LineV>
    decreases c.len(),
{
    if c.len() == 0 {
        c
    } else if p(c.last()) {
        keep_where(c.drop_last(), p).push(c.last())
    } else {
        keep_where(c.drop_last(), p)
    }
}

/// One step of a left-to-right filtering loop.
pub proof fn lemma_keep_step(c: Seq<LineV>, i: int, p: spec_fn(LineV) -> bool)
    requires
        0 <= i < c.len(),
    ensures
        keep_where(c.take(i + 1), p) == if p(c[i]) {
            keep_where(c.take(i), p).push(c[i])
        } else {
            keep_where(c.take(i), p)
        },
{
    assert(c.take(i + 1).drop_last() =~= c.take(i));
}

/// Filtering the whole of `c`.
pub proof fn lemma_keep_take_all(c: Seq<LineV>, p: spec_fn(LineV) -> bool)
    ensures
        keep_where(c.take(c.len() as int), p) == keep_where(c, p),
{
    assert(c.take(c.len() as int) =~= c);
}

/// Every kept line satisfies the predicate.
pub proof fn lemma_keep_all(c: Seq<LineV>, p: spec_fn(LineV) -> bool)
    ensures
        forall|k: int| 0 <= k < keep_where(c, p).len() ==> p(#[trigger] keep_where(c, p)[k]),
        keep_where(c, p).len() <= c.len(),
    decreases c.len(),
{
    if c.len() > 0 {
        lemma_keep_all(c.drop_last(), p);
        let w = keep_where(c, p);
        let d = keep_where(c.drop_last(), p);
        assert forall|k: int| 0 <= k < w.len() implies p(#[trigger] w[k]) by {
            if k < d.len() {
                assert(w[k] == d[k]);
            }
        }
    }
}

/// Filtering keeps only lines of `c`: whatever holds of every line of `c`
/// holds of every kept line.
pub proof fn lemma_keep_preserves(c: Seq<LineV>, p: spec_fn(LineV) -> bool, q: spec_fn(LineV) -> bool)
    requires
        forall|k: int| 0 <= k < c.len() ==> q(#[trigger] c[k]),
    ensures
        forall|k: int| 0 <= k < keep_where(c, p).len() ==> q(#[trigger] keep_where(c, p)[k]),
    decreases c.len(),
{
    if c.len() > 0 {
        let d = c.drop_last();
        assert forall|k: int| 0 <= k < d.len() implies q(#[trigger] d[k]) by {
            assert(d[k] == c[k]);
        }
        lemma_keep_preserves(d, p, q);
        let w = keep_where(c, p);
        let dw = keep_where(d, p);
        assert(q(c[c.len() - 1]));
        assert forall|k: int| 0 <= k < w.len() implies q(#[trigger] w[k]) by {
            if k < dw.len() {
                assert(w[k] == dw[k]);
            }
        }
    }
}

/// When every line satisfies the predicate, filtering changes nothing.
pub proof fn lemma_keep_id(c: Seq<LineV>, p: spec_fn(LineV) -> bool)
    requires
        forall|k: int| 0 <= k < c.len() ==> p(#[trigger] c[k]),
    ensures
        keep_where(c, p) == c,
    decreases c.len(),
{
    if c.len() > 0 {
        let d = c.drop_last();
        assert forall|k: int| 0 <= k < d.len() implies p(#[trigger] d[k]) by {
            assert(d[k] == c[k]);
        }
        lemma_keep_id(d, p);
        assert(p(c[c.len() - 1]));
        assert(d.push(c.last()) =~= c);
    }
}

/// Filtering twice is filtering once by both predicates.
pub proof fn lemma_keep_keep(c: Seq<LineV>, p: spec_fn(LineV) -> bool, q: spec_fn(LineV) -> bool)
    ensures
        keep_where(keep_where(c, p), q) == keep_where(c, |l: LineV| p(l) && q(l)),
    decreases c.len(),
{
    if c.len() > 0 {
        lemma_keep_keep(c.drop_last(), p, q);
        let pq = |l: LineV| p(l) && q(l);
        if p(c.last()) {
            let d = keep_where(c.drop_last(), p).push(c.last());
            assert(d.drop_last() =~= keep_where(c.drop_last(), p));
            assert(d.last() == c.last());
        }
    }
}

/// Filtering distributes over concatenation.
pub proof fn lemma_keep_concat(a: Seq<LineV>, b: Seq<LineV>, p: spec_fn(LineV) -> bool)
    ensures
        keep_where(a + b, p) == keep_where(a, p) + keep_where(b, p),
    decreases b.len(),
{
    if b.len() == 0 {
        assert(a + b =~= a);
        assert(keep_where(a, p) + keep_where(b, p) =~= keep_where(a, p));
    } else {
        assert((a + b).drop_last() =~= a + b.drop_last());
        assert((a + b).last() == b.last());
        lemma_keep_concat(a, b.drop_last(), p);
        if p(b.last()) {
            assert(keep_where(a, p) + keep_where(b.drop_last(), p).push(b.last()) =~= (keep_where(
                a,
                p,
            ) + keep_where(b.drop_last(), p)).push(b.last()));
        }
    }
}

/// Filtering by predicates that agree on `c` gives the same lines.
pub proof fn lemma_keep_ext(c: Seq<LineV>, p: spec_fn(LineV) -> bool, q: spec_fn(LineV) -> bool)
    requires
        forall|k: int| 0 <= k < c.len() ==> p(#[trigger] c[k]) == q(c[k]),
    ensures
        keep_where(c, p) == keep_where(c, q),
    decreases c.len(),
{
    if c.len() > 0 {
        let d = c.drop_last();
        assert forall|k: int| 0 <= k < d.len() implies p(#[trigger] d[k]) == q(d[k]) by {
            assert(d[k] == c[k]);
        }
        lemma_keep_ext(d, p, q);
        assert(p(c[c.len() - 1]) == q(c[c.len() - 1]));
    }
}

} // verus!

verus! {

/// Equality of optional numbers, numerically.
pub open spec fn opt_num_same(a: Option<Seq<char>>, b: Option<Seq<char>>) -> bool {
    match (a, b) {
        (Some(x), Some(y)) => num_same(x, y),
        (None, None) => true,
        _ => false,
    }
}

/// Field-by-field equality of two filters, numbers compared numerically.
pub open spec fn filter_same(a: FilterV, b: FilterV) -> bool {
    &&& a.enabled == b.enabled
    &&& a.kind == b.kind
    &&& num_same(a.freq, b.freq)
    &&& opt_num_same(a.gain, b.gain)
    &&& opt_num_same(a.q, b.q)
    &&& a.index == b.index
    &&& a.channel == b.channel
}

/// Equality of two lines, numbers compared numerically.
pub open spec fn line_same(a: LineV, b: LineV) -> bool {
    match (a, b) {
        (LineV::Preamp { gain: g1, channel: c1 }, LineV::Preamp { gain: g2, channel: c2 }) => num_same(
            g1,
            g2,
        ) && c1 == c2,
        (LineV::Filter(f), LineV::Filter(g)) => filter_same(f, g),
        (LineV::Raw(s), LineV::Raw(t)) => s == t,
        _ => false,
    }
}

/// Equality of two configurations: the same lines in the same order, numbers
/// compared numerically.
pub open spec fn config_same(a: Seq<LineV>, b: Seq<LineV>) -> bool {
    a.len() == b.len() && forall|i: int| 0 <= i < a.len() ==> line_same(#[trigger] a[i], b[i])
}

/// The filter bands of a configuration, in order.
pub open spec fn filters_of(c: Seq<LineV>) -> Seq<FilterV>
    decreases c.len(),
{
    if c.len() == 0 {
        Seq::empty()
    } else {
        match c.last() {
            LineV::Filter(f) => filters_of(c.drop_last()).push(f),
            _ => filters_of(c.drop_last()),
        }
    }
}

/// The gain of the first `Preamp:` line of a configuration.
pub open spec fn first_preamp(c: Seq<LineV>) -> Option<Seq<char>>
    decreases c.len(),
{
    if c.len() == 0 {
        None
    } else {
        match c[0] {
            LineV::Preamp { gain, .. } => Some(gain),
            _ => first_preamp(c.drop_first()),
        }
    }
}

/// The views of a sequence of filters.
pub open spec fn filters_view(fs: Seq<Filter>) -> Seq<FilterV> {
    Seq::new(fs.len(), |i: int| fs[i]@)
}

fn opt_same(a: &Option<Num>, b: &Option<Num>) -> (r: bool)
    ensures
        r == opt_num_same(opt_num_view(*a), opt_num_view(*b)),
{
    match (a, b) {
        (Some(x), Some(y)) => x.same(y),
        (None, None) => true,
        _ => false,
    }
}

impl Filter {
    /// Equality with another filter, numbers compared numerically.
    pub fn same(&self, other: &Filter) -> (r: bool)
        ensures
            r == filter_same(self@, other@),
    {
        self.enabled == other.enabled && self.kind == other.kind && self.freq.same(&other.freq)
            && opt_same(&self.gain, &other.gain) && opt_same(&self.q, &other.q) && self.index
            == other.index && self.channel.same(&other.channel)
    }
}

impl Line {
    /// Equality with another line, numbers compared numerically.
    pub fn same(&self, other: &Line) -> (r: bool)
        ensures
            r == line_same(self@, other@),
    {
        match (self, other) {
            (Line::Preamp { gain: g1, channel: c1 }, Line::Preamp { gain: g2, channel: c2 }) => g1.same(
                g2,
            ) && c1.same(c2),
            (Line::Filter(f), Line::Filter(g)) => f.same(g),
            (Line::Raw(s), Line::Raw(t)) => text::str_eq(s.as_str(), t.as_str()),
            _ => false,
        }
    }
}

proof fn lemma_first_preamp_skip(c: Seq<LineV>, i: int)
    requires
        0 <= i <= c.len(),
        forall|k: int| 0 <= k < i ==> !(#[trigger] c[k] is Preamp),
    ensures
        first_preamp(c) == first_preamp(c.skip(i)),
    decreases i,
{
    if i > 0 {
        let t = c.drop_first();
        assert forall|k: int| 0 <= k < i - 1 implies !(#[trigger] t[k] is Preamp) by {
            assert(t[k] == c[k + 1]);
        }
        lemma_first_preamp_skip(t, i - 1);
        assert(t.skip(i - 1) =~= c.skip(i));
    } else {
        assert(c.skip(0) =~= c);
    }
}

impl Config {
    /// Equality with another configuration: the same lines in order, numbers
    /// compared numerically.
    pub fn same(&self, other: &Config) -> (r: bool)
        ensures
            r == config_same(self@, other@),
    {
        if self.lines.len() != other.lines.len() {
            return false;
        }
        let mut i: usize = 0;
        while i < self.lines.len()
            invariant
                i <= self.lines.len(),
                self.lines.len() == other.lines.len(),
                forall|k: int| 0 <= k < i ==> line_same(#[trigger] self@[k], other@[k]),
            decreases self.lines.len() - i,
        {
            if !self.lines[i].same(&other.lines[i]) {
                assert(!line_same(self@[i as int], other@[i as int]));
                return false;
            }
            i = i + 1;
        }
        true
    }

    /// The filter bands, in order.
    pub fn filters(&self) -> (r: Vec<Filter>)
        ensures
            filters_view(r@) == filters_of(self@),
    {
        let ghost c = self@;
        let mut out: Vec<Filter> = Vec::new();
        let mut i: usize = 0;
        while i < self.lines.len()
            invariant
                i <= self.lines.len(),
                c == self@,
                filters_view(out@) == filters_of(c.take(i as int)),
            decreases self.lines.len() - i,
        {
            proof {
                assert(c.take(i + 1).drop_last() =~= c.take(i as int));
                assert(c.take(i + 1).last() == self.lines@[i as int]@);
            }
            match &self.lines[i] {
                Line::Filter(f) => {
                    let g = f.duplicate();
                    let ghost before = out@;
                    out.push(g);
                    proof {
                        assert(filters_view(out@) =~= filters_view(before).push(f@));
                    }
                },
                _ => {},
            }
            i = i + 1;
        }
        assert(c.take(i as int) =~= c);
        out
    }

    /// The gain of the first `Preamp:` line, if any.
    pub fn preamp(&self) -> (r: Option<Num>)
        ensures
            opt_num_view(r) == first_preamp(self@),
    {
        let mut i: usize = 0;
        while i < self.lines.len()
            invariant
                i <= self.lines.len(),
                forall|k: int| 0 <= k < i ==> !(#[trigger] self@[k] is Preamp),
            decreases self.lines.len() - i,
        {
            match &self.lines[i] {
                Line::Preamp { gain, .. } => {
                    proof {
                        lemma_first_preamp_skip(self@, i as int);
                        assert(self@.skip(i as int)[0] == self@[i as int]);
                    }
                    return Some(gain.duplicate());
                },
                _ => {},
            }
            i = i + 1;
        }
        proof {
            lemma_first_preamp_skip(self@, i as int);
        }
        None
    }
}

} // verus!

verus! {

/// A master preamp: a `Preamp:` on both channels.
pub open spec fn is_master(l: LineV) -> bool {
    l matches LineV::Preamp { channel, .. } && channel is Both
}

/// The lines that count for equivalence: all but the master preamps.
pub open spec fn unmastered(c: Seq<LineV>) -> Seq<LineV> {
    keep_where(c, |l: LineV| !is_master(l))
}

/// A number text with both spellings of zero written as `0`.
pub open spec fn num_key(t: Seq<char>) -> Seq<char> {
    if num_is_zero(t) {
        seq!['0']
    } else {
        t
    }
}

/// [`num_key`] of an optional number.
pub open spec fn opt_num_key(o: Option<Seq<char>>) -> Option<Seq<char>> {
    match o {
        Some(t) => Some(num_key(t)),
        None => None,
    }
}

/// A line with its numbers in [`num_key`] form: two lines without a
/// not-a-number are equal numerically exactly when their keys are equal.
pub open spec fn line_key(l: LineV) -> LineV {
    match l {
        LineV::Preamp { gain, channel } => LineV::Preamp { gain: num_key(gain), channel },
        LineV::Filter(f) => LineV::Filter(
            FilterV {
                enabled: f.enabled,
                kind: f.kind,
                freq: num_key(f.freq),
                gain: opt_num_key(f.gain),
                q: opt_num_key(f.q),
                index: f.index,
                channel: f.channel,
            },
        ),
        LineV::Raw(s) => LineV::Raw(s),
    }
}

/// Whether an optional number is not-a-number.
pub open spec fn opt_num_is_nan(o: Option<Seq<char>>) -> bool {
    o matches Some(t) && num_is_nan(t)
}

/// Whether a line holds a not-a-number value (such a line equals no line).
pub open spec fn line_has_nan(l: LineV) -> bool {
    match l {
        LineV::Preamp { gain, .. } => num_is_nan(gain),
        LineV::Filter(f) => num_is_nan(f.freq) || opt_num_is_nan(f.gain) || opt_num_is_nan(f.q),
        LineV::Raw(_) => false,
    }
}

/// The keys of a sequence of lines.
pub open spec fn line_keys(s: Seq<LineV>) -> Seq<LineV> {
    s.map_values(|l: LineV| line_key(l))
}

/// Whether no line of `s` holds a not-a-number value.
pub open spec fn nan_free(s: Seq<LineV>) -> bool {
    forall|i: int| 0 <= i < s.len() ==> !line_has_nan(#[trigger] s[i])
}

/// The same lines in any order, numbers compared numerically: neither side
/// holds a not-a-number, and the lines' keys form the same multiset.
pub open spec fn same_in_any_order(a: Seq<LineV>, b: Seq<LineV>) -> bool {
    &&& nan_free(a)
    &&& nan_free(b)
    &&& line_keys(a).to_multiset() == line_keys(b).to_multiset()
}

/// Whether two configs are equivalent EQ: the same lines in any order, numbers
/// compared numerically, once the master preamps are left out on both sides.
pub open spec fn equivalent(a: Seq<LineV>, b: Seq<LineV>) -> bool {
    same_in_any_order(unmastered(a), unmastered(b))
}

/// Numeric equality is equality of keys, for a line without a not-a-number.
pub proof fn lemma_line_same_is_key_eq(x: LineV, y: LineV)
    ensures
        line_same(x, y) == (line_key(x) == line_key(y) && !line_has_nan(x)),
        line_has_nan(line_key(x)) == line_has_nan(x),
{
    match (x, y) {
        (LineV::Filter(f), LineV::Filter(g)) => {
            if line_key(x) == line_key(y) {
                assert(num_key(f.freq) == num_key(g.freq));
                assert(opt_num_key(f.gain) == opt_num_key(g.gain));
                assert(opt_num_key(f.q) == opt_num_key(g.q));
            }
        },
        (LineV::Preamp { gain: g1, channel: c1 }, LineV::Preamp { gain: g2, channel: c2 }) => {
            if line_key(x) == line_key(y) {
                assert(num_key(g1) == num_key(g2));
            }
        },
        _ => {},
    }
}

/// Sequences with the same multiset of lines have the same multiset of keys.
pub proof fn lemma_keys_multiset(s: Seq<LineV>, t: Seq<LineV>)
    requires
        s.to_multiset() == t.to_multiset(),
    ensures
        line_keys(s).to_multiset() == line_keys(t).to_multiset(),
    decreases s.len(),
{
    broadcast use vstd::seq_lib::group_to_multiset_ensures;

    if s.len() == 0 {
        assert(s.to_multiset().len() == s.len());
        assert(t.to_multiset().len() == t.len());
        assert(line_keys(s) =~= line_keys(t));
    } else {
        let x = s.last();
        let s1 = s.drop_last();
        assert(s1.push(x) =~= s);
        assert(s.to_multiset().count(x) > 0);
        assert(t.contains(x));
        let j = choose|j: int| 0 <= j < t.len() && t[j] == x;
        let t1 = t.remove(j);
        assert(s1.to_multiset() =~= t1.to_multiset());
        lemma_keys_multiset(s1, t1);
        assert(line_keys(s) =~= line_keys(s1).push(line_key(x)));
        assert(line_keys(t1) =~= line_keys(t).remove(j));
        assert(line_keys(t)[j] == line_key(x));
        assert(line_keys(t).to_multiset().count(line_key(x)) > 0);
        assert(line_keys(t).to_multiset() =~= line_keys(t1).to_multiset().insert(line_key(x)));
    }
}

/// A side with no not-a-number and the same keys as the other leaves the
/// other with none either.
proof fn lemma_nan_free_transfers(a: Seq<LineV>, b: Seq<LineV>)
    requires
        nan_free(a),
        line_keys(a).to_multiset() == line_keys(b).to_multiset(),
    ensures
        nan_free(b),
{
    broadcast use vstd::seq_lib::group_to_multiset_ensures;

    assert forall|j: int| 0 <= j < b.len() implies !line_has_nan(#[trigger] b[j]) by {
        let k = line_key(b[j]);
        assert(line_keys(b)[j] == k);
        assert(line_keys(b).to_multiset().count(k) > 0);
        assert(line_keys(a).contains(k));
        let i = choose|i: int| 0 <= i < line_keys(a).len() && line_keys(a)[i] == k;
        lemma_line_same_is_key_eq(a[i], a[i]);
        lemma_line_same_is_key_eq(b[j], b[j]);
    }
}

/// The lines of `c` other than its master preamps.
fn unmastered_lines(c: &Config) -> (r: Config)
    ensures
        r@ == unmastered(c@),
{
    let ghost cv = c@;
    let ghost p = |l: LineV| !is_master(l);
    let mut lines: Vec<Line> = Vec::new();
    let mut i: usize = 0;
    while i < c.lines.len()
        invariant
            i <= c.lines.len(),
            cv == c@,
            p == (|l: LineV| !is_master(l)),
            lines_view(lines@) == keep_where(cv.take(i as int), p),
        decreases c.lines.len() - i,
    {
        proof {
            lemma_keep_step(cv, i as int, p);
        }
        let keep = match &c.lines[i] {
            Line::Preamp { channel: Channel::Both, .. } => false,
            _ => true,
        };
        if keep {
            let l = c.lines[i].duplicate();
            proof {
                lemma_lines_view_push(lines@, l);
            }
            lines.push(l);
        }
        i = i + 1;
    }
    proof {
        lemma_keep_take_all(cv, p);
    }
    Config { lines }
}

/// Whether `a` and `b` hold the same lines in any order: each line of `a` is
/// matched against a numerically equal line of `b` not matched before.
fn same_lines_in_any_order(a: &Config, b: &Config) -> (r: bool)
    ensures
        r == same_in_any_order(a@, b@),
{
    broadcast use vstd::seq_lib::group_to_multiset_ensures;

    let ghost av = a@;
    let ghost bv = b@;
    let mut rest = b.duplicate().lines;
    let mut i: usize = 0;
    while i < a.lines.len()
        invariant
            i <= a.lines.len(),
            av == a@,
            bv == b@,
            nan_free(av.take(i as int)),
            line_keys(av.take(i as int)).to_multiset().add(line_keys(lines_view(rest@)).to_multiset())
                == line_keys(bv).to_multiset(),
        decreases a.lines.len() - i,
    {
        let ghost rv = lines_view(rest@);
        let ghost k = line_key(av[i as int]);
        let mut found = false;
        let mut j: usize = 0;
        while j < rest.len()
            invariant
                j <= rest.len(),
                rv == lines_view(rest@),
                i < a.lines.len(),
                av == a@,
                k == line_key(av[i as int]),
                !found ==> forall|m: int| 0 <= m < j ==> !line_same(av[i as int], #[trigger] rv[m]),
                found ==> j < rest.len() && line_same(av[i as int], rv[j as int]),
            ensures
                found ==> j < rest.len() && line_same(av[i as int], rv[j as int]),
                !found ==> forall|m: int| 0 <= m < rest.len() ==> !line_same(av[i as int], #[trigger] rv[m]),
            decreases rest.len() - j + (if found { 0int } else { 1int }),
        {
            if a.lines[i].same(&rest[j]) {
                found = true;
                break;
            }
            j = j + 1;
        }
        if !found {
            proof {
                lemma_line_same_is_key_eq(av[i as int], av[i as int]);
                if !line_has_nan(av[i as int]) {
                    assert(!line_keys(rv).contains(k)) by {
                        if line_keys(rv).contains(k) {
                            let m = choose|m: int| 0 <= m < line_keys(rv).len() && line_keys(rv)[m] == k;
                            lemma_line_same_is_key_eq(av[i as int], rv[m]);
                            assert(!line_same(av[i as int], rv[m]));
                        }
                    }
                    let t = line_keys(av.take(i as int));
                    assert(line_keys(av.take(i + 1)) =~= t.push(k));
                    assert(av =~= av.take(i + 1) + av.skip(i + 1));
                    assert(line_keys(av) =~= line_keys(av.take(i + 1)) + line_keys(av.skip(i + 1)));
                    vstd::seq_lib::lemma_multiset_commutative(line_keys(av.take(i + 1)), line_keys(av.skip(i + 1)));
                    vstd::seq_lib::to_multiset_build(t, k);
                    assert(line_keys(av.take(i + 1)).to_multiset() =~= t.to_multiset().insert(k));
                    vstd::seq_lib::to_multiset_contains(line_keys(rv), k);
                    assert(line_keys(bv).to_multiset().count(k) == t.to_multiset().count(k));
                    assert(line_keys(av).to_multiset().count(k) >= line_keys(av.take(i + 1)).to_multiset().count(k));
                    assert(line_keys(av).to_multiset().count(k) > line_keys(bv).to_multiset().count(k));
                } else {
                    assert(av[i as int] == av[i as int]);
                }
                assert(!same_in_any_order(av, bv));
            }
            return false;
        }
        let ghost before = rest@;
        let ghost m = j as int;
        proof {
            lemma_line_same_is_key_eq(av[i as int], rv[m]);
        }
        rest.remove(j);
        proof {
            assert(lines_view(rest@) =~= rv.remove(m));
            assert(line_keys(rv.remove(m)) =~= line_keys(rv).remove(m));
            assert(line_keys(rv)[m] == k);
            assert(line_keys(rv).contains(k));
            vstd::seq_lib::to_multiset_contains(line_keys(rv), k);
            vstd::seq_lib::to_multiset_remove(line_keys(rv), m);
            assert(line_keys(av.take(i + 1)) =~= line_keys(av.take(i as int)).push(k));
            vstd::seq_lib::to_multiset_build(line_keys(av.take(i as int)), k);
            assert(av.take(i + 1).drop_last() =~= av.take(i as int));
            assert(line_keys(av.take(i + 1)).to_multiset().add(line_keys(lines_view(rest@)).to_multiset())
                =~= line_keys(av.take(i as int)).to_multiset().add(line_keys(rv).to_multiset()));
        }
        i = i + 1;
    }
    proof {
        assert(av.take(i as int) =~= av);
        if rest.len() == 0 {
            assert(line_keys(lines_view(rest@)).to_multiset() =~= vstd::multiset::Multiset::empty());
            assert(line_keys(av).to_multiset() =~= line_keys(bv).to_multiset());
            lemma_nan_free_transfers(av, bv);
        } else {
            let x = line_keys(lines_view(rest@))[0];
            assert(line_keys(lines_view(rest@)).to_multiset().count(x) > 0);
            assert(line_keys(bv).to_multiset().count(x) > line_keys(av).to_multiset().count(x));
        }
    }
    rest.len() == 0
}

impl Config {
    /// Whether `other` is the same EQ, ignoring the order of the lines and the
    /// master (both-channel) preamp, which Auto Preamp rewrites: every other
    /// line of one side matches a numerically equal line of the other, one for
    /// one.
    pub fn is_equivalent(&self, other: &Config) -> (r: bool)
        ensures
            r == equivalent(self@, other@),
    {
        same_lines_in_any_order(&unmastered_lines(self), &unmastered_lines(other))
    }
}

/// Reordering the lines, and adding, dropping or changing master preamps,
/// keeps a configuration equivalent to the original.
pub proof fn law_equivalence_ignores_order_and_master_preamp(a: Seq<LineV>, b: Seq<LineV>)
    requires
        unmastered(a).to_multiset() == unmastered(b).to_multiset(),
        nan_free(unmastered(a)),
    ensures
        equivalent(a, b),
        equivalent(b, a),
{
    lemma_keys_multiset(unmastered(a), unmastered(b));
    lemma_nan_free_transfers(unmastered(a), unmastered(b));
}

} // verus!
