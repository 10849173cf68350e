//! Per-preset version history: normalized snapshots of a preset's prior EQ,
//! recorded before every destructive mutation so overwritten saves and deleted
//! presets are recoverable.
//!
//! Snapshots live at `<preset store>\.history\<name>\<unix-ms>-<op>.txt`. Each
//! is the preset's EQ in **normal form** (see [`normalize`]): the master
//! preamp, no-op filters, the provenance stamp and the version tag are
//! stripped, everything else is kept verbatim. This module holds the naming,
//! ordering and comparison rules; reading and writing the files is the
//! caller's.

use crate::model::{
    keep_where, kind_has_gain, lemma_keep_all, lemma_keep_concat, lemma_keep_ext, lemma_keep_id,
    lemma_keep_keep, lemma_keep_preserves, lemma_keep_step, lemma_keep_take_all, lemma_lines_view_push,
    lines_view, num_is_zero, ChannelV, Config, Filter, FilterV, Line, LineV,
};
use crate::provenance;
use crate::provenance::{is_stamp, without_stamps};
use crate::serialize;
use crate::store::{safe_name, StoreError};
use crate::text;
use crate::order::text_lt;
use crate::text::{dec, first_index_of, last_index_of, trimmed, u64_of_text};
use vstd::prelude::*;

verus! {

/// How many revisions to keep per preset.
pub const KEEP_MAX: usize = 30;

/// The version-tag marker: a user-editable name for a revision, carried as a
/// comment so it rides with the content it describes.
pub const TAG_PREFIX: &'static str = "# fastpeq:tag=";

/// What displaced a snapshot's content.
#[derive(Debug, Clone, Copy, PartialEq, Eq, Structural)]
pub enum RevisionOp {
    /// Overwritten by a save (or a capture over an existing name).
    Save,
    /// The preset was deleted; this snapshot is the undo-delete.
    Delete,
    /// Overwritten by restoring an older revision.
    Restore,
}

/// The lowercase word for an operation.
pub open spec fn op_word(op: RevisionOp) -> Seq<char> {
    match op {
        RevisionOp::Save => seq!['s', 'a', 'v', 'e'],
        RevisionOp::Delete => seq!['d', 'e', 'l', 'e', 't', 'e'],
        RevisionOp::Restore => seq!['r', 'e', 's', 't', 'o', 'r', 'e'],
    }
}

/// The operation a word names (exact, lowercase).
pub open spec fn op_of_word(w: Seq<char>) -> Option<RevisionOp> {
    if w == op_word(RevisionOp::Save) {
        Some(RevisionOp::Save)
    } else if w == op_word(RevisionOp::Delete) {
        Some(RevisionOp::Delete)
    } else if w == op_word(RevisionOp::Restore) {
        Some(RevisionOp::Restore)
    } else {
        None
    }
}

proof fn lemma_op_literals()
    ensures
        "save"@ == op_word(RevisionOp::Save),
        "delete"@ == op_word(RevisionOp::Delete),
        "restore"@ == op_word(RevisionOp::Restore),
{
    reveal_strlit("save");
    reveal_strlit("delete");
    reveal_strlit("restore");
    assert("save"@ =~= op_word(RevisionOp::Save));
    assert("delete"@ =~= op_word(RevisionOp::Delete));
    assert("restore"@ =~= op_word(RevisionOp::Restore));
}

impl RevisionOp {
    /// The word this operation is written as in a revision id.
    pub fn as_str(self) -> (s: &'static str)
        ensures
            s@ == op_word(self),
    {
        proof {
            lemma_op_literals();
        }
        match self {
            RevisionOp::Save => "save",
            RevisionOp::Delete => "delete",
            RevisionOp::Restore => "restore",
        }
    }

    /// The operation a word names, or `None`.
    pub fn from_str(s: &str) -> (r: Option<RevisionOp>)
        ensures
            r == op_of_word(s@),
    {
        proof {
            lemma_op_literals();
        }
        if text::str_eq(s, "save") {
            Some(RevisionOp::Save)
        } else if text::str_eq(s, "delete") {
            Some(RevisionOp::Delete)
        } else if text::str_eq(s, "restore") {
            Some(RevisionOp::Restore)
        } else {
            None
        }
    }
}

/// One recorded snapshot, as listed to the UI.
#[derive(Debug, Clone)]
pub struct Revision {
    /// `<unix-ms>-<op>` — also the file stem, so it doubles as the load key.
    pub id: String,
    pub saved_at_ms: u64,
    pub op: RevisionOp,
    /// The user's name for this version, if any.
    pub tag: Option<String>,
}

/// Whether a line is a version-tag comment.
pub open spec fn is_tag(l: LineV) -> bool {
    match l {
        LineV::Raw(s) => TAG_PREFIX@.is_prefix_of(trimmed(s)),
        _ => false,
    }
}

/// The non-empty tag a line carries.
pub open spec fn tag_text(l: LineV) -> Option<Seq<char>> {
    match l {
        LineV::Raw(s) => if TAG_PREFIX@.is_prefix_of(trimmed(s)) {
            let t = trimmed(trimmed(s).skip(TAG_PREFIX@.len() as int));
            if t.len() > 0 {
                Some(t)
            } else {
                None
            }
        } else {
            None
        },
        _ => None,
    }
}

/// The first non-empty version tag in `c`.
pub open spec fn tag_in(c: Seq<LineV>) -> Option<Seq<char>>
    decreases c.len(),
{
    if c.len() == 0 {
        None
    } else if tag_text(c[0]) is Some {
        tag_text(c[0])
    } else {
        tag_in(c.drop_first())
    }
}

/// The tag comment line for a (trimmed, non-empty) tag.
pub open spec fn tag_line(t: Seq<char>) -> LineV {
    LineV::Raw(TAG_PREFIX@ + t)
}

/// `c` with its version tags replaced by `tag` — or removed, when `tag` trims
/// to empty. The tag leads the file.
pub open spec fn tagged(c: Seq<LineV>, tag: Seq<char>) -> Seq<LineV> {
    let t = trimmed(tag);
    let head = if t.len() > 0 {
        seq![tag_line(t)]
    } else {
        Seq::empty()
    };
    head + keep_where(c, |l: LineV| !is_tag(l))
}

/// A gain-type filter at 0 dB (a missing `Gain` counts as 0 dB) shapes nothing.
pub open spec fn is_noop(f: FilterV) -> bool {
    kind_has_gain(f.kind) && match f.gain {
        None => true,
        Some(g) => num_is_zero(g),
    }
}

/// Whether a line survives normalization: master preamps, no-op filters and
/// version tags do not.
pub open spec fn keeps_in_normal_form(l: LineV) -> bool {
    match l {
        LineV::Preamp { channel: ChannelV::Both, .. } => false,
        LineV::Filter(f) => !is_noop(f),
        LineV::Raw(_) => !is_tag(l),
        _ => true,
    }
}

/// A preset's EQ in normal form: stamp, master preamp, no-op filters and
/// version tags removed; everything else untouched and in order.
pub open spec fn normal_form(c: Seq<LineV>) -> Seq<LineV> {
    keep_where(without_stamps(c), |l: LineV| keeps_in_normal_form(l))
}

proof fn lemma_tag_prefix_facts()
    ensures
        TAG_PREFIX@.len() > 0,
        !text::is_ws(TAG_PREFIX@[0]),
        !text::is_ws(TAG_PREFIX@.last()),
{
    reveal_strlit("# fastpeq:tag=");
}

/// Whether a line is a version-tag comment.
pub fn is_tag_line(line: &Line) -> (b: bool)
    ensures
        b == is_tag(line@),
{
    match line {
        Line::Raw(s) => text::starts_with(text::trim(s.as_str()), TAG_PREFIX),
        _ => false,
    }
}

fn line_tag(line: &Line) -> (r: Option<String>)
    ensures
        match r {
            Some(t) => tag_text(line@) == Some(t@),
            None => tag_text(line@) is None,
        },
{
    match line {
        Line::Raw(s) => match text::strip_prefix(text::trim(s.as_str()), TAG_PREFIX) {
            Some(rest) => {
                let t = text::trim(rest);
                if t.unicode_len() > 0 {
                    Some(text::owned(t))
                } else {
                    None
                }
            },
            None => None,
        },
        _ => None,
    }
}

proof fn lemma_tag_in_skip(c: Seq<LineV>, i: int)
    requires
        0 <= i <= c.len(),
        forall|k: int| 0 <= k < i ==> tag_text(#[trigger] c[k]) is None,
    ensures
        tag_in(c) == tag_in(c.skip(i)),
    decreases i,
{
    if i > 0 {
        let t = c.drop_first();
        assert forall|k: int| 0 <= k < i - 1 implies tag_text(#[trigger] t[k]) is None by {
            assert(t[k] == c[k + 1]);
        }
        lemma_tag_in_skip(t, i - 1);
        assert(t.skip(i - 1) =~= c.skip(i));
    } else {
        assert(c.skip(0) =~= c);
    }
}

/// The version tag recorded in `config`, if any (empty tags read as none).
pub fn tag_of(config: &Config) -> (r: Option<String>)
    ensures
        match r {
            Some(t) => tag_in(config@) == Some(t@),
            None => tag_in(config@) is None,
        },
{
    let mut i: usize = 0;
    while i < config.lines.len()
        invariant
            i <= config.lines.len(),
            forall|k: int| 0 <= k < i ==> tag_text(#[trigger] config@[k]) is None,
        decreases config.lines.len() - i,
    {
        match line_tag(&config.lines[i]) {
            Some(t) => {
                proof {
                    lemma_tag_in_skip(config@, i as int);
                    assert(config@.skip(i as int)[0] == config@[i as int]);
                }
                return Some(t);
            },
            None => {},
        }
        i = i + 1;
    }
    proof {
        lemma_tag_in_skip(config@, i as int);
    }
    None
}

/// `config` with its version tag replaced by `tag` — or removed, when `tag`
/// trims to empty.
pub fn with_tag(config: &Config, tag: &str) -> (r: Config)
    ensures
        r@ == tagged(config@, tag@),
{
    let t = text::trim(tag);
    let mut lines: Vec<Line> = Vec::new();
    if t.unicode_len() > 0 {
        lines.push(Line::Raw(text::concat(TAG_PREFIX, t)));
    }
    let ghost head = lines_view(lines@);
    let ghost c = config@;
    let ghost p = |l: LineV| !is_tag(l);
    let mut i: usize = 0;
    while i < config.lines.len()
        invariant
            i <= config.lines.len(),
            c == config@,
            p == (|l: LineV| !is_tag(l)),
            lines_view(lines@) == head + keep_where(c.take(i as int), p),
        decreases config.lines.len() - i,
    {
        proof {
            lemma_keep_step(c, i as int, p);
        }
        if !is_tag_line(&config.lines[i]) {
            let l = config.lines[i].duplicate();
            proof {
                lemma_lines_view_push(lines@, l);
            }
            lines.push(l);
            assert(head + keep_where(c.take(i as int), p).push(c[i as int]) =~= (head + keep_where(
                c.take(i as int),
                p,
            )).push(c[i as int]));
        }
        i = i + 1;
    }
    proof {
        lemma_keep_take_all(c, p);
    }
    let r = Config { lines };
    assert(r@ =~= tagged(config@, tag@));
    r
}

/// Whether a filter is a no-op: a gain-type filter at 0 dB.
pub fn is_noop_filter(f: &Filter) -> (b: bool)
    ensures
        b == is_noop(f@),
{
    f.kind.has_gain() && match &f.gain {
        None => true,
        Some(g) => g.is_zero(),
    }
}

fn keeps_normal(line: &Line) -> (b: bool)
    ensures
        b == keeps_in_normal_form(line@),
{
    match line {
        Line::Preamp { channel: crate::model::Channel::Both, .. } => false,
        Line::Filter(f) => !is_noop_filter(f),
        Line::Raw(_) => !is_tag_line(line),
        _ => true,
    }
}

/// A preset's EQ in the normal form snapshots are stored and compared in: the
/// provenance stamp, master (`Both`-channel) preamps, no-op filters and
/// version tags removed; balance trims, disabled bands with real settings and
/// unmodeled raw lines untouched.
pub fn normalize(config: &Config) -> (r: Config)
    ensures
        r@ == normal_form(config@),
{
    let stripped = provenance::strip(config);
    let ghost c = stripped@;
    let ghost p = |l: LineV| keeps_in_normal_form(l);
    let mut lines: Vec<Line> = Vec::new();
    let mut i: usize = 0;
    while i < stripped.lines.len()
        invariant
            i <= stripped.lines.len(),
            c == stripped@,
            p == (|l: LineV| keeps_in_normal_form(l)),
            lines_view(lines@) == keep_where(c.take(i as int), p),
        decreases stripped.lines.len() - i,
    {
        proof {
            lemma_keep_step(c, i as int, p);
        }
        if keeps_normal(&stripped.lines[i]) {
            let l = stripped.lines[i].duplicate();
            proof {
                lemma_lines_view_push(lines@, l);
            }
            lines.push(l);
        }
        i = i + 1;
    }
    proof {
        lemma_keep_take_all(c, p);
    }
    Config { lines }
}

/// The canonical stored/compared text of a config: normalized, serialized,
/// newline-terminated.
pub fn normal_text(config: &Config) -> (r: String)
    ensures
        r@ == serialize::serialized(normal_form(config@)).push('\n'),
{
    serialize::file_text(&normalize(config))
}

} // verus!

verus! {

proof fn lemma_trimmed_ends(t: Seq<char>)
    requires
        t.len() > 0,
        trimmed(t) == t,
    ensures
        !text::is_ws(t[0]),
        !text::is_ws(t.last()),
{
    let ts = text::trimmed_start(t);
    text::lemma_trim_start_shape(t);
    text::lemma_trim_end_shape(ts);
    if text::is_ws(t[0]) {
        text::lemma_trim_start_shape(t.drop_first());
        assert(false);
    }
    assert(ts == t);
    text::lemma_trim_end_shape(t);
}

proof fn lemma_tag_line_shape(t: Seq<char>)
    requires
        t.len() > 0,
        trimmed(t) == t,
    ensures
        is_tag(tag_line(t)),
        tag_text(tag_line(t)) == Some(t),
        !is_stamp(tag_line(t)),
        !keeps_in_normal_form(tag_line(t)),
{
    lemma_tag_prefix_facts();
    lemma_trimmed_ends(t);
    let a = TAG_PREFIX@;
    assert((a + t)[0] == a[0]);
    assert((a + t).last() == t.last());
    text::lemma_trim_fixed(a + t);
    assert(trimmed(a + t) == a + t);
    assert(a.is_prefix_of(a + t)) by {
        assert((a + t).take(a.len() as int) =~= a);
    }
    assert((a + t).skip(a.len() as int) =~= t);
    provenance::lemma_prefix_facts();
    reveal_strlit("# fastpeq:tag=");
    reveal_strlit("# fastpeq:preset=");
    assert((a + t)[10] == 't');
    assert(provenance::stamp_prefix()[10] == 'p');
    if provenance::stamp_prefix().is_prefix_of(a + t) {
        assert((a + t)[10] == provenance::stamp_prefix()[10]);
    }
}

/// Filtering out a line a predicate rejects, when it is all there is.
proof fn lemma_keep_single(x: LineV, p: spec_fn(LineV) -> bool)
    ensures
        keep_where(seq![x], p) == if p(x) { seq![x] } else { Seq::<LineV>::empty() },
{
    let c = seq![x];
    assert(c.last() == x);
    assert(c.drop_last() =~= Seq::<LineV>::empty());
    assert(keep_where(c.drop_last(), p) == c.drop_last());
    if p(x) {
        assert(c.drop_last().push(x) =~= c);
    }
}

proof fn lemma_tag_in_none(c: Seq<LineV>)
    requires
        forall|k: int| 0 <= k < c.len() ==> !is_tag(#[trigger] c[k]),
    ensures
        tag_in(c) is None,
{
    assert forall|k: int| 0 <= k < c.len() implies tag_text(#[trigger] c[k]) is None by {
        assert(!is_tag(c[k]));
    }
    lemma_tag_in_skip(c, c.len() as int);
    assert(c.skip(c.len() as int) =~= Seq::<LineV>::empty());
}

proof fn lemma_trimmed_is_trimmed(t: Seq<char>)
    ensures
        trimmed(trimmed(t)) == trimmed(t),
{
    text::lemma_trim_idempotent(t);
}

/// Tagging then reading the tag gives the trimmed tag — or no tag, when it
/// trims to empty.
pub proof fn law_tag_round_trip(c: Seq<LineV>, tag: Seq<char>)
    ensures
        tag_in(tagged(c, tag)) == if trimmed(tag).len() > 0 {
            Some(trimmed(tag))
        } else {
            None
        },
{
    let t = trimmed(tag);
    let p = |l: LineV| !is_tag(l);
    lemma_keep_all(c, p);
    if t.len() > 0 {
        lemma_trimmed_is_trimmed(tag);
        lemma_tag_line_shape(t);
        assert(tagged(c, tag)[0] == tag_line(t));
    } else {
        assert(tagged(c, tag) =~= keep_where(c, p));
        lemma_tag_in_none(keep_where(c, p));
    }
}

/// Re-tagging replaces the old tag rather than adding a second one.
pub proof fn law_retag_replaces(c: Seq<LineV>, first: Seq<char>, second: Seq<char>)
    ensures
        tagged(tagged(c, first), second) == tagged(c, second),
{
    let p = |l: LineV| !is_tag(l);
    let t = trimmed(first);
    let head = if t.len() > 0 {
        seq![tag_line(t)]
    } else {
        Seq::empty()
    };
    if t.len() > 0 {
        lemma_trimmed_is_trimmed(first);
        lemma_tag_line_shape(t);
    }
    assert(keep_where(head, p) =~= Seq::<LineV>::empty()) by {
        if t.len() > 0 {
            lemma_keep_single(tag_line(t), p);
        }
    }
    lemma_keep_concat(head, keep_where(c, p), p);
    lemma_keep_all(c, p);
    lemma_keep_id(keep_where(c, p), p);
    assert(Seq::<LineV>::empty() + keep_where(c, p) =~= keep_where(c, p));
}

/// Every line of the normal form is real EQ content: no stamp, no tag, no
/// master preamp, no no-op filter.
pub proof fn law_normal_form_is_clean(c: Seq<LineV>)
    ensures
        forall|k: int| 0 <= k < normal_form(c).len() ==> keeps_in_normal_form(#[trigger] normal_form(c)[k])
            && !is_stamp(normal_form(c)[k]),
{
    let kn = |l: LineV| keeps_in_normal_form(l);
    let ns = |l: LineV| !is_stamp(l);
    lemma_keep_all(without_stamps(c), kn);
    provenance::lemma_without_stamps_has_none(c);
    lemma_keep_preserves(without_stamps(c), kn, ns);
}

/// Normalizing is idempotent.
pub proof fn law_normalize_idempotent(c: Seq<LineV>)
    ensures
        normal_form(normal_form(c)) == normal_form(c),
{
    let n = normal_form(c);
    let kn = |l: LineV| keeps_in_normal_form(l);
    law_normal_form_is_clean(c);
    provenance::lemma_no_stamps_fixed(n);
    assert forall|k: int| 0 <= k < n.len() implies kn(#[trigger] n[k]) by {}
    lemma_keep_id(n, kn);
}

/// The normal form is what a configuration keeps of its lines: neither a
/// stamp nor something normalizing drops.
proof fn lemma_normal_form_is_keep(c: Seq<LineV>)
    ensures
        normal_form(c) == keep_where(c, |l: LineV| !is_stamp(l) && keeps_in_normal_form(l)),
{
    let ns = |l: LineV| !is_stamp(l);
    let kn = |l: LineV| keeps_in_normal_form(l);
    provenance::lemma_without_stamps_is_keep(c);
    lemma_keep_keep(c, ns, kn);
    let both = |l: LineV| ns(l) && kn(l);
    assert forall|k: int| 0 <= k < c.len() implies both(#[trigger] c[k]) == (!is_stamp(c[k])
        && keeps_in_normal_form(c[k])) by {}
    lemma_keep_ext(c, both, |l: LineV| !is_stamp(l) && keeps_in_normal_form(l));
}

/// Setting the master preamp, or stripping the stamp, never changes the
/// normal form: history compares content without either.
pub proof fn law_normal_form_ignores_master_and_stamp(c: Seq<LineV>, gain: Seq<char>)
    ensures
        normal_form(crate::offload::with_master(c, gain)) == normal_form(c),
        normal_form(without_stamps(c)) == normal_form(c),
{
    let p = |l: LineV| !is_stamp(l) && keeps_in_normal_form(l);
    let line = LineV::Preamp { gain, channel: ChannelV::Both };
    let x = crate::offload::with_master(c, gain);
    lemma_normal_form_is_keep(c);
    lemma_normal_form_is_keep(x);
    lemma_keep_single(line, p);
    crate::offload::lemma_first_master_bounds(c, c.len() as int);
    match crate::offload::first_master(c, c.len() as int) {
        Some(k) => {
            let a = c.take(k);
            let b = c.skip(k + 1);
            assert(c =~= a + seq![c[k]] + b);
            assert(x =~= a + seq![line] + b);
            lemma_keep_single(c[k], p);
            lemma_keep_concat(a + seq![c[k]], b, p);
            lemma_keep_concat(a, seq![c[k]], p);
            lemma_keep_concat(a + seq![line], b, p);
            lemma_keep_concat(a, seq![line], p);
            assert(keep_where(a, p) + Seq::<LineV>::empty() =~= keep_where(a, p));
        },
        None => {
            assert(x =~= seq![line] + c);
            lemma_keep_concat(seq![line], c, p);
            assert(Seq::<LineV>::empty() + keep_where(c, p) =~= keep_where(c, p));
        },
    }
    provenance::law_strip_idempotent(c);
}

/// Tags are metadata, not content: a tag never changes the normal form.
pub proof fn law_normalize_ignores_tag(c: Seq<LineV>, tag: Seq<char>)
    ensures
        normal_form(tagged(c, tag)) == normal_form(c),
{
    let t = trimmed(tag);
    let nt = |l: LineV| !is_tag(l);
    let ns = |l: LineV| !is_stamp(l);
    let kn = |l: LineV| keeps_in_normal_form(l);
    let head = if t.len() > 0 {
        seq![tag_line(t)]
    } else {
        Seq::empty()
    };
    if t.len() > 0 {
        lemma_trimmed_is_trimmed(tag);
        lemma_tag_line_shape(t);
    }
    let body = keep_where(c, nt);
    provenance::lemma_without_stamps_is_keep(head + body);
    provenance::lemma_without_stamps_is_keep(c);
    lemma_keep_concat(head, body, ns);
    lemma_keep_concat(keep_where(head, ns), keep_where(body, ns), kn);
    assert(keep_where(keep_where(head, ns), kn) =~= Seq::<LineV>::empty()) by {
        if t.len() > 0 {
            lemma_keep_single(tag_line(t), ns);
            lemma_keep_single(tag_line(t), kn);
        }
    }
    let q1 = |l: LineV| nt(l) && ns(l);
    let r1 = |l: LineV| q1(l) && kn(l);
    let r2 = |l: LineV| ns(l) && kn(l);
    lemma_keep_keep(c, nt, ns);
    assert(keep_where(body, ns) == keep_where(c, q1));
    lemma_keep_keep(c, q1, kn);
    assert(keep_where(keep_where(c, q1), kn) == keep_where(c, r1));
    lemma_keep_keep(c, ns, kn);
    assert(keep_where(keep_where(c, ns), kn) == keep_where(c, r2));
    assert forall|k: int| 0 <= k < c.len() implies r1(#[trigger] c[k]) == r2(c[k]) by {
        if ns(c[k]) && kn(c[k]) {
            assert(nt(c[k]));
        }
    }
    lemma_keep_ext(c, r1, r2);
    assert(normal_form(c) == keep_where(c, r2));
    assert(normal_form(tagged(c, tag)) == keep_where(keep_where(head, ns), kn) + keep_where(
        keep_where(body, ns),
        kn,
    ));
    assert(Seq::<LineV>::empty() + keep_where(keep_where(body, ns), kn) =~= keep_where(
        keep_where(body, ns),
        kn,
    ));
}

} // verus!

verus! {

/// The id of a revision recorded at `ms` by `op`: `<unix-ms>-<op>`.
pub open spec fn id_text(ms: u64, op: RevisionOp) -> Seq<char> {
    dec(ms as nat) + seq!['-'] + op_word(op)
}

/// A revision id split into its timestamp and operation: the text before the
/// first `-` read as a `u64`, the text after it as an operation word.
pub open spec fn id_parts(id: Seq<char>) -> Option<(u64, RevisionOp)> {
    match first_index_of(id, '-') {
        None => None,
        Some(k) => match (u64_of_text(id.take(k)), op_of_word(id.skip(k + 1))) {
            (Some(ms), Some(op)) => Some((ms, op)),
            _ => None,
        },
    }
}

/// A revision as the UI lists it, over plain values.
pub struct RevisionV {
    pub id: Seq<char>,
    pub saved_at_ms: u64,
    pub op: RevisionOp,
    pub tag: Option<Seq<char>>,
}

impl View for Revision {
    type V = RevisionV;

    open spec fn view(&self) -> RevisionV {
        RevisionV {
            id: self.id@,
            saved_at_ms: self.saved_at_ms,
            op: self.op,
            tag: match self.tag {
                Some(t) => Some(t@),
                None => None,
            },
        }
    }
}

/// The extension `Path::extension` reports for a file name: the text after
/// the last `.`, unless that `.` leads the name or there is none.
pub open spec fn extension_of(name: Seq<char>) -> Option<Seq<char>> {
    match last_index_of(name, '.') {
        Some(k) => if k > 0 {
            Some(name.skip(k + 1))
        } else {
            None
        },
        None => None,
    }
}

/// The stem `Path::file_stem` reports for a file name: the text before the
/// last `.`, or the whole name when it has no extension.
pub open spec fn stem_of(name: Seq<char>) -> Seq<char> {
    match last_index_of(name, '.') {
        Some(k) => if k > 0 {
            name.take(k)
        } else {
            name
        },
        None => name,
    }
}

/// The revision a file in a preset's history directory stands for: a `.txt`
/// file whose stem is a well-formed id. The tag is not read here.
pub open spec fn revision_of_file(name: Seq<char>) -> Option<RevisionV> {
    if extension_of(name) == Some(seq!['t', 'x', 't']) {
        match id_parts(stem_of(name)) {
            Some((ms, op)) => Some(RevisionV { id: stem_of(name), saved_at_ms: ms, op, tag: None }),
            None => None,
        }
    } else {
        None
    }
}

/// Split a revision id into its timestamp and operation, or `None` if it is
/// malformed.
pub fn parse_id(id: &str) -> (r: Option<(u64, RevisionOp)>)
    ensures
        r == id_parts(id@),
{
    let v = text::chars_of(id);
    match text::find_char(&v, '-') {
        None => None,
        Some(k) => {
            let ms_text = text::string_of_range(&v, 0, k);
            let op_text = text::string_of_range(&v, k + 1, v.len());
            proof {
                assert(ms_text@ =~= id@.take(k as int));
                assert(op_text@ =~= id@.skip(k + 1));
            }
            match text::parse_u64(ms_text.as_str()) {
                None => None,
                Some(ms) => match RevisionOp::from_str(op_text.as_str()) {
                    None => None,
                    Some(op) => Some((ms, op)),
                },
            }
        },
    }
}

/// The id of a revision recorded at `ms` by `op`.
pub fn format_id(ms: u64, op: RevisionOp) -> (r: String)
    ensures
        r@ == id_text(ms, op),
{
    let mut s = text::u64_text(ms);
    text::push_char(&mut s, '-');
    s.append(op.as_str());
    r_eq(s)
}

fn r_eq(s: String) -> (r: String)
    ensures
        r@ == s@,
{
    s
}

proof fn lemma_txt_literal()
    ensures
        "txt"@ == seq!['t', 'x', 't'],
{
    reveal_strlit("txt");
    assert("txt"@ =~= seq!['t', 'x', 't']);
}

/// A file name split into its stem and extension, as `Path::file_stem` and
/// `Path::extension` split it; `None` when it has no extension.
pub fn split_extension(file_name: &str) -> (r: Option<(String, String)>)
    ensures
        match r {
            Some((stem, ext)) => extension_of(file_name@) == Some(ext@) && stem_of(file_name@)
                == stem@,
            None => extension_of(file_name@) is None,
        },
{
    let v = text::chars_of(file_name);
    let k = match text::rfind_char(&v, '.') {
        Some(k) => k,
        None => return None,
    };
    if k == 0 {
        return None;
    }
    let ext = text::string_of_range(&v, k + 1, v.len());
    let stem = text::string_of_range(&v, 0, k);
    proof {
        assert(ext@ =~= file_name@.skip(k + 1));
        assert(stem@ =~= file_name@.take(k as int));
    }
    Some((stem, ext))
}

/// The revision a history file name stands for, or `None` for foreign files.
pub fn parse_revision(file_name: &str) -> (r: Option<Revision>)
    ensures
        match r {
            Some(rev) => revision_of_file(file_name@) == Some(rev@),
            None => revision_of_file(file_name@) is None,
        },
{
    proof {
        lemma_txt_literal();
    }
    let (stem, ext) = match split_extension(file_name) {
        Some(parts) => parts,
        None => return None,
    };
    if !text::str_eq(ext.as_str(), "txt") {
        return None;
    }
    match parse_id(stem.as_str()) {
        None => None,
        Some((ms, op)) => Some(Revision { id: stem, saved_at_ms: ms, op, tag: None }),
    }
}

proof fn lemma_op_words_differ(op: RevisionOp)
    ensures
        op_of_word(op_word(op)) == Some(op),
{
}

/// Formatting an id and splitting it again gives back its timestamp and
/// operation.
pub proof fn law_id_round_trip(ms: u64, op: RevisionOp)
    ensures
        id_parts(id_text(ms, op)) == Some((ms, op)),
{
    let d = dec(ms as nat);
    let id = id_text(ms, op);
    text::lemma_dec_reads_back(ms as nat);
    text::lemma_first_index_of(id, '-');
    assert(id[d.len() as int] == '-');
    match first_index_of(id, '-') {
        Some(k) => {
            if k < d.len() {
                assert(id[k] == d[k]);
                assert(text::is_digit(d[k]));
            }
            assert(k == d.len());
        },
        None => {
            assert(false);
        },
    }
    assert(id.take(d.len() as int) =~= d);
    assert(id.skip(d.len() as int + 1) =~= op_word(op));
    assert(text::is_digit(d[0]));
    lemma_op_words_differ(op);
}

} // verus!

verus! {

/// Revision `a` lists before `b`: newer first, ties broken by the larger id.
pub open spec fn newer(a: RevisionV, b: RevisionV) -> bool {
    a.saved_at_ms > b.saved_at_ms || (a.saved_at_ms == b.saved_at_ms && text_lt(b.id, a.id))
}

/// Where a stable insertion puts `r` into `s`: after every revision that
/// `r` is not newer than.
pub open spec fn rev_insert_pos(s: Seq<RevisionV>, r: RevisionV, from: int) -> int
    decreases s.len() - from,
{
    if from >= s.len() || from < 0 {
        s.len() as int
    } else if newer(r, s[from]) {
        from
    } else {
        rev_insert_pos(s, r, from + 1)
    }
}

/// Revisions newest first (by time, then id), ties in listing order — the
/// order a stable sort by that comparison gives.
pub open spec fn newest_first(s: Seq<RevisionV>) -> Seq<RevisionV>
    decreases s.len(),
{
    if s.len() == 0 {
        s
    } else {
        let r = newest_first(s.drop_last());
        r.insert(rev_insert_pos(r, s.last(), 0), s.last())
    }
}

/// The views of a list of revisions.
pub open spec fn revisions_view(v: Seq<Revision>) -> Seq<RevisionV> {
    Seq::new(v.len(), |i: int| v[i]@)
}

proof fn lemma_rev_insert_pos_bounds(s: Seq<RevisionV>, r: RevisionV, from: int)
    requires
        0 <= from <= s.len(),
    ensures
        from <= rev_insert_pos(s, r, from) <= s.len(),
    decreases s.len() - from,
{
    if from < s.len() && !newer(r, s[from]) {
        lemma_rev_insert_pos_bounds(s, r, from + 1);
    }
}

fn is_newer(a: &Revision, b: &Revision) -> (r: bool)
    ensures
        r == newer(a@, b@),
{
    if a.saved_at_ms != b.saved_at_ms {
        return a.saved_at_ms > b.saved_at_ms;
    }
    let ai = text::chars_of(a.id.as_str());
    let bi = text::chars_of(b.id.as_str());
    crate::order::text_less(&bi, &ai)
}

fn copy_revision(r: &Revision) -> (c: Revision)
    ensures
        c@ == r@,
{
    Revision {
        id: text::owned(r.id.as_str()),
        saved_at_ms: r.saved_at_ms,
        op: r.op,
        tag: match &r.tag {
            Some(t) => Some(text::owned(t.as_str())),
            None => None,
        },
    }
}

/// Sort revisions newest first.
pub fn sort_newest_first(revs: &Vec<Revision>) -> (r: Vec<Revision>)
    ensures
        revisions_view(r@) == newest_first(revisions_view(revs@)),
{
    let ghost s = revisions_view(revs@);
    let mut out: Vec<Revision> = Vec::new();
    let mut i: usize = 0;
    while i < revs.len()
        invariant
            i <= revs.len(),
            s == revisions_view(revs@),
            revisions_view(out@) == newest_first(s.take(i as int)),
        decreases revs.len() - i,
    {
        let ghost cur = revisions_view(out@);
        let mut p: usize = 0;
        while p < out.len() && !is_newer(&revs[i], &out[p])
            invariant
                p <= out.len(),
                cur == revisions_view(out@),
                i < revs.len(),
                s == revisions_view(revs@),
                rev_insert_pos(cur, s[i as int], 0) == rev_insert_pos(cur, s[i as int], p as int),
            decreases out.len() - p,
        {
            proof {
                assert(cur[p as int] == out@[p as int]@);
                assert(s[i as int] == revs@[i as int]@);
            }
            p = p + 1;
        }
        proof {
            if p < out.len() {
                assert(cur[p as int] == out@[p as int]@);
                assert(s[i as int] == revs@[i as int]@);
            }
        }
        proof {
            lemma_rev_insert_pos_bounds(cur, s[i as int], 0);
            assert(s.take(i + 1).drop_last() =~= s.take(i as int));
            assert(s.take(i + 1).last() == s[i as int]);
        }
        let c = copy_revision(&revs[i]);
        out.insert(p, c);
        proof {
            assert(revisions_view(out@) =~= cur.insert(p as int, s[i as int]));
        }
        i = i + 1;
    }
    proof {
        assert(s.take(i as int) =~= s);
    }
    out
}

} // verus!

verus! {

/// The revision store alongside a preset store: `<store>\.history`, one
/// directory per preset.
#[derive(Debug, Clone)]
pub struct PresetHistory {
    dir: String,
}

impl View for PresetHistory {
    type V = Seq<char>;

    /// The `.history` directory.
    closed spec fn view(&self) -> Seq<char> {
        self.dir@
    }
}

/// The name of the history directory inside a preset store.
pub open spec fn history_dir_name() -> Seq<char> {
    seq!['.', 'h', 'i', 's', 't', 'o', 'r', 'y']
}

/// The file a revision id is stored in.
pub open spec fn revision_file_name(id: Seq<char>) -> Seq<char> {
    id + seq!['.', 't', 'x', 't']
}

/// The revision listing of a history directory: the entries that are
/// revision files, each with the tag read from it, newest first.
pub open spec fn listing(entries: Seq<(Seq<char>, Option<Seq<char>>)>) -> Seq<RevisionV> {
    newest_first(parsed_revisions(entries))
}

/// The revision files among directory entries (name, tag read from the
/// file), in directory order.
pub open spec fn parsed_revisions(entries: Seq<(Seq<char>, Option<Seq<char>>)>) -> Seq<RevisionV>
    decreases entries.len(),
{
    if entries.len() == 0 {
        Seq::empty()
    } else {
        let rest = parsed_revisions(entries.drop_last());
        match revision_of_file(entries.last().0) {
            Some(r) => rest.push(RevisionV { tag: entries.last().1, ..r }),
            None => rest,
        }
    }
}

/// The views of (file name, tag) entries.
pub open spec fn tagged_entries_view(v: Seq<(String, Option<String>)>) -> Seq<(Seq<char>, Option<Seq<char>>)> {
    Seq::new(
        v.len(),
        |i: int|
            (
                v[i].0@,
                match v[i].1 {
                    Some(t) => Some(t@),
                    None => None,
                },
            ),
    )
}

/// How many of a directory's entry names are revision files.
pub open spec fn revision_count(names: Seq<Seq<char>>) -> nat
    decreases names.len(),
{
    if names.len() == 0 {
        0
    } else {
        revision_count(names.drop_last()) + if revision_of_file(names.last()) is Some {
            1nat
        } else {
            0nat
        }
    }
}

/// The content a recording stores: the normal form, re-tagged with the
/// displaced content's tag when it had one, newline-terminated.
pub open spec fn stored_text(prior: Seq<LineV>) -> Seq<char> {
    match tag_in(prior) {
        Some(t) => serialize::serialized(tagged(normal_form(prior), t)).push('\n'),
        None => serialize::serialized(normal_form(prior)).push('\n'),
    }
}

/// The canonical compared text of a configuration.
pub open spec fn normal_text_of(c: Seq<LineV>) -> Seq<char> {
    serialize::serialized(normal_form(c)).push('\n')
}

/// The ids of the revision files (among `(file name, content)` entries)
/// whose content normalizes to `text`, in directory order.
pub open spec fn matching_ids(entries: Seq<(Seq<char>, Seq<LineV>)>, text: Seq<char>) -> Seq<Seq<char>>
    decreases entries.len(),
{
    if entries.len() == 0 {
        Seq::empty()
    } else {
        let rest = matching_ids(entries.drop_last(), text);
        match revision_of_file(entries.last().0) {
            Some(r) => if normal_text_of(entries.last().1) == text {
                rest.push(r.id)
            } else {
                rest
            },
            None => rest,
        }
    }
}

/// The ids of the revision files among `(file name, content)` entries.
pub open spec fn revision_ids(entries: Seq<(Seq<char>, Seq<LineV>)>) -> Seq<Seq<char>>
    decreases entries.len(),
{
    if entries.len() == 0 {
        Seq::empty()
    } else {
        let rest = revision_ids(entries.drop_last());
        match revision_of_file(entries.last().0) {
            Some(r) => rest.push(r.id),
            None => rest,
        }
    }
}

/// The views of (file name, content) entries.
pub open spec fn content_entries_view(v: Seq<(String, Config)>) -> Seq<(Seq<char>, Seq<LineV>)> {
    Seq::new(v.len(), |i: int| (v[i].0@, v[i].1@))
}

/// What recording a revision does: drop the older copies of the same
/// content, write the new revision under a fresh id.
pub struct RecordPlan {
    /// The preset's history directory (created if missing).
    pub dir: String,
    /// Ids of older revisions with the same content, to delete first.
    pub duplicates: Vec<String>,
    /// The new revision's id.
    pub id: String,
    /// The file to write it to.
    pub path: String,
    /// The text to write.
    pub contents: String,
}

proof fn lemma_history_literal()
    ensures
        ".history"@ == history_dir_name(),
        crate::paths::plain_component(history_dir_name()),
        ".txt"@ == seq!['.', 't', 'x', 't'],
{
    reveal_strlit(".history");
    reveal_strlit(".txt");
    assert(".history"@ =~= history_dir_name());
    assert(".txt"@ =~= seq!['.', 't', 'x', 't']);
}

/// A well-formed id is a plain file-name component.
proof fn lemma_id_is_plain(id: Seq<char>)
    requires
        id_parts(id) is Some,
    ensures
        crate::paths::plain_component(revision_file_name(id)),
{
    text::lemma_first_index_of(id, '-');
    let k = first_index_of(id, '-').unwrap();
    let d0 = id.take(k);
    let d = if d0.len() > 0 && d0[0] == '+' { d0.drop_first() } else { d0 };
    let w = id.skip(k + 1);
    let f = revision_file_name(id);
    assert(u64_of_text(d0) is Some);
    assert(op_of_word(w) is Some);
    assert(text::all_digits(d));
    assert(id =~= d0 + seq!['-'] + w);
    assert forall|i: int| 0 <= i < f.len() implies !crate::paths::is_sep(#[trigger] f[i]) && f[i] != ':' by {
        if i < k {
            assert(f[i] == d0[i]);
            if d0.len() > 0 && d0[0] == '+' {
                if i > 0 {
                    assert(d0[i] == d[i - 1]);
                    assert(text::is_digit(d[i - 1]));
                }
            } else {
                assert(text::is_digit(d[i]));
            }
        } else if i == k {
            assert(f[i] == '-');
        } else if i < id.len() {
            assert(f[i] == w[i - k - 1]);
            let op = op_of_word(w).unwrap();
            assert(w == op_word(op));
            match op {
                RevisionOp::Save => {},
                RevisionOp::Delete => {},
                RevisionOp::Restore => {},
            }
        } else {
            assert(f[i] == seq!['.', 't', 'x', 't'][i - id.len()]);
        }
    }
}

impl PresetHistory {
    /// The history alongside a preset store directory.
    pub fn new(store_dir: &str) -> (h: PresetHistory)
        ensures
            h@ == crate::paths::joined(store_dir@, history_dir_name()),
    {
        proof {
            lemma_history_literal();
        }
        PresetHistory { dir: crate::paths::join(store_dir, ".history") }
    }

    /// The `.history` directory.
    pub fn dir(&self) -> (d: &str)
        ensures
            d@ == self@,
    {
        self.dir.as_str()
    }

    /// The directory holding `name`'s revisions; the name is validated like a
    /// preset file name, since it becomes a directory name.
    pub fn preset_dir(&self, name: &str) -> (r: Result<String, StoreError>)
        ensures
            ({
                let t = trimmed(name@);
                if t.len() > 0 && safe_name(t) {
                    r matches Ok(p) && p@ == crate::paths::joined(self@, t)
                } else {
                    r matches Err(StoreError::InvalidName(n)) && n@ == t
                }
            }),
    {
        let t = text::trim(name);
        if t.unicode_len() == 0 || !crate::store::is_safe_name(t) {
            return Err(StoreError::InvalidName(text::owned(t)));
        }
        proof {
            assert forall|i: int| 0 <= i < t@.len() implies !crate::paths::is_sep(#[trigger] t@[i]) && t@[i] != ':' by {
                assert(!crate::store::is_forbidden(t@[i]));
            }
        }
        Ok(crate::paths::join(self.dir.as_str(), t))
    }

    /// The file holding revision `id` of `name`, for loading or re-tagging
    /// it. The id is validated against the revision-name grammar first — it
    /// becomes a file name, so an arbitrary string must not reach the file
    /// system.
    pub fn revision_path(&self, name: &str, id: &str) -> (r: Result<String, StoreError>)
        ensures
            ({
                let t = trimmed(name@);
                if !(t.len() > 0 && safe_name(t)) {
                    r matches Err(StoreError::InvalidName(n)) && n@ == t
                } else if id_parts(id@) is None {
                    r matches Err(StoreError::InvalidRevisionId(i)) && i@ == id@
                } else {
                    r matches Ok(p) && p@ == crate::paths::joined(
                        crate::paths::joined(self@, t),
                        revision_file_name(id@),
                    )
                }
            }),
    {
        let dir = match self.preset_dir(name) {
            Ok(d) => d,
            Err(e) => return Err(e),
        };
        if parse_id(id).is_none() {
            return Err(StoreError::InvalidRevisionId(text::owned(id)));
        }
        proof {
            lemma_history_literal();
            lemma_id_is_plain(id@);
        }
        let file = text::concat(id, ".txt");
        proof {
            assert(file@ =~= revision_file_name(id@));
        }
        Ok(crate::paths::join(dir.as_str(), file.as_str()))
    }

    /// The revisions of `name`, newest first, from the entries of its history
    /// directory: each file name with the tag read from that file. Files that
    /// are not revisions are skipped.
    pub fn list(&self, name: &str, entries: &Vec<(String, Option<String>)>) -> (r: Result<
        Vec<Revision>,
        StoreError,
    >)
        ensures
            ({
                let t = trimmed(name@);
                if t.len() > 0 && safe_name(t) {
                    r matches Ok(v) && revisions_view(v@) == listing(tagged_entries_view(entries@))
                } else {
                    r matches Err(StoreError::InvalidName(n)) && n@ == t
                }
            }),
    {
        match self.preset_dir(name) {
            Ok(_) => {},
            Err(e) => return Err(e),
        }
        let ghost ev = tagged_entries_view(entries@);
        let mut found: Vec<Revision> = Vec::new();
        let mut i: usize = 0;
        while i < entries.len()
            invariant
                i <= entries.len(),
                ev == tagged_entries_view(entries@),
                revisions_view(found@) == parsed_revisions(ev.take(i as int)),
            decreases entries.len() - i,
        {
            proof {
                assert(ev.take(i + 1).drop_last() =~= ev.take(i as int));
                assert(ev.take(i + 1).last() == ev[i as int]);
            }
            match parse_revision(entries[i].0.as_str()) {
                Some(rev) => {
                    let tag = match &entries[i].1 {
                        Some(t) => Some(text::owned(t.as_str())),
                        None => None,
                    };
                    let r = Revision { tag, ..rev };
                    let ghost rv = r@;
                    let ghost before = found@;
                    found.push(r);
                    proof {
                        assert(revisions_view(found@) =~= revisions_view(before).push(rv));
                    }
                },
                None => {},
            }
            i = i + 1;
        }
        proof {
            assert(ev.take(i as int) =~= ev);
        }
        Ok(sort_newest_first(&found))
    }
}

/// How many of a directory's entry names are revision files.
pub fn count_revisions(names: &Vec<String>) -> (n: usize)
    ensures
        n == revision_count(text::strings_view(names@)),
{
    let ghost s = text::strings_view(names@);
    let mut n: usize = 0;
    let mut i: usize = 0;
    while i < names.len()
        invariant
            i <= names.len(),
            s == text::strings_view(names@),
            n == revision_count(s.take(i as int)),
            n <= i,
        decreases names.len() - i,
    {
        proof {
            assert(s.take(i + 1).drop_last() =~= s.take(i as int));
            assert(s.take(i + 1).last() == names@[i as int]@);
        }
        if parse_revision(names[i].as_str()).is_some() {
            n = n + 1;
        }
        i = i + 1;
    }
    proof {
        assert(s.take(i as int) =~= s);
    }
    n
}

/// The ids of revisions past the newest [`KEEP_MAX`] in a newest-first
/// listing — the ones pruning removes.
pub fn prune_ids(listing: &Vec<Revision>) -> (r: Vec<String>)
    ensures
        text::strings_view(r@) == (if listing.len() > KEEP_MAX {
            Seq::new((listing.len() - KEEP_MAX) as nat, |i: int| listing@[i + KEEP_MAX].id@)
        } else {
            Seq::empty()
        }),
{
    let mut out: Vec<String> = Vec::new();
    let mut i: usize = KEEP_MAX;
    while i < listing.len()
        invariant
            KEEP_MAX <= i,
            listing.len() <= KEEP_MAX ==> i == KEEP_MAX,
            listing.len() > KEEP_MAX ==> i <= listing.len(),
            text::strings_view(out@) == Seq::new((i - KEEP_MAX) as nat, |k: int| listing@[k + KEEP_MAX].id@),
        decreases listing.len() - i,
    {
        let ghost before = out@;
        let idc = text::owned(listing[i].id.as_str());
        let ghost iv = idc@;
        out.push(idc);
        proof {
            assert(text::strings_view(out@) =~= text::strings_view(before).push(iv));
        }
        i = i + 1;
        proof {
            assert(text::strings_view(out@) =~= Seq::new((i - KEEP_MAX) as nat, |k: int| listing@[k + KEEP_MAX].id@));
        }
    }
    proof {
        if listing.len() <= KEEP_MAX {
            assert(text::strings_view(out@) =~= Seq::<Seq<char>>::empty());
        }
    }
    out
}

/// The first free id at or after `now_ms`: the millisecond is bumped past
/// every id already `taken`, so two records in the same millisecond stay
/// distinct. Some millisecond from `now_ms` on must be free (at most
/// `taken.len()` can be taken, so `now_ms + taken.len()` not overflowing is
/// enough).
pub fn fresh_id(now_ms: u64, op: RevisionOp, taken: &Vec<String>) -> (r: String)
    requires
        exists|m: u64| now_ms <= m && !text::strings_view(taken@).contains(#[trigger] id_text(m, op)),
    ensures
        exists|m: u64| {
            &&& now_ms <= m
            &&& r@ == #[trigger] id_text(m, op)
            &&& !text::strings_view(taken@).contains(id_text(m, op))
            &&& forall|m2: u64| now_ms <= m2 < m ==> text::strings_view(taken@).contains(#[trigger] id_text(m2, op))
        },
{
    let ghost ts = text::strings_view(taken@);
    let ghost w = choose|m: u64| now_ms <= m && !ts.contains(#[trigger] id_text(m, op));
    let mut ms: u64 = now_ms;
    loop
        invariant
            now_ms <= ms <= w,
            ts == text::strings_view(taken@),
            !ts.contains(id_text(w, op)),
            forall|m2: u64| now_ms <= m2 < ms ==> ts.contains(#[trigger] id_text(m2, op)),
        decreases w - ms,
    {
        let id = format_id(ms, op);
        let mut found = false;
        let mut j: usize = 0;
        while j < taken.len()
            invariant
                j <= taken.len(),
                ts == text::strings_view(taken@),
                found == exists|k: int| 0 <= k < j && ts[k] == id@,
            decreases taken.len() - j,
        {
            assert(ts[j as int] == taken@[j as int]@);
            if text::str_eq(taken[j].as_str(), id.as_str()) {
                found = true;
            }
            j = j + 1;
        }
        if !found {
            proof {
                if ts.contains(id@) {
                    let k = choose|k: int| 0 <= k < ts.len() && ts[k] == id@;
                    assert(false);
                }
            }
            return id;
        }
        proof {
            let k = choose|k: int| 0 <= k < j && ts[k] == id@;
            assert(ts.contains(id_text(ms, op)));
            if ms == w {
                assert(false);
            }
        }
        ms = ms + 1;
    }
}

} // verus!

verus! {

/// The ids of the revision files among `(file name, content)` entries whose
/// content does not normalize to `text` — the ones a recording keeps.
pub open spec fn other_ids(entries: Seq<(Seq<char>, Seq<LineV>)>, text: Seq<char>) -> Seq<Seq<char>>
    decreases entries.len(),
{
    if entries.len() == 0 {
        Seq::empty()
    } else {
        let rest = other_ids(entries.drop_last(), text);
        match revision_of_file(entries.last().0) {
            Some(r) => if normal_text_of(entries.last().1) == text {
                rest
            } else {
                rest.push(r.id)
            },
            None => rest,
        }
    }
}

/// Some id of `op` at or after `now_ms` is not among `taken`.
pub open spec fn id_free_from(now_ms: u64, op: RevisionOp, taken: Seq<Seq<char>>) -> bool {
    exists|m: u64| now_ms <= m && !taken.contains(#[trigger] id_text(m, op))
}

/// `plan` records `prior` by `op` into the history directory `dir`, whose
/// revision files are `entries` (file name, content), at `now_ms`: the older
/// revisions with the same normal form are dropped, the new one takes the
/// first id of `op` at or after `now_ms` that no other revision holds, and
/// its file holds the normal form (re-tagged with `prior`'s tag).
pub open spec fn plans_recording(
    plan: RecordPlan,
    dir: Seq<char>,
    prior: Seq<LineV>,
    op: RevisionOp,
    entries: Seq<(Seq<char>, Seq<LineV>)>,
    now_ms: u64,
) -> bool {
    let text = normal_text_of(prior);
    let others = other_ids(entries, text);
    &&& plan.dir@ == dir
    &&& text::strings_view(plan.duplicates@) == matching_ids(entries, text)
    &&& exists|m: u64| {
        &&& now_ms <= m
        &&& plan.id@ == #[trigger] id_text(m, op)
        &&& !others.contains(id_text(m, op))
        &&& forall|m2: u64| now_ms <= m2 < m ==> others.contains(#[trigger] id_text(m2, op))
    }
    &&& plan.path@ == crate::paths::joined(plan.dir@, revision_file_name(plan.id@))
    &&& plan.contents@ == stored_text(prior)
}

impl PresetHistory {
    /// Plan recording `prior` (the content a mutation is about to displace)
    /// as a revision of `name`, given the files of its history directory with
    /// their parsed contents: every older revision with the same normal form
    /// is dropped (so no content appears twice and this recording becomes its
    /// newest position), and the new revision gets the first free id at or
    /// after `now_ms`. The stored text is the normal form, re-tagged with
    /// `prior`'s tag. Pruning follows with [`prune_ids`] over the new
    /// listing.
    pub fn record(
        &self,
        name: &str,
        prior: &Config,
        op: RevisionOp,
        existing: &Vec<(String, Config)>,
        now_ms: u64,
    ) -> (r: Result<RecordPlan, StoreError>)
        requires
            id_free_from(now_ms, op, other_ids(content_entries_view(existing@), normal_text_of(prior@))),
        ensures
            ({
                let t = trimmed(name@);
                if t.len() > 0 && safe_name(t) {
                    r matches Ok(plan) && plans_recording(
                        plan,
                        crate::paths::joined(self@, t),
                        prior@,
                        op,
                        content_entries_view(existing@),
                        now_ms,
                    )
                } else {
                    r matches Err(StoreError::InvalidName(n)) && n@ == t
                }
            }),
    {
        let text = normal_text(prior);
        let dir = match self.preset_dir(name) {
            Ok(d) => d,
            Err(e) => return Err(e),
        };
        let ghost ev = content_entries_view(existing@);
        let mut duplicates: Vec<String> = Vec::new();
        let mut taken: Vec<String> = Vec::new();
        let mut i: usize = 0;
        while i < existing.len()
            invariant
                i <= existing.len(),
                ev == content_entries_view(existing@),
                text@ == normal_text_of(prior@),
                text::strings_view(duplicates@) == matching_ids(ev.take(i as int), text@),
                text::strings_view(taken@) == other_ids(ev.take(i as int), text@),
            decreases existing.len() - i,
        {
            proof {
                assert(ev.take(i + 1).drop_last() =~= ev.take(i as int));
                assert(ev.take(i + 1).last() == ev[i as int]);
            }
            match parse_revision(existing[i].0.as_str()) {
                Some(rev) => {
                    let t = normal_text(&existing[i].1);
                    let ghost idv = rev.id@;
                    if text::str_eq(t.as_str(), text.as_str()) {
                        let ghost before = duplicates@;
                        duplicates.push(rev.id);
                        proof {
                            assert(text::strings_view(duplicates@) =~= text::strings_view(before).push(idv));
                        }
                    } else {
                        let ghost before = taken@;
                        taken.push(rev.id);
                        proof {
                            assert(text::strings_view(taken@) =~= text::strings_view(before).push(idv));
                        }
                    }
                },
                None => {},
            }
            i = i + 1;
        }
        proof {
            assert(ev.take(i as int) =~= ev);
        }
        let id = fresh_id(now_ms, op, &taken);
        proof {
            let m = choose|m: u64| now_ms <= m && id@ == #[trigger] id_text(m, op) && !text::strings_view(taken@).contains(id_text(m, op)) && forall|m2: u64| now_ms <= m2 < m ==> text::strings_view(taken@).contains(#[trigger] id_text(m2, op));
            law_id_round_trip(m, op);
            lemma_id_is_plain(id@);
            lemma_history_literal();
        }
        let file = text::concat(id.as_str(), ".txt");
        proof {
            assert(file@ =~= revision_file_name(id@));
        }
        let path = crate::paths::join(dir.as_str(), file.as_str());
        let contents = match tag_of(prior) {
            Some(t) => serialize::file_text(&with_tag(&normalize(prior), t.as_str())),
            None => text,
        };
        Ok(RecordPlan { dir, duplicates, id, path, contents })
    }
}

} // verus!

verus! {

/// No revision lists after one it is newer than.
pub open spec fn newest_sorted(s: Seq<RevisionV>) -> bool {
    forall|i: int, j: int| 0 <= i < j < s.len() ==> !newer(#[trigger] s[j], #[trigger] s[i])
}

proof fn lemma_newer_strict(a: RevisionV, b: RevisionV, c: RevisionV)
    ensures
        !(newer(a, b) && newer(b, a)),
        newer(a, b) && newer(b, c) ==> newer(a, c),
{
    crate::order::lemma_text_lt_asymmetric(a.id, b.id);
    if newer(a, b) && newer(b, c) && a.saved_at_ms == b.saved_at_ms && b.saved_at_ms == c.saved_at_ms {
        crate::order::lemma_text_lt_transitive(c.id, b.id, a.id);
    }
}

proof fn lemma_rev_insert_pos_facts(s: Seq<RevisionV>, r: RevisionV, from: int)
    requires
        0 <= from <= s.len(),
    ensures
        from <= rev_insert_pos(s, r, from) <= s.len(),
        forall|j: int| from <= j < rev_insert_pos(s, r, from) ==> !newer(r, #[trigger] s[j]),
        rev_insert_pos(s, r, from) < s.len() ==> newer(r, s[rev_insert_pos(s, r, from)]),
    decreases s.len() - from,
{
    if from < s.len() && !newer(r, s[from]) {
        lemma_rev_insert_pos_facts(s, r, from + 1);
    }
}

/// Listing revisions newest first really orders them: none lists after a
/// revision it is newer than.
pub proof fn law_newest_first_is_sorted(s: Seq<RevisionV>)
    ensures
        newest_sorted(newest_first(s)),
    decreases s.len(),
{
    if s.len() > 0 {
        let r = newest_first(s.drop_last());
        law_newest_first_is_sorted(s.drop_last());
        let x = s.last();
        let p = rev_insert_pos(r, x, 0);
        lemma_rev_insert_pos_facts(r, x, 0);
        let u = r.insert(p, x);
        assert forall|i: int, j: int| 0 <= i < j < u.len() implies !newer(#[trigger] u[j], #[trigger] u[i]) by {
            if j < p {
                assert(u[i] == r[i] && u[j] == r[j]);
            } else if j == p {
                assert(u[j] == x && u[i] == r[i]);
            } else if i == p {
                assert(u[i] == x && u[j] == r[j - 1]);
                if newer(r[j - 1], x) {
                    lemma_newer_strict(r[j - 1], x, r[p]);
                    lemma_newer_strict(r[p], r[p], r[p]);
                    if j - 1 != p {
                        assert(!newer(r[j - 1], r[p]));
                    }
                }
            } else if i < p {
                assert(u[i] == r[i] && u[j] == r[j - 1]);
            } else {
                assert(u[i] == r[i - 1] && u[j] == r[j - 1]);
            }
        }
    }
}

/// Listing keeps exactly the revisions it was given.
pub proof fn law_newest_first_permutes(s: Seq<RevisionV>)
    ensures
        newest_first(s).to_multiset() == s.to_multiset(),
        newest_first(s).len() == s.len(),
    decreases s.len(),
{
    if s.len() > 0 {
        let d = s.drop_last();
        let r = newest_first(d);
        law_newest_first_permutes(d);
        let p = rev_insert_pos(r, s.last(), 0);
        lemma_rev_insert_pos_facts(r, s.last(), 0);
        vstd::seq_lib::to_multiset_insert(r, p, s.last());
        assert(s =~= d.push(s.last()));
        vstd::seq_lib::to_multiset_build(d, s.last());
    }
}

} // verus!

verus! {

impl PresetHistory {
    /// The revisions of `name` whose content matches `current` (the preset's
    /// live content after a write) in normal form, given the history
    /// directory's files with their parsed contents — the ones to delete, so
    /// a snapshot of what the preset *is* never lingers as history.
    pub fn remove_matching(&self, name: &str, current: &Config, existing: &Vec<(String, Config)>) -> (r: Result<
        Vec<String>,
        StoreError,
    >)
        ensures
            ({
                let t = trimmed(name@);
                if t.len() > 0 && safe_name(t) {
                    r matches Ok(ids) && text::strings_view(ids@) == matching_ids(
                        content_entries_view(existing@),
                        normal_text_of(current@),
                    )
                } else {
                    r matches Err(StoreError::InvalidName(n)) && n@ == t
                }
            }),
    {
        let text = normal_text(current);
        match self.preset_dir(name) {
            Ok(_) => {},
            Err(e) => return Err(e),
        }
        let ghost ev = content_entries_view(existing@);
        let mut ids: Vec<String> = Vec::new();
        let mut i: usize = 0;
        while i < existing.len()
            invariant
                i <= existing.len(),
                ev == content_entries_view(existing@),
                text@ == normal_text_of(current@),
                text::strings_view(ids@) == matching_ids(ev.take(i as int), text@),
            decreases existing.len() - i,
        {
            proof {
                assert(ev.take(i + 1).drop_last() =~= ev.take(i as int));
                assert(ev.take(i + 1).last() == ev[i as int]);
            }
            match parse_revision(existing[i].0.as_str()) {
                Some(rev) => {
                    let t = normal_text(&existing[i].1);
                    if text::str_eq(t.as_str(), text.as_str()) {
                        let ghost idv = rev.id@;
                        let ghost before = ids@;
                        ids.push(rev.id);
                        proof {
                            assert(text::strings_view(ids@) =~= text::strings_view(before).push(idv));
                        }
                    }
                },
                None => {},
            }
            i = i + 1;
        }
        proof {
            assert(ev.take(i as int) =~= ev);
        }
        Ok(ids)
    }
}

/// Recording drops exactly the older copies of the recorded content: every
/// revision file is either a duplicate (same normal form) or kept, never
/// both, so no content is held twice afterwards.
pub proof fn law_record_splits_duplicates_from_the_rest(entries: Seq<(Seq<char>, Seq<LineV>)>, text: Seq<char>)
    ensures
        matching_ids(entries, text).len() + other_ids(entries, text).len() == revision_ids(entries).len(),
        forall|k: int| 0 <= k < entries.len() && revision_of_file(#[trigger] entries[k].0) is Some
            && normal_text_of(entries[k].1) == text ==> matching_ids(entries, text).contains(revision_of_file(entries[k].0).unwrap().id),
    decreases entries.len(),
{
    if entries.len() > 0 {
        let d = entries.drop_last();
        law_record_splits_duplicates_from_the_rest(d, text);
        assert forall|k: int| 0 <= k < entries.len() && revision_of_file(#[trigger] entries[k].0) is Some
            && normal_text_of(entries[k].1) == text implies matching_ids(entries, text).contains(revision_of_file(entries[k].0).unwrap().id) by {
            if k < d.len() {
                assert(d[k] == entries[k]);
                let id = revision_of_file(entries[k].0).unwrap().id;
                let j = choose|j: int| 0 <= j < matching_ids(d, text).len() && matching_ids(d, text)[j] == id;
                assert(matching_ids(entries, text)[j] == id);
            } else {
                assert(matching_ids(entries, text).last() == revision_of_file(entries[k].0).unwrap().id);
            }
        }
    }
}

} // verus!

verus! {

/// A later millisecond than `ms` whose id (with `op`) is free.
pub open spec fn has_free_after(ms: u64, op: RevisionOp, taken: Seq<Seq<char>>) -> bool {
    exists|m: u64| ms < m && !taken.contains(#[trigger] id_text(m, op))
}

/// The first later millisecond than `ms` whose id (with `op`) is free.
pub open spec fn first_free_after(ms: u64, op: RevisionOp, taken: Seq<Seq<char>>) -> u64 {
    choose|m: u64|
        ms < m && !taken.contains(#[trigger] id_text(m, op)) && forall|m2: u64|
            ms < m2 < m ==> taken.contains(#[trigger] id_text(m2, op))
}

/// Where a merged revision lands among `taken` ids: under its own id when
/// that is free, else under the first free later millisecond.
pub open spec fn merge_target(r: RevisionV, taken: Seq<Seq<char>>) -> Seq<char> {
    if !taken.contains(r.id) {
        r.id
    } else {
        id_text(first_free_after(r.saved_at_ms, r.op, taken), r.op)
    }
}

/// Every revision of a merge finds a free id (no millisecond overflows).
pub open spec fn merge_defined(revs: Seq<RevisionV>, taken: Seq<Seq<char>>) -> bool
    decreases revs.len(),
{
    if revs.len() == 0 {
        true
    } else {
        (taken.contains(revs[0].id) ==> has_free_after(revs[0].saved_at_ms, revs[0].op, taken))
            && merge_defined(revs.drop_first(), taken.push(merge_target(revs[0], taken)))
    }
}

/// The ids the merged revisions land under, in order, each one taken for
/// the ones after it.
pub open spec fn merge_targets(revs: Seq<RevisionV>, taken: Seq<Seq<char>>) -> Seq<Seq<char>>
    decreases revs.len(),
{
    if revs.len() == 0 {
        Seq::empty()
    } else {
        let t = merge_target(revs[0], taken);
        seq![t] + merge_targets(revs.drop_first(), taken.push(t))
    }
}

/// What renaming a preset does to its history.
pub enum HistoryMove {
    /// Nothing to move: no history, or the same directory.
    Nothing,
    /// Rename the whole directory (the target has no history yet).
    MoveDir { from_dir: String, to_dir: String },
    /// Move each revision file into the existing target directory, then
    /// remove the emptied source directory.
    Merge { moves: Vec<(String, String)>, from_dir: String },
}

proof fn lemma_merge_targets_len(revs: Seq<RevisionV>, taken: Seq<Seq<char>>)
    ensures
        merge_targets(revs, taken).len() == revs.len(),
    decreases revs.len(),
{
    if revs.len() > 0 {
        lemma_merge_targets_len(revs.drop_first(), taken.push(merge_target(revs[0], taken)));
    }
}

/// `mv` moves the history directory `fd` to `td` (a preset rename), given
/// whether each exists, `fd`'s revisions newest first and the revision ids
/// already in `td`: nothing when there is no history or the directory stays;
/// the whole directory when the target has none; else each revision file
/// merges into the target under [`merge_targets`], and `fd` goes.
pub open spec fn plans_move(
    mv: HistoryMove,
    fd: Seq<char>,
    td: Seq<char>,
    from_exists: bool,
    to_exists: bool,
    revs: Seq<RevisionV>,
    to_ids: Seq<Seq<char>>,
) -> bool {
    if !from_exists || fd == td {
        mv is Nothing
    } else if !to_exists {
        mv matches HistoryMove::MoveDir { from_dir, to_dir } && from_dir@ == fd && to_dir@ == td
    } else {
        &&& mv matches HistoryMove::Merge { moves, from_dir }
        &&& from_dir@ == fd
        &&& moves@.len() == revs.len()
        &&& forall|k: int| 0 <= k < moves@.len() ==> (#[trigger] moves@[k]).0@ == crate::paths::joined(
            fd,
            revision_file_name(revs[k].id),
        ) && moves@[k].1@ == crate::paths::joined(td, revision_file_name(merge_targets(revs, to_ids)[k]))
    }
}

impl PresetHistory {
    /// Plan moving `from`'s history to `to` (a preset rename), given whether
    /// each history directory exists, `from`'s revisions newest first, and
    /// the revision-file stems already in `to`'s directory. When the target
    /// already has history the files merge one by one, an id collision
    /// bumping the millisecond like a recording does.
    pub fn rename(
        &self,
        from: &str,
        to: &str,
        from_exists: bool,
        to_exists: bool,
        from_revisions: &Vec<Revision>,
        to_ids: &Vec<String>,
    ) -> (r: Result<HistoryMove, StoreError>)
        requires
            merge_defined(revisions_view(from_revisions@), text::strings_view(to_ids@)),
            forall|k: int| 0 <= k < from_revisions@.len() ==> id_parts(#[trigger] from_revisions@[k]@.id) is Some,
        ensures
            ({
                let f = trimmed(from@);
                let t = trimmed(to@);
                let fd = crate::paths::joined(self@, f);
                let td = crate::paths::joined(self@, t);
                if !(f.len() > 0 && safe_name(f)) {
                    r matches Err(StoreError::InvalidName(n)) && n@ == f
                } else if !(t.len() > 0 && safe_name(t)) {
                    r matches Err(StoreError::InvalidName(n)) && n@ == t
                } else {
                    r matches Ok(mv) && plans_move(
                        mv,
                        fd,
                        td,
                        from_exists,
                        to_exists,
                        revisions_view(from_revisions@),
                        text::strings_view(to_ids@),
                    )
                }
            }),
    {
        let from_dir = match self.preset_dir(from) {
            Ok(d) => d,
            Err(e) => return Err(e),
        };
        let to_dir = match self.preset_dir(to) {
            Ok(d) => d,
            Err(e) => return Err(e),
        };
        if !from_exists || text::str_eq(from_dir.as_str(), to_dir.as_str()) {
            return Ok(HistoryMove::Nothing);
        }
        if !to_exists {
            return Ok(HistoryMove::MoveDir { from_dir, to_dir });
        }
        let ghost revs = revisions_view(from_revisions@);
        let ghost all = merge_targets(revs, text::strings_view(to_ids@));
        let mut taken: Vec<String> = Vec::new();
        let mut j: usize = 0;
        while j < to_ids.len()
            invariant
                j <= to_ids.len(),
                text::strings_view(taken@) == text::strings_view(to_ids@).take(j as int),
            decreases to_ids.len() - j,
        {
            let x = text::owned(to_ids[j].as_str());
            let ghost xv = x@;
            let ghost before = taken@;
            taken.push(x);
            proof {
                assert(text::strings_view(taken@) =~= text::strings_view(before).push(xv));
            }
            j = j + 1;
            proof {
                assert(text::strings_view(taken@) =~= text::strings_view(to_ids@).take(j as int));
            }
        }
        proof {
            assert(text::strings_view(to_ids@).take(j as int) =~= text::strings_view(to_ids@));
        }
        let mut moves: Vec<(String, String)> = Vec::new();
        let mut i: usize = 0;
        proof {
            assert(revs.skip(0) =~= revs);
            assert(all.take(0) + all =~= all);
            lemma_merge_targets_len(revs, text::strings_view(to_ids@));
        }
        while i < from_revisions.len()
            invariant
                i <= from_revisions.len(),
                revs == revisions_view(from_revisions@),
                all == merge_targets(revs, text::strings_view(to_ids@)),
                merge_defined(revs.skip(i as int), text::strings_view(taken@)),
                all == all.take(i as int) + merge_targets(revs.skip(i as int), text::strings_view(taken@)),
                all.len() == revs.len(),
                moves@.len() == i,
                forall|k: int| 0 <= k < i ==> (#[trigger] moves@[k]).0@ == crate::paths::joined(
                    from_dir@,
                    revision_file_name(from_revisions@[k]@.id),
                ) && moves@[k].1@ == crate::paths::joined(to_dir@, revision_file_name(all[k])),
                from_dir@ == crate::paths::joined(self@, trimmed(from@)),
                to_dir@ == crate::paths::joined(self@, trimmed(to@)),
                forall|k: int| 0 <= k < from_revisions@.len() ==> id_parts(#[trigger] from_revisions@[k]@.id) is Some,
            decreases from_revisions.len() - i,
        {
            let ghost rest = revs.skip(i as int);
            let ghost tk = text::strings_view(taken@);
            proof {
                assert(rest[0] == from_revisions@[i as int]@);
                assert(rest.drop_first() =~= revs.skip(i + 1));
            }
            let rev = &from_revisions[i];
            let mut free = true;
            let mut k: usize = 0;
            while k < taken.len()
                invariant
                    k <= taken.len(),
                    tk == text::strings_view(taken@),
                    free == !exists|m: int| 0 <= m < k && tk[m] == rev.id@,
                decreases taken.len() - k,
            {
                assert(tk[k as int] == taken@[k as int]@);
                if text::str_eq(taken[k].as_str(), rev.id.as_str()) {
                    free = false;
                }
                k = k + 1;
            }
            let target = if free {
                proof {
                    if tk.contains(rev.id@) {
                        let m = choose|m: int| 0 <= m < tk.len() && tk[m] == rev.id@;
                        assert(false);
                    }
                }
                text::owned(rev.id.as_str())
            } else {
                proof {
                    let m = choose|m: int| 0 <= m < k && tk[m] == rev.id@;
                    assert(tk.contains(rev.id@));
                    assert(has_free_after(rev.saved_at_ms, rev.op, tk));
                }
                let id = fresh_id(rev.saved_at_ms + 1, rev.op, &taken);
                proof {
                    let m = choose|m: u64| rev.saved_at_ms + 1 <= m && id@ == #[trigger] id_text(m, rev.op) && !tk.contains(id_text(m, rev.op)) && forall|m2: u64| rev.saved_at_ms + 1 <= m2 < m ==> tk.contains(#[trigger] id_text(m2, rev.op));
                    let c = first_free_after(rev.saved_at_ms, rev.op, tk);
                    assert(rev.saved_at_ms < c && !tk.contains(id_text(c, rev.op)) && forall|m2: u64| rev.saved_at_ms < m2 < c ==> tk.contains(#[trigger] id_text(m2, rev.op)));
                    if c < m {
                        assert(tk.contains(id_text(c, rev.op)));
                    }
                    if m < c {
                        assert(tk.contains(id_text(m, rev.op)));
                    }
                }
                id
            };
            proof {
                assert(target@ == merge_target(rest[0], tk));
                assert(id_parts(from_revisions@[i as int]@.id) is Some);
                if !free {
                    law_id_round_trip(first_free_after(rest[0].saved_at_ms, rest[0].op, tk), rest[0].op);
                }
                assert(id_parts(target@) is Some);
                lemma_id_is_plain(rev.id@);
                lemma_id_is_plain(target@);
                lemma_history_literal();
            }
            let src = text::concat(rev.id.as_str(), ".txt");
            let dst = text::concat(target.as_str(), ".txt");
            proof {
                assert(src@ =~= revision_file_name(rev.id@));
                assert(dst@ =~= revision_file_name(target@));
            }
            let ghost tv = target@;
            let ghost before = taken@;
            taken.push(target);
            proof {
                assert(text::strings_view(taken@) =~= tk.push(tv));
                assert(merge_targets(rest, tk) == seq![tv] + merge_targets(rest.drop_first(), tk.push(tv)));
                assert(all[i as int] == tv);
                assert(all.take(i + 1) =~= all.take(i as int).push(tv));
                assert(all == all.take(i + 1) + merge_targets(revs.skip(i + 1), text::strings_view(taken@)));
            }
            let pair = (crate::paths::join(from_dir.as_str(), src.as_str()), crate::paths::join(
                to_dir.as_str(),
                dst.as_str(),
            ));
            moves.push(pair);
            i = i + 1;
        }
        Ok(HistoryMove::Merge { moves, from_dir })
    }
}

} // verus!

verus! {

/// A revision file lists as the revision its name holds: a well-formed id's
/// file stands for that id, its time and its operation.
pub proof fn law_revision_file_lists_its_id(id: Seq<char>)
    requires
        id_parts(id) is Some,
    ensures
        revision_of_file(revision_file_name(id)) == Some(
            RevisionV { id, saved_at_ms: id_parts(id).unwrap().0, op: id_parts(id).unwrap().1, tag: None },
        ),
{
    let f = revision_file_name(id);
    text::lemma_first_index_of(id, '-');
    text::lemma_last_index_of(f, '.');
    assert(f[id.len() as int] == '.');
    match last_index_of(f, '.') {
        Some(k) => {
            assert(k >= id.len()) by {
                if k < id.len() {
                    assert(f[id.len() as int] == '.');
                }
            }
            assert(k == id.len()) by {
                if k > id.len() {
                    assert(f[k] == seq!['.', 't', 'x', 't'][k - id.len()]);
                }
            }
        },
        None => {},
    }
    assert(f.skip(id.len() as int + 1) =~= seq!['t', 'x', 't']);
    assert(f.take(id.len() as int) =~= id);
}

/// A recorded revision lists under its new id, with the recording's
/// operation and a time no earlier than the recording's.
pub proof fn law_recorded_revision_lists_under_its_id(
    plan: RecordPlan,
    dir: Seq<char>,
    prior: Seq<LineV>,
    op: RevisionOp,
    entries: Seq<(Seq<char>, Seq<LineV>)>,
    now_ms: u64,
)
    requires
        plans_recording(plan, dir, prior, op, entries, now_ms),
    ensures
        revision_of_file(revision_file_name(plan.id@)) matches Some(r) && r.id == plan.id@ && r.op == op
            && now_ms <= r.saved_at_ms,
        plan.path@ == crate::paths::joined(dir, revision_file_name(plan.id@)),
{
    let others = other_ids(entries, normal_text_of(prior));
    let m = choose|m: u64| {
        &&& now_ms <= m
        &&& plan.id@ == #[trigger] id_text(m, op)
        &&& !others.contains(id_text(m, op))
        &&& forall|m2: u64| now_ms <= m2 < m ==> others.contains(#[trigger] id_text(m2, op))
    };
    law_id_round_trip(m, op);
    law_revision_file_lists_its_id(plan.id@);
}

/// Once a planned recording's file is in the history directory, the
/// directory's listing holds the new revision: under the plan's id, with
/// the recording's operation, whatever else the directory holds.
pub proof fn law_recorded_revision_is_listed(
    plan: RecordPlan,
    dir: Seq<char>,
    prior: Seq<LineV>,
    op: RevisionOp,
    entries: Seq<(Seq<char>, Seq<LineV>)>,
    now_ms: u64,
    others: Seq<(Seq<char>, Option<Seq<char>>)>,
    tag: Option<Seq<char>>,
)
    requires
        plans_recording(plan, dir, prior, op, entries, now_ms),
    ensures
        exists|k: int|
            0 <= k < listing(others.push((revision_file_name(plan.id@), tag))).len() && #[trigger] listing(
                others.push((revision_file_name(plan.id@), tag)),
            )[k].id == plan.id@ && listing(others.push((revision_file_name(plan.id@), tag)))[k].op == op,
{
    law_recorded_revision_lists_under_its_id(plan, dir, prior, op, entries, now_ms);
    let all = others.push((revision_file_name(plan.id@), tag));
    let r = revision_of_file(revision_file_name(plan.id@)).unwrap();
    let x = RevisionV { tag, ..r };
    let parsed = parsed_revisions(all);
    assert(all.drop_last() =~= others);
    assert(parsed == parsed_revisions(others).push(x));
    assert(parsed[parsed.len() - 1] == x);
    law_newest_first_permutes(parsed);
    let l = newest_first(parsed);
    broadcast use vstd::seq_lib::group_to_multiset_ensures;
    assert(parsed.contains(x));
    assert(parsed.to_multiset().count(x) > 0);
    assert(l.to_multiset().count(x) > 0);
    assert(l.contains(x));
    let k = choose|k: int| 0 <= k < l.len() && l[k] == x;
    assert(listing(all)[k].id == plan.id@);
}

} // verus!


verus! {

/// The revision files among (file name, content) entries, as (id, normal
/// text) pairs, in directory order.
pub open spec fn revision_pairs(entries: Seq<(Seq<char>, Seq<LineV>)>) -> Seq<(Seq<char>, Seq<char>)>
    decreases entries.len(),
{
    if entries.len() == 0 {
        Seq::empty()
    } else {
        let rest = revision_pairs(entries.drop_last());
        match revision_of_file(entries.last().0) {
            Some(r) => rest.push((r.id, normal_text_of(entries.last().1))),
            None => rest,
        }
    }
}

/// The ids of the revisions (id, normal text) whose text is `text`.
pub open spec fn ids_with_text(p: Seq<(Seq<char>, Seq<char>)>, text: Seq<char>) -> Seq<Seq<char>>
    decreases p.len(),
{
    if p.len() == 0 {
        Seq::empty()
    } else if p.last().1 == text {
        ids_with_text(p.drop_last(), text).push(p.last().0)
    } else {
        ids_with_text(p.drop_last(), text)
    }
}

/// What is left of revisions (id, normal text) once those with an id in
/// `ids` are deleted.
pub open spec fn dropping(p: Seq<(Seq<char>, Seq<char>)>, ids: Seq<Seq<char>>) -> Seq<(Seq<char>, Seq<char>)>
    decreases p.len(),
{
    if p.len() == 0 {
        p
    } else if ids.contains(p.last().0) {
        dropping(p.drop_last(), ids)
    } else {
        dropping(p.drop_last(), ids).push(p.last())
    }
}

/// No two revisions share an id or a normal text.
pub open spec fn unique_history(p: Seq<(Seq<char>, Seq<char>)>) -> bool {
    forall|i: int, j: int| 0 <= i < j < p.len() ==> (#[trigger] p[i]).0 != (#[trigger] p[j]).0 && p[i].1 != p[j].1
}

/// A preset's history is clean against its live content's normal text
/// `live`: no two revisions share an id or a normal text, and none holds
/// `live`.
pub open spec fn clean_history(p: Seq<(Seq<char>, Seq<char>)>, live: Seq<char>) -> bool {
    &&& unique_history(p)
    &&& forall|i: int| 0 <= i < p.len() ==> (#[trigger] p[i]).1 != live
}

/// The ids matching a text are the ids of the revision pairs with that text.
pub proof fn lemma_matching_ids_are_pairs(entries: Seq<(Seq<char>, Seq<LineV>)>, text: Seq<char>)
    ensures
        matching_ids(entries, text) == ids_with_text(revision_pairs(entries), text),
    decreases entries.len(),
{
    if entries.len() > 0 {
        lemma_matching_ids_are_pairs(entries.drop_last(), text);
        match revision_of_file(entries.last().0) {
            Some(r) => {
                let p = revision_pairs(entries);
                assert(p.drop_last() =~= revision_pairs(entries.drop_last()));
            },
            None => {},
        }
    }
}

/// Every pair left after dropping was there before, and is not dropped.
proof fn lemma_dropping_members(p: Seq<(Seq<char>, Seq<char>)>, ids: Seq<Seq<char>>)
    ensures
        forall|k: int| 0 <= k < dropping(p, ids).len() ==> p.contains(#[trigger] dropping(p, ids)[k]) && !ids.contains(
            dropping(p, ids)[k].0,
        ),
        dropping(p, ids).len() <= p.len(),
    decreases p.len(),
{
    if p.len() > 0 {
        let d = p.drop_last();
        lemma_dropping_members(d, ids);
        assert forall|k: int| 0 <= k < dropping(p, ids).len() implies p.contains(#[trigger] dropping(p, ids)[k])
            && !ids.contains(dropping(p, ids)[k].0) by {
            if k < dropping(d, ids).len() {
                assert(dropping(p, ids)[k] == dropping(d, ids)[k]);
                let j = choose|j: int| 0 <= j < d.len() && d[j] == dropping(d, ids)[k];
                assert(p[j] == d[j]);
            } else {
                assert(dropping(p, ids)[k] == p.last());
                assert(p[p.len() - 1] == p.last());
            }
        }
    }
}

/// Dropping keeps the order of what it keeps: the kept pairs come from
/// increasing positions.
proof fn lemma_dropping_order(p: Seq<(Seq<char>, Seq<char>)>, ids: Seq<Seq<char>>, i: int, j: int)
    requires
        0 <= i < j < dropping(p, ids).len(),
    ensures
        exists|a: int, b: int| 0 <= a < b < p.len() && p[a] == dropping(p, ids)[i] && p[b] == dropping(p, ids)[j],
    decreases p.len(),
{
    let d = p.drop_last();
    let q = dropping(p, ids);
    if ids.contains(p.last().0) {
        lemma_dropping_order(d, ids, i, j);
        let (a, b) = choose|a: int, b: int| 0 <= a < b < d.len() && d[a] == dropping(d, ids)[i] && d[b] == dropping(d, ids)[j];
        assert(p[a] == d[a] && p[b] == d[b]);
    } else if j < dropping(d, ids).len() {
        lemma_dropping_order(d, ids, i, j);
        let (a, b) = choose|a: int, b: int| 0 <= a < b < d.len() && d[a] == dropping(d, ids)[i] && d[b] == dropping(d, ids)[j];
        assert(q[i] == dropping(d, ids)[i] && q[j] == dropping(d, ids)[j]);
        assert(p[a] == d[a] && p[b] == d[b]);
    } else {
        lemma_dropping_members(d, ids);
        assert(q[i] == dropping(d, ids)[i]);
        let a = choose|a: int| 0 <= a < d.len() && d[a] == dropping(d, ids)[i];
        assert(p[a] == d[a]);
        assert(q[j] == p.last());
        assert(p[p.len() - 1] == p.last());
    }
}

/// Dropping revisions keeps a history unique.
proof fn lemma_dropping_unique(p: Seq<(Seq<char>, Seq<char>)>, ids: Seq<Seq<char>>)
    requires
        unique_history(p),
    ensures
        unique_history(dropping(p, ids)),
{
    let q = dropping(p, ids);
    assert forall|i: int, j: int| 0 <= i < j < q.len() implies (#[trigger] q[i]).0 != (#[trigger] q[j]).0 && q[i].1
        != q[j].1 by {
        lemma_dropping_order(p, ids, i, j);
        let (a, b) = choose|a: int, b: int| 0 <= a < b < p.len() && p[a] == q[i] && p[b] == q[j];
        assert(p[a] == q[i]);
    }
}

/// The ids with a text belong to revisions with that text.
proof fn lemma_ids_with_text_members(p: Seq<(Seq<char>, Seq<char>)>, text: Seq<char>, k: int)
    requires
        0 <= k < p.len(),
    ensures
        ids_with_text(p, text).contains(p[k].0) <== p[k].1 == text,
        unique_history(p) && ids_with_text(p, text).contains(p[k].0) ==> p[k].1 == text,
    decreases p.len(),
{
    let d = p.drop_last();
    let m = ids_with_text(p, text);
    if k < d.len() {
        assert(d[k] == p[k]);
        lemma_ids_with_text_members(d, text, k);
        if p[k].1 == text {
            let j = choose|j: int| 0 <= j < ids_with_text(d, text).len() && ids_with_text(d, text)[j] == p[k].0;
            assert(m[j] == p[k].0);
        }
        if unique_history(p) && m.contains(p[k].0) && p[k].1 != text {
            assert(unique_history(d)) by {
                assert forall|i: int, j: int| 0 <= i < j < d.len() implies (#[trigger] d[i]).0 != (#[trigger] d[j]).0
                    && d[i].1 != d[j].1 by {
                    assert(d[i] == p[i] && d[j] == p[j]);
                }
            }
            if p.last().1 == text && p.last().0 == p[k].0 {
                assert(p[p.len() - 1] == p.last());
            }
            let j = choose|j: int| 0 <= j < m.len() && m[j] == p[k].0;
            if p.last().1 == text && j == m.len() - 1 {
                assert(p[p.len() - 1] == p.last());
            } else {
                assert(ids_with_text(d, text)[j] == p[k].0);
            }
        }
    } else {
        if p.last().1 == text {
            assert(m[m.len() - 1] == p.last().0);
        } else if unique_history(p) && m.contains(p[k].0) {
            let j = choose|j: int| 0 <= j < m.len() && m[j] == p[k].0;
            assert(m == ids_with_text(d, text));
            lemma_ids_with_text_from(d, text, j);
            let a = choose|a: int| 0 <= a < d.len() && d[a].0 == m[j] && d[a].1 == text;
            assert(p[a] == d[a]);
        }
    }
}

/// Each id with a text is the id of some revision with that text.
proof fn lemma_ids_with_text_from(p: Seq<(Seq<char>, Seq<char>)>, text: Seq<char>, j: int)
    requires
        0 <= j < ids_with_text(p, text).len(),
    ensures
        exists|a: int| 0 <= a < p.len() && p[a].0 == ids_with_text(p, text)[j] && p[a].1 == text,
    decreases p.len(),
{
    let d = p.drop_last();
    if p.last().1 == text && j == ids_with_text(p, text).len() - 1 {
        assert(p[p.len() - 1] == p.last());
    } else {
        lemma_ids_with_text_from(d, text, j);
        let a = choose|a: int| 0 <= a < d.len() && d[a].0 == ids_with_text(d, text)[j] && d[a].1 == text;
        assert(p[a] == d[a]);
    }
}

/// Deleting the revisions whose text is `text` leaves a unique history with
/// none holding `text`: what removing the matches of a saved preset does.
pub proof fn law_removing_matches_clears_the_text(p: Seq<(Seq<char>, Seq<char>)>, text: Seq<char>)
    requires
        unique_history(p),
    ensures
        clean_history(dropping(p, ids_with_text(p, text)), text),
{
    let ids = ids_with_text(p, text);
    let q = dropping(p, ids);
    lemma_dropping_unique(p, ids);
    lemma_dropping_members(p, ids);
    assert forall|i: int| 0 <= i < q.len() implies (#[trigger] q[i]).1 != text by {
        let a = choose|a: int| 0 <= a < p.len() && p[a] == q[i];
        lemma_ids_with_text_members(p, text, a);
    }
}

/// Recording a text into a unique history, after dropping the revisions
/// holding it, under an id no remaining revision holds, keeps it unique,
/// and the text then sits at the newest position only.
pub proof fn law_recording_keeps_history_unique(
    p: Seq<(Seq<char>, Seq<char>)>,
    text: Seq<char>,
    id: Seq<char>,
)
    requires
        unique_history(p),
        forall|k: int| 0 <= k < p.len() && (#[trigger] p[k]).1 != text ==> p[k].0 != id,
    ensures
        unique_history(dropping(p, ids_with_text(p, text)).push((id, text))),
{
    let ids = ids_with_text(p, text);
    let q = dropping(p, ids);
    let r = q.push((id, text));
    law_removing_matches_clears_the_text(p, text);
    lemma_dropping_members(p, ids);
    assert forall|i: int, j: int| 0 <= i < j < r.len() implies (#[trigger] r[i]).0 != (#[trigger] r[j]).0 && r[i].1
        != r[j].1 by {
        if j == r.len() - 1 {
            assert(r[i] == q[i]);
            let a = choose|a: int| 0 <= a < p.len() && p[a] == q[i];
            assert(q[i].1 != text);
        } else {
            assert(r[i] == q[i] && r[j] == q[j]);
        }
    }
}

/// Saving keeps a preset's history clean: from a history clean against the
/// displaced content `prior`, recording it when it differs from the new
/// content `new` (under an id no other revision holds) and then deleting
/// the revisions holding `new` leaves a history clean against `new`.
pub proof fn law_save_keeps_history_clean(
    p: Seq<(Seq<char>, Seq<char>)>,
    prior: Seq<char>,
    new: Seq<char>,
    id: Seq<char>,
    recorded: bool,
)
    requires
        clean_history(p, prior),
        recorded ==> forall|k: int| 0 <= k < p.len() && (#[trigger] p[k]).1 != prior ==> p[k].0 != id,
    ensures
        ({
            let after_record = if recorded {
                dropping(p, ids_with_text(p, prior)).push((id, prior))
            } else {
                p
            };
            clean_history(dropping(after_record, ids_with_text(after_record, new)), new)
        }),
{
    if recorded {
        law_recording_keeps_history_unique(p, prior, id);
        let a = dropping(p, ids_with_text(p, prior)).push((id, prior));
        law_removing_matches_clears_the_text(a, new);
    } else {
        law_removing_matches_clears_the_text(p, new);
    }
}

/// The ids of the revisions (id, normal text) whose text is not `text`.
pub open spec fn ids_with_other_text(p: Seq<(Seq<char>, Seq<char>)>, text: Seq<char>) -> Seq<Seq<char>>
    decreases p.len(),
{
    if p.len() == 0 {
        Seq::empty()
    } else if p.last().1 != text {
        ids_with_other_text(p.drop_last(), text).push(p.last().0)
    } else {
        ids_with_other_text(p.drop_last(), text)
    }
}

/// The ids a recording keeps are the ids of the revision pairs with another
/// text.
proof fn lemma_other_ids_are_pairs(entries: Seq<(Seq<char>, Seq<LineV>)>, text: Seq<char>)
    ensures
        other_ids(entries, text) == ids_with_other_text(revision_pairs(entries), text),
    decreases entries.len(),
{
    if entries.len() > 0 {
        lemma_other_ids_are_pairs(entries.drop_last(), text);
        match revision_of_file(entries.last().0) {
            Some(r) => {
                let p = revision_pairs(entries);
                assert(p.drop_last() =~= revision_pairs(entries.drop_last()));
            },
            None => {},
        }
    }
}

/// A revision with another text has its id among the other-text ids.
proof fn lemma_other_text_member(p: Seq<(Seq<char>, Seq<char>)>, text: Seq<char>, k: int)
    requires
        0 <= k < p.len(),
        p[k].1 != text,
    ensures
        ids_with_other_text(p, text).contains(p[k].0),
    decreases p.len(),
{
    let d = p.drop_last();
    let m = ids_with_other_text(p, text);
    if k == p.len() - 1 {
        assert(p[k] == p.last());
        assert(m[m.len() - 1] == p[k].0);
    } else {
        assert(d[k] == p[k]);
        lemma_other_text_member(d, text, k);
        let j = choose|j: int| 0 <= j < ids_with_other_text(d, text).len() && ids_with_other_text(d, text)[j] == p[k].0;
        assert(m[j] == p[k].0);
    }
}

/// A planned recording keeps a unique history unique: the duplicates it
/// deletes are the revisions holding the recorded text, and its new id is
/// held by none of the rest.
pub proof fn law_recording_plan_keeps_history_unique(
    plan: RecordPlan,
    dir: Seq<char>,
    prior: Seq<LineV>,
    op: RevisionOp,
    entries: Seq<(Seq<char>, Seq<LineV>)>,
    now_ms: u64,
)
    requires
        plans_recording(plan, dir, prior, op, entries, now_ms),
        unique_history(revision_pairs(entries)),
    ensures
        unique_history(
            dropping(revision_pairs(entries), text::strings_view(plan.duplicates@)).push(
                (plan.id@, normal_text_of(prior)),
            ),
        ),
{
    let p = revision_pairs(entries);
    let t = normal_text_of(prior);
    lemma_matching_ids_are_pairs(entries, t);
    lemma_other_ids_are_pairs(entries, t);
    assert forall|k: int| 0 <= k < p.len() && (#[trigger] p[k]).1 != t implies p[k].0 != plan.id@ by {
        lemma_other_text_member(p, t, k);
    }
    law_recording_keeps_history_unique(p, t, plan.id@);
}

/// Deleting what a planned removal of matches lists leaves the history
/// clean against the content written.
pub proof fn law_removal_plan_clears_the_content(
    entries: Seq<(Seq<char>, Seq<LineV>)>,
    ids: Seq<Seq<char>>,
    current: Seq<LineV>,
)
    requires
        ids == matching_ids(entries, normal_text_of(current)),
        unique_history(revision_pairs(entries)),
    ensures
        clean_history(dropping(revision_pairs(entries), ids), normal_text_of(current)),
{
    lemma_matching_ids_are_pairs(entries, normal_text_of(current));
    law_removing_matches_clears_the_text(revision_pairs(entries), normal_text_of(current));
}

/// What is left of a revision listing once the revisions with an id in
/// `ids` are deleted.
pub open spec fn listing_without(listing: Seq<RevisionV>, ids: Seq<Seq<char>>) -> Seq<RevisionV>
    decreases listing.len(),
{
    if listing.len() == 0 {
        listing
    } else if ids.contains(listing.last().id) {
        listing_without(listing.drop_last(), ids)
    } else {
        listing_without(listing.drop_last(), ids).push(listing.last())
    }
}

/// Dropping the ids of exactly the revisions from position `m` on, in a
/// listing of distinct ids, leaves the first `m`.
proof fn lemma_listing_without_suffix(p: Seq<RevisionV>, ids: Seq<Seq<char>>, m: int)
    requires
        0 <= m <= p.len(),
        forall|k: int| m <= k < p.len() ==> ids.contains((#[trigger] p[k]).id),
        forall|k: int| 0 <= k < m ==> !ids.contains((#[trigger] p[k]).id),
    ensures
        listing_without(p, ids) == p.take(m),
    decreases p.len(),
{
    if p.len() > 0 {
        let d = p.drop_last();
        assert(p[p.len() - 1] == p.last());
        if m == p.len() {
            assert forall|k: int| 0 <= k < d.len() implies !ids.contains((#[trigger] d[k]).id) by {
                assert(d[k] == p[k]);
            }
            lemma_listing_without_suffix(d, ids, m - 1);
            assert(d.take(m - 1) =~= d);
            assert(p.take(m) =~= p);
            assert(d.push(p.last()) =~= p);
        } else {
            assert forall|k: int| m <= k < d.len() implies ids.contains((#[trigger] d[k]).id) by {
                assert(d[k] == p[k]);
            }
            assert forall|k: int| 0 <= k < m implies !ids.contains((#[trigger] d[k]).id) by {
                assert(d[k] == p[k]);
            }
            lemma_listing_without_suffix(d, ids, m);
            assert(d.take(m) =~= p.take(m));
        }
    }
}

/// Pruning keeps the newest [`KEEP_MAX`]: deleting what [`prune_ids`] lists
/// from a newest-first listing of distinct ids leaves its first `KEEP_MAX`
/// revisions (all of them when there are no more).
pub proof fn law_pruning_keeps_the_newest(listing: Seq<RevisionV>, pruned: Seq<Seq<char>>)
    requires
        forall|i: int, j: int| 0 <= i < j < listing.len() ==> (#[trigger] listing[i]).id != (#[trigger] listing[j]).id,
        pruned == (if listing.len() > KEEP_MAX {
            Seq::new((listing.len() - KEEP_MAX) as nat, |i: int| listing[i + KEEP_MAX].id)
        } else {
            Seq::empty()
        }),
    ensures
        listing_without(listing, pruned) == listing.take(
            if listing.len() > KEEP_MAX {
                KEEP_MAX as int
            } else {
                listing.len() as int
            },
        ),
        listing_without(listing, pruned).len() <= KEEP_MAX,
{
    let n = listing.len();
    let m: int = if n > KEEP_MAX {
        KEEP_MAX as int
    } else {
        n as int
    };
    assert forall|k: int| m <= k < n implies pruned.contains((#[trigger] listing[k]).id) by {
        assert(pruned[k - KEEP_MAX] == listing[k].id);
    }
    assert forall|k: int| 0 <= k < m implies !pruned.contains((#[trigger] listing[k]).id) by {
        if pruned.contains(listing[k].id) {
            let j = choose|j: int| 0 <= j < pruned.len() && pruned[j] == listing[k].id;
            assert(listing[j + KEEP_MAX].id == listing[k].id);
        }
    }
    lemma_listing_without_suffix(listing, pruned, m);
}

/// The history directory's (file name, content) entries once the revision
/// files with an id in `ids` are deleted; other files stay.
pub open spec fn without_revisions(entries: Seq<(Seq<char>, Seq<LineV>)>, ids: Seq<Seq<char>>) -> Seq<(Seq<char>, Seq<LineV>)>
    decreases entries.len(),
{
    if entries.len() == 0 {
        entries
    } else {
        let rest = without_revisions(entries.drop_last(), ids);
        match revision_of_file(entries.last().0) {
            Some(r) => if ids.contains(r.id) {
                rest
            } else {
                rest.push(entries.last())
            },
            None => rest.push(entries.last()),
        }
    }
}

/// Deleting revision files deletes their (id, normal text) pairs.
proof fn lemma_without_revisions_pairs(entries: Seq<(Seq<char>, Seq<LineV>)>, ids: Seq<Seq<char>>)
    ensures
        revision_pairs(without_revisions(entries, ids)) == dropping(revision_pairs(entries), ids),
    decreases entries.len(),
{
    if entries.len() > 0 {
        let d = entries.drop_last();
        lemma_without_revisions_pairs(d, ids);
        let rest = without_revisions(d, ids);
        let w = without_revisions(entries, ids);
        match revision_of_file(entries.last().0) {
            Some(r) => {
                let p = revision_pairs(entries);
                assert(p.drop_last() =~= revision_pairs(d));
                assert(p.last() == (r.id, normal_text_of(entries.last().1)));
                if !ids.contains(r.id) {
                    assert(w.drop_last() =~= rest);
                    assert(w.last() == entries.last());
                }
            },
            None => {
                assert(w.drop_last() =~= rest);
                assert(w.last() == entries.last());
            },
        }
    }
}

/// Saving keeps a preset's history clean, over the directory: from a
/// history clean against the displaced content `prior`, carrying out a
/// planned `save` recording (its duplicates deleted, its file written and
/// read back as `back`, with `prior`'s normal form) and then deleting the
/// revisions a removal plan lists for the new content leaves a history
/// clean against the new content, which holds `prior`'s normal text
/// exactly when it differs from the new one.
pub proof fn law_saving_keeps_the_directory_clean(
    entries: Seq<(Seq<char>, Seq<LineV>)>,
    plan: RecordPlan,
    dir: Seq<char>,
    prior: Seq<LineV>,
    now_ms: u64,
    back: Seq<LineV>,
    config: Seq<LineV>,
)
    requires
        clean_history(revision_pairs(entries), normal_text_of(prior)),
        plans_recording(plan, dir, prior, RevisionOp::Save, entries, now_ms),
        normal_text_of(back) == normal_text_of(prior),
    ensures
        ({
            let recorded = without_revisions(entries, text::strings_view(plan.duplicates@)).push(
                (revision_file_name(plan.id@), back),
            );
            let after = without_revisions(recorded, matching_ids(recorded, normal_text_of(config)));
            &&& clean_history(revision_pairs(after), normal_text_of(config))
            &&& (exists|k: int| 0 <= k < revision_pairs(after).len() && #[trigger] revision_pairs(after)[k].1
                == normal_text_of(prior)) <==> normal_text_of(prior) != normal_text_of(config)
        }),
{
    let dups = text::strings_view(plan.duplicates@);
    let base = without_revisions(entries, dups);
    let recorded = base.push((revision_file_name(plan.id@), back));
    let t = normal_text_of(config);
    law_recording_plan_keeps_history_unique(plan, dir, prior, RevisionOp::Save, entries, now_ms);
    law_recorded_revision_lists_under_its_id(plan, dir, prior, RevisionOp::Save, entries, now_ms);
    lemma_without_revisions_pairs(entries, dups);
    let r = revision_of_file(revision_file_name(plan.id@)).unwrap();
    assert(recorded.drop_last() =~= base);
    let rp = revision_pairs(recorded);
    assert(rp == revision_pairs(base).push((plan.id@, normal_text_of(prior))));
    law_removal_plan_clears_the_content(recorded, matching_ids(recorded, t), config);
    lemma_without_revisions_pairs(recorded, matching_ids(recorded, t));
    lemma_matching_ids_are_pairs(recorded, t);
    let after = without_revisions(recorded, matching_ids(recorded, t));
    let ap = revision_pairs(after);
    assert(ap == dropping(rp, ids_with_text(rp, t)));
    if normal_text_of(prior) != t {
        // The new revision survives the removal.
        let k = rp.len() - 1;
        assert(rp[k] == (plan.id@, normal_text_of(prior)));
        lemma_ids_with_text_members(rp, t, k);
        lemma_dropping_keeps(rp, ids_with_text(rp, t), k);
        let j = choose|j: int| 0 <= j < ap.len() && ap[j] == rp[k];
        assert(ap[j].1 == normal_text_of(prior));
    } else {
        lemma_dropping_members(rp, ids_with_text(rp, t));
    }
}

/// A pair whose id is not dropped survives dropping.
proof fn lemma_dropping_keeps(p: Seq<(Seq<char>, Seq<char>)>, ids: Seq<Seq<char>>, k: int)
    requires
        0 <= k < p.len(),
        !ids.contains(p[k].0),
    ensures
        dropping(p, ids).contains(p[k]),
    decreases p.len(),
{
    let d = p.drop_last();
    let q = dropping(p, ids);
    if k == p.len() - 1 {
        assert(p[k] == p.last());
        assert(q[q.len() - 1] == p[k]);
    } else {
        assert(d[k] == p[k]);
        lemma_dropping_keeps(d, ids, k);
        let j = choose|j: int| 0 <= j < dropping(d, ids).len() && dropping(d, ids)[j] == p[k];
        assert(q[j] == p[k]);
    }
}

} // verus!
