//! Provenance: a stamp in the live `config.txt` recording which preset produced
//! it, so the active preset is known rather than re-inferred by content.
//!
//! Applying a preset writes the comment line `# fastpeq:preset=<name>` at the
//! top of the config. Equalizer APO ignores comments and the model keeps them
//! as raw lines, so the stamp survives a write/read cycle. Preset files never
//! carry a stamp: the store strips it on the way to disk.

use crate::model::{Config, Line, LineV};
use crate::text;
use crate::text::{is_ws, trimmed, trimmed_end};
use vstd::prelude::*;

verus! {

/// The marker comment prefix. Everything after it (to end of line) is the name.
pub const PREFIX: &'static str = "# fastpeq:preset=";

/// The stamp prefix as a character sequence.
pub open spec fn stamp_prefix() -> Seq<char> {
    PREFIX@
}

/// Whether a line is a provenance stamp.
pub open spec fn is_stamp(l: LineV) -> bool {
    match l {
        LineV::Raw(s) => stamp_prefix().is_prefix_of(trimmed(s)),
        _ => false,
    }
}

/// The preset name a stamp line records.
pub open spec fn stamp_name(l: LineV) -> Option<Seq<char>> {
    match l {
        LineV::Raw(s) => if stamp_prefix().is_prefix_of(trimmed(s)) {
            Some(trimmed(s).skip(stamp_prefix().len() as int))
        } else {
            None
        },
        _ => None,
    }
}

/// The name in the first stamp of `c`, if any.
pub open spec fn name_of(c: Seq<LineV>) -> Option<Seq<char>>
    decreases c.len(),
{
    if c.len() == 0 {
        None
    } else if is_stamp(c[0]) {
        stamp_name(c[0])
    } else {
        name_of(c.drop_first())
    }
}

/// `c` with every stamp line removed, everything else in order.
pub open spec fn without_stamps(c: Seq<LineV>) -> Seq<LineV>
    decreases c.len(),
{
    if c.len() == 0 {
        c
    } else if is_stamp(c.last()) {
        without_stamps(c.drop_last())
    } else {
        without_stamps(c.drop_last()).push(c.last())
    }
}

/// The stamp line for `preset`.
pub open spec fn stamp_line(preset: Seq<char>) -> LineV {
    LineV::Raw(stamp_prefix() + preset)
}

/// `c` stamped as coming from `preset`: the stamp first, then `c` without its
/// old stamps.
pub open spec fn stamped(c: Seq<LineV>, preset: Seq<char>) -> Seq<LineV> {
    seq![stamp_line(preset)] + without_stamps(c)
}

pub proof fn lemma_prefix_facts()
    ensures
        stamp_prefix().len() > 0,
        !is_ws(stamp_prefix()[0]),
        !is_ws(stamp_prefix().last()),
{
    reveal_strlit("# fastpeq:preset=");
}

/// Whether a line is a provenance stamp.
pub fn is_stamp_line(line: &Line) -> (b: bool)
    ensures
        b == is_stamp(line@),
{
    match line {
        Line::Raw(s) => text::starts_with(text::trim(s.as_str()), PREFIX),
        _ => false,
    }
}

fn stamped_name(line: &Line) -> (r: Option<String>)
    ensures
        match r {
            Some(n) => stamp_name(line@) == Some(n@),
            None => stamp_name(line@) is None,
        },
{
    match line {
        Line::Raw(s) => match text::strip_prefix(text::trim(s.as_str()), PREFIX) {
            Some(rest) => Some(text::owned(rest)),
            None => None,
        },
        _ => None,
    }
}

proof fn lemma_name_skip(c: Seq<LineV>, i: int)
    requires
        0 <= i <= c.len(),
        forall|k: int| 0 <= k < i ==> !is_stamp(#[trigger] c[k]),
    ensures
        name_of(c) == name_of(c.skip(i)),
    decreases i,
{
    if i > 0 {
        let t = c.drop_first();
        assert forall|k: int| 0 <= k < i - 1 implies !is_stamp(#[trigger] t[k]) by {
            assert(t[k] == c[k + 1]);
        }
        lemma_name_skip(t, i - 1);
        assert(t.skip(i - 1) =~= c.skip(i));
    } else {
        assert(c.skip(0) =~= c);
    }
}

/// The preset name recorded in `config`'s provenance stamp, if present.
pub fn name(config: &Config) -> (r: Option<String>)
    ensures
        match r {
            Some(n) => name_of(config@) == Some(n@),
            None => name_of(config@) is None,
        },
{
    let mut i: usize = 0;
    while i < config.lines.len()
        invariant
            i <= config.lines.len(),
            forall|k: int| 0 <= k < i ==> !is_stamp(#[trigger] config@[k]),
        decreases config.lines.len() - i,
    {
        if is_stamp_line(&config.lines[i]) {
            proof {
                lemma_name_skip(config@, i as int);
                assert(config@.skip(i as int)[0] == config@[i as int]);
            }
            return stamped_name(&config.lines[i]);
        }
        i = i + 1;
    }
    proof {
        lemma_name_skip(config@, i as int);
    }
    None
}

proof fn lemma_without_stamps_step(c: Seq<LineV>, i: int)
    requires
        0 <= i < c.len(),
    ensures
        without_stamps(c.take(i + 1)) == if is_stamp(c[i]) {
            without_stamps(c.take(i))
        } else {
            without_stamps(c.take(i)).push(c[i])
        },
{
    assert(c.take(i + 1).drop_last() =~= c.take(i));
}

/// The lines of `lines` that are not stamps, copied in order.
fn copy_without_stamps(lines: &Vec<Line>, out: &mut Vec<Line>)
    ensures
        crate::model::lines_view(final(out)@) == crate::model::lines_view(old(out)@)
            + without_stamps(crate::model::lines_view(lines@)),
{
    let ghost start = crate::model::lines_view(out@);
    let ghost c = crate::model::lines_view(lines@);
    let mut i: usize = 0;
    while i < lines.len()
        invariant
            i <= lines.len(),
            c == crate::model::lines_view(lines@),
            crate::model::lines_view(out@) == start + without_stamps(c.take(i as int)),
        decreases lines.len() - i,
    {
        proof {
            lemma_without_stamps_step(c, i as int);
        }
        if !is_stamp_line(&lines[i]) {
            let l = lines[i].duplicate();
            let ghost before = crate::model::lines_view(out@);
            out.push(l);
            proof {
                assert(crate::model::lines_view(out@) =~= before.push(l@));
                assert(start + without_stamps(c.take(i as int)).push(c[i as int]) =~= (start
                    + without_stamps(c.take(i as int))).push(c[i as int]));
            }
        }
        i = i + 1;
    }
    assert(c.take(lines.len() as int) =~= c);
}

/// `config` with any provenance stamp removed (leaving the EQ untouched).
pub fn strip(config: &Config) -> (r: Config)
    ensures
        r@ == without_stamps(config@),
{
    let mut out: Vec<Line> = Vec::new();
    copy_without_stamps(&config.lines, &mut out);
    let r = Config { lines: out };
    assert(r@ =~= Seq::<LineV>::empty() + without_stamps(config@));
    r
}

/// `config` stamped as having come from `preset`, replacing any existing
/// stamp. The stamp leads the file.
pub fn set(config: &Config, preset: &str) -> (r: Config)
    ensures
        r@ == stamped(config@, preset@),
{
    let mut out: Vec<Line> = Vec::new();
    out.push(Line::Raw(text::concat(PREFIX, preset)));
    copy_without_stamps(&config.lines, &mut out);
    let r = Config { lines: out };
    assert(r@ =~= stamped(config@, preset@));
    r
}

} // verus!

verus! {

pub proof fn lemma_stamp_line(p: Seq<char>)
    ensures
        is_stamp(stamp_line(p)),
        stamp_name(stamp_line(p)) == Some(trimmed_end(p)),
{
    lemma_prefix_facts();
    let a = stamp_prefix();
    text::lemma_trim_start_concat(a, p);
    text::lemma_trim_end_concat(a, p);
    assert(trimmed(a + p) == a + trimmed_end(p));
    assert(a.is_prefix_of(a + trimmed_end(p))) by {
        assert((a + trimmed_end(p)).take(a.len() as int) =~= a);
    }
    assert((a + trimmed_end(p)).skip(a.len() as int) =~= trimmed_end(p));
}

/// A name read off a stamp ends in non-whitespace (or is empty): the stamp
/// line is trimmed before the name is taken.
pub proof fn lemma_name_has_no_trailing_space(c: Seq<LineV>)
    ensures
        name_of(c) matches Some(n) ==> trimmed_end(n) == n,
    decreases c.len(),
{
    if c.len() > 0 {
        if is_stamp(c[0]) {
            match c[0] {
                LineV::Raw(s) => {
                    let t = trimmed(s);
                    text::lemma_trim_end_shape(text::trimmed_start(s));
                    let n = t.skip(stamp_prefix().len() as int);
                    if n.len() > 0 {
                        assert(n.last() == t.last());
                    }
                },
                _ => {},
            }
        } else {
            lemma_name_has_no_trailing_space(c.drop_first());
        }
    }
}

pub proof fn lemma_without_stamps_has_none(c: Seq<LineV>)
    ensures
        forall|k: int| 0 <= k < without_stamps(c).len() ==> !is_stamp(#[trigger] without_stamps(c)[k]),
    decreases c.len(),
{
    if c.len() > 0 {
        let d = c.drop_last();
        lemma_without_stamps_has_none(d);
        let w = without_stamps(c);
        if !is_stamp(c.last()) {
            assert forall|k: int| 0 <= k < w.len() implies !is_stamp(#[trigger] w[k]) by {
                if k < without_stamps(d).len() {
                    assert(w[k] == without_stamps(d)[k]);
                }
            }
        }
    }
}

pub proof fn lemma_no_stamps_fixed(c: Seq<LineV>)
    requires
        forall|k: int| 0 <= k < c.len() ==> !is_stamp(#[trigger] c[k]),
    ensures
        without_stamps(c) == c,
        name_of(c) is None,
    decreases c.len(),
{
    if c.len() > 0 {
        let d = c.drop_last();
        assert forall|k: int| 0 <= k < d.len() implies !is_stamp(#[trigger] d[k]) by {
            assert(d[k] == c[k]);
        }
        lemma_no_stamps_fixed(d);
        assert(c.last() == c[c.len() - 1]);
        assert(d.push(c.last()) =~= c);
        lemma_name_skip(c, c.len() as int);
        assert(c.skip(c.len() as int) =~= Seq::<LineV>::empty());
    }
}

proof fn lemma_name_none_no_stamps(c: Seq<LineV>)
    ensures
        name_of(c) is None ==> forall|k: int| 0 <= k < c.len() ==> !is_stamp(#[trigger] c[k]),
    decreases c.len(),
{
    if c.len() > 0 {
        lemma_name_none_no_stamps(c.drop_first());
        if name_of(c) is None {
            if is_stamp(c[0]) {
                match c[0] {
                    LineV::Raw(s) => {},
                    _ => {},
                }
            }
            assert forall|k: int| 0 <= k < c.len() implies !is_stamp(#[trigger] c[k]) by {
                if k > 0 {
                    assert(c[k] == c.drop_first()[k - 1]);
                }
            }
        }
    }
}

/// Stamping records the preset's name: reading the stamp back gives the name
/// (without any trailing whitespace, which the reader trims).
pub proof fn law_set_then_name(c: Seq<LineV>, preset: Seq<char>)
    ensures
        name_of(stamped(c, preset)) == Some(trimmed_end(preset)),
{
    lemma_stamp_line(preset);
    assert(stamped(c, preset)[0] == stamp_line(preset));
}

/// Stripping a stamped config gives the original config stripped: the stamp
/// is the only thing stamping adds.
pub proof fn law_strip_undoes_set(c: Seq<LineV>, preset: Seq<char>)
    ensures
        without_stamps(stamped(c, preset)) == without_stamps(c),
{
    lemma_stamp_line(preset);
    lemma_without_stamps_has_none(c);
    lemma_no_stamps_fixed(without_stamps(c));
    lemma_strip_after_stamp(seq![stamp_line(preset)], without_stamps(c));
}

proof fn lemma_strip_after_stamp(a: Seq<LineV>, b: Seq<LineV>)
    requires
        a.len() == 1,
        is_stamp(a[0]),
        without_stamps(b) == b,
    ensures
        without_stamps(a + b) == b,
    decreases b.len(),
{
    if b.len() == 0 {
        assert(a + b =~= a);
        assert(a.last() == a[0]);
        assert(a.drop_last() =~= Seq::<LineV>::empty());
        assert(without_stamps(a) == without_stamps(a.drop_last()));
    } else {
        assert((a + b).drop_last() =~= a + b.drop_last());
        assert((a + b).last() == b.last());
        let d = b.drop_last();
        if is_stamp(b.last()) {
            assert(without_stamps(b) == without_stamps(d));
            assert(without_stamps(d).len() <= d.len()) by {
                lemma_without_stamps_len(d);
            }
        } else {
            assert(without_stamps(d).push(b.last()) == b);
            assert(without_stamps(d) =~= d) by {
                assert(without_stamps(d) =~= without_stamps(d).push(b.last()).drop_last());
            }
            lemma_strip_after_stamp(a, d);
            assert(d.push(b.last()) =~= b);
        }
    }
}

proof fn lemma_without_stamps_len(c: Seq<LineV>)
    ensures
        without_stamps(c).len() <= c.len(),
    decreases c.len(),
{
    if c.len() > 0 {
        lemma_without_stamps_len(c.drop_last());
    }
}

/// Stamping twice leaves only the second stamp: `set` replaces, never stacks.
pub proof fn law_set_replaces(c: Seq<LineV>, first: Seq<char>, second: Seq<char>)
    ensures
        stamped(stamped(c, first), second) == stamped(c, second),
{
    law_strip_undoes_set(c, first);
    lemma_without_stamps_has_none(c);
    lemma_no_stamps_fixed(without_stamps(c));
}

/// Stripping is idempotent and leaves no stamp to read.
pub proof fn law_strip_idempotent(c: Seq<LineV>)
    ensures
        without_stamps(without_stamps(c)) == without_stamps(c),
        name_of(without_stamps(c)) is None,
{
    lemma_without_stamps_has_none(c);
    lemma_no_stamps_fixed(without_stamps(c));
}

/// A config without a stamp is left as it is by stripping.
pub proof fn law_unstamped_strip_is_noop(c: Seq<LineV>)
    requires
        name_of(c) is None,
    ensures
        without_stamps(c) == c,
{
    lemma_name_none_no_stamps(c);
    lemma_no_stamps_fixed(c);
}

} // verus!

verus! {

/// Removing stamps is filtering by "not a stamp".
pub proof fn lemma_without_stamps_is_keep(c: Seq<LineV>)
    ensures
        without_stamps(c) == crate::model::keep_where(c, |l: LineV| !is_stamp(l)),
    decreases c.len(),
{
    if c.len() > 0 {
        lemma_without_stamps_is_keep(c.drop_last());
    }
}

} // verus!
