//! [`Config`] → APO text.
//!
//! Modeled lines are emitted in a canonical APO form; raw lines are written
//! back exactly as they came in. A `Channel:` directive is injected whenever a
//! preamp's or filter's channel differs from the one currently in effect.

use crate::model::{Channel, ChannelV, Config, Filter, FilterV, Line, LineV, token_of};
use crate::text;
use crate::text::{dec, join_lines, strings_view};
use vstd::prelude::*;

verus! {

/// The channel a modeled line is scoped to; raw lines have none.
pub open spec fn line_channel(l: LineV) -> Option<ChannelV> {
    match l {
        LineV::Preamp { channel, .. } => Some(channel),
        LineV::Filter(f) => Some(f.channel),
        LineV::Raw(_) => None,
    }
}

/// The `Channel:` directive that switches to `c`.
pub open spec fn channel_directive_text(c: ChannelV) -> Seq<char> {
    let head = seq!['C', 'h', 'a', 'n', 'n', 'e', 'l', ':', ' '];
    match c {
        ChannelV::Both => head + seq!['L', ' ', 'R'],
        ChannelV::Left => head + seq!['L'],
        ChannelV::Right => head + seq!['R'],
        ChannelV::Other(spec) => head + spec,
    }
}

/// The text of a filter line.
pub open spec fn filter_text(f: FilterV) -> Seq<char> {
    let state = if f.enabled {
        seq!['O', 'N', ' ']
    } else {
        seq!['O', 'F', 'F', ' ']
    };
    filter_label(f.index) + state + token_of(f.kind) + seq![' ', 'F', 'c', ' '] + f.freq + seq![
        ' ',
        'H',
        'z',
    ] + filter_params(f.gain, f.q)
}

/// The text of one model line.
pub open spec fn line_text(l: LineV) -> Seq<char> {
    match l {
        LineV::Raw(s) => s,
        LineV::Preamp { gain, .. } => seq!['P', 'r', 'e', 'a', 'm', 'p', ':', ' '] + gain + seq![
            ' ',
            'd',
            'B',
        ],
        LineV::Filter(f) => filter_text(f),
    }
}

/// The output lines for `c`, with the channel in effect after them.
pub open spec fn emitted(c: Seq<LineV>) -> (Seq<Seq<char>>, ChannelV)
    decreases c.len(),
{
    if c.len() == 0 {
        (Seq::empty(), ChannelV::Both)
    } else {
        let (prev, em) = emitted(c.drop_last());
        let l = c.last();
        let (lines, now) = match line_channel(l) {
            Some(ch) => if ch != em {
                (prev.push(channel_directive_text(ch)), ch)
            } else {
                (prev, em)
            },
            None => (prev, em),
        };
        (lines.push(line_text(l)), now)
    }
}

/// The APO text of a configuration: its output lines joined with `\n`.
pub open spec fn serialized(c: Seq<LineV>) -> Seq<char> {
    join_lines(emitted(c).0)
}

fn channel_directive(channel: &Channel) -> (s: String)
    ensures
        s@ == channel_directive_text(channel@),
{
    proof {
        reveal_strlit("Channel: L R");
        reveal_strlit("Channel: L");
        reveal_strlit("Channel: R");
        reveal_strlit("Channel: ");
    }
    let s = match channel {
        Channel::Both => text::owned("Channel: L R"),
        Channel::Left => text::owned("Channel: L"),
        Channel::Right => text::owned("Channel: R"),
        Channel::Other(spec) => text::concat("Channel: ", spec.as_str()),
    };
    assert(s@ =~= channel_directive_text(channel@));
    s
}

/// The label part of a filter line: `Filter N: ` or `Filter: `.
pub open spec fn filter_label(index: Option<u32>) -> Seq<char> {
    match index {
        Some(n) => seq!['F', 'i', 'l', 't', 'e', 'r', ' '] + dec(n as nat) + seq![':', ' '],
        None => seq!['F', 'i', 'l', 't', 'e', 'r', ':', ' '],
    }
}

/// The optional `Gain`/`Q` part of a filter line.
pub open spec fn filter_params(gain: Option<Seq<char>>, q: Option<Seq<char>>) -> Seq<char> {
    let g = match gain {
        Some(g) => seq![' ', 'G', 'a', 'i', 'n', ' '] + g + seq![' ', 'd', 'B'],
        None => Seq::empty(),
    };
    let qq = match q {
        Some(v) => seq![' ', 'Q', ' '] + v,
        None => Seq::empty(),
    };
    g + qq
}

fn label_text(index: Option<u32>) -> (s: String)
    ensures
        s@ == filter_label(index),
{
    proof {
        reveal_strlit("Filter ");
        reveal_strlit(": ");
        reveal_strlit("Filter: ");
    }
    match index {
        Some(n) => {
            let mut t = text::owned("Filter ");
            let num = text::u64_text(n as u64);
            t.append(num.as_str());
            t.append(": ");
            assert(t@ =~= filter_label(index));
            t
        },
        None => {
            let t = text::owned("Filter: ");
            assert(t@ =~= filter_label(index));
            t
        },
    }
}

fn params_text(gain: &Option<crate::model::Num>, q: &Option<crate::model::Num>) -> (s: String)
    ensures
        s@ == filter_params(crate::model::opt_num_view(*gain), crate::model::opt_num_view(*q)),
{
    proof {
        reveal_strlit(" Gain ");
        reveal_strlit(" dB");
        reveal_strlit(" Q ");
    }
    let mut s = String::new();
    match gain {
        Some(g) => {
            s.append(" Gain ");
            s.append(g.text.as_str());
            s.append(" dB");
        },
        None => {},
    }
    match q {
        Some(v) => {
            s.append(" Q ");
            s.append(v.text.as_str());
        },
        None => {},
    }
    assert(s@ =~= filter_params(crate::model::opt_num_view(*gain), crate::model::opt_num_view(*q)));
    s
}

fn serialize_filter(f: &Filter) -> (s: String)
    ensures
        s@ == filter_text(f@),
{
    proof {
        reveal_strlit("ON ");
        reveal_strlit("OFF ");
        reveal_strlit(" Fc ");
        reveal_strlit(" Hz");
    }
    let mut s = label_text(f.index);
    s.append(if f.enabled {
        "ON "
    } else {
        "OFF "
    });
    s.append(f.kind.as_token());
    s.append(" Fc ");
    s.append(f.freq.text.as_str());
    s.append(" Hz");
    let p = params_text(&f.gain, &f.q);
    s.append(p.as_str());
    assert(s@ =~= filter_text(f@));
    s
}

fn line_string(l: &Line) -> (s: String)
    ensures
        s@ == line_text(l@),
{
    match l {
        Line::Raw(raw) => raw.clone(),
        Line::Preamp { gain, .. } => {
            proof {
                reveal_strlit("Preamp: ");
                reveal_strlit(" dB");
            }
            let mut s = text::owned("Preamp: ");
            s.append(gain.text.as_str());
            s.append(" dB");
            assert(s@ =~= line_text(l@));
            s
        },
        Line::Filter(f) => serialize_filter(f),
    }
}

proof fn lemma_strings_view_push(v: Seq<String>, s: String)
    ensures
        strings_view(v.push(s)) == strings_view(v).push(s@),
{
    assert(strings_view(v.push(s)) =~= strings_view(v).push(s@));
}

/// Serialize a configuration to APO text. No trailing newline is added.
pub fn serialize(config: &Config) -> (r: String)
    ensures
        r@ == serialized(config@),
{
    let ghost c = config@;
    let mut out: Vec<String> = Vec::new();
    let mut emitted_ch = Channel::Both;
    let mut i: usize = 0;
    while i < config.lines.len()
        invariant
            i <= config.lines.len(),
            c == config@,
            strings_view(out@) == emitted(c.take(i as int)).0,
            emitted_ch@ == emitted(c.take(i as int)).1,
        decreases config.lines.len() - i,
    {
        proof {
            assert(c.take(i + 1).drop_last() =~= c.take(i as int));
            assert(c.take(i + 1).last() == config.lines@[i as int]@);
        }
        let line = &config.lines[i];
        let ch: Option<&Channel> = match line {
            Line::Preamp { channel, .. } => Some(channel),
            Line::Filter(f) => Some(&f.channel),
            Line::Raw(_) => None,
        };
        match ch {
            Some(channel) => {
                if !channel.same(&emitted_ch) {
                    let d = channel_directive(channel);
                    proof {
                        lemma_strings_view_push(out@, d);
                    }
                    out.push(d);
                    emitted_ch = channel.duplicate();
                }
            },
            None => {},
        }
        let t = line_string(line);
        proof {
            lemma_strings_view_push(out@, t);
        }
        out.push(t);
        i = i + 1;
    }
    assert(c.take(i as int) =~= c);
    text::join_newline(&out)
}

/// The file contents for a configuration: its text plus the conventional
/// trailing newline.
pub fn file_text(config: &Config) -> (r: String)
    ensures
        r@ == serialized(config@).push('\n'),
{
    let mut s = serialize(config);
    text::push_char(&mut s, '\n');
    s
}

/// A filter line says whether the band is on: after its label
/// (`Filter: ` or `Filter <n>: `) it reads `ON ` exactly when the band is
/// enabled and `OFF ` exactly when it is disabled, so a disabled band is
/// never written as one APO applies.
pub proof fn law_filter_line_says_on_or_off(f: FilterV)
    ensures
        ({
            let label = match f.index {
                Some(n) => seq!['F', 'i', 'l', 't', 'e', 'r', ' '] + dec(n as nat) + seq![':', ' '],
                None => seq!['F', 'i', 'l', 't', 'e', 'r', ':', ' '],
            };
            let t = filter_text(f);
            &&& t.take(label.len() as int) == label
            &&& f.enabled <==> t.subrange(label.len() as int, label.len() as int + 3) == seq!['O', 'N', ' ']
            &&& !f.enabled <==> t.subrange(label.len() as int, label.len() as int + 4) == seq!['O', 'F', 'F', ' ']
        }),
{
    let label = filter_label(f.index);
    let t = filter_text(f);
    let n = label.len() as int;
    assert(t.take(n) =~= label);
    if f.enabled {
        assert(t.subrange(n, n + 3) =~= seq!['O', 'N', ' ']);
        assert(t[n + 1] == 'N');
        if t.subrange(n, n + 4) == seq!['O', 'F', 'F', ' '] {
            assert(t.subrange(n, n + 4)[1] == 'F');
        }
    } else {
        assert(t.subrange(n, n + 4) =~= seq!['O', 'F', 'F', ' ']);
        assert(t[n + 1] == 'F');
        if t.subrange(n, n + 3) == seq!['O', 'N', ' '] {
            assert(t.subrange(n, n + 3)[1] == 'N');
        }
    }
}

} // verus!
