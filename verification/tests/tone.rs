use fastpeq::model::{Channel, Config, Filter, FilterKind, Line, Num};
use fastpeq::tone::{compose, copy_is_swap, flip_preamp_channels, strip, Tone, BASS_FREQ};

fn n(s: &str) -> Num {
    Num::new(s)
}

fn base() -> Config {
    Config {
        lines: vec![
            Line::Preamp {
                gain: n("-3"),
                channel: Channel::Both,
            },
            Line::Filter(Filter::peak(n("1000"), n("2"), n("1"))),
        ],
    }
}

#[test]
fn flat_tone_writes_nothing() {
    let tone = Tone::default();
    assert!(tone.is_flat());
    assert!(tone.lines().is_empty());
    assert!(compose(&base(), &tone).same(&base()));
}

#[test]
fn compose_then_strip_is_identity() {
    let tone = Tone {
        bass: n("4"),
        mid: n("0"),
        treble: n("-2"),
        ..Default::default()
    };
    let composed = compose(&base(), &tone);

    // Only the non-zero knobs become filters, fenced by the sentinels.
    let tone_filters: Vec<_> = composed
        .lines
        .iter()
        .skip(2)
        .filter_map(|l| match l {
            Line::Filter(f) => Some(f),
            _ => None,
        })
        .collect();
    assert_eq!(tone_filters.len(), 2);
    assert_eq!(tone_filters[0].kind, FilterKind::LowShelfQ);
    assert_eq!(tone_filters[0].freq.text, BASS_FREQ);
    assert_eq!(tone_filters[1].kind, FilterKind::HighShelfQ);

    // Stripping the overlay restores the original base exactly.
    assert!(strip(&composed).same(&base()));
}

#[test]
fn switches_emit_copy_line() {
    let swap = Tone {
        swap: true,
        ..Default::default()
    };
    assert!(!swap.is_flat());
    let lines = swap.lines();
    assert!(matches!(&lines[1], Line::Raw(s) if s == "Copy: L=R R=L"));

    let inv = Tone {
        invert: true,
        ..Default::default()
    };
    let lines = inv.lines();
    assert!(matches!(&lines[1], Line::Raw(s) if s == "Copy: L=-1*L R=-1*R"));

    let both = Tone {
        bass: n("3"),
        invert: true,
        swap: true,
        ..Default::default()
    };
    let composed = compose(&base(), &both);
    let copy = composed.lines.iter().find_map(|l| match l {
        Line::Raw(s) if s.starts_with("Copy:") => Some(s.clone()),
        _ => None,
    });
    assert_eq!(copy.as_deref(), Some("Copy: L=-1*R R=-1*L"));
    assert!(strip(&composed).same(&base()));
}

#[test]
fn swap_flips_balance_preamp_but_round_trips() {
    let base = Config {
        lines: vec![
            Line::Preamp {
                gain: n("-6"),
                channel: Channel::Left,
            },
            Line::Filter(Filter::peak(n("1000"), n("2"), n("1"))),
        ],
    };
    let composed = compose(
        &base,
        &Tone {
            swap: true,
            ..Default::default()
        },
    );
    assert!(composed.lines.iter().any(|l| matches!(
        l,
        Line::Preamp { gain, channel: Channel::Right } if gain.text == "-6"
    )));
    assert!(!composed
        .lines
        .iter()
        .any(|l| matches!(l, Line::Preamp { channel: Channel::Left, .. })));
    assert!(strip(&composed).same(&base));
}

#[test]
fn recompose_replaces_rather_than_stacks() {
    let first = compose(
        &base(),
        &Tone {
            bass: n("4"),
            ..Default::default()
        },
    );
    let second = compose(
        &first,
        &Tone {
            treble: n("3"),
            ..Default::default()
        },
    );
    assert!(strip(&second).same(&base()));
    let tone_filters = second
        .lines
        .iter()
        .filter(|l| matches!(l, Line::Filter(_)))
        .count();
    assert_eq!(tone_filters, 2);
}

#[test]
fn flipping_twice_restores_the_channels() {
    let c = Config {
        lines: vec![
            Line::Preamp {
                gain: n("-1.5"),
                channel: Channel::Left,
            },
            Line::Preamp {
                gain: n("-2"),
                channel: Channel::Right,
            },
            Line::Preamp {
                gain: n("-4"),
                channel: Channel::Both,
            },
        ],
    };
    let once = flip_preamp_channels(&c);
    assert!(matches!(&once.lines[0], Line::Preamp { channel: Channel::Right, .. }));
    assert!(matches!(&once.lines[1], Line::Preamp { channel: Channel::Left, .. }));
    assert!(matches!(&once.lines[2], Line::Preamp { channel: Channel::Both, .. }));
    assert!(flip_preamp_channels(&once).same(&c));
}

#[test]
fn only_swapping_copy_lines_count_as_swaps() {
    assert!(copy_is_swap("Copy: L=R R=L"));
    assert!(copy_is_swap("Copy: L=-1*R R=-1*L"));
    assert!(!copy_is_swap("Copy: L=-1*L R=-1*R"));
    assert!(!copy_is_swap("# not a copy"));
}
