use fastpeq::model::{Channel, Config, Filter, FilterKind, Line, Num};
use fastpeq::offload::{candidates, first_x, in_order, set_master_gain, software_part, OffloadMode};

fn n(s: &str) -> Num {
    Num::new(s)
}

fn band(kind: FilterKind) -> Line {
    let mut f = Filter::peak(n("1000"), n("3"), n("1"));
    f.kind = kind;
    Line::Filter(f)
}

fn config() -> Config {
    let mut off = Filter::peak(n("500"), n("2"), n("1"));
    off.enabled = false;
    let mut left = Filter::peak(n("600"), n("2"), n("1"));
    left.channel = Channel::Left;
    Config {
        lines: vec![
            Line::Preamp {
                gain: n("-6"),
                channel: Channel::Both,
            },
            band(FilterKind::Peak),
            Line::Filter(off),
            band(FilterKind::LowShelfQ),
            Line::Raw("# note".to_string()),
            Line::Filter(left),
            band(FilterKind::HighShelf),
            band(FilterKind::LowPass),
            band(FilterKind::Peak),
        ],
    }
}

#[test]
fn candidates_are_enabled_both_channel_bands_the_device_supports() {
    let c = config();
    assert_eq!(candidates(&c, true, true), vec![(1, 0), (3, 2), (6, 4), (8, 6)]);
    assert_eq!(candidates(&c, false, true), vec![(1, 0), (6, 4), (8, 6)]);
    assert_eq!(candidates(&c, false, false), vec![(1, 0), (8, 6)]);
}

#[test]
fn first_x_takes_the_budget_in_document_order() {
    let cands = candidates(&config(), true, true);
    assert_eq!(first_x(&cands, 2), vec![(1, 0), (3, 2)]);
    assert_eq!(first_x(&cands, 10), cands);
    assert_eq!(first_x(&cands, 0), vec![]);
    assert_eq!(in_order(&cands, &vec![8, 1]), vec![(1, 0), (8, 6)]);
}

#[test]
fn the_software_part_keeps_what_was_not_offloaded() {
    let c = config();
    let rest = software_part(&c, &vec![1, 6], OffloadMode::FirstX);
    assert_eq!(rest.lines.len(), c.lines.len() - 2);
    assert!(rest.lines[0].same(&c.lines[0]));
    assert!(rest.lines[1].same(&c.lines[2]));
    let flat = software_part(&c, &vec![], OffloadMode::HardwareOnly);
    assert_eq!(flat.lines.len(), 1);
    assert!(matches!(&flat.lines[0], Line::Raw(s) if s == "# note"));
}

#[test]
fn the_master_preamp_is_replaced_or_inserted() {
    let mut c = config();
    set_master_gain(&mut c, n("-2.5"));
    assert_eq!(c.lines.len(), 9);
    assert!(matches!(&c.lines[0], Line::Preamp { gain, channel: Channel::Both } if gain.text == "-2.5"));
    let mut d = Config {
        lines: vec![
            Line::Preamp {
                gain: n("-1"),
                channel: Channel::Left,
            },
            band(FilterKind::Peak),
        ],
    };
    set_master_gain(&mut d, n("-4"));
    assert_eq!(d.lines.len(), 3);
    assert!(matches!(&d.lines[0], Line::Preamp { gain, channel: Channel::Both } if gain.text == "-4"));
    assert!(matches!(&d.lines[1], Line::Preamp { channel: Channel::Left, .. }));
}
