use fastpeq::model::{Channel, Config, Filter, Line, Num};

fn peak(freq: &str, gain: &str) -> Line {
    Line::Filter(Filter::peak(Num::new(freq), Num::new(gain), Num::new("1.41")))
}

fn preamp(gain: &str, channel: Channel) -> Line {
    Line::Preamp {
        gain: Num::new(gain),
        channel,
    }
}

fn config(lines: Vec<Line>) -> Config {
    Config { lines }
}

#[test]
fn equivalence_ignores_filter_order() {
    let a = config(vec![peak("1000", "3"), peak("2000", "-2")]);
    let b = config(vec![peak("2000", "-2"), peak("1000", "3")]);
    assert!(a.is_equivalent(&b));
    assert!(b.is_equivalent(&a));
}

#[test]
fn equivalence_ignores_the_master_preamp() {
    let a = config(vec![preamp("-3", Channel::Both), peak("1000", "3")]);
    let b = config(vec![peak("1000", "3"), preamp("-5.5", Channel::Both)]);
    let c = config(vec![peak("1000", "3")]);
    assert!(a.is_equivalent(&b));
    assert!(a.is_equivalent(&c));
    assert!(c.is_equivalent(&b));
}

#[test]
fn equivalence_compares_balance_preamps_in_any_order() {
    let a = config(vec![
        preamp("-1", Channel::Left),
        preamp("-2", Channel::Right),
        peak("100", "1"),
    ]);
    let b = config(vec![
        peak("100", "1"),
        preamp("-2", Channel::Right),
        preamp("-1", Channel::Left),
    ]);
    let c = config(vec![
        preamp("-2", Channel::Left),
        preamp("-1", Channel::Right),
        peak("100", "1"),
    ]);
    assert!(a.is_equivalent(&b));
    assert!(!a.is_equivalent(&c));
}

#[test]
fn equivalence_keeps_raw_lines_and_their_counts() {
    let a = config(vec![
        Line::Raw("# one".to_string()),
        peak("500", "2"),
        Line::Raw("# two".to_string()),
    ]);
    let b = config(vec![
        Line::Raw("# two".to_string()),
        Line::Raw("# one".to_string()),
        peak("500", "2"),
    ]);
    let c = config(vec![
        Line::Raw("# two".to_string()),
        Line::Raw("# two".to_string()),
        peak("500", "2"),
    ]);
    assert!(a.is_equivalent(&b));
    assert!(!a.is_equivalent(&c));
}

#[test]
fn equivalence_counts_repeated_bands() {
    let a = config(vec![peak("1000", "3"), peak("1000", "3"), peak("2000", "1")]);
    let b = config(vec![peak("2000", "1"), peak("1000", "3"), peak("2000", "1")]);
    let c = config(vec![peak("1000", "3"), peak("2000", "1")]);
    assert!(!a.is_equivalent(&b));
    assert!(!a.is_equivalent(&c));
    assert!(!c.is_equivalent(&a));
}

#[test]
fn equivalence_compares_numbers_numerically() {
    let a = config(vec![peak("1000", "0"), peak("2000", "3")]);
    let b = config(vec![peak("2000", "3"), peak("1000", "-0")]);
    let c = config(vec![peak("2000", "3"), peak("1000", "0.5")]);
    assert!(a.is_equivalent(&b));
    assert!(!a.is_equivalent(&c));
}

#[test]
fn a_not_a_number_band_matches_nothing() {
    let a = config(vec![peak("1000", "NaN")]);
    assert!(!a.is_equivalent(&a));
    assert!(Config::new().is_equivalent(&Config::new()));
}

#[test]
fn canonical_number_texts() {
    for t in ["0", "-0", "1000", "-6.5", "0.71", "NaN", "inf", "-inf", "0.000001"] {
        assert!(Num::is_canonical(t), "{t}");
    }
    for t in ["", "-", "0.0", "1.50", "007", "1e5", ".5", "1.", "+1", "--1", "1,5", "nan"] {
        assert!(!Num::is_canonical(t), "{t}");
    }
}
