use fastpeq::model::{Config, Filter, Line, Num};
use fastpeq::provenance;
use fastpeq::provenance::{is_stamp_line, name, strip};

fn eq() -> Config {
    Config {
        lines: vec![Line::Filter(Filter::peak(
            Num::new("1000"),
            Num::new("3"),
            Num::new("1"),
        ))],
    }
}

#[test]
fn set_then_name_round_trips() {
    let stamped = provenance::set(&eq(), "Bass Boost");
    assert_eq!(name(&stamped).as_deref(), Some("Bass Boost"));
    // The stamp leads, the EQ follows untouched.
    assert!(matches!(&stamped.lines[0], Line::Raw(s) if s == "# fastpeq:preset=Bass Boost"));
    assert!(strip(&stamped).same(&eq()));
}

#[test]
fn set_replaces_an_existing_stamp() {
    let once = provenance::set(&eq(), "First");
    let twice = provenance::set(&once, "Second");
    assert_eq!(name(&twice).as_deref(), Some("Second"));
    // Only one stamp ever remains.
    let stamps = twice.lines.iter().filter(|l| is_stamp_line(l)).count();
    assert_eq!(stamps, 1);
}

#[test]
fn unstamped_config_has_no_name_and_strip_is_a_noop() {
    assert_eq!(name(&eq()), None);
    assert!(strip(&eq()).same(&eq()));
}

#[test]
fn stamp_is_found_after_other_lines_and_trimmed() {
    let c = Config {
        lines: vec![
            Line::Raw("# a comment".to_string()),
            Line::Raw("   # fastpeq:preset=HD600   ".to_string()),
        ],
    };
    assert_eq!(name(&c).as_deref(), Some("HD600"));
    assert_eq!(strip(&c).lines.len(), 1);
}
