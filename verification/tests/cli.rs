use fastpeq::cli::{
    arg, band_fields, hex_dump, hex_parse_is_defined, parse_hex, push_arg_step, raw_step_is_defined,
    session_command, unrecognized, within_budget, PushArg, SessionCommand,
};
use fastpeq::offload::HwFilterType;
use fastpeq::text::split_words;

#[test]
fn hex_strings_accept_separators_and_a_prefix() {
    assert_eq!(parse_hex("4b 01 0a"), Ok(vec![0x4b, 0x01, 0x0a]));
    assert_eq!(parse_hex("4B:01:0A"), Ok(vec![0x4b, 0x01, 0x0a]));
    assert_eq!(parse_hex("0x4b010a"), Ok(vec![0x4b, 0x01, 0x0a]));
    assert_eq!(parse_hex("0x 4b-01_0a,ff"), Ok(vec![0x4b, 0x01, 0x0a, 0xff]));
    assert_eq!(parse_hex(""), Ok(vec![]));
}

#[test]
fn malformed_hex_is_refused() {
    assert_eq!(
        parse_hex("4b0"),
        Err("odd number of hex digits in `4b0`".to_string())
    );
    assert_eq!(parse_hex("zz"), Err("bad hex in `zz`".to_string()));
    assert_eq!(parse_hex("é1"), Err("odd number of hex digits in `é1`".to_string()));
    assert_eq!(parse_hex("éé"), Err("bad hex in `éé`".to_string()));
    assert_eq!(parse_hex("+f"), Ok(vec![0x0f]));
}

#[test]
fn dumps_are_spaced_lowercase_hex() {
    assert_eq!(hex_dump(&[0x4b, 0x01, 0xff]), "4b 01 ff");
    assert_eq!(hex_dump(&[]), "");
}

#[test]
fn missing_arguments_name_what_is_missing() {
    let args = vec!["dev".to_string(), "x".to_string()];
    assert_eq!(arg(&args, "<iface>"), Ok("dev"));
    assert_eq!(
        arg(&[], "<iface>"),
        Err("missing <iface> argument — try `help`".to_string())
    );
}

#[test]
fn hex_that_would_split_a_character_is_detected() {
    assert!(hex_parse_is_defined("4b01"));
    assert!(hex_parse_is_defined("éé"));
    assert!(hex_parse_is_defined("1é"));
    assert!(!hex_parse_is_defined("1é1"));
    assert!(!hex_parse_is_defined("0x1é1"));
    let args: Vec<String> = ["read", "send", "1é1"].iter().map(|s| s.to_string()).collect();
    assert!(raw_step_is_defined(&args, 0));
    assert!(!raw_step_is_defined(&args, 1));
    assert!(raw_step_is_defined(&args, 2));
}

fn strings(v: &[&str]) -> Vec<String> {
    v.iter().map(|s| s.to_string()).collect()
}

#[test]
fn band_texts_name_their_class_and_numbers() {
    assert_eq!(
        band_fields("pk:1000:-3.5:1.4"),
        Ok((HwFilterType::Peak, "1000".to_string(), "-3.5".to_string(), "1.4".to_string()))
    );
    assert_eq!(band_fields("LowShelf:80:4:0.7").unwrap().0, HwFilterType::LowShelf);
    assert_eq!(band_fields("HS:8000:2:0.7").unwrap().0, HwFilterType::HighShelf);
    assert_eq!(
        band_fields("pk:1000:3"),
        Err("bad band `pk:1000:3` — expected <type>:<freq>:<gain>:<q>".to_string())
    );
    assert_eq!(
        band_fields("NOTCH:1:2:3"),
        Err("bad filter type `notch` — use pk, ls or hs".to_string())
    );
}

#[test]
fn push_arguments_are_read_in_order() {
    let args = strings(&["--pregain", "-3", "pk:100:1:1", "--commit"]);
    assert_eq!(push_arg_step(&args, 0), Ok(Some((PushArg::Pregain("-3".to_string()), 2))));
    assert!(matches!(push_arg_step(&args, 2), Ok(Some((PushArg::Band(HwFilterType::Peak, ..), 3)))));
    assert_eq!(push_arg_step(&args, 3), Ok(Some((PushArg::Commit, 4))));
    assert_eq!(push_arg_step(&args, 4), Ok(None));
    assert_eq!(
        push_arg_step(&strings(&["--pregain"]), 0),
        Err("--pregain needs a value (dB)".to_string())
    );
    assert_eq!(within_budget(8, 8), Ok(()));
    assert_eq!(
        within_budget(11, 10),
        Err("11 bands exceed the device's budget of 10".to_string())
    );
}

#[test]
fn session_lines_read_as_commands() {
    assert_eq!(split_words("  push -2  pk:1:2:3\n"), strings(&["push", "-2", "pk:1:2:3"]));
    assert_eq!(split_words(" \t "), Vec::<String>::new());
    assert_eq!(session_command(&[]), SessionCommand::Empty);
    assert_eq!(session_command(&strings(&["quit"])), SessionCommand::Quit);
    assert_eq!(session_command(&strings(&["exit"])), SessionCommand::Quit);
    assert_eq!(session_command(&strings(&["status"])), SessionCommand::Status);
    assert_eq!(
        session_command(&strings(&["commit", "-1", "pk:1:2:3"])),
        SessionCommand::Push {
            commit: true,
            pregain: "-1".to_string(),
            bands: strings(&["pk:1:2:3"]),
        }
    );
    assert_eq!(
        session_command(&strings(&["push", "0"])),
        SessionCommand::Push {
            commit: false,
            pregain: "0".to_string(),
            bands: vec![],
        }
    );
    assert_eq!(session_command(&strings(&["push"])), SessionCommand::Unknown);
    assert_eq!(session_command(&strings(&["quit", "now"])), SessionCommand::Unknown);
    assert_eq!(unrecognized(), "unrecognized — commands: push, commit, status, quit");
}
