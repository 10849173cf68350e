use fastpeq::audio::{default_output_name, list_devices, EndpointReading};
use fastpeq::category::Categories;
use fastpeq::hardware::{DetectedDevice, RuntimeStatus};
use fastpeq::hotkeys::{key_to_code, parse, pressed_binding, Accelerator, KeyCode};
use fastpeq::model::{Config, Filter, FilterKind, Line, Num};
use fastpeq::offload::OffloadMode;
use fastpeq::status::{ApoStatus, HardwareStatus, SessionView};

#[test]
fn accelerators_parse_strictly() {
    assert_eq!(
        parse("Ctrl+Alt+X"),
        Some(Accelerator {
            ctrl: true,
            alt: true,
            shift: false,
            key: KeyCode::Letter('X')
        })
    );
    assert_eq!(
        parse("Control+Shift+7"),
        Some(Accelerator {
            ctrl: true,
            alt: false,
            shift: true,
            key: KeyCode::Digit('7')
        })
    );
    assert_eq!(parse("Ctrl+Alt"), None);
    assert_eq!(parse("Ctrl+x"), None);
    assert_eq!(parse("Ctrl+X+F1"), None);
    assert_eq!(key_to_code("AB"), None);
    assert_eq!(key_to_code("Q"), Some(KeyCode::Letter('Q')));
}

#[test]
fn audio_devices_fall_back_to_their_id() {
    let readings = vec![
        EndpointReading {
            id: "{a}".to_string(),
            friendly_name: Some("Speakers".to_string()),
        },
        EndpointReading {
            id: "{b}".to_string(),
            friendly_name: Some(String::new()),
        },
        EndpointReading {
            id: String::new(),
            friendly_name: None,
        },
    ];
    let devices = list_devices(&readings, "{b}");
    assert_eq!(devices[0].name, "Speakers");
    assert!(!devices[0].is_default);
    assert_eq!(devices[1].name, "{b}");
    assert!(devices[1].is_default);
    assert!(!list_devices(&readings, "")[2].is_default);
    assert_eq!(default_output_name(Some("")), None);
    assert_eq!(default_output_name(Some("DAC")), Some("DAC".to_string()));
}

#[test]
fn categories_read_back_what_was_written() {
    let mut c = Categories::new();
    c.insert("HD600", "headphone");
    c.insert("HD600", "iem");
    c.insert("KEF", "speaker");
    assert_eq!(c.get("HD600").as_deref(), Some("iem"));
    assert_eq!(c.remove("KEF").as_deref(), Some("speaker"));
    assert_eq!(c.remove("KEF"), None);
    assert_eq!(c.pairs(), vec![("HD600".to_string(), "iem".to_string())]);
    let from = Categories::from_pairs(&vec![
        ("a".to_string(), "x".to_string()),
        ("a".to_string(), "y".to_string()),
    ]);
    assert_eq!(from.get("a").as_deref(), Some("y"));
}

#[test]
fn status_reports_follow_the_session() {
    let status = ApoStatus::of(None, &Some("not installed".to_string()));
    assert!(!status.installed);
    assert_eq!(status.error.as_deref(), Some("not installed"));
    let device = DetectedDevice {
        id: "p".to_string(),
        name: "FiiO KA17".to_string(),
        manufacturer: "FiiO".to_string(),
        model: "KA17".to_string(),
        max_filters: 10,
        user_pregain: true,
    };
    let rt = RuntimeStatus {
        version: Some("1.23".to_string()),
        error: None,
        connected: true,
    };
    let hw = HardwareStatus::of(
        true,
        OffloadMode::FirstX,
        Some(SessionView {
            descriptor: &device,
            max_filters: 10,
            runtime: &rt,
        }),
    );
    assert!(hw.active);
    assert_eq!(hw.version.as_deref(), Some("1.23"));
    assert_eq!(hw.max_filters, Some(10));
    let idle = HardwareStatus::of(true, OffloadMode::FirstX, None);
    assert!(!idle.active && idle.device.is_none());
    assert!(!RuntimeStatus::default().connected);
}

#[test]
fn filter_type_tokens() {
    assert_eq!(FilterKind::from_token("pk"), Some(FilterKind::Peak));
    assert_eq!(FilterKind::from_token("LSC"), Some(FilterKind::LowShelfQ));
    assert_eq!(FilterKind::from_token("XX"), None);
    assert_eq!(FilterKind::HighPassQ.as_token(), "HPQ");
    assert!(FilterKind::Peak.has_gain());
    assert!(!FilterKind::LowPass.has_gain());
    assert!(FilterKind::Notch.has_q());
}

#[test]
fn config_preamp_and_filters() {
    let c = Config {
        lines: vec![
            Line::Raw("Device: all".to_string()),
            Line::Preamp {
                gain: Num::new("-4.5"),
                channel: fastpeq::model::Channel::Both,
            },
            Line::Filter(Filter::peak(Num::new("60"), Num::new("4"), Num::new("0.7"))),
        ],
    };
    assert_eq!(c.preamp().map(|g| g.text), Some("-4.5".to_string()));
    assert_eq!(c.filters().len(), 1);
    assert!(Config::new().preamp().is_none());
    assert!(Num::new("-0").same(&Num::new("0")));
    assert!(!Num::new("NaN").same(&Num::new("NaN")));
}

#[test]
fn a_pressed_shortcut_triggers_its_first_binding() {
    let a = parse("Ctrl+Alt+B").unwrap();
    let b = parse("Ctrl+Shift+7").unwrap();
    let map = vec![(a, "bypass".to_string()), (b, "next".to_string()), (a, "again".to_string())];
    assert_eq!(pressed_binding(&map, a), Some("bypass".to_string()));
    assert_eq!(pressed_binding(&map, b), Some("next".to_string()));
    assert_eq!(pressed_binding(&map, parse("Alt+Z").unwrap()), None);
}

#[test]
fn category_pairs_come_sorted_by_name() {
    let mut c = Categories::new();
    c.insert("KEF", "speaker");
    c.insert("HD600", "headphone");
    c.insert("Aria", "iem");
    c.insert("hd600", "iem");
    assert_eq!(
        c.pairs(),
        vec![
            ("Aria".to_string(), "iem".to_string()),
            ("HD600".to_string(), "headphone".to_string()),
            ("KEF".to_string(), "speaker".to_string()),
            ("hd600".to_string(), "iem".to_string()),
        ]
    );
}
