use fastpeq::model::Channel;
use fastpeq::peace::{grid, parse_ini, speaker_channel, GridBand};

#[test]
fn ini_sections_keys_and_comments() {
    let ini = parse_ini(
        "; a comment\r\n[General]\r\nPreAmp = -5 \r\n\r\n[Gains]\nGain2=1\nGain1=4\nGain2=3\nnot an assignment\n[Empty]\n",
    );
    assert_eq!(ini.get("General", "PreAmp").as_deref(), Some("-5"));
    assert_eq!(ini.get("Gains", "Gain2").as_deref(), Some("3"));
    assert_eq!(ini.get("Gains", "Gain9"), None);
    assert!(ini.has_section("Empty"));
    assert!(!ini.has_section("Missing"));
    assert_eq!(
        ini.section_pairs("Gains"),
        vec![
            ("Gain1".to_string(), "4".to_string()),
            ("Gain2".to_string(), "3".to_string())
        ]
    );
}

#[test]
fn keys_before_any_header_land_in_the_unnamed_section() {
    let ini = parse_ini("a=1\n[]\nb=2\n[x\nc=3");
    assert_eq!(ini.get("", "a").as_deref(), Some("1"));
    assert_eq!(ini.get("", "b").as_deref(), Some("2"));
    assert_eq!(ini.get("", "[x"), None);
    assert_eq!(ini.get("", "c").as_deref(), Some("3"));
}

#[test]
fn speaker_grids_map_to_channels() {
    let ini = parse_ini(
        "[Speakers]\nSpeakerTargets0=all\nSpeakerTargets1= L \nSpeakerTargets2=R\nSpeakerTargets3=C\nSpeakerTargets4=ALL\n",
    );
    assert_eq!(speaker_channel(&ini, 0), Channel::Both);
    assert_eq!(speaker_channel(&ini, 1), Channel::Left);
    assert_eq!(speaker_channel(&ini, 2), Channel::Right);
    assert_eq!(speaker_channel(&ini, 3), Channel::Other("C".to_string()));
    assert_eq!(speaker_channel(&ini, 4), Channel::Both);
    assert_eq!(speaker_channel(&ini, 8), Channel::Both);
}

#[test]
fn grids_list_their_active_bands_in_band_order() {
    let text = "[General]\nPreAmp=-5\n\
                [Frequencies]\nFrequency1=20\nFrequency2=150\nFrequency3=800\nFrequency10=9000\n\
                [Gains]\nGain10=1\nGain1=4\nGain3=-3\nGainX=2\nVolume=1\n\
                [Qualities]\nQuality1=1\nQuality3=2\n\
                [Gains2]\nGain1=2\n";
    let ini = parse_ini(text);
    let band = |b: u32, gain: &str, freq: Option<&str>, q: Option<&str>| GridBand {
        band: b,
        gain: gain.to_string(),
        freq: freq.map(str::to_string),
        q: q.map(str::to_string),
    };
    assert_eq!(
        grid(&ini, 0),
        Some(vec![
            band(1, "4", Some("20"), Some("1")),
            band(3, "-3", Some("800"), Some("2")),
            band(10, "1", Some("9000"), None),
        ])
    );
    // A per-channel grid looks its values up in its own sections.
    assert_eq!(grid(&ini, 2), Some(vec![band(1, "2", None, None)]));
    assert_eq!(grid(&ini, 1), None);
}
