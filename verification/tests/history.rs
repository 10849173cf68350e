use fastpeq::history::{
    count_revisions, HistoryMove, format_id, fresh_id, normal_text, normalize, parse_id, parse_revision, prune_ids, tag_of,
    with_tag, PresetHistory, Revision, RevisionOp, KEEP_MAX,
};
use fastpeq::model::{Channel, Config, Filter, FilterKind, Line, Num};
use fastpeq::store::StoreError;

fn n(s: &str) -> Num {
    Num::new(s)
}

fn peak(freq: &str, gain: &str) -> Line {
    Line::Filter(Filter::peak(n(freq), n(gain), n("1")))
}

fn preamp(gain: &str) -> Line {
    Line::Preamp {
        gain: n(gain),
        channel: Channel::Both,
    }
}

fn config(lines: Vec<Line>) -> Config {
    Config { lines }
}

fn file(id: &str) -> String {
    format!("{id}.txt")
}

#[test]
fn normalize_strips_master_preamp_and_noop_filters_only() {
    let disabled = Line::Filter(Filter {
        enabled: false,
        ..Filter::peak(n("3000"), n("-3"), n("2"))
    });
    let noop = peak("2000", "0");
    let gainless_pk = Line::Filter(Filter {
        gain: None,
        ..Filter::peak(n("4000"), n("0"), n("1"))
    });
    let trim = Line::Preamp {
        gain: n("-2"),
        channel: Channel::Left,
    };
    let lowpass = Line::Filter(Filter {
        kind: FilterKind::LowPass,
        gain: None,
        q: None,
        ..Filter::peak(n("5000"), n("0"), n("1"))
    });
    let c = config(vec![
        Line::Raw("# fastpeq:preset=Old".into()),
        Line::Raw("# a comment".into()),
        preamp("-6"),
        trim.duplicate(),
        peak("1000", "3"),
        noop,
        gainless_pk,
        disabled.duplicate(),
        lowpass.duplicate(),
    ]);

    let normalized = normalize(&c);
    let expected = config(vec![
        Line::Raw("# a comment".into()),
        trim,
        peak("1000", "3"),
        disabled,
        lowpass,
    ]);
    assert!(normalized.same(&expected));
}

#[test]
fn negative_zero_gain_filters_are_noops_too() {
    let c = config(vec![peak("100", "-0"), peak("200", "1")]);
    assert!(normalize(&c).same(&config(vec![peak("200", "1")])));
}

#[test]
fn tags_ride_with_content_but_are_not_identity() {
    let base = config(vec![peak("1000", "3")]);
    let tagged = with_tag(&base, "Warm bass");
    assert_eq!(tag_of(&tagged).as_deref(), Some("Warm bass"));
    assert!(with_tag(&tagged, "").same(&base));
    // Metadata, not content: normalize strips it.
    assert!(normalize(&tagged).same(&normalize(&base)));

    // A recorded snapshot keeps the displaced content's tag.
    let history = PresetHistory::new(r"C:\presets");
    let plan = history
        .record("P", &tagged, RevisionOp::Save, &Vec::new(), 1000)
        .unwrap();
    assert!(plan.contents.starts_with("# fastpeq:tag=Warm bass\n"));

    // Recording the same content under a different tag replaces the old copy.
    let retagged = with_tag(&base, "Renamed");
    let existing = vec![(file(&plan.id), tagged.duplicate())];
    let plan2 = history
        .record("P", &retagged, RevisionOp::Save, &existing, 2000)
        .unwrap();
    assert_eq!(plan2.duplicates, vec![plan.id.clone()]);
    assert!(plan2.contents.starts_with("# fastpeq:tag=Renamed\n"));
}

#[test]
fn set_tag_names_and_clears_a_revision() {
    let c = config(vec![peak("1000", "3")]);
    let named = with_tag(&c, "  V-shaped  ");
    assert_eq!(tag_of(&named).as_deref(), Some("V-shaped"));
    assert!(normalize(&named).same(&c));
    let cleared = with_tag(&named, "");
    assert_eq!(tag_of(&cleared), None);
    // Ids are validated before they reach a path.
    let history = PresetHistory::new(r"C:\presets");
    assert!(history.revision_path("P", "../../evil").is_err());
}

#[test]
fn same_millisecond_records_get_distinct_ids() {
    let history = PresetHistory::new(r"C:\presets");
    let a = history
        .record("P", &config(vec![peak("100", "1")]), RevisionOp::Save, &Vec::new(), 5)
        .unwrap();
    let existing = vec![(file(&a.id), config(vec![peak("100", "1")]))];
    let b = history
        .record("P", &config(vec![peak("200", "2")]), RevisionOp::Save, &existing, 5)
        .unwrap();
    assert_ne!(a.id, b.id);
    assert_eq!(a.id, "5-save");
    assert_eq!(b.id, "6-save");
    assert!(b.duplicates.is_empty());
}

#[test]
fn recording_duplicate_content_keeps_one_copy_at_the_newest_position() {
    let history = PresetHistory::new(r"C:\presets");
    let content = config(vec![peak("1000", "3")]);
    let other = config(vec![peak("2000", "-2")]);
    let existing = vec![
        (file("10-save"), content.duplicate()),
        (file("11-save"), other.duplicate()),
    ];
    // The same content again — the preamp difference must not defeat the
    // dedupe (both normalize identically).
    let mut with_preamp = content.duplicate();
    with_preamp.lines.insert(0, preamp("-9"));
    let plan = history
        .record("P", &with_preamp, RevisionOp::Save, &existing, 12)
        .unwrap();
    assert_eq!(plan.duplicates, vec!["10-save".to_string()]);
    assert_eq!(plan.id, "12-save");
    assert_eq!(plan.dir, r"C:\presets\.history\P");
    assert_eq!(plan.path, r"C:\presets\.history\P\12-save.txt");
}

#[test]
fn a_removed_duplicate_frees_its_id() {
    let history = PresetHistory::new(r"C:\presets");
    let content = config(vec![peak("1000", "3")]);
    let existing = vec![(file("12-save"), content.duplicate())];
    let plan = history
        .record("P", &content, RevisionOp::Save, &existing, 12)
        .unwrap();
    assert_eq!(plan.duplicates, vec!["12-save".to_string()]);
    assert_eq!(plan.id, "12-save");
}

#[test]
fn prune_keeps_the_newest_30() {
    let history = PresetHistory::new(r"C:\presets");
    let entries: Vec<(String, Option<String>)> = (0..33u64)
        .map(|i| (file(&format!("{}-save", 100 + i)), None))
        .collect();
    let listed = history.list("P", &entries).unwrap();
    assert_eq!(listed.len(), 33);
    assert_eq!(listed[0].id, "132-save");
    let pruned = prune_ids(&listed);
    assert_eq!(listed.len() - pruned.len(), KEEP_MAX);
    // The oldest three go.
    assert_eq!(
        pruned,
        vec!["102-save".to_string(), "101-save".to_string(), "100-save".to_string()]
    );
}

#[test]
fn list_orders_newest_first_and_skips_foreign_files() {
    let history = PresetHistory::new(r"C:\presets");
    let entries = vec![
        (file("5-save"), None),
        ("notes.md".to_string(), None),
        (file("9-delete"), Some("gone".to_string())),
        (file("9-restore"), None),
        (file("bogus"), None),
        (".txt".to_string(), None),
    ];
    let listed: Vec<Revision> = history.list("P", &entries).unwrap();
    let ids: Vec<&str> = listed.iter().map(|r| r.id.as_str()).collect();
    assert_eq!(ids, vec!["9-restore", "9-delete", "5-save"]);
    assert_eq!(listed[1].op, RevisionOp::Delete);
    assert_eq!(listed[1].tag.as_deref(), Some("gone"));
    assert_eq!(listed[2].saved_at_ms, 5);
}

#[test]
fn unsafe_names_and_malformed_ids_are_rejected() {
    let history = PresetHistory::new(r"C:\presets");
    assert!(history.list("../evil", &Vec::new()).is_err());
    assert!(matches!(
        history.record("CON", &Config::new(), RevisionOp::Save, &Vec::new(), 0),
        Err(StoreError::InvalidName(_))
    ));
    assert!(matches!(
        history.revision_path("P", "../../secret"),
        Err(StoreError::InvalidRevisionId(_))
    ));
    assert!(matches!(
        history.revision_path("P", "123-nonsense"),
        Err(StoreError::InvalidRevisionId(_))
    ));
    assert_eq!(
        history.revision_path("P", "123-save").unwrap(),
        r"C:\presets\.history\P\123-save.txt"
    );
}

#[test]
fn ids_round_trip_and_malformed_ones_are_refused() {
    assert_eq!(format_id(1712345678901, RevisionOp::Restore), "1712345678901-restore");
    assert_eq!(
        parse_id("1712345678901-restore"),
        Some((1712345678901, RevisionOp::Restore))
    );
    assert_eq!(parse_id("+7-save"), Some((7, RevisionOp::Save)));
    assert_eq!(parse_id("7-Save"), None);
    assert_eq!(parse_id("-save"), None);
    assert_eq!(parse_id("18446744073709551616-save"), None);
    assert_eq!(parse_id("nodash"), None);
}

#[test]
fn revision_files_are_txt_files_with_well_formed_stems() {
    let r = parse_revision("42-delete.txt").unwrap();
    assert_eq!(r.id, "42-delete");
    assert_eq!(r.saved_at_ms, 42);
    assert_eq!(r.op, RevisionOp::Delete);
    assert!(parse_revision("42-delete.TXT").is_none());
    assert!(parse_revision("42-delete").is_none());
    assert!(parse_revision(".txt").is_none());
}

#[test]
fn fresh_ids_bump_past_taken_milliseconds() {
    let taken = vec!["7-save".to_string(), "8-save".to_string(), "9-delete".to_string()];
    assert_eq!(fresh_id(7, RevisionOp::Save, &taken), "9-save");
    assert_eq!(fresh_id(7, RevisionOp::Delete, &taken), "7-delete");
}

#[test]
fn normal_text_is_the_serialized_normal_form() {
    let c = config(vec![preamp("-6"), peak("1000", "3")]);
    assert_eq!(normal_text(&c), "Filter: ON PK Fc 1000 Hz Gain 3 dB Q 1\n");
}

#[test]
fn rename_moves_history_and_merges_into_an_existing_dir() {
    let history = PresetHistory::new(r"C:\presets");
    let old_revs = history
        .list("Old", &vec![(file("100-save"), None), (file("200-save"), None)])
        .unwrap();
    // The target already holds 200-save and 201-save: 200-save lands on 202.
    let plan = history
        .rename(
            "Old",
            "New",
            true,
            true,
            &old_revs,
            &vec!["200-save".to_string(), "201-save".to_string()],
        )
        .unwrap();
    match plan {
        HistoryMove::Merge { moves, from_dir } => {
            assert_eq!(from_dir, r"C:\presets\.history\Old");
            assert_eq!(
                moves,
                vec![
                    (
                        r"C:\presets\.history\Old\200-save.txt".to_string(),
                        r"C:\presets\.history\New\202-save.txt".to_string()
                    ),
                    (
                        r"C:\presets\.history\Old\100-save.txt".to_string(),
                        r"C:\presets\.history\New\100-save.txt".to_string()
                    ),
                ]
            );
        }
        _ => panic!("expected a merge"),
    }
    // No target history yet: the whole directory moves.
    assert!(matches!(
        history.rename("Old", "Fresh", true, false, &old_revs, &Vec::new()),
        Ok(HistoryMove::MoveDir { .. })
    ));
    // A rename with no history is a no-op, not an error.
    assert!(matches!(
        history.rename("Missing", "Elsewhere", false, false, &Vec::new(), &Vec::new()),
        Ok(HistoryMove::Nothing)
    ));
}

#[test]
fn counts_reports_per_preset_revision_totals() {
    let p = vec![file("1-save"), file("2-save")];
    let q = vec![file("3-delete"), "notes.md".to_string()];
    assert_eq!(count_revisions(&p), 2);
    assert_eq!(count_revisions(&q), 1);
    assert_eq!(count_revisions(&Vec::new()), 0);
}

#[test]
fn remove_matching_evicts_revisions_equal_to_the_live_preset() {
    let history = PresetHistory::new(r"C:\presets");
    let content = config(vec![peak("1000", "3")]);
    let other = config(vec![peak("2000", "-2")]);
    let existing = vec![
        (file("1-save"), content.duplicate()),
        (file("2-delete"), other.duplicate()),
    ];
    let gone = history.remove_matching("P", &content, &existing).unwrap();
    assert_eq!(gone, vec!["1-save".to_string()]);
}
