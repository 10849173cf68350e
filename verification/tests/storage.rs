use fastpeq::category::Categories;
use fastpeq::env::ApoInstall;
use fastpeq::history::{HistoryMove, Revision, RevisionOp};
use fastpeq::manager::{ImportCandidate, Manager};
use fastpeq::model::{Channel, Config, Filter, Line, Num};
use fastpeq::provenance;
use fastpeq::store::{is_reserved_device, is_safe_name, PresetStore, StoreError};
use fastpeq::tone::Tone;

fn n(s: &str) -> Num {
    Num::new(s)
}

fn sample_config() -> Config {
    Config {
        lines: vec![
            Line::Preamp {
                gain: n("-3"),
                channel: Channel::Both,
            },
            Line::Filter(Filter::peak(n("1000"), n("-2"), n("1"))),
        ],
    }
}

fn manager() -> Manager {
    Manager::new(
        ApoInstall {
            config_path: r"C:\APO\config".to_string(),
        },
        PresetStore::new(r"C:\Users\me\presets"),
        r"C:\APO\config\config.backup.txt",
    )
}

fn names(v: &[&str]) -> Vec<String> {
    v.iter().map(|s| s.to_string()).collect()
}

#[test]
fn store_save_load_list_delete() {
    let store = PresetStore::new(r"C:\presets");
    assert!(store.list(&Vec::new()).is_empty());
    // Sorted case-insensitively; only .txt files are presets.
    let listed = store.list(&names(&["Vocal.txt", "bass Boost.txt", "notes.md", ".txt", "Alpha.TXT"]));
    assert_eq!(listed, vec!["bass Boost", "Vocal"]);
    assert!(store.has_preset("Vocal", true));
    assert!(!store.has_preset("Vocal", false));
    assert_eq!(
        store.path_for("  Bass Boost ").unwrap(),
        r"C:\presets\Bass Boost.txt"
    );
}

#[test]
fn listing_ties_keep_directory_order() {
    let store = PresetStore::new(r"C:\presets");
    let listed = store.list(&names(&["b.txt", "HD600.txt", "a.txt", "hd600.txt"]));
    assert_eq!(listed, vec!["a", "b", "HD600", "hd600"]);
}

#[test]
fn bypass_keeps_preamp_but_drops_filters() {
    let m = manager();
    let live = m.apply_loaded_preset("HP", &sample_config(), &Tone::default());
    let bypassed = m.bypass(&live);
    assert_eq!(bypassed.lines.len(), 1);
    assert!(matches!(&bypassed.lines[0], Line::Preamp { gain, channel: Channel::Both } if gain.text == "-3"));
    // No stamp means no active preset.
    assert_eq!(m.active_preset(&bypassed, true), None);
}

#[test]
fn captured_base_restores_an_unsaved_edit_after_bypass() {
    let m = manager();
    let edited = Config {
        lines: vec![
            Line::Preamp {
                gain: n("-5"),
                channel: Channel::Both,
            },
            Line::Filter(Filter::peak(n("500"), n("3"), n("1.5"))),
        ],
    };
    let live = m.apply_config(&edited, &Tone::default(), &Config::new());
    let base = m.base_config(&live);
    let bypassed = m.bypass(&live);
    assert!(bypassed.filters().is_empty());
    let restored = m.apply_config(&base, &Tone::default(), &bypassed);
    assert!(m.base_config(&restored).same(&edited));
}

#[test]
fn store_rename_moves_and_guards() {
    let m = manager();
    let plan = m
        .rename_preset("Old Name", "New Name", true, false, false, None, None, Categories::new())
        .unwrap();
    assert_eq!(plan.from_path, r"C:\Users\me\presets\Old Name.txt");
    assert_eq!(plan.to_path, r"C:\Users\me\presets\New Name.txt");
    assert!(plan.categories.is_none());
    // Renaming a missing preset fails.
    assert!(matches!(
        m.rename_preset("Ghost", "Whatever", false, false, false, None, None, Categories::new()),
        Err(StoreError::NotFound(_))
    ));
    // Renaming onto an existing name fails (never clobbers).
    assert!(matches!(
        m.rename_preset("New Name", "Other", true, true, false, None, None, Categories::new()),
        Err(StoreError::AlreadyExists(_))
    ));
}

#[test]
fn store_rename_allows_case_only_change() {
    let m = manager();
    assert!(m
        .rename_preset("HD600", "hd600", true, true, true, None, None, Categories::new())
        .is_ok());
}

#[test]
fn manager_active_preset_tracks_live_config() {
    let m = manager();
    assert_eq!(m.stamped_preset_path(&Config::new()), None);
    assert_eq!(m.active_preset(&Config::new(), true), None);
    let live = m.apply_loaded_preset("Bass", &sample_config(), &Tone::default());
    assert_eq!(
        m.stamped_preset_path(&live),
        Some(r"C:\Users\me\presets\Bass.txt".to_string())
    );
    assert_eq!(m.active_preset(&live, true), Some("Bass".to_string()));
    let live = m.apply_loaded_preset("Other", &sample_config(), &Tone::default());
    assert_eq!(m.active_preset(&live, true), Some("Other".to_string()));
    let live = m.bypass(&live);
    assert_eq!(m.stamped_preset_path(&live), None);
    assert_eq!(m.active_preset(&live, true), None);
}

#[test]
fn active_preset_resolves_an_offload_remainder() {
    let m = manager();
    let remainder = provenance::set(
        &Config {
            lines: vec![Line::Filter(Filter::peak(n("8000"), n("3"), n("1")))],
        },
        "HD600",
    );
    assert_eq!(
        m.active_preset(&remainder, true),
        Some("HD600".to_string())
    );
    assert_eq!(m.active_preset(&remainder, false), None);
}

#[test]
fn provenance_stamp_disambiguates_equivalent_presets() {
    let m = manager();
    let band = Filter::peak(n("1000"), n("3"), n("1"));
    let soft = Config {
        lines: vec![
            Line::Preamp {
                gain: n("-6"),
                channel: Channel::Both,
            },
            Line::Filter(band.duplicate()),
        ],
    };
    let live = m.apply_loaded_preset("Soft", &soft, &Tone::default());
    let mut retuned = soft.duplicate();
    retuned.lines[0] = Line::Preamp {
        gain: n("-9.5"),
        channel: Channel::Both,
    };
    let live = m.apply_config(&retuned, &Tone::default(), &live);
    assert_eq!(m.active_preset(&live, true), Some("Soft".to_string()));
    // Without a stamp the same EQ is not detected at all.
    assert_eq!(m.active_preset(&retuned, true), None);
}

#[test]
fn saved_presets_never_carry_the_provenance_stamp() {
    let m = manager();
    let live = m.apply_loaded_preset("Bass", &sample_config(), &Tone::default());
    assert_eq!(provenance::name(&live).as_deref(), Some("Bass"));
    let plan = m.capture_current("Copy", &live, None).unwrap();
    assert_eq!(provenance::name(&plan.contents), None);
    assert!(plan.contents.same(&sample_config()));
    assert!(!plan.snapshot_prior);
}

#[test]
fn stale_stamp_for_deleted_preset_is_not_active() {
    let m = manager();
    let live = m.apply_loaded_preset("Bass", &sample_config(), &Tone::default());
    // Only "Rescue.txt" is left: nothing is present at "Bass.txt".
    assert_eq!(m.active_preset(&live, false), None);
}

#[test]
fn a_case_only_rename_keeps_the_stamped_preset_active() {
    let m = manager();
    // Stamped "HD600"; the file is now "hd600.txt", which a case-insensitive
    // file system finds at the stamped path.
    let live = m.apply_loaded_preset("HD600", &sample_config(), &Tone::default());
    assert_eq!(
        m.stamped_preset_path(&live),
        Some(r"C:\Users\me\presets\HD600.txt".to_string())
    );
    assert_eq!(m.active_preset(&live, true), Some("HD600".to_string()));
}

#[test]
fn categories_set_get_and_track_rename_delete() {
    let m = manager();
    let cats = Categories::new();
    let cats = m.set_category(cats, "HD600", Some("headphone".to_string()));
    let cats = m.set_category(cats, "KEF", Some("speaker".to_string()));
    assert_eq!(cats.get("HD600").as_deref(), Some("headphone"));
    assert_eq!(cats.get("KEF").as_deref(), Some("speaker"));

    // Rename carries the category across.
    let plan = m
        .rename_preset("HD600", "Sennheiser HD600", true, false, false, None, None, cats)
        .unwrap();
    let cats = plan.categories.unwrap();
    assert_eq!(cats.get("Sennheiser HD600").as_deref(), Some("headphone"));
    assert_eq!(cats.get("HD600"), None);

    // Delete drops it.
    let plan = m
        .delete_preset("KEF", Some(&sample_config()), &Vec::new(), 1000, &Vec::new(), cats)
        .unwrap();
    assert!(plan.record.is_some());
    let cats = plan.categories.unwrap();
    assert_eq!(cats.get("KEF"), None);

    // Clearing with None removes it.
    let cats = m.set_category(cats, "Sennheiser HD600", None);
    assert!(cats.pairs().is_empty());
}

#[test]
fn deleting_an_unclassified_preset_leaves_categories_alone() {
    let m = manager();
    let cats = m.set_category(Categories::new(), "A", Some("iem".to_string()));
    let plan = m.delete_preset("B", None, &Vec::new(), 1000, &Vec::new(), cats).unwrap();
    assert!(plan.categories.is_none());
    assert!(plan.record.is_none());
}

#[test]
fn store_rejects_unsafe_names() {
    let store = PresetStore::new(r"C:\presets");
    assert!(store.path_for("../evil").is_err());
    assert!(store.path_for("sub/dir").is_err());
    assert!(store.path_for("a:b").is_err());
    assert!(store.path_for("").is_err());
    assert!(store.path_for("  ").is_err());
    assert!(store.path_for("CON").is_err());
    assert!(store.path_for("nul").is_err());
    assert!(store.path_for("COM1").is_err());
    assert!(store.path_for("LPT9.txt").is_err());
    assert!(store.path_for("CONIN$").is_err());
    assert!(store.path_for("conout$").is_err());
    assert!(store.path_for("COM\u{b9}").is_err());
    assert!(store.path_for("name.").is_err());
    assert!(store.path_for("name\u{7}").is_err());
    assert!(store.path_for("COM0").is_ok());
    assert!(store.path_for("Console").is_ok());
    assert!(store.path_for("Good Name 01").is_ok());
}

#[test]
fn reserved_device_names_and_safe_names() {
    assert!(is_reserved_device(" aux "));
    assert!(is_reserved_device("lpt\u{b3}"));
    assert!(!is_reserved_device("LPT10"));
    assert!(!is_safe_name("a..b"));
    assert!(!is_safe_name("trailing "));
    assert!(!is_safe_name("star*"));
    assert!(!is_safe_name("prn.backup"));
    assert!(is_safe_name("v1.2 final"));
    assert_eq!(
        PresetStore::new(r"C:\p").path_for("x?"),
        Err(StoreError::InvalidName("x?".to_string()))
    );
}

#[test]
fn save_snapshots_only_audible_changes() {
    let m = manager();
    let prior = sample_config();
    // Only the master preamp differs: not a change worth a revision.
    let mut same_sound = sample_config();
    same_sound.lines[0] = Line::Preamp {
        gain: n("-9"),
        channel: Channel::Both,
    };
    let plan = m.save_preset("P", &same_sound, Some(&prior)).unwrap();
    assert!(!plan.snapshot_prior);
    assert_eq!(plan.path, r"C:\Users\me\presets\P.txt");
    let mut louder = sample_config();
    louder.lines.push(Line::Filter(Filter::peak(n("60"), n("4"), n("0.7"))));
    let plan = m.save_preset("P", &louder, Some(&prior)).unwrap();
    assert!(plan.snapshot_prior);
    assert!(m.save_preset("P", &louder, None).map(|p| !p.snapshot_prior).unwrap());
    assert!(matches!(m.save_preset("a/b", &louder, None), Err(StoreError::InvalidName(_))));
}

#[test]
fn restore_validates_and_snapshots_the_current_content() {
    let m = manager();
    let restored = Config {
        lines: vec![Line::Filter(Filter::peak(n("100"), n("2"), n("1")))],
    };
    let plan = m
        .restore_revision("P", "17-save", Some(&sample_config()), &restored, None, &Vec::new(), 50)
        .unwrap();
    let record = plan.record.expect("the current content is snapshotted");
    assert_eq!(record.id, "50-restore");
    assert_eq!(record.path, r"C:\Users\me\presets\.history\P\50-restore.txt");
    assert_eq!(
        plan.revision_path,
        r"C:\Users\me\presets\.history\P\17-save.txt"
    );
    assert_eq!(plan.preset_path, r"C:\Users\me\presets\P.txt");
    let plan = m
        .restore_revision("P", "17-save", Some(&restored), &restored, None, &Vec::new(), 50)
        .unwrap();
    assert!(plan.record.is_none());
    assert!(matches!(
        m.restore_revision("P", "17", None, &restored, None, &Vec::new(), 50),
        Err(StoreError::InvalidRevisionId(_))
    ));
}

#[test]
fn restore_writes_the_revision_with_its_recomputed_preamp_and_consumes_it() {
    let m = manager();
    let restored = Config {
        lines: vec![Line::Filter(Filter::peak(n("1000"), n("5"), n("1")))],
    };
    let other = Config {
        lines: vec![Line::Filter(Filter::peak(n("2000"), n("-2"), n("1")))],
    };
    let revisions = vec![
        ("17-save.txt".to_string(), restored.clone()),
        ("18-save.txt".to_string(), other),
    ];
    let plan = m
        .restore_revision("P", "17-save", None, &restored, Some(n("-5")), &revisions, 50)
        .unwrap();
    assert!(plan.record.is_none());
    assert_eq!(plan.contents.preamp().map(|p| p.text), Some("-5".to_string()));
    assert_eq!(plan.contents.filters().len(), 1);
    assert_eq!(plan.consumed, vec!["17-save".to_string()]);
}

#[test]
fn delete_records_an_undo_handle_and_archives_the_source() {
    let m = manager();
    let plan = m
        .delete_preset("HD600", Some(&sample_config()), &Vec::new(), 1234, &Vec::new(), Categories::new())
        .unwrap();
    let record = plan.record.expect("undo handle");
    assert_eq!(record.id, "1234-delete");
    assert_eq!(record.path, r"C:\Users\me\presets\.history\HD600\1234-delete.txt");
    assert_eq!(plan.path, r"C:\Users\me\presets\HD600.txt");
    assert_eq!(plan.archive_dir, r"C:\Users\me\presets\.history\.deleted\HD600");
    assert_eq!(
        plan.archive_path,
        r"C:\Users\me\presets\.history\.deleted\HD600\HD600.txt"
    );
    assert!(plan.categories.is_none());
    assert!(matches!(
        m.delete_preset("a/b", None, &Vec::new(), 0, &Vec::new(), Categories::new()),
        Err(StoreError::InvalidName(_))
    ));
}

#[test]
fn repeated_preset_deletes_keep_every_archived_source_file() {
    let m = manager();
    let first = m
        .delete_preset("P", None, &Vec::new(), 1000, &Vec::new(), Categories::new())
        .unwrap();
    assert_eq!(
        first.archive_path,
        r"C:\Users\me\presets\.history\.deleted\P\P.txt"
    );
    let second = m
        .delete_preset("P", None, &Vec::new(), 2000, &names(&["P.txt"]), Categories::new())
        .unwrap();
    assert_eq!(
        second.archive_path,
        r"C:\Users\me\presets\.history\.deleted\P\P-1.txt"
    );
    let third = m
        .delete_preset("P", None, &Vec::new(), 3000, &names(&["P-1.txt", "P.txt", "P-3.txt"]), Categories::new())
        .unwrap();
    assert_eq!(
        third.archive_path,
        r"C:\Users\me\presets\.history\.deleted\P\P-2.txt"
    );
}

#[test]
fn rename_carries_history_along() {
    let m = manager();
    let revs = vec![Revision {
        id: "1000-save".to_string(),
        saved_at_ms: 1000,
        op: RevisionOp::Save,
        tag: None,
    }];
    let plan = m
        .rename_preset("Old", "New", true, false, false, Some(&revs), None, Categories::new())
        .unwrap();
    assert!(matches!(
        plan.history,
        HistoryMove::MoveDir { ref from_dir, ref to_dir }
            if from_dir == r"C:\Users\me\presets\.history\Old"
                && to_dir == r"C:\Users\me\presets\.history\New"
    ));
    let ids = vec!["1000-save".to_string()];
    let plan = m
        .rename_preset("Old", "New", true, false, false, Some(&revs), Some(&ids), Categories::new())
        .unwrap();
    match plan.history {
        HistoryMove::Merge { moves, from_dir } => {
            assert_eq!(from_dir, r"C:\Users\me\presets\.history\Old");
            assert_eq!(
                moves,
                vec![(
                    r"C:\Users\me\presets\.history\Old\1000-save.txt".to_string(),
                    r"C:\Users\me\presets\.history\New\1001-save.txt".to_string()
                )]
            );
        }
        _ => panic!("expected a merge"),
    }
    let plan = m
        .rename_preset("Old", "New", true, false, false, None, Some(&ids), Categories::new())
        .unwrap();
    assert!(matches!(plan.history, HistoryMove::Nothing));
}

#[test]
fn imports_skip_existing_and_ignore_empties() {
    let m = manager();
    let eq = || Config {
        lines: vec![Line::Filter(Filter::peak(n("100"), n("4"), n("1.5")))],
    };
    let candidates = vec![
        ImportCandidate {
            stem: Some("Zeta".to_string()),
            config: Some(eq()),
            exists: false,
        },
        ImportCandidate {
            stem: Some("BASE".to_string()),
            config: Some(Config::new()),
            exists: false,
        },
        ImportCandidate {
            stem: Some("HD600".to_string()),
            config: Some(eq()),
            exists: true,
        },
        ImportCandidate {
            stem: Some("CON".to_string()),
            config: Some(eq()),
            exists: false,
        },
        ImportCandidate {
            stem: Some("Alpha".to_string()),
            config: None,
            exists: false,
        },
        ImportCandidate {
            stem: Some("Alpha".to_string()),
            config: Some(eq()),
            exists: false,
        },
        ImportCandidate {
            stem: Some("Alpha".to_string()),
            config: Some(eq()),
            exists: false,
        },
    ];
    let plan = m.import_peace_files(&candidates);
    assert_eq!(plan.report.imported, vec!["Alpha", "Zeta"]);
    assert_eq!(plan.report.skipped, vec!["Alpha", "HD600"]);
    assert_eq!(plan.report.ignored, 3);
    assert_eq!(plan.saves.len(), 2);
    assert_eq!(plan.saves[0].0, r"C:\Users\me\presets\Zeta.txt");
}

#[test]
fn history_counts_leave_out_presets_without_revisions() {
    let m = manager();
    let dirs = vec![
        ("P".to_string(), names(&["1-save.txt", "2-save.txt", "junk"])),
        ("Q".to_string(), names(&["3-delete.txt"])),
        ("R".to_string(), names(&["readme.md"])),
    ];
    let counts = m.history_counts(&dirs);
    assert_eq!(counts, vec![("P".to_string(), 2), ("Q".to_string(), 1)]);
}

#[test]
fn sidecar_paths_live_in_the_store() {
    let m = manager();
    assert_eq!(m.categories_path(), r"C:\Users\me\presets\.categories.json");
    assert_eq!(m.tone_path(), r"C:\Users\me\presets\.tone.json");
    assert_eq!(m.history().dir(), r"C:\Users\me\presets\.history");
    assert_eq!(m.backup_path(), r"C:\APO\config\config.backup.txt");
    assert_eq!(
        m.install().config_file(),
        r"C:\APO\config\config.txt"
    );
}

#[test]
fn imports_peace_presets_from_config_dir() {
    let m = manager();
    let entries = vec![
        ("HD600.peace".to_string(), true),
        ("config.txt".to_string(), true),
        ("OLD".to_string(), false),
        ("base.PEACE".to_string(), true),
        ("dir.peace".to_string(), false),
    ];
    assert_eq!(m.peace_files_in(&entries), vec!["HD600.peace", "base.PEACE"]);
}

#[test]
fn restore_then_save_leaves_no_duplicate_revision() {
    let m = manager();
    let history = m.history();
    let v1 = Config {
        lines: vec![Line::Filter(Filter::peak(n("1000"), n("3"), n("1")))],
    };
    let v2 = Config {
        lines: vec![Line::Filter(Filter::peak(n("2000"), n("-2"), n("1")))],
    };
    // Saving v2 over v1 records v1.
    let save = m.save_preset("P", &v2, Some(&v1)).unwrap();
    assert!(save.snapshot_prior);
    let record = history.record("P", &v1, RevisionOp::Save, &Vec::new(), 1000).unwrap();
    let mut dir: Vec<(String, Config)> = vec![(format!("{}.txt", record.id), v1.clone())];
    assert!(history.remove_matching("P", &v2, &dir).unwrap().is_empty());

    // Restoring v1 snapshots v2 as a restore revision and consumes v1's.
    let restore = m
        .restore_revision("P", &record.id, Some(&v2), &v1, None, &dir, 2000)
        .unwrap();
    let snapshot = restore.record.expect("v2 is snapshotted");
    assert_eq!(snapshot.id, "2000-restore");
    assert!(snapshot.duplicates.is_empty());
    assert_eq!(restore.consumed, vec![record.id.clone()]);
    dir.retain(|(f, _)| !restore.consumed.iter().any(|id| *f == format!("{id}.txt")));
    dir.push((format!("{}.txt", snapshot.id), v2.clone()));
    let entries: Vec<(String, Option<String>)> = dir.iter().map(|(f, _)| (f.clone(), None)).collect();
    let listed = m.preset_history("P", &entries).unwrap();
    assert_eq!(listed.len(), 1);
    assert_eq!(listed[0].op, RevisionOp::Restore);

    // Saving the restored content unchanged, or with only a 0 dB band more,
    // records nothing and removes nothing.
    let live = restore.contents;
    assert!(!m.save_preset("P", &live, Some(&live)).unwrap().snapshot_prior);
    assert!(history.remove_matching("P", &live, &dir).unwrap().is_empty());
    let mut cosmetic = live.clone();
    cosmetic.lines.push(Line::Filter(Filter::peak(n("500"), n("0"), n("1"))));
    assert!(!m.save_preset("P", &cosmetic, Some(&live)).unwrap().snapshot_prior);
    assert!(history.remove_matching("P", &cosmetic, &dir).unwrap().is_empty());
}
