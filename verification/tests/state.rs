use fastpeq::env::ApoInstall;
use fastpeq::hardware::DetectedDevice;
use fastpeq::manager::Manager;
use fastpeq::model::{Channel, Config, Filter, Line, Num};
use fastpeq::provenance;
use fastpeq::state::{reconcile, software_part, unavailable, Active, EqMemory, Reconcile, SyncMemory};
use fastpeq::store::PresetStore;
use fastpeq::tone::Tone;
use fastpeq::tray::{tray_action, tray_label, tray_menu, TrayAction, TrayEntry};

fn n(s: &str) -> Num {
    Num::new(s)
}

fn preset() -> Config {
    Config {
        lines: vec![
            Line::Preamp {
                gain: n("-3"),
                channel: Channel::Both,
            },
            Line::Filter(Filter::peak(n("1000"), n("-2"), n("1"))),
        ],
    }
}

fn manager() -> Manager {
    Manager::new(
        ApoInstall {
            config_path: r"C:\APO\config".to_string(),
        },
        PresetStore::new(r"C:\Users\me\presets"),
        r"C:\APO\config\config.backup.txt",
    )
}

fn device(id: &str) -> DetectedDevice {
    DetectedDevice {
        id: id.to_string(),
        name: "MOONDROP DHA15".to_string(),
        manufacturer: "MOONDROP".to_string(),
        model: "DHA15".to_string(),
        max_filters: 8,
        user_pregain: true,
    }
}

fn warm() -> Tone {
    Tone {
        bass: n("3"),
        ..Default::default()
    }
}

#[test]
fn bypass_twice_brings_the_preset_back() {
    let m = manager();
    let mut mem = EqMemory::new();
    let live = m.apply_loaded_preset("HP", &preset(), &warm());
    mem.preset_applied("HP", &preset(), false);
    assert!(matches!(mem.known_active(), Some(Some(ref a)) if a == "HP"));

    let (written, kept) = mem.bypass_plan(&m, &live, false);
    assert!(written.filters().is_empty());
    assert_eq!(m.active_preset(&written, true), None);
    mem.bypass_done(kept);
    assert!(mem.bypassed);
    assert!(matches!(mem.known_active(), Some(None)));

    let back = mem.unbypass_plan(&m, &warm(), &written, false).unwrap();
    mem.unbypass_done();
    assert!(!mem.bypassed && mem.restore.is_none());
    assert!(mem.known_active().is_none());
    assert!(back.same(&live));
    assert_eq!(provenance::name(&back), Some("HP".to_string()));
}

#[test]
fn unbypass_writes_nothing_when_the_device_took_the_base() {
    let m = manager();
    let mut mem = EqMemory::new();
    mem.preset_applied("HP", &preset(), true);
    let full = mem.full_eq().unwrap();
    assert_eq!(provenance::name(&full), Some("HP".to_string()));
    let live = Config::new();
    let (_, kept) = mem.bypass_plan(&m, &live, true);
    assert!(kept.same(&full));
    mem.bypass_done(kept);
    assert!(mem.unbypass_plan(&m, &Tone::default(), &live, true).is_none());
    assert!(mem.unbypass_plan(&m, &Tone::default(), &live, false).is_some());
}

#[test]
fn live_edits_end_a_bypass_and_forget_the_active_preset() {
    let mut mem = EqMemory::new();
    mem.set_active(Some("HP".to_string()));
    mem.invalidate();
    assert!(mem.known_active().is_none());
    mem.set_active(Some("HP".to_string()));
    mem.live_applied(&preset(), false);
    assert!(mem.known_active().is_none());
    assert!(mem.full_eq().is_none());
    mem.live_applied(&preset(), true);
    assert!(mem.full_eq().unwrap().same(&preset()));
    mem.session_closed();
    assert!(mem.full_eq().is_none());
    assert!(matches!(mem.active, Active::Unknown));
}

#[test]
fn full_eq_prefers_memory_then_preset_then_live() {
    let mut mem = EqMemory::new();
    let live = Config::new();
    let from_preset = mem.full_eq_from(Some(("HP", &preset())), Some(&live)).unwrap();
    assert_eq!(provenance::name(&from_preset), Some("HP".to_string()));
    assert!(mem.full_eq_from(None, Some(&live)).unwrap().same(&live));
    assert!(mem.full_eq_from(None, None).is_none());
    mem.device_took(Some(&preset()));
    assert!(mem.full_eq_from(None, None).unwrap().same(&preset()));
    let m = manager();
    assert!(mem.resplit_base(&m, &live).same(&preset()));
}

#[test]
fn sessions_follow_the_default_output() {
    let dha = device("hid-1");
    assert_eq!(reconcile(Some(&dha), Some("hid-1")), Reconcile::Stay);
    assert_eq!(reconcile(None, None), Reconcile::Stay);
    assert_eq!(reconcile(Some(&dha), None), Reconcile::Open { replacing: false });
    assert_eq!(reconcile(Some(&dha), Some("hid-2")), Reconcile::Open { replacing: true });
    assert_eq!(reconcile(None, Some("hid-1")), Reconcile::Close);
}

#[test]
fn an_unchanged_output_is_reconciled_once() {
    let mut sync = SyncMemory::new();
    assert!(sync.changed(true, Some("Speakers".to_string())));
    assert!(!sync.changed(true, Some("Speakers".to_string())));
    assert!(sync.changed(true, Some("DAC (DHA15)".to_string())));
    assert!(sync.changed(false, None));
    assert!(!sync.changed(false, None));
    sync.forget();
    assert!(sync.changed(false, None));
}

#[test]
fn software_part_and_unavailable_message() {
    let sw = software_part(&preset(), Some("HP"));
    assert_eq!(provenance::name(&sw), Some("HP".to_string()));
    assert!(software_part(&preset(), None).same(&preset()));
    assert_eq!(unavailable(&None), "Equalizer APO is not detected");
    assert_eq!(unavailable(&Some("registry".to_string())), "registry");
}

#[test]
fn the_tray_shows_what_is_active_and_toggles_bypass() {
    assert_eq!(tray_label(true, Some("HP".to_string())), "Bypassed");
    assert_eq!(tray_label(false, Some("HP".to_string())), "HP");
    assert_eq!(tray_label(false, None), "No preset active");
    let menu = tray_menu(true, None);
    assert_eq!(menu.len(), 6);
    assert_eq!(menu[0], TrayEntry::Label("Bypassed".to_string()));
    assert_eq!(
        menu[2],
        TrayEntry::Check {
            id: "bypass".to_string(),
            text: "Bypass (flat)".to_string(),
            checked: true,
        }
    );
    assert_eq!(
        menu[5],
        TrayEntry::Item {
            id: "quit".to_string(),
            text: "Quit fastpeq".to_string(),
        }
    );
    assert_eq!(tray_action("quit"), TrayAction::Quit);
    assert_eq!(tray_action("show"), TrayAction::Show);
    assert_eq!(tray_action("bypass"), TrayAction::ToggleBypass);
    assert_eq!(tray_action("active"), TrayAction::Nothing);
}
