//! The operations the UI invokes, tying an APO install, the preset library,
//! its history and the category sidecar together.
//!
//! Each operation is split at its I/O: the caller reads what the operation
//! needs (the live config, a preset's current content, a directory listing)
//! and hands it in; the manager decides and returns what to write, delete or
//! report. The decisions — validation, provenance, the tone overlay, what a
//! bypass keeps, when a history snapshot is owed, which presets an import
//! takes — are all here.

use crate::category::Categories;
use crate::env::ApoInstall;
use crate::history;
use crate::archive::{archive_dir, archive_dir_for, archive_file_name, first_free_slot, free_archive_name};
use crate::history::{normal_form, HistoryMove, PresetHistory, RecordPlan, Revision, RevisionOp};
use crate::model::{config_same, filters_of, first_preamp, keep_where, lines_view, Config, Line, LineV, Num};
use crate::offload::with_master;
use crate::order;
use crate::order::{pairs_view, sorted_pairs};
use crate::paths::joined;
use crate::provenance;
use crate::provenance::{name_of, stamped, without_stamps};
use crate::order::{items_of, sort_names, sorted_names};
use crate::store::{preset_file_name, safe_name, PresetStore, StoreError};
use crate::text;
use crate::text::trimmed;
use crate::tone;
use crate::tone::{composed, without_tone, Tone};
use vstd::prelude::*;

verus! {

/// Outcome of a bulk import of PEACE presets.
#[derive(Debug)]
pub struct ImportReport {
    /// Names of presets newly imported.
    pub imported: Vec<String>,
    /// Names skipped because a preset with that name already existed.
    pub skipped: Vec<String>,
    /// Files ignored (unreadable, no EQ content, or an unusable name).
    pub ignored: u32,
}

impl Default for ImportReport {
    /// Nothing imported, skipped or ignored.
    fn default() -> (r: ImportReport)
        ensures
            r.imported@.len() == 0,
            r.skipped@.len() == 0,
            r.ignored == 0,
    {
        ImportReport { imported: Vec::new(), skipped: Vec::new(), ignored: 0 }
    }
}

/// The APO install, the preset library and where the pre-takeover backup of
/// `config.txt` goes.
#[derive(Debug, Clone)]
pub struct Manager {
    install: ApoInstall,
    store: PresetStore,
    backup_path: String,
}

/// What saving a preset does.
pub struct SavePlan {
    /// The preset file to write.
    pub path: String,
    /// What to write: the config without any provenance stamp.
    pub contents: Config,
    /// Whether the displaced content is snapshotted first (as a `save`
    /// revision): there was a prior preset and it differs audibly.
    pub snapshot_prior: bool,
}

/// What deleting a preset does.
pub struct DeletePlan {
    /// The preset file.
    pub path: String,
    /// The recording of the deleted content as a `delete` revision, when
    /// there was content: its id is the undo handle.
    pub record: Option<RecordPlan>,
    /// The directory archiving the preset's deleted source files (created if
    /// missing).
    pub archive_dir: String,
    /// Where the preset file is moved: the deletion itself, so a move that
    /// fails leaves the preset in place (a missing file is fine).
    pub archive_path: String,
    /// The categories to write back, when the preset had one.
    pub categories: Option<Categories>,
}

/// What renaming a preset does.
pub struct RenamePlan {
    pub from_path: String,
    pub to_path: String,
    /// What happens to the preset's history: it follows the preset, merging
    /// into the target's when that has one.
    pub history: HistoryMove,
    /// The categories to write back, when the preset had one.
    pub categories: Option<Categories>,
}

/// What restoring a revision does.
pub struct RestorePlan {
    /// The revision file to read.
    pub revision_path: String,
    /// The preset file the restored content is saved to.
    pub preset_path: String,
    /// The recording of the current content as a `restore` revision, when
    /// there is current content and it differs audibly: a restore is itself
    /// undoable.
    pub record: Option<RecordPlan>,
    /// What the preset file receives: the restored content, stamp-free, with
    /// the recomputed master preamp when there is one.
    pub contents: Config,
    /// The revisions whose content normalizes like what the preset now holds
    /// (the restored one among them), deleted after the save.
    pub consumed: Vec<String>,
}

/// One file offered for import: its stem, its converted content (`None`
/// when it could not be read) and whether a preset of that name exists.
pub struct ImportCandidate {
    pub stem: Option<String>,
    pub config: Option<Config>,
    pub exists: bool,
}

/// What an import does: the presets to write, and the report.
pub struct ImportPlan {
    pub report: ImportReport,
    /// (preset file, content) for each imported preset, in file order.
    pub saves: Vec<(String, Config)>,
}

/// A valid preset name: it trims to something safe as a file name.
pub open spec fn valid_name(name: Seq<char>) -> bool {
    trimmed(name).len() > 0 && safe_name(trimmed(name))
}

/// Whether a line is a filter band.
pub open spec fn is_filter(l: LineV) -> bool {
    l is Filter
}

/// The live config with the EQ bypassed: the tone overlay and the stamp
/// stripped, then every filter dropped — preamps, devices, includes and
/// comments stay.
pub open spec fn bypassed(live: Seq<LineV>) -> Seq<LineV> {
    keep_where(without_stamps(without_tone(live)), |l: LineV| !is_filter(l))
}

/// Whether recording the displaced content is owed: there is one and it
/// differs from the new content in normal form.
pub open spec fn snapshot_owed(prior: Option<Seq<LineV>>, new: Seq<LineV>) -> bool {
    match prior {
        Some(p) => !config_same(normal_form(p), normal_form(new)),
        None => false,
    }
}

/// The stamp a written base config carries: its own, else the live
/// config's, else none.
pub open spec fn carried_stamp(config: Seq<LineV>, live: Seq<LineV>) -> Option<Seq<char>> {
    match name_of(config) {
        Some(n) => Some(n),
        None => name_of(live),
    }
}

/// A base config written live: carrying its own stamp, else the live
/// config's, else none, with the tone overlay on top.
pub open spec fn applied(config: Seq<LineV>, t: crate::tone::ToneV, live: Seq<LineV>) -> Seq<LineV> {
    composed(
        match carried_stamp(config, live) {
            Some(n) => stamped(config, n),
            None => without_stamps(config),
        },
        t,
    )
}

/// One import candidate over plain values.
pub struct CandidateV {
    pub stem: Option<Seq<char>>,
    pub config: Option<Seq<LineV>>,
    pub exists: bool,
}

/// The progress of an import: imported names, skipped names, ignored count.
pub struct ImportState {
    pub imported: Seq<Seq<char>>,
    pub skipped: Seq<Seq<char>>,
    pub ignored: nat,
    /// (file, content) written for each imported name.
    pub saves: Seq<(Seq<char>, Seq<LineV>)>,
}

/// Whether an earlier import of this run already wrote `stem`'s file.
pub open spec fn imported_before(imported: Seq<Seq<char>>, stem: Seq<char>) -> bool {
    exists|i: int| 0 <= i < imported.len() && trimmed(#[trigger] imported[i]) == trimmed(stem)
}

/// One step of an import: unreadable files, files without EQ content and
/// unusable names are ignored; a name that exists (before the import, or
/// written by it) is skipped; anything else is imported.
pub open spec fn import_step(s: ImportState, c: CandidateV, dir: Seq<char>) -> ImportState {
    match (c.stem, c.config) {
        (Some(stem), Some(cfg)) => if first_preamp(cfg) is None && filters_of(cfg).len() == 0 {
            ImportState { ignored: s.ignored + 1, ..s }
        } else if !valid_name(stem) {
            ImportState { ignored: s.ignored + 1, ..s }
        } else if c.exists || imported_before(s.imported, stem) {
            ImportState { skipped: s.skipped.push(stem), ..s }
        } else {
            ImportState {
                imported: s.imported.push(stem),
                saves: s.saves.push((joined(dir, preset_file_name(trimmed(stem))), without_stamps(cfg))),
                ..s
            }
        },
        _ => ImportState { ignored: s.ignored + 1, ..s },
    }
}

/// The import state after all candidates, in order.
pub open spec fn import_run(cs: Seq<CandidateV>, dir: Seq<char>) -> ImportState
    decreases cs.len(),
{
    if cs.len() == 0 {
        ImportState { imported: Seq::empty(), skipped: Seq::empty(), ignored: 0, saves: Seq::empty() }
    } else {
        import_step(import_run(cs.drop_last(), dir), cs.last(), dir)
    }
}

/// The view of one import candidate.
pub open spec fn candidate_view(c: ImportCandidate) -> CandidateV {
    CandidateV {
        stem: match c.stem {
            Some(s) => Some(s@),
            None => None,
        },
        config: match c.config {
            Some(cfg) => Some(cfg@),
            None => None,
        },
        exists: c.exists,
    }
}

/// The views of import candidates.
pub open spec fn candidates_view(v: Seq<ImportCandidate>) -> Seq<CandidateV> {
    Seq::new(v.len(), |i: int| candidate_view(v[i]))
}

/// The (file, content) views of planned saves.
pub open spec fn saves_view(v: Seq<(String, Config)>) -> Seq<(Seq<char>, Seq<LineV>)> {
    Seq::new(v.len(), |i: int| (v[i].0@, v[i].1@))
}

/// (name, count) pairs over plain values.
pub open spec fn counts_view(v: Seq<(String, usize)>) -> Seq<(Seq<char>, nat)> {
    Seq::new(v.len(), |i: int| (v[i].0@, v[i].1 as nat))
}

/// The per-preset revision counts of the `.history` directory's
/// subdirectories (name, entry names): presets without revisions are absent.
pub open spec fn counted(dirs: Seq<(Seq<char>, Seq<Seq<char>>)>) -> Seq<(Seq<char>, nat)>
    decreases dirs.len(),
{
    if dirs.len() == 0 {
        Seq::empty()
    } else {
        let rest = counted(dirs.drop_last());
        let n = history::revision_count(dirs.last().1);
        if n > 0 {
            rest.push((dirs.last().0, n))
        } else {
            rest
        }
    }
}

/// The views of (directory name, entry names) pairs.
pub open spec fn dirs_view(v: Seq<(String, Vec<String>)>) -> Seq<(Seq<char>, Seq<Seq<char>>)> {
    Seq::new(v.len(), |i: int| (v[i].0@, text::strings_view(v[i].1@)))
}

fn drop_filters(c: &Config) -> (r: Config)
    ensures
        r@ == keep_where(c@, |l: LineV| !is_filter(l)),
{
    let ghost cv = c@;
    let ghost p = |l: LineV| !is_filter(l);
    let mut lines: Vec<Line> = Vec::new();
    let mut i: usize = 0;
    while i < c.lines.len()
        invariant
            i <= c.lines.len(),
            cv == c@,
            p == (|l: LineV| !is_filter(l)),
            lines_view(lines@) == keep_where(cv.take(i as int), p),
        decreases c.lines.len() - i,
    {
        proof {
            crate::model::lemma_keep_step(cv, i as int, p);
        }
        match &c.lines[i] {
            Line::Filter(_) => {},
            _ => {
                let l = c.lines[i].duplicate();
                proof {
                    crate::model::lemma_lines_view_push(lines@, l);
                }
                lines.push(l);
            },
        }
        i = i + 1;
    }
    proof {
        crate::model::lemma_keep_take_all(cv, p);
    }
    Config { lines }
}

impl Manager {
    /// A manager over an install, a preset store and the backup location.
    pub fn new(install: ApoInstall, store: PresetStore, backup_path: &str) -> (m: Manager)
        ensures
            m.install_view() == install.config_path@,
            m.store_view() == store@,
            m.backup_view() == backup_path@,
    {
        Manager { install, store, backup_path: text::owned(backup_path) }
    }

    /// The install's config directory.
    pub closed spec fn install_view(&self) -> Seq<char> {
        self.install.config_path@
    }

    /// The preset store's directory.
    pub closed spec fn store_view(&self) -> Seq<char> {
        self.store@
    }

    /// Where the pre-takeover backup of `config.txt` goes.
    pub closed spec fn backup_view(&self) -> Seq<char> {
        self.backup_path@
    }

    /// The APO install.
    pub fn install(&self) -> (i: &ApoInstall)
        ensures
            i.config_path@ == self.install_view(),
    {
        &self.install
    }

    /// The preset library.
    pub fn store(&self) -> (s: &PresetStore)
        ensures
            s@ == self.store_view(),
    {
        &self.store
    }

    /// Where the pre-takeover backup of `config.txt` goes.
    pub fn backup_path(&self) -> (p: &str)
        ensures
            p@ == self.backup_view(),
    {
        self.backup_path.as_str()
    }

    /// The revision store alongside the preset library.
    pub fn history(&self) -> (h: PresetHistory)
        ensures
            h@ == joined(self.store_view(), history::history_dir_name()),
    {
        PresetHistory::new(self.store.dir())
    }

    /// The category sidecar file, `.categories.json` in the preset store.
    pub fn categories_path(&self) -> (p: String)
        ensures
            p@ == joined(self.store_view(), ".categories.json"@),
    {
        proof {
            reveal_strlit(".categories.json");
        }
        crate::paths::join(self.store.dir(), ".categories.json")
    }

    /// The tone sidecar file, `.tone.json` in the preset store.
    pub fn tone_path(&self) -> (p: String)
        ensures
            p@ == joined(self.store_view(), ".tone.json"@),
    {
        proof {
            reveal_strlit(".tone.json");
        }
        crate::paths::join(self.store.dir(), ".tone.json")
    }

    /// The preset names among the store directory's entries.
    pub fn list_presets(&self, entry_names: &Vec<String>) -> (r: Vec<String>)
        ensures
            text::strings_view(r@) == crate::store::listed_presets(text::strings_view(entry_names@)),
    {
        self.store.list(entry_names)
    }

    /// Plan saving `config` as preset `name`, given the preset's current
    /// content (`None` when there is none): the stamp-free config goes to
    /// the preset file, and the displaced content is snapshotted first when
    /// it differs audibly (normal forms differ).
    pub fn save_preset(&self, name: &str, config: &Config, prior: Option<&Config>) -> (r: Result<SavePlan, StoreError>)
        ensures
            valid_name(name@) ==> (r matches Ok(plan) && plan.path@ == joined(
                self.store_view(),
                preset_file_name(trimmed(name@)),
            ) && plan.contents@ == without_stamps(config@) && plan.snapshot_prior == snapshot_owed(
                match prior {
                    Some(p) => Some(p@),
                    None => None,
                },
                config@,
            )),
            !valid_name(name@) ==> (r matches Err(StoreError::InvalidName(n)) && n@ == trimmed(name@)),
    {
        let path = match self.store.path_for(name) {
            Ok(p) => p,
            Err(e) => return Err(e),
        };
        let snapshot_prior = match prior {
            Some(p) => !history::normalize(p).same(&history::normalize(config)),
            None => false,
        };
        Ok(SavePlan { path, contents: provenance::strip(config), snapshot_prior })
    }

    /// Plan capturing the live config as preset `name`: the tone overlay is
    /// stripped first so it never gets baked into a preset.
    pub fn capture_current(&self, name: &str, live: &Config, prior: Option<&Config>) -> (r: Result<SavePlan, StoreError>)
        ensures
            valid_name(name@) ==> (r matches Ok(plan) && plan.path@ == joined(
                self.store_view(),
                preset_file_name(trimmed(name@)),
            ) && plan.contents@ == without_stamps(without_tone(live@)) && plan.snapshot_prior
                == snapshot_owed(
                match prior {
                    Some(p) => Some(p@),
                    None => None,
                },
                without_tone(live@),
            )),
            !valid_name(name@) ==> (r matches Err(StoreError::InvalidName(n)) && n@ == trimmed(name@)),
    {
        let base = tone::strip(live);
        self.save_preset(name, &base, prior)
    }

    /// The live config with the tone overlay stripped — the base EQ a preset
    /// or live edit produced.
    pub fn base_config(&self, live: &Config) -> (r: Config)
        ensures
            r@ == without_tone(live@),
    {
        tone::strip(live)
    }

    /// Plan deleting preset `name`, given its content (`None` when it could
    /// not be read), the revision files of its history directory with their
    /// contents, the time, the entries of its archive directory and the
    /// categories. Readable content is recorded first as a `delete` revision
    /// (the undo handle); the preset file then moves into the archive under
    /// its first free slot; its category goes with it.
    pub fn delete_preset(
        &self,
        name: &str,
        prior: Option<&Config>,
        revisions: &Vec<(String, Config)>,
        now_ms: u64,
        archived: &Vec<String>,
        categories: Categories,
    ) -> (r: Result<DeletePlan, StoreError>)
        requires
            prior matches Some(p) ==> history::id_free_from(
                now_ms,
                RevisionOp::Delete,
                history::other_ids(history::content_entries_view(revisions@), history::normal_text_of(p@)),
            ),
        ensures
            valid_name(name@) ==> ({
                let t = trimmed(name@);
                let hist = joined(self.store_view(), history::history_dir_name());
                &&& r matches Ok(plan)
                &&& plan.path@ == joined(self.store_view(), preset_file_name(t))
                &&& match prior {
                    Some(p) => plan.record matches Some(rec) && history::plans_recording(
                        rec,
                        joined(hist, t),
                        p@,
                        RevisionOp::Delete,
                        history::content_entries_view(revisions@),
                        now_ms,
                    ),
                    None => plan.record is None,
                }
                &&& plan.archive_dir@ == archive_dir(hist, t)
                &&& exists|k: nat| {
                    &&& plan.archive_path@ == joined(plan.archive_dir@, #[trigger] archive_file_name(t, k))
                    &&& first_free_slot(t, text::strings_view(archived@), k)
                }
                &&& if categories@.contains_key(name@) {
                    plan.categories matches Some(c) && c@ == categories@.remove(name@)
                } else {
                    plan.categories is None
                }
            }),
            !valid_name(name@) ==> (r matches Err(StoreError::InvalidName(n)) && n@ == trimmed(name@)),
    {
        let path = match self.store.path_for(name) {
            Ok(p) => p,
            Err(e) => return Err(e),
        };
        let history = self.history();
        let record = match prior {
            Some(p) => match history.record(name, p, RevisionOp::Delete, revisions, now_ms) {
                Ok(plan) => Some(plan),
                Err(e) => return Err(e),
            },
            None => None,
        };
        let archive_dir = match archive_dir_for(history.dir(), name) {
            Ok(d) => d,
            Err(e) => return Err(e),
        };
        let t = text::trim(name);
        let slot = free_archive_name(t, archived);
        proof {
            let k = choose|k: nat| #[trigger] archive_file_name(t@, k) == slot@ && first_free_slot(
                t@,
                text::strings_view(archived@),
                k,
            );
            crate::archive::lemma_slot_is_plain(t@, k);
        }
        let archive_path = crate::paths::join(archive_dir.as_str(), slot.as_str());
        let mut map = categories;
        let removed = map.remove(name);
        let cats = if removed.is_some() {
            Some(map)
        } else {
            None
        };
        Ok(DeletePlan { path, record, archive_dir, archive_path, categories: cats })
    }

    /// Plan renaming preset `from` to `to`, given whether `from`'s file
    /// exists, whether `to`'s does, whether both resolve to the same file
    /// (a case-only rename on a case-insensitive file system), `from`'s
    /// revisions newest first and the revision ids of `to` (each `None` when
    /// that history directory does not exist), and the categories. A missing
    /// source or a clobber of another preset is refused; the history and the
    /// category move with the preset.
    pub fn rename_preset(
        &self,
        from: &str,
        to: &str,
        from_exists: bool,
        to_exists: bool,
        same_file: bool,
        from_history: Option<&Vec<Revision>>,
        to_history: Option<&Vec<String>>,
        categories: Categories,
    ) -> (r: Result<RenamePlan, StoreError>)
        requires
            from_history matches Some(revs) && to_history matches Some(ids) ==> {
                &&& history::merge_defined(history::revisions_view(revs@), text::strings_view(ids@))
                &&& forall|k: int| 0 <= k < revs@.len() ==> history::id_parts(#[trigger] revs@[k]@.id) is Some
            },
        ensures
            !valid_name(from@) ==> (r matches Err(StoreError::InvalidName(n)) && n@ == trimmed(from@)),
            valid_name(from@) && !valid_name(to@) ==> (r matches Err(StoreError::InvalidName(n)) && n@
                == trimmed(to@)),
            valid_name(from@) && valid_name(to@) && !from_exists ==> (r matches Err(
                StoreError::NotFound(n),
            ) && n@ == from@),
            valid_name(from@) && valid_name(to@) && from_exists && to_exists && !same_file ==> (r matches Err(
                StoreError::AlreadyExists(n),
            ) && n@ == to@),
            valid_name(from@) && valid_name(to@) && from_exists && !(to_exists && !same_file) ==> (r matches Ok(plan)
                && plan.from_path@ == joined(self.store_view(), preset_file_name(trimmed(from@)))
                && plan.to_path@ == joined(self.store_view(), preset_file_name(trimmed(to@)))
                && history::plans_move(
                plan.history,
                joined(joined(self.store_view(), history::history_dir_name()), trimmed(from@)),
                joined(joined(self.store_view(), history::history_dir_name()), trimmed(to@)),
                from_history is Some,
                to_history is Some,
                match from_history {
                    Some(revs) => history::revisions_view(revs@),
                    None => Seq::empty(),
                },
                match to_history {
                    Some(ids) => text::strings_view(ids@),
                    None => Seq::empty(),
                },
            ) && (
            if categories@.contains_key(from@) {
                plan.categories matches Some(c) && c@ == categories@.remove(from@).insert(
                    to@,
                    categories@[from@],
                )
            } else {
                plan.categories is None
            })),
    {
        let from_path = match self.store.path_for(from) {
            Ok(p) => p,
            Err(e) => return Err(e),
        };
        let to_path = match self.store.path_for(to) {
            Ok(p) => p,
            Err(e) => return Err(e),
        };
        if !from_exists {
            return Err(StoreError::NotFound(text::owned(from)));
        }
        if to_exists && !same_file {
            return Err(StoreError::AlreadyExists(text::owned(to)));
        }
        let no_revisions: Vec<Revision> = Vec::new();
        let no_ids: Vec<String> = Vec::new();
        let revs = match (from_history, to_history) {
            (Some(r), Some(_)) => r,
            _ => &no_revisions,
        };
        let ids = match to_history {
            Some(i) => i,
            None => &no_ids,
        };
        proof {
            assert(history::revisions_view(no_revisions@) =~= Seq::<history::RevisionV>::empty());
            assert(text::strings_view(no_ids@) =~= Seq::<Seq<char>>::empty());
        }
        let moved = match self.history().rename(from, to, from_history.is_some(), to_history.is_some(), revs, ids) {
            Ok(m) => m,
            Err(e) => return Err(e),
        };
        let mut map = categories;
        let cats = match map.remove(from) {
            Some(c) => {
                map.insert(to, c.as_str());
                Some(map)
            },
            None => None,
        };
        Ok(RenamePlan { from_path, to_path, history: moved, categories: cats })
    }

    /// The revisions of preset `name`, newest first, from its history
    /// directory's entries (file name, tag read from the file).
    pub fn preset_history(&self, name: &str, entries: &Vec<(String, Option<String>)>) -> (r: Result<
        Vec<Revision>,
        StoreError,
    >)
        ensures
            valid_name(name@) ==> (r matches Ok(v) && history::revisions_view(v@) == history::listing(
                history::tagged_entries_view(entries@),
            )),
            !valid_name(name@) ==> (r matches Err(StoreError::InvalidName(n)) && n@ == trimmed(name@)),
    {
        self.history().list(name, entries)
    }

    /// Revision counts per preset — the preset list's version badges — from
    /// the `.history` subdirectories (name, entry names). Presets without
    /// revisions are absent.
    pub fn history_counts(&self, dirs: &Vec<(String, Vec<String>)>) -> (r: Vec<(String, usize)>)
        ensures
            counts_view(r@) == counted(dirs_view(dirs@)),
    {
        let ghost dv = dirs_view(dirs@);
        let mut out: Vec<(String, usize)> = Vec::new();
        let mut i: usize = 0;
        while i < dirs.len()
            invariant
                i <= dirs.len(),
                dv == dirs_view(dirs@),
                counts_view(out@) == counted(dv.take(i as int)),
            decreases dirs.len() - i,
        {
            proof {
                assert(dv.take(i + 1).drop_last() =~= dv.take(i as int));
                assert(dv.take(i + 1).last() == dv[i as int]);
            }
            let n = history::count_revisions(&dirs[i].1);
            if n > 0 {
                let name = text::owned(dirs[i].0.as_str());
                let ghost nv = name@;
                let ghost before = out@;
                out.push((name, n));
                proof {
                    assert(counts_view(out@) =~= counts_view(before).push((nv, n as nat)));
                }
            }
            i = i + 1;
        }
        proof {
            assert(dv.take(i as int) =~= dv);
        }
        out
    }

    /// Plan restoring revision `id` of preset `name`, given the preset's
    /// current content, the revision's, the master preamp recomputed over
    /// the revision's bands (`None` when it rounds to 0 dB; snapshots carry
    /// none of their own), the revision files of its history directory with
    /// their contents, and the time. The current content is recorded first
    /// as a `restore` revision when it differs audibly; the preset then holds
    /// the restored content, and the revisions matching it are consumed.
    pub fn restore_revision(
        &self,
        name: &str,
        id: &str,
        current: Option<&Config>,
        restored: &Config,
        preamp: Option<Num>,
        revisions: &Vec<(String, Config)>,
        now_ms: u64,
    ) -> (r: Result<RestorePlan, StoreError>)
        requires
            current matches Some(c) ==> history::id_free_from(
                now_ms,
                RevisionOp::Restore,
                history::other_ids(history::content_entries_view(revisions@), history::normal_text_of(c@)),
            ),
        ensures
            !valid_name(name@) ==> (r matches Err(StoreError::InvalidName(n)) && n@ == trimmed(name@)),
            valid_name(name@) && history::id_parts(id@) is None ==> (r matches Err(
                StoreError::InvalidRevisionId(i),
            ) && i@ == id@),
            valid_name(name@) && history::id_parts(id@) is Some ==> ({
                let t = trimmed(name@);
                let hist = joined(self.store_view(), history::history_dir_name());
                let entries = history::content_entries_view(revisions@);
                &&& r matches Ok(plan)
                &&& plan.revision_path@ == joined(joined(hist, t), history::revision_file_name(id@))
                &&& plan.preset_path@ == joined(self.store_view(), preset_file_name(t))
                &&& match current {
                    Some(c) => if snapshot_owed(Some(c@), restored@) {
                        plan.record matches Some(rec) && history::plans_recording(
                            rec,
                            joined(hist, t),
                            c@,
                            RevisionOp::Restore,
                            entries,
                            now_ms,
                        )
                    } else {
                        plan.record is None
                    },
                    None => plan.record is None,
                }
                &&& plan.contents@ == without_stamps(
                    match preamp {
                        Some(p) => with_master(restored@, p@),
                        None => restored@,
                    },
                )
                &&& text::strings_view(plan.consumed@) == history::matching_ids(
                    entries,
                    history::normal_text_of(plan.contents@),
                )
            }),
    {
        let history = self.history();
        let revision_path = match history.revision_path(name, id) {
            Ok(p) => p,
            Err(e) => return Err(e),
        };
        let preset_path = match self.store.path_for(name) {
            Ok(p) => p,
            Err(e) => return Err(e),
        };
        let record = match current {
            Some(c) => if !history::normalize(c).same(&history::normalize(restored)) {
                match history.record(name, c, RevisionOp::Restore, revisions, now_ms) {
                    Ok(plan) => Some(plan),
                    Err(e) => return Err(e),
                }
            } else {
                None
            },
            None => None,
        };
        let mut written = restored.duplicate();
        match preamp {
            Some(p) => crate::offload::set_master_gain(&mut written, p),
            None => {},
        }
        let contents = provenance::strip(&written);
        let consumed = match history.remove_matching(name, &contents, revisions) {
            Ok(ids) => ids,
            Err(e) => return Err(e),
        };
        Ok(RestorePlan { revision_path, preset_path, record, contents, consumed })
    }

    /// Set a preset's category, or clear it with `None`.
    pub fn set_category(&self, categories: Categories, name: &str, category: Option<String>) -> (r: Categories)
        ensures
            r@ == match category {
                Some(c) => categories@.insert(name@, c@),
                None => categories@.remove(name@),
            },
    {
        let mut map = categories;
        match category {
            Some(c) => {
                map.insert(name, c.as_str());
            },
            None => {
                map.remove(name);
            },
        }
        map
    }

    /// The config that applies preset `name` (already loaded as `config`)
    /// with the tone overlay on top: stamped with the preset's name.
    pub fn apply_loaded_preset(&self, name: &str, config: &Config, tone: &Tone) -> (r: Config)
        ensures
            r@ == composed(stamped(config@, name@), tone@),
    {
        tone::compose(&provenance::set(config, name), tone)
    }

    /// The config that writes a base config live with the tone overlay on
    /// top, carrying the provenance stamp forward — the config's own, else
    /// the live config's — so an equivalent live edit still resolves to its
    /// preset.
    pub fn apply_config(&self, config: &Config, tone: &Tone, live: &Config) -> (r: Config)
        ensures
            r@ == applied(config@, tone@, live@),
    {
        let carried = match provenance::name(config) {
            Some(n) => Some(n),
            None => provenance::name(live),
        };
        let base = match carried {
            Some(n) => provenance::set(config, n.as_str()),
            None => provenance::strip(config),
        };
        tone::compose(&base, tone)
    }

    /// The config that re-lays a new tone overlay over the current base EQ.
    pub fn set_tone(&self, tone: &Tone, live: &Config) -> (r: Config)
        ensures
            r@ == composed(live@, tone@),
    {
        tone::compose(live, tone)
    }

    /// The bypassed live config: every filter dropped, the rest kept — the
    /// preamp too, so an A/B against the preset isn't skewed by level. The
    /// tone overlay and the provenance stamp go first: a bypassed config has
    /// neither the preset's EQ, the tone controls, nor an active preset.
    pub fn bypass(&self, live: &Config) -> (r: Config)
        ensures
            r@ == bypassed(live@),
    {
        let current = provenance::strip(&tone::strip(live));
        drop_filters(&current)
    }

    /// The preset file the live config's stamp points at: the path the
    /// stamped name resolves to, when there is a stamp and the name is
    /// usable. Whether a file is present there decides [`active_preset`](Self::active_preset).
    pub fn stamped_preset_path(&self, live: &Config) -> (r: Option<String>)
        ensures
            match name_of(live@) {
                Some(n) => if valid_name(n) {
                    r matches Some(p) && p@ == joined(self.store_view(), preset_file_name(trimmed(n)))
                } else {
                    r is None
                },
                None => r is None,
            },
    {
        match provenance::name(live) {
            Some(n) => match self.store.path_for(n.as_str()) {
                Ok(p) => Some(p),
                Err(_) => None,
            },
            None => None,
        }
    }

    /// The active preset: the one the live config's stamp names, when that
    /// preset still exists — given whether a file is present at the path
    /// [`stamped_preset_path`](Self::stamped_preset_path) gives (the file
    /// system decides, case-insensitively on Windows).
    pub fn active_preset(&self, live: &Config, file_present: bool) -> (r: Option<String>)
        ensures
            match name_of(live@) {
                Some(n) => if valid_name(n) && file_present {
                    r matches Some(a) && a@ == n
                } else {
                    r is None
                },
                None => r is None,
            },
    {
        match provenance::name(live) {
            Some(n) => {
                if self.store.has_preset(n.as_str(), file_present) {
                    Some(n)
                } else {
                    None
                }
            },
            None => None,
        }
    }

    /// Plan importing converted PEACE presets: empties and unusable names are
    /// ignored, existing presets are never overwritten (skipped), and the
    /// imported and skipped names are reported in sorted order.
    pub fn import_peace_files(&self, candidates: &Vec<ImportCandidate>) -> (r: ImportPlan)
        requires
            candidates.len() <= u32::MAX,
        ensures
            ({
                let run = import_run(candidates_view(candidates@), self.store_view());
                &&& text::strings_view(r.report.imported@) == sorted_names(run.imported)
                &&& text::strings_view(r.report.skipped@) == sorted_names(run.skipped)
                &&& r.report.ignored == run.ignored
                &&& saves_view(r.saves@) == run.saves
            }),
    {
        let ghost cs = candidates_view(candidates@);
        let ghost dir = self.store_view();
        let mut imported: Vec<String> = Vec::new();
        let mut skipped: Vec<String> = Vec::new();
        let mut ignored: u32 = 0;
        let mut saves: Vec<(String, Config)> = Vec::new();
        let mut i: usize = 0;
        while i < candidates.len()
            invariant
                i <= candidates.len() <= u32::MAX,
                cs == candidates_view(candidates@),
                dir == self.store_view(),
                ({
                    let run = import_run(cs.take(i as int), dir);
                    &&& text::strings_view(imported@) == run.imported
                    &&& text::strings_view(skipped@) == run.skipped
                    &&& ignored == run.ignored
                    &&& saves_view(saves@) == run.saves
                }),
                ignored <= i,
            decreases candidates.len() - i,
        {
            proof {
                assert(cs.take(i + 1).drop_last() =~= cs.take(i as int));
                assert(cs.take(i + 1).last() == cs[i as int]);
                assert(cs[i as int] == candidate_view(candidates@[i as int]));
            }
            let c = &candidates[i];
            match (&c.stem, &c.config) {
                (Some(stem), Some(cfg)) => {
                    if cfg.preamp().is_none() && cfg.filters().len() == 0 {
                        ignored = ignored + 1;
                    } else {
                        match self.store.path_for(stem.as_str()) {
                            Err(_) => {
                                ignored = ignored + 1;
                            },
                            Ok(path) => {
                                let t = text::trim(stem.as_str());
                                let mut before = false;
                                let mut k: usize = 0;
                                let ghost im = text::strings_view(imported@);
                                while k < imported.len()
                                    invariant
                                        k <= imported.len(),
                                        im == text::strings_view(imported@),
                                        t@ == trimmed(stem@),
                                        before == exists|j: int| 0 <= j < k && trimmed(#[trigger] im[j]) == trimmed(stem@),
                                    decreases imported.len() - k,
                                {
                                    assert(im[k as int] == imported@[k as int]@);
                                    if text::str_eq(text::trim(imported[k].as_str()), t) {
                                        before = true;
                                    }
                                    k = k + 1;
                                }
                                if c.exists || before {
                                    let s = text::owned(stem.as_str());
                                    let ghost sv = s@;
                                    let ghost b = skipped@;
                                    skipped.push(s);
                                    proof {
                                        assert(text::strings_view(skipped@) =~= text::strings_view(b).push(sv));
                                    }
                                } else {
                                    let s = text::owned(stem.as_str());
                                    let ghost sv = s@;
                                    let ghost b = imported@;
                                    imported.push(s);
                                    proof {
                                        assert(text::strings_view(imported@) =~= text::strings_view(b).push(sv));
                                    }
                                    let content = provenance::strip(cfg);
                                    let ghost pv = path@;
                                    let ghost cv = content@;
                                    let ghost sb = saves@;
                                    saves.push((path, content));
                                    proof {
                                        assert(saves_view(saves@) =~= saves_view(sb).push((pv, cv)));
                                    }
                                }
                            },
                        }
                    }
                },
                _ => {
                    ignored = ignored + 1;
                },
            }
            i = i + 1;
        }
        proof {
            assert(cs.take(i as int) =~= cs);
        }
        let report = ImportReport { imported: sort_names(&imported), skipped: sort_names(&skipped), ignored };
        ImportPlan { report, saves }
    }
}

} // verus!

verus! {

proof fn lemma_no_stamp_no_name(c: Seq<LineV>)
    requires
        forall|k: int| 0 <= k < c.len() ==> !provenance::is_stamp(#[trigger] c[k]),
    ensures
        name_of(c) is None,
    decreases c.len(),
{
    if c.len() > 0 {
        let t = c.drop_first();
        assert forall|k: int| 0 <= k < t.len() implies !provenance::is_stamp(#[trigger] t[k]) by {
            assert(t[k] == c[k + 1]);
        }
        assert(!provenance::is_stamp(c[0]));
        lemma_no_stamp_no_name(t);
    }
}

proof fn lemma_first_line_kept(x: Seq<LineV>, t: crate::tone::ToneV)
    requires
        x.len() > 0,
        x[0] is Raw,
        !crate::tone::is_marker(x[0], crate::tone::TONE_BEGIN@),
    ensures
        composed(x, t).len() > 0,
        composed(x, t)[0] == x[0],
{
    let s = without_tone(x);
    match crate::tone::find_marker(x, crate::tone::TONE_BEGIN@, 0) {
        None => {},
        Some(b) => {
            crate::tone::lemma_find_marker_bounds(x, crate::tone::TONE_BEGIN@, 0);
            assert(b > 0);
            let e = match crate::tone::find_marker(x, crate::tone::TONE_END@, b) {
                Some(e) => e,
                None => x.len() - 1,
            };
            crate::tone::lemma_find_marker_bounds(x, crate::tone::TONE_END@, b);
            let kept = x.take(b) + x.skip(e + 1);
            assert(kept[0] == x[0]);
        },
    }
    assert(s.len() > 0 && s[0] == x[0]);
    let out = if t.swap {
        crate::tone::flipped(s)
    } else {
        s
    };
    assert(out[0] == x[0]);
    assert(composed(x, t)[0] == out[0]);
}

/// Applying a preset makes it the active one: the applied config's stamp
/// names the preset, whatever the preset's content and the tone overlay.
/// (Trailing whitespace in a name does not survive the stamp line's trim, so
/// the law is stated for names that end in non-whitespace, which every
/// preset file name and every name read off a stamp does.)
pub proof fn law_applied_preset_is_active(c: Seq<LineV>, t: crate::tone::ToneV, name: Seq<char>)
    requires
        text::trimmed_end(name) == name,
    ensures
        name_of(composed(stamped(c, name), t)) == Some(name),
{
    let x = stamped(c, name);
    provenance::lemma_stamp_line(name);
    provenance::lemma_prefix_facts();
    assert(x[0] == provenance::stamp_line(name));
    let a = provenance::stamp_prefix();
    text::lemma_trim_start_concat(a, name);
    text::lemma_trim_end_concat(a, name);
    reveal_strlit("# fastpeq:preset=");
    reveal_strlit("# fastpeq tone overlay (managed — edit with the app's tone knobs)");
    assert(trimmed(a + name)[9] == ':');
    assert(crate::tone::TONE_BEGIN@[9] == ' ');
    lemma_first_line_kept(x, t);
    let r = composed(x, t);
    assert(provenance::is_stamp(r[0]));
    assert(name_of(r) == provenance::stamp_name(r[0]));
}

/// A bypassed config runs no filter, and no preset is active on it.
pub proof fn law_bypass_has_no_filters_and_no_preset(live: Seq<LineV>)
    ensures
        forall|k: int| 0 <= k < bypassed(live).len() ==> !is_filter(#[trigger] bypassed(live)[k]),
        name_of(bypassed(live)) is None,
{
    let w = without_stamps(without_tone(live));
    let p = |l: LineV| !is_filter(l);
    crate::model::lemma_keep_all(w, p);
    provenance::lemma_without_stamps_has_none(without_tone(live));
    crate::model::lemma_keep_preserves(w, p, |l: LineV| !provenance::is_stamp(l));
    lemma_no_stamp_no_name(bypassed(live));
}

/// Whatever a save writes carries no provenance stamp.
pub proof fn law_saved_presets_carry_no_stamp(config: Seq<LineV>)
    ensures
        name_of(without_stamps(config)) is None,
{
    provenance::lemma_without_stamps_has_none(config);
    lemma_no_stamp_no_name(without_stamps(config));
}

/// A rename carries the category: the new name has the old name's
/// category, the old name has none, and every other name keeps its own.
pub proof fn law_rename_moves_category(m: Map<Seq<char>, Seq<char>>, from: Seq<char>, to: Seq<char>, other: Seq<char>)
    requires
        m.contains_key(from),
        from != to,
    ensures
        m.remove(from).insert(to, m[from])[to] == m[from],
        !m.remove(from).insert(to, m[from]).contains_key(from),
        other != from && other != to ==> m.remove(from).insert(to, m[from]).contains_key(other)
            == m.contains_key(other),
{
}

} // verus!

verus! {

/// Whether a directory entry is a PEACE preset: a file whose extension is
/// `peace`, ASCII case ignored.
pub open spec fn is_peace_file(name: Seq<char>, is_file: bool) -> bool {
    is_file && match history::extension_of(name) {
        Some(e) => text::eq_ignore_case(e, "peace"@),
        None => false,
    }
}

/// The PEACE presets among a folder's entries, in directory order.
pub open spec fn peace_entries(entries: Seq<(Seq<char>, bool)>) -> Seq<Seq<char>>
    decreases entries.len(),
{
    if entries.len() == 0 {
        Seq::empty()
    } else if is_peace_file(entries.last().0, entries.last().1) {
        peace_entries(entries.drop_last()).push(entries.last().0)
    } else {
        peace_entries(entries.drop_last())
    }
}

/// The views of (name, is-a-file) directory entries.
pub open spec fn file_entries_view(v: Seq<(String, bool)>) -> Seq<(Seq<char>, bool)> {
    Seq::new(v.len(), |i: int| (v[i].0@, v[i].1))
}

impl Manager {
    /// The PEACE presets to import from the APO config folder, given its
    /// entries (name, whether it is a file): only files directly in the
    /// folder with a `.peace` extension (any case), in name order.
    pub fn peace_files_in(&self, entries: &Vec<(String, bool)>) -> (r: Vec<String>)
        ensures
            text::strings_view(r@) == sorted_names(peace_entries(file_entries_view(entries@))),
    {
        let ghost ev = file_entries_view(entries@);
        let mut found: Vec<String> = Vec::new();
        let mut i: usize = 0;
        proof {
            reveal_strlit("peace");
        }
        while i < entries.len()
            invariant
                i <= entries.len(),
                ev == file_entries_view(entries@),
                text::strings_view(found@) == peace_entries(ev.take(i as int)),
            decreases entries.len() - i,
        {
            proof {
                assert(ev.take(i + 1).drop_last() =~= ev.take(i as int));
                assert(ev.take(i + 1).last() == ev[i as int]);
            }
            let keep = entries[i].1 && match history::split_extension(entries[i].0.as_str()) {
                Some((_, ext)) => text::eq_ignore_ascii_case(ext.as_str(), "peace"),
                None => false,
            };
            if keep {
                let name = text::owned(entries[i].0.as_str());
                let ghost nv = name@;
                let ghost before = found@;
                found.push(name);
                proof {
                    assert(text::strings_view(found@) =~= text::strings_view(before).push(nv));
                }
            }
            i = i + 1;
        }
        proof {
            assert(ev.take(i as int) =~= ev);
        }
        sort_names(&found)
    }
}

} // verus!

verus! {

/// Restoring a revision consumes it: the revision's own file is among the
/// ones the restore deletes once the preset holds its content, whatever
/// master preamp the restore sets.
pub proof fn law_restore_consumes_the_restored_revision(
    entries: Seq<(Seq<char>, Seq<LineV>)>,
    i: int,
    id: Seq<char>,
    restored: Seq<LineV>,
    preamp: Option<Seq<char>>,
)
    requires
        0 <= i < entries.len(),
        entries[i] == (history::revision_file_name(id), restored),
        history::id_parts(id) is Some,
    ensures
        history::matching_ids(
            entries,
            history::normal_text_of(
                without_stamps(
                    match preamp {
                        Some(p) => with_master(restored, p),
                        None => restored,
                    },
                ),
            ),
        ).contains(id),
{
    let written = match preamp {
        Some(p) => with_master(restored, p),
        None => restored,
    };
    match preamp {
        Some(p) => history::law_normal_form_ignores_master_and_stamp(restored, p),
        None => {},
    }
    history::law_normal_form_ignores_master_and_stamp(written, seq!['0']);
    history::law_revision_file_lists_its_id(id);
    history::law_record_splits_duplicates_from_the_rest(entries, history::normal_text_of(without_stamps(written)));
    assert(entries[i].0 == history::revision_file_name(id));
}

} // verus!
