//! The preset library: a directory of `<name>.txt` files, each a native APO
//! config. This module holds the naming rules — which names are safe as
//! Windows file names, where a preset's file lives, which directory entries
//! are presets and in what order they are listed. Reading and writing the
//! files is the caller's.

use crate::order::{items_of, sort_pairs, sorted_pairs};
use crate::paths::{join, joined, plain_component};
use crate::text::{first_index_of, trimmed, upper_seq};
use crate::history::{extension_of, stem_of};
use crate::text;
use vstd::prelude::*;

verus! {

/// Why a preset operation was refused.
#[derive(Debug, Clone, PartialEq, Eq)]
pub enum StoreError {
    /// The (trimmed) name cannot be a preset file name.
    InvalidName(String),
    /// The revision id is not of the form `<unix-ms>-<op>`.
    InvalidRevisionId(String),
    /// The preset to rename does not exist.
    NotFound(String),
    /// A different preset already has the target name.
    AlreadyExists(String),
}

/// A C0 or C1 control character (`char::is_control`, general category Cc).
pub open spec fn is_control(c: char) -> bool {
    c <= '\u{1f}' || ('\u{7f}' <= c && c <= '\u{9f}')
}

/// A character a Windows file name cannot hold: separators, the drive colon,
/// wildcards, quotes, redirections, the pipe, and control characters.
pub open spec fn is_forbidden(c: char) -> bool {
    c == '/' || c == '\\' || c == ':' || c == '*' || c == '?' || c == '"' || c == '<' || c == '>'
        || c == '|' || is_control(c)
}

/// Whether `s` holds `..` anywhere.
pub open spec fn has_double_dot(s: Seq<char>) -> bool {
    exists|i: int| 0 <= i && i + 1 < s.len() && #[trigger] s[i] == '.' && s[i + 1] == '.'
}

/// A device-name digit: `1`–`9`, or the superscripts `¹`, `²`, `³`, which
/// Windows also reserves.
pub open spec fn device_digit(c: char) -> bool {
    ('1' <= c && c <= '9') || c == '\u{b9}' || c == '\u{b2}' || c == '\u{b3}'
}

/// A Windows reserved device name (CON, PRN, AUX, NUL, CONIN$, CONOUT$,
/// COM1–COM9, LPT1–LPT9, and COM/LPT with a superscript ¹²³), compared after
/// trimming and ASCII upper-casing.
pub open spec fn reserved_device(stem: Seq<char>) -> bool {
    let s = upper_seq(trimmed(stem));
    ||| s == seq!['C', 'O', 'N']
    ||| s == seq!['P', 'R', 'N']
    ||| s == seq!['A', 'U', 'X']
    ||| s == seq!['N', 'U', 'L']
    ||| s == seq!['C', 'O', 'N', 'I', 'N', '$']
    ||| s == seq!['C', 'O', 'N', 'O', 'U', 'T', '$']
    ||| (s.len() == 4 && (s.take(3) == seq!['C', 'O', 'M'] || s.take(3) == seq!['L', 'P', 'T'])
        && device_digit(s[3]))
}

/// The part of a name before its first `.`.
pub open spec fn first_segment(name: Seq<char>) -> Seq<char> {
    match first_index_of(name, '.') {
        Some(k) => name.take(k),
        None => name,
    }
}

/// A name that can safely become a file name in the preset directory: no
/// `..`, no trailing `.` or space (Windows drops those), no forbidden
/// character, and no reserved device name before the first `.`.
pub open spec fn safe_name(name: Seq<char>) -> bool {
    &&& !has_double_dot(name)
    &&& !(name.len() > 0 && (name.last() == '.' || name.last() == ' '))
    &&& forall|i: int| 0 <= i < name.len() ==> !is_forbidden(#[trigger] name[i])
    &&& !reserved_device(first_segment(name))
}

/// The file name a (trimmed, safe) preset name is stored under.
pub open spec fn preset_file_name(name: Seq<char>) -> Seq<char> {
    name + seq!['.', 't', 'x', 't']
}

/// Whether `stem` is a Windows reserved device name (case-insensitive).
pub fn is_reserved_device(stem: &str) -> (b: bool)
    ensures
        b == reserved_device(stem@),
{
    let s = text::upper_chars(text::trim(stem));
    let n = s.len();
    if n == 3 {
        let named = (s[0] == 'C' && s[1] == 'O' && s[2] == 'N') || (s[0] == 'P' && s[1] == 'R' && s[2]
            == 'N') || (s[0] == 'A' && s[1] == 'U' && s[2] == 'X') || (s[0] == 'N' && s[1] == 'U'
            && s[2] == 'L');
        proof {
            if named {
                assert(s@ =~= seq!['C', 'O', 'N'] || s@ =~= seq!['P', 'R', 'N'] || s@ =~= seq![
                    'A',
                    'U',
                    'X',
                ] || s@ =~= seq!['N', 'U', 'L']);
            } else {
                assert(s@ != seq!['C', 'O', 'N'] ==> s@[0] != 'C' || s@[1] != 'O' || s@[2] != 'N');
            }
        }
        named
    } else if n == 4 {
        let com = s[0] == 'C' && s[1] == 'O' && s[2] == 'M';
        let lpt = s[0] == 'L' && s[1] == 'P' && s[2] == 'T';
        proof {
            if com {
                assert(s@.take(3) =~= seq!['C', 'O', 'M']);
            }
            if lpt {
                assert(s@.take(3) =~= seq!['L', 'P', 'T']);
            }
            if s@.take(3) == seq!['C', 'O', 'M'] {
                assert(s@.take(3)[0] == s@[0]);
                assert(s@.take(3)[1] == s@[1]);
                assert(s@.take(3)[2] == s@[2]);
            }
            if s@.take(3) == seq!['L', 'P', 'T'] {
                assert(s@.take(3)[0] == s@[0]);
                assert(s@.take(3)[1] == s@[1]);
                assert(s@.take(3)[2] == s@[2]);
            }
        }
        let d = s[3];
        (com || lpt) && (('1' <= d && d <= '9') || d == '\u{b9}' || d == '\u{b2}' || d == '\u{b3}')
    } else if n == 6 {
        let r = s[0] == 'C' && s[1] == 'O' && s[2] == 'N' && s[3] == 'I' && s[4] == 'N' && s[5] == '$';
        proof {
            if r {
                assert(s@ =~= seq!['C', 'O', 'N', 'I', 'N', '$']);
            }
        }
        r
    } else if n == 7 {
        let r = s[0] == 'C' && s[1] == 'O' && s[2] == 'N' && s[3] == 'O' && s[4] == 'U' && s[5] == 'T'
            && s[6] == '$';
        proof {
            if r {
                assert(s@ =~= seq!['C', 'O', 'N', 'O', 'U', 'T', '$']);
            }
        }
        r
    } else {
        false
    }
}

fn is_forbidden_char(c: char) -> (b: bool)
    ensures
        b == is_forbidden(c),
{
    c == '/' || c == '\\' || c == ':' || c == '*' || c == '?' || c == '"' || c == '<' || c == '>'
        || c == '|' || c <= '\u{1f}' || ('\u{7f}' <= c && c <= '\u{9f}')
}

/// Whether `name` may become a preset file name: rejects path traversal,
/// separators, drive specifiers, wildcards and other illegal or control
/// characters, a trailing dot or space, and Windows reserved device names
/// (even with an extension, so the part before the first dot is tested).
pub fn is_safe_name(name: &str) -> (b: bool)
    ensures
        b == safe_name(name@),
{
    let v = text::chars_of(name);
    let n = v.len();
    let mut i: usize = 0;
    while i < n
        invariant
            v@ == name@,
            n == v.len(),
            i <= n,
            forall|k: int| 0 <= k && k + 1 < n && k < i ==> !(#[trigger] v@[k] == '.' && v@[k + 1] == '.'),
            forall|k: int| 0 <= k < i ==> !is_forbidden(#[trigger] v@[k]),
        decreases n - i,
    {
        if is_forbidden_char(v[i]) {
            return false;
        }
        if i + 1 < n && v[i] == '.' && v[i + 1] == '.' {
            return false;
        }
        i = i + 1;
    }
    if n > 0 && (v[n - 1] == '.' || v[n - 1] == ' ') {
        return false;
    }
    let first = match text::find_char(&v, '.') {
        Some(k) => text::string_of_range(&v, 0, k),
        None => text::string_of_range(&v, 0, n),
    };
    proof {
        assert(v@.subrange(0, n as int) =~= v@);
        if let Some(k) = first_index_of(v@, '.') {
            assert(v@.subrange(0, k) =~= v@.take(k));
        }
        assert(first@ == first_segment(name@));
    }
    !is_reserved_device(first.as_str())
}

/// A directory of preset `.txt` files.
#[derive(Debug, Clone)]
pub struct PresetStore {
    dir: String,
}

impl View for PresetStore {
    type V = Seq<char>;

    /// The directory's path.
    closed spec fn view(&self) -> Seq<char> {
        self.dir@
    }
}

/// The presets among a directory's entry names: the stems of the `.txt`
/// files, in directory order.
pub open spec fn preset_stems(names: Seq<Seq<char>>) -> Seq<Seq<char>>
    decreases names.len(),
{
    if names.len() == 0 {
        Seq::empty()
    } else if extension_of(names.last()) == Some(seq!['t', 'x', 't']) {
        preset_stems(names.drop_last()).push(stem_of(names.last()))
    } else {
        preset_stems(names.drop_last())
    }
}

/// Each name paired with its lowercase form, the key presets are listed by.
pub open spec fn lowercase_keyed(names: Seq<Seq<char>>) -> Seq<(Seq<char>, Seq<char>)> {
    Seq::new(names.len(), |i: int| (text::lowercase_of(names[i]), names[i]))
}

/// The preset names a directory listing yields: the `.txt` stems, stably
/// sorted by their lowercase forms.
pub open spec fn listed_presets(names: Seq<Seq<char>>) -> Seq<Seq<char>> {
    items_of(sorted_pairs(lowercase_keyed(preset_stems(names))))
}

impl PresetStore {
    /// A store over the directory `dir`.
    pub fn new(dir: &str) -> (s: PresetStore)
        ensures
            s@ == dir@,
    {
        PresetStore { dir: text::owned(dir) }
    }

    /// The preset directory.
    pub fn dir(&self) -> (d: &str)
        ensures
            d@ == self@,
    {
        self.dir.as_str()
    }

    /// Resolve a preset name to its file path, rejecting names that could
    /// escape the preset directory or are illegal as Windows file names. The
    /// name is trimmed first.
    pub fn path_for(&self, name: &str) -> (r: Result<String, StoreError>)
        ensures
            ({
                let t = trimmed(name@);
                if t.len() > 0 && safe_name(t) {
                    r matches Ok(p) && p@ == joined(self@, preset_file_name(t))
                } else {
                    r matches Err(StoreError::InvalidName(n)) && n@ == t
                }
            }),
    {
        let t = text::trim(name);
        if t.unicode_len() == 0 || !is_safe_name(t) {
            return Err(StoreError::InvalidName(text::owned(t)));
        }
        let file = text::concat(t, ".txt");
        proof {
            reveal_strlit(".txt");
            assert(file@ =~= preset_file_name(t@));
            assert forall|i: int| 0 <= i < file@.len() implies !crate::paths::is_sep(
                #[trigger] file@[i],
            ) && file@[i] != ':' by {
                if i < t@.len() {
                    assert(file@[i] == t@[i]);
                    assert(!is_forbidden(t@[i]));
                }
            }
        }
        Ok(join(self.dir.as_str(), file.as_str()))
    }

    /// Whether the preset `name` exists, given whether a file is present at
    /// the path [`path_for`](Self::path_for) resolves it to. An unusable name
    /// never exists.
    pub fn has_preset(&self, name: &str, file_present: bool) -> (b: bool)
        ensures
            b == (trimmed(name@).len() > 0 && safe_name(trimmed(name@)) && file_present),
    {
        match self.path_for(name) {
            Ok(_) => file_present,
            Err(_) => false,
        }
    }

    /// The preset names among a directory's entry names: the stems of the
    /// `.txt` files, sorted case-insensitively (by lowercase form, ties in
    /// directory order).
    pub fn list(&self, entry_names: &Vec<String>) -> (r: Vec<String>)
        ensures
            text::strings_view(r@) == listed_presets(text::strings_view(entry_names@)),
    {
        let ghost names = text::strings_view(entry_names@);
        let mut keyed: Vec<(String, String)> = Vec::new();
        let mut i: usize = 0;
        proof {
            reveal_strlit("txt");
            assert("txt"@ =~= seq!['t', 'x', 't']);
        }
        while i < entry_names.len()
            invariant
                i <= entry_names.len(),
                names == text::strings_view(entry_names@),
                crate::order::pairs_view(keyed@) == lowercase_keyed(preset_stems(names.take(i as int))),
            decreases entry_names.len() - i,
        {
            proof {
                assert(names.take(i + 1).drop_last() =~= names.take(i as int));
                assert(names.take(i + 1).last() == entry_names@[i as int]@);
                reveal_strlit("txt");
                assert("txt"@ =~= seq!['t', 'x', 't']);
            }
            match crate::history::split_extension(entry_names[i].as_str()) {
                Some((stem, ext)) => {
                    if text::str_eq(ext.as_str(), "txt") {
                        let key = text::to_lowercase(stem.as_str());
                        let ghost before = keyed@;
                        let ghost kv = key@;
                        let ghost sv = stem@;
                        keyed.push((key, stem));
                        proof {
                            assert(crate::order::pairs_view(keyed@) =~= crate::order::pairs_view(before).push((kv, sv)));
                            assert(preset_stems(names.take(i + 1)) == preset_stems(names.take(i as int)).push(sv));
                            assert(crate::order::pairs_view(keyed@) =~= lowercase_keyed(
                                preset_stems(names.take(i + 1)),
                            ));
                        }
                    } else {
                        proof {
                            assert(lowercase_keyed(preset_stems(names.take(i + 1))) =~= lowercase_keyed(
                                preset_stems(names.take(i as int)),
                            ));
                        }
                    }
                },
                None => {
                    proof {
                        assert(lowercase_keyed(preset_stems(names.take(i + 1))) =~= lowercase_keyed(
                            preset_stems(names.take(i as int)),
                        ));
                    }
                },
            }
            i = i + 1;
        }
        proof {
            assert(names.take(i as int) =~= names);
        }
        let sorted = sort_pairs(&keyed);
        let mut out: Vec<String> = Vec::new();
        let mut j: usize = 0;
        let ghost sp = crate::order::pairs_view(sorted@);
        while j < sorted.len()
            invariant
                j <= sorted.len(),
                sp == crate::order::pairs_view(sorted@),
                text::strings_view(out@) == items_of(sp).take(j as int),
            decreases sorted.len() - j,
        {
            let ghost before = out@;
            out.push(text::owned(sorted[j].1.as_str()));
            proof {
                assert(sp[j as int].1 == sorted@[j as int].1@);
                assert(text::strings_view(out@) =~= text::strings_view(before).push(sorted@[j as int].1@));
            }
            j = j + 1;
            proof {
                assert(text::strings_view(out@) =~= items_of(sp).take(j as int));
            }
        }
        proof {
            assert(items_of(sp).take(j as int) =~= items_of(sp));
        }
        out
    }
}

} // verus!

verus! {

/// A valid preset name can only ever address a file directly inside the
/// preset directory: its file name is a single path component (no
/// separator, no drive colon) and holds no `..`.
pub proof fn law_preset_file_stays_in_store(name: Seq<char>)
    requires
        trimmed(name).len() > 0,
        safe_name(trimmed(name)),
    ensures
        plain_component(preset_file_name(trimmed(name))),
        !has_double_dot(trimmed(name)),
{
    let t = trimmed(name);
    let f = preset_file_name(t);
    assert forall|i: int| 0 <= i < f.len() implies !crate::paths::is_sep(#[trigger] f[i]) && f[i] != ':' by {
        if i < t.len() {
            assert(f[i] == t[i]);
            assert(!is_forbidden(t[i]));
        }
    }
}

} // verus!
