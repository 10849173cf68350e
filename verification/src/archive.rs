//! The archive of deleted presets: deleting a preset moves its source file
//! into `.history\.deleted\<name>\`, under `<name>.txt`, or `<name>-1.txt`,
//! `<name>-2.txt`, … when earlier deletes of the same name took those.

use crate::paths::{joined, plain_component};
use crate::store::{preset_file_name, safe_name, StoreError};
use crate::text;
use crate::text::{dec, trimmed};
use vstd::prelude::*;
use vstd::relations::injective_on;
use vstd::set_lib::set_int_range;

verus! {

/// The name of the archive directory under the history directory.
pub open spec fn deleted_dir_name() -> Seq<char> {
    seq!['.', 'd', 'e', 'l', 'e', 't', 'e', 'd']
}

/// Where the source files of deleted presets named `name` (trimmed) are
/// archived, under the history directory `history`.
pub open spec fn archive_dir(history: Seq<char>, name: Seq<char>) -> Seq<char> {
    joined(joined(history, deleted_dir_name()), name)
}

/// The `k`-th archive slot of `name`: `<name>.txt` for the first, then
/// `<name>-<k>.txt`.
pub open spec fn archive_file_name(name: Seq<char>, k: nat) -> Seq<char> {
    if k == 0 {
        preset_file_name(name)
    } else {
        name + seq!['-'] + dec(k) + seq!['.', 't', 'x', 't']
    }
}

/// `slot` is the first archive slot of `name` whose file is not among
/// `taken`.
pub open spec fn first_free_slot(name: Seq<char>, taken: Seq<Seq<char>>, slot: nat) -> bool {
    &&& !taken.contains(archive_file_name(name, slot))
    &&& forall|j: nat| j < slot ==> taken.contains(#[trigger] archive_file_name(name, j))
}

/// Different slots are different file names.
pub proof fn lemma_archive_names_differ(name: Seq<char>, a: nat, b: nat)
    requires
        a != b,
    ensures
        archive_file_name(name, a) != archive_file_name(name, b),
{
    text::lemma_dec_reads_back(a);
    text::lemma_dec_reads_back(b);
    let fa = archive_file_name(name, a);
    let fb = archive_file_name(name, b);
    let lo: int = name.len() as int + 1;
    if a == 0 {
        assert(fa.len() == name.len() + 4);
        assert(fb.len() == lo + dec(b).len() + 4);
    } else if b == 0 {
        assert(fb.len() == name.len() + 4);
        assert(fa.len() == lo + dec(a).len() + 4);
    } else if fa == fb {
        assert(fa.len() == lo + dec(a).len() + 4);
        assert(fb.len() == lo + dec(b).len() + 4);
        assert(fa.subrange(lo, lo + dec(a).len()) =~= dec(a));
        assert(fb.subrange(lo, lo + dec(b).len()) =~= dec(b));
        assert(dec(a) == dec(b));
    }
}

/// Among any `n` taken names, one of the first `n + 1` slots is free.
pub proof fn lemma_some_slot_free(name: Seq<char>, taken: Seq<Seq<char>>)
    ensures
        exists|k: nat| k <= taken.len() && !taken.contains(#[trigger] archive_file_name(name, k)),
{
    let n = taken.len() as int;
    if forall|k: nat| k <= taken.len() ==> taken.contains(#[trigger] archive_file_name(name, k)) {
        let f = |i: int| archive_file_name(name, i as nat);
        let xs = set_int_range(0, n + 1);
        let ys = xs.map(f);
        vstd::set_lib::lemma_int_range(0, n + 1);
        assert(injective_on(f, xs)) by {
            assert forall|a: int, b: int| xs.contains(a) && xs.contains(b) && #[trigger] f(a) == #[trigger] f(b) implies a
                == b by {
                if a != b {
                    lemma_archive_names_differ(name, a as nat, b as nat);
                }
            }
        }
        vstd::set_lib::lemma_map_size(xs, ys, f);
        assert(ys.subset_of(taken.to_set())) by {
            assert forall|y: Seq<char>| ys.contains(y) implies taken.to_set().contains(y) by {
                let i = choose|i: int| xs.contains(i) && f(i) == y;
                assert(taken.contains(archive_file_name(name, i as nat)));
            }
        }
        taken.lemma_cardinality_of_set();
        vstd::set_lib::lemma_len_subset(ys, taken.to_set());
        assert(false);
    }
}

fn listed(names: &Vec<String>, name: &str) -> (b: bool)
    ensures
        b == text::strings_view(names@).contains(name@),
{
    let ghost s = text::strings_view(names@);
    let mut i: usize = 0;
    while i < names.len()
        invariant
            i <= names.len(),
            s == text::strings_view(names@),
            forall|k: int| 0 <= k < i ==> s[k] != name@,
        decreases names.len() - i,
    {
        assert(s[i as int] == names@[i as int]@);
        if text::str_eq(names[i].as_str(), name) {
            return true;
        }
        i = i + 1;
    }
    false
}

/// The file name of the `k`-th archive slot of `name`.
fn slot_name(name: &str, k: u64) -> (r: String)
    ensures
        r@ == archive_file_name(name@, k as nat),
{
    proof {
        reveal_strlit(".txt");
        assert(".txt"@ =~= seq!['.', 't', 'x', 't']);
    }
    if k == 0 {
        text::concat(name, ".txt")
    } else {
        let mut s = text::owned(name);
        text::push_char(&mut s, '-');
        let d = text::u64_text(k);
        s.append(d.as_str());
        s.append(".txt");
        s
    }
}

/// The first archive slot of `name` not among the `taken` file names (the
/// entries of the archive directory).
pub fn free_archive_name(name: &str, taken: &Vec<String>) -> (r: String)
    ensures
        exists|k: nat| #[trigger] archive_file_name(name@, k) == r@ && first_free_slot(name@, text::strings_view(taken@), k),
{
    let ghost ts = text::strings_view(taken@);
    proof {
        lemma_some_slot_free(name@, ts);
    }
    let mut k: u64 = 0;
    while k <= taken.len() as u64
        invariant
            ts == text::strings_view(taken@),
            ts.len() == taken.len(),
            k <= ts.len() + 1,
            exists|f: nat| f <= ts.len() && !ts.contains(#[trigger] archive_file_name(name@, f)),
            forall|j: nat| j < k ==> ts.contains(#[trigger] archive_file_name(name@, j)),
        decreases ts.len() + 1 - k,
    {
        let candidate = slot_name(name, k);
        if !listed(taken, candidate.as_str()) {
            proof {
                assert(first_free_slot(name@, ts, k as nat));
            }
            return candidate;
        }
        k = k + 1;
    }
    proof {
        let f = choose|f: nat| f <= ts.len() && !ts.contains(#[trigger] archive_file_name(name@, f));
        assert(f < k);
        assert(false);
    }
    slot_name(name, 0)
}

/// A slot file name of a safe name is a single path component.
pub proof fn lemma_slot_is_plain(name: Seq<char>, k: nat)
    requires
        safe_name(name),
    ensures
        plain_component(archive_file_name(name, k)),
{
    text::lemma_dec_reads_back(k);
    let f = archive_file_name(name, k);
    assert forall|i: int| 0 <= i < f.len() implies !crate::paths::is_sep(#[trigger] f[i]) && f[i] != ':' by {
        if i < name.len() {
            assert(f[i] == name[i]);
            assert(!crate::store::is_forbidden(name[i]));
        } else if k != 0 && name.len() < i < name.len() + 1 + dec(k).len() {
            assert(f[i] == dec(k)[i - name.len() - 1]);
            assert(text::is_digit(dec(k)[i - name.len() - 1]));
        }
    }
}

/// The directory archiving `name`'s deleted source files, under the history
/// directory `history`; the name is validated like a preset name.
pub fn archive_dir_for(history: &str, name: &str) -> (r: Result<String, StoreError>)
    ensures
        ({
            let t = trimmed(name@);
            if t.len() > 0 && safe_name(t) {
                r matches Ok(p) && p@ == archive_dir(history@, t)
            } else {
                r matches Err(StoreError::InvalidName(n)) && n@ == t
            }
        }),
{
    let t = text::trim(name);
    if t.unicode_len() == 0 || !crate::store::is_safe_name(t) {
        return Err(StoreError::InvalidName(text::owned(t)));
    }
    proof {
        reveal_strlit(".deleted");
        assert(".deleted"@ =~= deleted_dir_name());
        assert forall|i: int| 0 <= i < t@.len() implies !crate::paths::is_sep(#[trigger] t@[i]) && t@[i] != ':' by {
            assert(!crate::store::is_forbidden(t@[i]));
        }
    }
    let d = crate::paths::join(history, ".deleted");
    Ok(crate::paths::join(d.as_str(), t))
}

} // verus!
