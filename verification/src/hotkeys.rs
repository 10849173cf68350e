//! Global hotkeys: the frontend owns the bindings (which action each combo
//! triggers); the accelerators it emits — `"Ctrl+Alt+X"`, `"Ctrl+Shift+7"` —
//! are parsed strictly here. Registering them with the system is the
//! caller's.

use crate::text;
use vstd::prelude::*;

verus! {

/// One binding: an action id and its accelerator text.
#[derive(Debug, Clone)]
pub struct Binding {
    pub id: String,
    pub accelerator: String,
}

/// The key of a shortcut: a letter `A`–`Z` or a digit `0`–`9`.
#[derive(Debug, Clone, Copy, PartialEq, Eq, Structural)]
pub enum KeyCode {
    Letter(char),
    Digit(char),
}

/// A parsed accelerator: modifiers and key.
#[derive(Debug, Clone, Copy, PartialEq, Eq, Structural)]
pub struct Accelerator {
    pub ctrl: bool,
    pub alt: bool,
    pub shift: bool,
    pub key: KeyCode,
}

/// The key a single-character key name stands for.
pub open spec fn key_of(name: Seq<char>) -> Option<KeyCode> {
    if name.len() != 1 {
        None
    } else if 'A' <= name[0] && name[0] <= 'Z' {
        Some(KeyCode::Letter(name[0]))
    } else if '0' <= name[0] && name[0] <= '9' {
        Some(KeyCode::Digit(name[0]))
    } else {
        None
    }
}

/// Map a single key (`A`–`Z` / `0`–`9`) to its key code.
pub fn key_to_code(key: &str) -> (r: Option<KeyCode>)
    ensures
        r == key_of(key@),
{
    let v = text::chars_of(key);
    if v.len() != 1 {
        return None;
    }
    let c = v[0];
    if 'A' <= c && c <= 'Z' {
        Some(KeyCode::Letter(c))
    } else if '0' <= c && c <= '9' {
        Some(KeyCode::Digit(c))
    } else {
        None
    }
}

/// The `+`-separated parts of a text, in order (`split('+')`).
pub open spec fn parts_of(s: Seq<char>) -> Seq<Seq<char>> {
    text::pieces(s, '+')
}

/// The state after reading accelerator parts: modifiers seen and the key the
/// last non-modifier part named (a later key part replaces an earlier one,
/// even when it names no key).
pub open spec fn read_parts(parts: Seq<Seq<char>>) -> (bool, bool, bool, Option<KeyCode>)
    decreases parts.len(),
{
    if parts.len() == 0 {
        (false, false, false, None)
    } else {
        let (c, a, s, k) = read_parts(parts.drop_last());
        let p = parts.last();
        if p == "Ctrl"@ || p == "Control"@ {
            (true, a, s, k)
        } else if p == "Alt"@ {
            (c, true, s, k)
        } else if p == "Shift"@ {
            (c, a, true, k)
        } else {
            (c, a, s, key_of(p))
        }
    }
}

/// The accelerator a text describes, if it names a key.
pub open spec fn accelerator_of(accel: Seq<char>) -> Option<Accelerator> {
    let (c, a, s, k) = read_parts(parts_of(accel));
    match k {
        Some(key) => Some(Accelerator { ctrl: c, alt: a, shift: s, key }),
        None => None,
    }
}

/// Parse the frontend's `"Ctrl+Alt+X"` / `"Ctrl+Shift+X"` accelerator:
/// `Ctrl` (or `Control`), `Alt` and `Shift` set modifiers; any other part
/// names the key (`A`–`Z` or `0`–`9`), the last such part winning. `None`
/// when no key results.
pub fn parse(accel: &str) -> (r: Option<Accelerator>)
    ensures
        r == accelerator_of(accel@),
{
    let v = text::chars_of(accel);
    let parts = text::split_on(&v, '+', 0);
    proof {
        assert(v@.skip(0) =~= accel@);
    }
    let ghost ps = text::strings_view(parts@);
    let mut ctrl = false;
    let mut alt = false;
    let mut shift = false;
    let mut key: Option<KeyCode> = None;
    let mut i: usize = 0;
    while i < parts.len()
        invariant
            i <= parts.len(),
            ps == text::strings_view(parts@),
            (ctrl, alt, shift, key) == read_parts(ps.take(i as int)),
        decreases parts.len() - i,
    {
        proof {
            assert(ps.take(i + 1).drop_last() =~= ps.take(i as int));
            assert(ps.take(i + 1).last() == parts@[i as int]@);
        }
        let p = parts[i].as_str();
        if text::str_eq(p, "Ctrl") || text::str_eq(p, "Control") {
            ctrl = true;
        } else if text::str_eq(p, "Alt") {
            alt = true;
        } else if text::str_eq(p, "Shift") {
            shift = true;
        } else {
            key = key_to_code(p);
        }
        i = i + 1;
    }
    proof {
        assert(ps.take(i as int) =~= ps);
    }
    match key {
        Some(k) => Some(Accelerator { ctrl, alt, shift, key: k }),
        None => None,
    }
}

} // verus!

verus! {

/// The position of the first registered shortcut equal to `pressed`.
pub open spec fn first_bound(map: Seq<(Accelerator, Seq<char>)>, pressed: Accelerator) -> Option<int>
    decreases map.len(),
{
    if map.len() == 0 {
        None
    } else {
        match first_bound(map.drop_last(), pressed) {
            Some(k) => Some(k),
            None => if map.last().0 == pressed {
                Some(map.len() - 1)
            } else {
                None
            },
        }
    }
}

/// The views of registered shortcuts.
pub open spec fn bound_view(map: Seq<(Accelerator, String)>) -> Seq<(Accelerator, Seq<char>)> {
    Seq::new(map.len(), |i: int| (map[i].0, map[i].1@))
}

/// The binding id a pressed shortcut triggers: that of the first registered
/// shortcut equal to it, if any.
pub fn pressed_binding(map: &Vec<(Accelerator, String)>, pressed: Accelerator) -> (r: Option<String>)
    ensures
        match first_bound(bound_view(map@), pressed) {
            Some(k) => r matches Some(id) && id@ == bound_view(map@)[k].1,
            None => r is None,
        },
{
    let ghost m = bound_view(map@);
    let mut i: usize = 0;
    while i < map.len()
        invariant
            i <= map@.len(),
            m == bound_view(map@),
            first_bound(m.take(i as int), pressed) is None,
        decreases map.len() - i,
    {
        proof {
            assert(m.take(i + 1).drop_last() =~= m.take(i as int));
            assert(m.take(i + 1).last() == m[i as int]);
        }
        if map[i].0 == pressed {
            proof {
                assert(first_bound(m.take(i + 1), pressed) == Some(i as int));
                lemma_first_bound_extends(m, i + 1, m.len() as int, pressed);
                assert(m.take(m.len() as int) =~= m);
            }
            return Some(text::owned(map[i].1.as_str()));
        }
        i = i + 1;
    }
    assert(m.take(i as int) =~= m);
    None
}

proof fn lemma_first_bound_extends(m: Seq<(Accelerator, Seq<char>)>, a: int, b: int, pressed: Accelerator)
    requires
        0 <= a <= b <= m.len(),
        first_bound(m.take(a), pressed) is Some,
    ensures
        first_bound(m.take(b), pressed) == first_bound(m.take(a), pressed),
    decreases b - a,
{
    if b > a {
        lemma_first_bound_extends(m, a, b - 1, pressed);
        assert(m.take(b).drop_last() =~= m.take(b - 1));
    }
}

} // verus!
