//! Windows path text.
//!
//! Equalizer APO and the preset library live on Windows, so paths are kept as
//! Windows path strings and joined the way `Path::join` joins a relative,
//! single-component name there: with a `\` unless the base is empty, already
//! ends in a separator, or is a bare drive (`C:`).

use vstd::prelude::*;

verus! {

/// A Windows path separator.
pub open spec fn is_sep(c: char) -> bool {
    c == '\\' || c == '/'
}

/// A single path component: no separators and no drive colon.
pub open spec fn plain_component(name: Seq<char>) -> bool {
    forall|i: int| 0 <= i < name.len() ==> !is_sep(#[trigger] name[i]) && name[i] != ':'
}

/// A bare drive such as `C:`.
pub open spec fn is_bare_drive(base: Seq<char>) -> bool {
    base.len() == 2 && base[1] == ':' && (('a' <= base[0] && base[0] <= 'z') || ('A' <= base[0]
        && base[0] <= 'Z'))
}

/// `base` joined with the component `name`.
pub open spec fn joined(base: Seq<char>, name: Seq<char>) -> Seq<char> {
    if base.len() == 0 || is_sep(base.last()) || is_bare_drive(base) {
        base + name
    } else {
        base + seq!['\\'] + name
    }
}

/// `base` joined with the single component `name`, as `Path::join` on Windows.
pub fn join(base: &str, name: &str) -> (r: String)
    requires
        plain_component(name@),
    ensures
        r@ == joined(base@, name@),
{
    let v = crate::text::chars_of(base);
    let n = v.len();
    let needs_sep = !(n == 0 || v[n - 1] == '\\' || v[n - 1] == '/' || (n == 2 && v[1] == ':' && (('a'
        <= v[0] && v[0] <= 'z') || ('A' <= v[0] && v[0] <= 'Z'))));
    let mut s = crate::text::owned(base);
    if needs_sep {
        crate::text::push_char(&mut s, '\\');
    }
    s.append(name);
    s
}

} // verus!
