//! Text ordering and stable sorting.
//!
//! `String`'s `Ord` compares UTF-8 bytes lexicographically, which orders texts
//! exactly as comparing their characters' code points lexicographically does;
//! [`text_lt`] states that order over `Seq<char>`. The sorts here are stable
//! insertion sorts whose result is specified by the recursive [`sorted_pairs`],
//! the unique stable order of the input.

use vstd::prelude::*;

verus! {

/// `a` sorts strictly before `b` in `String` order.
pub open spec fn text_lt(a: Seq<char>, b: Seq<char>) -> bool
    decreases a.len(),
{
    if a.len() == 0 {
        b.len() > 0
    } else if b.len() == 0 {
        false
    } else if a[0] != b[0] {
        a[0] < b[0]
    } else {
        text_lt(a.drop_first(), b.drop_first())
    }
}

/// No text sorts before itself, and of two texts at most one sorts first.
pub proof fn lemma_text_lt_asymmetric(a: Seq<char>, b: Seq<char>)
    ensures
        !(text_lt(a, b) && text_lt(b, a)),
        !text_lt(a, a),
    decreases a.len(),
{
    if a.len() > 0 && b.len() > 0 && a[0] == b[0] {
        lemma_text_lt_asymmetric(a.drop_first(), b.drop_first());
    }
    if a.len() > 0 {
        lemma_text_lt_asymmetric(a.drop_first(), a.drop_first());
    }
}

/// `String` order is transitive.
pub proof fn lemma_text_lt_transitive(a: Seq<char>, b: Seq<char>, c: Seq<char>)
    requires
        text_lt(a, b),
        text_lt(b, c),
    ensures
        text_lt(a, c),
    decreases a.len(),
{
    if a.len() > 0 && b.len() > 0 && c.len() > 0 && a[0] == b[0] && b[0] == c[0] {
        lemma_text_lt_transitive(a.drop_first(), b.drop_first(), c.drop_first());
    }
}

/// Of two different texts, one sorts first.
pub proof fn lemma_text_lt_total(a: Seq<char>, b: Seq<char>)
    ensures
        a != b ==> text_lt(a, b) || text_lt(b, a),
    decreases a.len(),
{
    if a.len() > 0 && b.len() > 0 && a[0] == b[0] {
        lemma_text_lt_total(a.drop_first(), b.drop_first());
        if a.drop_first() == b.drop_first() {
            assert(a =~= seq![a[0]] + a.drop_first());
            assert(b =~= seq![b[0]] + b.drop_first());
        }
    } else if a.len() > 0 && b.len() > 0 {
    } else if a.len() == 0 && b.len() == 0 {
        assert(a =~= b);
    }
}

/// Whether `a` sorts strictly before `b`, as `String`'s `<`.
pub fn text_less(a: &Vec<char>, b: &Vec<char>) -> (r: bool)
    ensures
        r == text_lt(a@, b@),
{
    let mut i: usize = 0;
    assert(a@.skip(0) =~= a@);
    assert(b@.skip(0) =~= b@);
    while i < a.len() && i < b.len() && a[i] == b[i]
        invariant
            i <= a.len(),
            i <= b.len(),
            text_lt(a@, b@) == text_lt(a@.skip(i as int), b@.skip(i as int)),
        decreases a.len() - i,
    {
        proof {
            let sa = a@.skip(i as int);
            let sb = b@.skip(i as int);
            assert(sa.drop_first() =~= a@.skip(i + 1));
            assert(sb.drop_first() =~= b@.skip(i + 1));
            assert(sa[0] == a@[i as int]);
            assert(sb[0] == b@[i as int]);
        }
        i = i + 1;
    }
    let ghost sa = a@.skip(i as int);
    let ghost sb = b@.skip(i as int);
    if i == a.len() {
        proof {
            assert(sa.len() == 0);
        }
        i < b.len()
    } else if i == b.len() {
        false
    } else {
        proof {
            assert(sa[0] == a@[i as int]);
            assert(sb[0] == b@[i as int]);
        }
        a[i] < b[i]
    }
}

/// Where a stable insertion puts an item with key `k` into `keys`: after every
/// key that does not sort strictly after it.
pub open spec fn insert_pos(keys: Seq<Seq<char>>, k: Seq<char>, from: int) -> int
    decreases keys.len() - from,
{
    if from >= keys.len() || from < 0 {
        keys.len() as int
    } else if text_lt(k, keys[from]) {
        from
    } else {
        insert_pos(keys, k, from + 1)
    }
}

/// The keys of a sequence of (key, item) pairs.
pub open spec fn keys_of(s: Seq<(Seq<char>, Seq<char>)>) -> Seq<Seq<char>> {
    Seq::new(s.len(), |i: int| s[i].0)
}

/// `s` stably sorted by key: each pair inserted, in turn, after every pair
/// whose key does not sort after its own.
pub open spec fn sorted_pairs(s: Seq<(Seq<char>, Seq<char>)>) -> Seq<(Seq<char>, Seq<char>)>
    decreases s.len(),
{
    if s.len() == 0 {
        s
    } else {
        let r = sorted_pairs(s.drop_last());
        r.insert(insert_pos(keys_of(r), s.last().0, 0), s.last())
    }
}

/// Keys sorted in `String` order: no key sorts strictly before an earlier one.
pub open spec fn keys_sorted(keys: Seq<Seq<char>>) -> bool {
    forall|i: int, j: int| 0 <= i < j < keys.len() ==> !text_lt(#[trigger] keys[j], #[trigger] keys[i])
}

/// The views of (key, item) string pairs.
pub open spec fn pairs_view(v: Seq<(String, String)>) -> Seq<(Seq<char>, Seq<char>)> {
    Seq::new(v.len(), |i: int| (v[i].0@, v[i].1@))
}

/// An insertion position lies within the keys, or just past them.
pub proof fn lemma_insert_pos_in_range(keys: Seq<Seq<char>>, k: Seq<char>)
    ensures
        0 <= insert_pos(keys, k, 0) <= keys.len(),
{
    lemma_insert_pos_bounds(keys, k, 0);
}

proof fn lemma_insert_pos_bounds(keys: Seq<Seq<char>>, k: Seq<char>, from: int)
    requires
        0 <= from <= keys.len(),
    ensures
        from <= insert_pos(keys, k, from) <= keys.len(),
        forall|j: int| from <= j < insert_pos(keys, k, from) ==> !text_lt(k, #[trigger] keys[j]),
        insert_pos(keys, k, from) < keys.len() ==> text_lt(k, keys[insert_pos(keys, k, from)]),
    decreases keys.len() - from,
{
    if from < keys.len() && !text_lt(k, keys[from]) {
        lemma_insert_pos_bounds(keys, k, from + 1);
    }
}

fn find_insert_pos(r: &Vec<(String, String)>, k: &Vec<char>) -> (p: usize)
    ensures
        p == insert_pos(keys_of(pairs_view(r@)), k@, 0),
{
    let ghost keys = keys_of(pairs_view(r@));
    let mut p: usize = 0;
    while p < r.len()
        invariant
            p <= r.len(),
            keys == keys_of(pairs_view(r@)),
            insert_pos(keys, k@, 0) == insert_pos(keys, k@, p as int),
        decreases r.len() - p,
    {
        let kp = crate::text::chars_of(r[p].0.as_str());
        assert(keys[p as int] == r@[p as int].0@);
        if text_less(k, &kp) {
            return p;
        }
        p = p + 1;
    }
    p
}

/// Stably sort (key, item) pairs by key in `String` order, as `sort_by_key`
/// or `sort` do.
pub fn sort_pairs(items: &Vec<(String, String)>) -> (r: Vec<(String, String)>)
    ensures
        pairs_view(r@) == sorted_pairs(pairs_view(items@)),
{
    let ghost s = pairs_view(items@);
    let mut r: Vec<(String, String)> = Vec::new();
    let mut i: usize = 0;
    while i < items.len()
        invariant
            i <= items.len(),
            s == pairs_view(items@),
            pairs_view(r@) == sorted_pairs(s.take(i as int)),
        decreases items.len() - i,
    {
        let k = crate::text::chars_of(items[i].0.as_str());
        let p = find_insert_pos(&r, &k);
        proof {
            lemma_insert_pos_bounds(keys_of(pairs_view(r@)), k@, 0);
            assert(s.take(i + 1).drop_last() =~= s.take(i as int));
            assert(s.take(i + 1).last() == s[i as int]);
        }
        let item = (crate::text::owned(items[i].0.as_str()), crate::text::owned(items[i].1.as_str()));
        let ghost before = r@;
        r.insert(p, item);
        proof {
            assert(pairs_view(r@) =~= pairs_view(before).insert(p as int, s[i as int]));
        }
        i = i + 1;
    }
    assert(s.take(i as int) =~= s);
    r
}

} // verus!

verus! {

proof fn lemma_keys_of_insert(r: Seq<(Seq<char>, Seq<char>)>, p: int, x: (Seq<char>, Seq<char>))
    requires
        0 <= p <= r.len(),
    ensures
        keys_of(r.insert(p, x)) == keys_of(r).insert(p, x.0),
{
    assert(keys_of(r.insert(p, x)) =~= keys_of(r).insert(p, x.0));
}

proof fn lemma_insert_keeps_sorted(keys: Seq<Seq<char>>, k: Seq<char>)
    requires
        keys_sorted(keys),
    ensures
        keys_sorted(keys.insert(insert_pos(keys, k, 0), k)),
{
    let p = insert_pos(keys, k, 0);
    lemma_insert_pos_bounds(keys, k, 0);
    let u = keys.insert(p, k);
    assert forall|i: int, j: int| 0 <= i < j < u.len() implies !text_lt(#[trigger] u[j], #[trigger] u[i]) by {
        if j < p {
            assert(u[i] == keys[i] && u[j] == keys[j]);
        } else if j == p {
            assert(u[j] == k && u[i] == keys[i]);
        } else if i == p {
            // u[j] == keys[j - 1], with p <= j - 1.
            assert(u[i] == k && u[j] == keys[j - 1]);
            assert(text_lt(k, keys[p]));
            if text_lt(keys[j - 1], k) {
                lemma_text_lt_transitive(keys[j - 1], k, keys[p]);
                if j - 1 == p {
                    lemma_text_lt_asymmetric(keys[p], keys[p]);
                } else {
                    assert(!text_lt(keys[j - 1], keys[p]));
                }
            }
        } else if i < p {
            assert(u[i] == keys[i] && u[j] == keys[j - 1]);
        } else {
            assert(u[i] == keys[i - 1] && u[j] == keys[j - 1]);
        }
    }
}

/// Sorting by key leaves the keys in `String` order.
pub proof fn law_sorted_pairs_are_sorted(s: Seq<(Seq<char>, Seq<char>)>)
    ensures
        keys_sorted(keys_of(sorted_pairs(s))),
    decreases s.len(),
{
    if s.len() > 0 {
        let r = sorted_pairs(s.drop_last());
        law_sorted_pairs_are_sorted(s.drop_last());
        let p = insert_pos(keys_of(r), s.last().0, 0);
        lemma_insert_pos_bounds(keys_of(r), s.last().0, 0);
        lemma_keys_of_insert(r, p, s.last());
        lemma_insert_keeps_sorted(keys_of(r), s.last().0);
    }
}

/// Sorting keeps exactly the items it was given.
pub proof fn law_sorted_pairs_permute(s: Seq<(Seq<char>, Seq<char>)>)
    ensures
        sorted_pairs(s).to_multiset() == s.to_multiset(),
        sorted_pairs(s).len() == s.len(),
    decreases s.len(),
{
    if s.len() > 0 {
        let d = s.drop_last();
        let r = sorted_pairs(d);
        law_sorted_pairs_permute(d);
        let p = insert_pos(keys_of(r), s.last().0, 0);
        lemma_insert_pos_bounds(keys_of(r), s.last().0, 0);
        vstd::seq_lib::to_multiset_insert(r, p, s.last());
        assert(s =~= d.push(s.last()));
        vstd::seq_lib::to_multiset_build(d, s.last());
    }
}

} // verus!

verus! {

/// The pairs whose key is not `k`, in order.
pub open spec fn pairs_without(s: Seq<(Seq<char>, Seq<char>)>, k: Seq<char>) -> Seq<(Seq<char>, Seq<char>)>
    decreases s.len(),
{
    if s.len() == 0 {
        s
    } else if s.last().0 == k {
        pairs_without(s.drop_last(), k)
    } else {
        pairs_without(s.drop_last(), k).push(s.last())
    }
}

/// The pairs whose key is not `k`, copied in order.
pub fn without_key(v: &Vec<(String, String)>, k: &str) -> (r: Vec<(String, String)>)
    ensures
        pairs_view(r@) == pairs_without(pairs_view(v@), k@),
{
    let ghost s = pairs_view(v@);
    let mut out: Vec<(String, String)> = Vec::new();
    let mut i: usize = 0;
    while i < v.len()
        invariant
            i <= v.len(),
            s == pairs_view(v@),
            pairs_view(out@) == pairs_without(s.take(i as int), k@),
        decreases v.len() - i,
    {
        proof {
            assert(s.take(i + 1).drop_last() =~= s.take(i as int));
            assert(s.take(i + 1).last() == s[i as int]);
        }
        if !crate::text::str_eq(v[i].0.as_str(), k) {
            let a = crate::text::owned(v[i].0.as_str());
            let b = crate::text::owned(v[i].1.as_str());
            let ghost pv = (a@, b@);
            let ghost before = out@;
            out.push((a, b));
            proof {
                assert(pairs_view(out@) =~= pairs_view(before).push(pv));
            }
        }
        i = i + 1;
    }
    proof {
        assert(s.take(i as int) =~= s);
    }
    out
}

} // verus!

verus! {

/// The items of (key, item) pairs.
pub open spec fn items_of(s: Seq<(Seq<char>, Seq<char>)>) -> Seq<Seq<char>> {
    Seq::new(s.len(), |i: int| s[i].1)
}

/// Names in `String` order, as `sort` leaves them.
pub open spec fn sorted_names(names: Seq<Seq<char>>) -> Seq<Seq<char>> {
    items_of(sorted_pairs(Seq::new(names.len(), |i: int| (names[i], names[i]))))
}

pub fn sort_names(names: &Vec<String>) -> (r: Vec<String>)
    ensures
        crate::text::strings_view(r@) == sorted_names(crate::text::strings_view(names@)),
{
    let ghost s = crate::text::strings_view(names@);
    let mut keyed: Vec<(String, String)> = Vec::new();
    let mut i: usize = 0;
    while i < names.len()
        invariant
            i <= names.len(),
            s == crate::text::strings_view(names@),
            pairs_view(keyed@) == Seq::new(i as nat, |k: int| (s[k], s[k])),
        decreases names.len() - i,
    {
        let a = crate::text::owned(names[i].as_str());
        let b = crate::text::owned(names[i].as_str());
        let ghost before = keyed@;
        keyed.push((a, b));
        proof {
            assert(pairs_view(keyed@) =~= pairs_view(before).push((s[i as int], s[i as int])));
        }
        i = i + 1;
        proof {
            assert(pairs_view(keyed@) =~= Seq::new(i as nat, |k: int| (s[k], s[k])));
        }
    }
    let sorted = sort_pairs(&keyed);
    let ghost sp = pairs_view(sorted@);
    let mut out: Vec<String> = Vec::new();
    let mut j: usize = 0;
    while j < sorted.len()
        invariant
            j <= sorted.len(),
            sp == pairs_view(sorted@),
            crate::text::strings_view(out@) == items_of(sp).take(j as int),
        decreases sorted.len() - j,
    {
        let ghost before = out@;
        let x = crate::text::owned(sorted[j].1.as_str());
        let ghost xv = x@;
        out.push(x);
        proof {
            assert(sp[j as int].1 == sorted@[j as int].1@);
            assert(crate::text::strings_view(out@) =~= crate::text::strings_view(before).push(xv));
        }
        j = j + 1;
        proof {
            assert(crate::text::strings_view(out@) =~= items_of(sp).take(j as int));
        }
    }
    proof {
        assert(items_of(sp).take(j as int) =~= items_of(sp));
        assert(Seq::new(names.len() as nat, |k: int| (s[k], s[k])) =~= Seq::new(s.len(), |k: int| (s[k], s[k])));
    }
    out
}

} // verus!
