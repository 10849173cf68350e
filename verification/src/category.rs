//! Preset classification: a sidecar map from preset name to the kind of
//! device it is tuned for (`"speaker"`, `"headphone"`, `"iem"`, … — free-form,
//! so new categories need no core change). Kept out of the preset files so
//! the EQ config stays pure APO.

use crate::order::{insert_pos, keys_of, keys_sorted, law_sorted_pairs_are_sorted, pairs_view, sort_pairs, sorted_pairs};
use crate::text;
use vstd::prelude::*;

verus! {

/// The category a preset name maps to in a list of (name, category) pairs:
/// the first pair with that name.
pub open spec fn lookup(s: Seq<(Seq<char>, Seq<char>)>, k: Seq<char>) -> Option<Seq<char>>
    decreases s.len(),
{
    if s.len() == 0 {
        None
    } else if s[0].0 == k {
        Some(s[0].1)
    } else {
        lookup(s.drop_first(), k)
    }
}

/// No name occurs twice.
pub open spec fn keys_distinct(s: Seq<(Seq<char>, Seq<char>)>) -> bool {
    forall|i: int, j: int| 0 <= i < j < s.len() ==> #[trigger] s[i].0 != #[trigger] s[j].0
}

/// The map a list of (name, category) pairs stands for.
pub open spec fn map_of(s: Seq<(Seq<char>, Seq<char>)>) -> Map<Seq<char>, Seq<char>> {
    Map::new(|k: Seq<char>| lookup(s, k) is Some, |k: Seq<char>| lookup(s, k).unwrap())
}

/// The map built by inserting the pairs in order, later pairs winning.
pub open spec fn map_from(s: Seq<(Seq<char>, Seq<char>)>) -> Map<Seq<char>, Seq<char>>
    decreases s.len(),
{
    if s.len() == 0 {
        Map::empty()
    } else {
        map_from(s.drop_last()).insert(s.last().0, s.last().1)
    }
}

/// The views of (name, category) string pairs.
pub open spec fn entries_view(v: Seq<(String, String)>) -> Seq<(Seq<char>, Seq<char>)> {
    Seq::new(v.len(), |i: int| (v[i].0@, v[i].1@))
}

/// The category of every classified preset. Unclassified presets are absent.
#[derive(Debug)]
pub struct Categories {
    entries: Vec<(String, String)>,
}

/// With distinct names, a name looks up what the pair holding it holds, and
/// nothing when no pair holds it.
proof fn lemma_lookup_distinct(s: Seq<(Seq<char>, Seq<char>)>, k: Seq<char>)
    requires
        keys_distinct(s),
    ensures
        (forall|j: int| 0 <= j < s.len() ==> s[j].0 != k) ==> lookup(s, k) is None,
        forall|i: int| 0 <= i < s.len() && #[trigger] s[i].0 == k ==> lookup(s, k) == Some(s[i].1),
{
    lemma_lookup(s, k);
    assert forall|i: int| 0 <= i < s.len() && #[trigger] s[i].0 == k implies lookup(s, k) == Some(s[i].1) by {
        lemma_lookup_at(s, i);
    }
}

/// Sorting pairs with distinct names keeps the names distinct and what each
/// name looks up.
proof fn lemma_sorted_keeps_lookup(s: Seq<(Seq<char>, Seq<char>)>)
    requires
        keys_distinct(s),
    ensures
        keys_distinct(sorted_pairs(s)),
        forall|k: Seq<char>| #[trigger] lookup(sorted_pairs(s), k) == lookup(s, k),
    decreases s.len(),
{
    if s.len() > 0 {
        let d = s.drop_last();
        let x = s.last();
        assert(keys_distinct(d)) by {
            assert forall|i: int, j: int| 0 <= i < j < d.len() implies #[trigger] d[i].0 != #[trigger] d[j].0 by {
                assert(d[i] == s[i] && d[j] == s[j]);
            }
        }
        lemma_sorted_keeps_lookup(d);
        let r = sorted_pairs(d);
        let p = insert_pos(keys_of(r), x.0, 0);
        crate::order::lemma_insert_pos_in_range(keys_of(r), x.0);
        let u = r.insert(p, x);
        assert(u == sorted_pairs(s));
        // x's name is in neither d nor r.
        assert forall|j: int| 0 <= j < d.len() implies d[j].0 != x.0 by {
            assert(d[j] == s[j] && s[s.len() - 1] == x);
        }
        lemma_lookup_distinct(d, x.0);
        assert forall|j: int| 0 <= j < r.len() implies r[j].0 != x.0 by {
            lemma_lookup_distinct(r, x.0);
            if r[j].0 == x.0 {
                assert(lookup(r, x.0) == Some(r[j].1));
            }
        }
        assert(keys_distinct(u)) by {
            assert forall|i: int, j: int| 0 <= i < j < u.len() implies #[trigger] u[i].0 != #[trigger] u[j].0 by {
                if i < p && j < p {
                    assert(u[i] == r[i] && u[j] == r[j]);
                } else if i < p && j == p {
                    assert(u[i] == r[i]);
                } else if i < p {
                    assert(u[i] == r[i] && u[j] == r[j - 1]);
                } else if i == p {
                    assert(u[j] == r[j - 1]);
                } else {
                    assert(u[i] == r[i - 1] && u[j] == r[j - 1]);
                }
            }
        }
        assert(s =~= d.push(x));
        assert forall|k: Seq<char>| #[trigger] lookup(u, k) == lookup(s, k) by {
            lemma_lookup_distinct(u, k);
            lemma_lookup_distinct(r, k);
            lemma_lookup_distinct(s, k);
            assert(s[s.len() - 1] == x);
            assert(u[p] == x);
            if k != x.0 {
                assert forall|j: int| 0 <= j < s.len() && s[j].0 == k implies lookup(d, k) == Some(s[j].1) by {
                    assert(d[j] == s[j]);
                    lemma_lookup_distinct(d, k);
                }
                assert forall|j: int| 0 <= j < r.len() && r[j].0 == k implies lookup(u, k) == Some(r[j].1) by {
                    if j < p {
                        assert(u[j] == r[j]);
                    } else {
                        assert(u[j + 1] == r[j]);
                    }
                }
                if forall|j: int| 0 <= j < d.len() ==> d[j].0 != k {
                    lemma_lookup_distinct(d, k);
                    assert(lookup(r, k) is None);
                    lemma_lookup(r, k);
                    assert forall|j: int| 0 <= j < u.len() implies u[j].0 != k by {
                        if j < p {
                            assert(u[j] == r[j]);
                        } else if j > p {
                            assert(u[j] == r[j - 1]);
                        }
                    }
                    assert forall|j: int| 0 <= j < s.len() implies s[j].0 != k by {
                        if j < d.len() {
                            assert(d[j] == s[j]);
                        }
                    }
                } else {
                    let j = choose|j: int| 0 <= j < d.len() && d[j].0 == k;
                    assert(d[j] == s[j]);
                    lemma_lookup_distinct(d, k);
                    lemma_lookup(r, k);
                    let m = choose|m: int| 0 <= m < r.len() && r[m].0 == k && r[m].1 == d[j].1 && forall|q: int| 0 <= q < m ==> r[q].0 != k;
                }
            }
        }
    }
}

impl Categories {
    #[verifier::type_invariant]
    spec fn names_unique(self) -> bool {
        keys_distinct(entries_view(self.entries@))
    }
}

impl View for Categories {
    type V = Map<Seq<char>, Seq<char>>;

    closed spec fn view(&self) -> Map<Seq<char>, Seq<char>> {
        map_of(entries_view(self.entries@))
    }
}

/// `lookup` finds the first pair with the name, if any.
proof fn lemma_lookup(s: Seq<(Seq<char>, Seq<char>)>, k: Seq<char>)
    ensures
        match lookup(s, k) {
            Some(v) => exists|i: int| 0 <= i < s.len() && s[i].0 == k && s[i].1 == v && forall|j: int| 0 <= j < i ==> s[j].0 != k,
            None => forall|j: int| 0 <= j < s.len() ==> s[j].0 != k,
        },
    decreases s.len(),
{
    if s.len() > 0 && s[0].0 != k {
        let t = s.drop_first();
        lemma_lookup(t, k);
        match lookup(t, k) {
            Some(v) => {
                let i = choose|i: int| 0 <= i < t.len() && t[i].0 == k && t[i].1 == v && forall|j: int| 0 <= j < i ==> t[j].0 != k;
                assert(s[i + 1] == t[i]);
                assert forall|j: int| 0 <= j < i + 1 implies s[j].0 != k by {
                    if j > 0 {
                        assert(s[j] == t[j - 1]);
                    }
                }
            },
            None => {
                assert forall|j: int| 0 <= j < s.len() implies s[j].0 != k by {
                    if j > 0 {
                        assert(s[j] == t[j - 1]);
                    }
                }
            },
        }
    } else if s.len() > 0 {
        assert(s[0].0 == k);
    }
}

/// With distinct names, the pair at `i` is what its name looks up.
proof fn lemma_lookup_at(s: Seq<(Seq<char>, Seq<char>)>, i: int)
    requires
        keys_distinct(s),
        0 <= i < s.len(),
    ensures
        lookup(s, s[i].0) == Some(s[i].1),
{
    lemma_lookup(s, s[i].0);
    match lookup(s, s[i].0) {
        Some(v) => {
            let j = choose|j: int| 0 <= j < s.len() && s[j].0 == s[i].0 && s[j].1 == v && forall|m: int| 0 <= m < j ==> s[m].0 != s[i].0;
            if j < i {
                assert(s[j].0 != s[i].0);
            }
            if j > i {
                assert(s[i].0 != s[i].0);
            }
        },
        None => {
            assert(s[i].0 != s[i].0);
        },
    }
}

/// Replacing the value of the first pair with a name changes only that name.
proof fn lemma_lookup_update(s: Seq<(Seq<char>, Seq<char>)>, i: int, v: Seq<char>, k: Seq<char>)
    requires
        0 <= i < s.len(),
        keys_distinct(s),
    ensures
        lookup(s.update(i, (s[i].0, v)), k) == if k == s[i].0 {
            Some(v)
        } else {
            lookup(s, k)
        },
        keys_distinct(s.update(i, (s[i].0, v))),
{
    let u = s.update(i, (s[i].0, v));
    assert forall|a: int, b: int| 0 <= a < b < u.len() implies #[trigger] u[a].0 != #[trigger] u[b].0 by {
        assert(u[a].0 == s[a].0);
        assert(u[b].0 == s[b].0);
    }
    lemma_lookup(s, k);
    lemma_lookup(u, k);
    if k == s[i].0 {
        lemma_lookup_at(u, i);
    } else {
        match lookup(s, k) {
            Some(w) => {
                let j = choose|j: int| 0 <= j < s.len() && s[j].0 == k && s[j].1 == w && forall|m: int| 0 <= m < j ==> s[m].0 != k;
                assert(u[j] == s[j]);
                lemma_lookup_at(u, j);
            },
            None => {
                match lookup(u, k) {
                    Some(w) => {
                        let j = choose|j: int| 0 <= j < u.len() && u[j].0 == k && u[j].1 == w && forall|m: int| 0 <= m < j ==> u[m].0 != k;
                        assert(u[j].0 == s[j].0);
                    },
                    None => {},
                }
            },
        }
    }
}

/// Appending a pair with a new name adds just that name.
proof fn lemma_lookup_push(s: Seq<(Seq<char>, Seq<char>)>, k0: Seq<char>, v: Seq<char>, k: Seq<char>)
    requires
        keys_distinct(s),
        lookup(s, k0) is None,
    ensures
        lookup(s.push((k0, v)), k) == if k == k0 {
            Some(v)
        } else {
            lookup(s, k)
        },
        keys_distinct(s.push((k0, v))),
{
    let u = s.push((k0, v));
    lemma_lookup(s, k0);
    assert forall|a: int, b: int| 0 <= a < b < u.len() implies #[trigger] u[a].0 != #[trigger] u[b].0 by {
        if b == s.len() {
            assert(u[a] == s[a]);
        } else {
            assert(u[a] == s[a]);
            assert(u[b] == s[b]);
        }
    }
    if k == k0 {
        lemma_lookup_at(u, s.len() as int);
    } else {
        lemma_lookup(s, k);
        match lookup(s, k) {
            Some(w) => {
                let j = choose|j: int| 0 <= j < s.len() && s[j].0 == k && s[j].1 == w && forall|m: int| 0 <= m < j ==> s[m].0 != k;
                assert(u[j] == s[j]);
                lemma_lookup_at(u, j);
            },
            None => {
                lemma_lookup(u, k);
                match lookup(u, k) {
                    Some(w) => {
                        let j = choose|j: int| 0 <= j < u.len() && u[j].0 == k && u[j].1 == w && forall|m: int| 0 <= m < j ==> u[m].0 != k;
                        if j < s.len() {
                            assert(u[j] == s[j]);
                        }
                    },
                    None => {},
                }
            },
        }
    }
}

/// Removing the pair with a name drops just that name.
proof fn lemma_lookup_remove(s: Seq<(Seq<char>, Seq<char>)>, i: int, k: Seq<char>)
    requires
        0 <= i < s.len(),
        keys_distinct(s),
    ensures
        lookup(s.remove(i), k) == if k == s[i].0 {
            None
        } else {
            lookup(s, k)
        },
        keys_distinct(s.remove(i)),
{
    let u = s.remove(i);
    assert forall|a: int, b: int| 0 <= a < b < u.len() implies #[trigger] u[a].0 != #[trigger] u[b].0 by {
        let sa = if a < i { a } else { a + 1 };
        let sb = if b < i { b } else { b + 1 };
        assert(u[a] == s[sa]);
        assert(u[b] == s[sb]);
    }
    lemma_lookup(u, k);
    lemma_lookup(s, k);
    match lookup(u, k) {
        Some(w) => {
            let j = choose|j: int| 0 <= j < u.len() && u[j].0 == k && u[j].1 == w && forall|m: int| 0 <= m < j ==> u[m].0 != k;
            let sj = if j < i { j } else { j + 1 };
            assert(u[j] == s[sj]);
            lemma_lookup_at(s, sj);
            if k == s[i].0 {
                assert(sj != i);
            }
            lemma_lookup_at(u, j);
        },
        None => {
            if k != s[i].0 {
                match lookup(s, k) {
                    Some(w) => {
                        let j = choose|j: int| 0 <= j < s.len() && s[j].0 == k && s[j].1 == w && forall|m: int| 0 <= m < j ==> s[m].0 != k;
                        let uj = if j < i { j } else { j - 1 };
                        assert(j != i);
                        assert(u[uj] == s[j]);
                    },
                    None => {},
                }
            }
        },
    }
}

fn find_name(entries: &Vec<(String, String)>, name: &str) -> (r: Option<usize>)
    ensures
        match r {
            Some(i) => i < entries.len() && entries@[i as int].0@ == name@,
            None => forall|j: int| 0 <= j < entries.len() ==> entries@[j].0@ != name@,
        },
{
    let mut i: usize = 0;
    while i < entries.len()
        invariant
            i <= entries.len(),
            forall|j: int| 0 <= j < i ==> entries@[j].0@ != name@,
        decreases entries.len() - i,
    {
        if text::str_eq(entries[i].0.as_str(), name) {
            return Some(i);
        }
        i = i + 1;
    }
    None
}

impl Categories {
    /// No preset classified.
    pub fn new() -> (c: Categories)
        ensures
            c@ == Map::<Seq<char>, Seq<char>>::empty(),
    {
        let c = Categories { entries: Vec::new() };
        assert(c@ =~= Map::<Seq<char>, Seq<char>>::empty());
        c
    }

    /// The category of `name`, if it has one.
    pub fn get(&self, name: &str) -> (r: Option<String>)
        ensures
            match r {
                Some(c) => self@.contains_key(name@) && self@[name@] == c@,
                None => !self@.contains_key(name@),
            },
    {
        proof {
            use_type_invariant(self);
        }
        let ghost s = entries_view(self.entries@);
        match find_name(&self.entries, name) {
            Some(i) => {
                proof {
                    assert(s[i as int] == (self.entries@[i as int].0@, self.entries@[i as int].1@));
                    lemma_lookup_at(s, i as int);
                }
                Some(text::owned(self.entries[i].1.as_str()))
            },
            None => {
                proof {
                    lemma_lookup(s, name@);
                    if let Some(v) = lookup(s, name@) {
                        let i = choose|i: int| 0 <= i < s.len() && s[i].0 == name@ && s[i].1 == v && forall|j: int| 0 <= j < i ==> s[j].0 != name@;
                        assert(s[i].0 == self.entries@[i].0@);
                    }
                }
                None
            },
        }
    }

    /// Classify `name` as `category`, replacing any earlier category.
    pub fn insert(&mut self, name: &str, category: &str)
        ensures
            final(self)@ == old(self)@.insert(name@, category@),
    {
        proof {
            use_type_invariant(&*self);
        }
        let ghost s = entries_view(self.entries@);
        match find_name(&self.entries, name) {
            Some(i) => {
                let mut entries: Vec<(String, String)> = Vec::new();
                std::mem::swap(&mut entries, &mut self.entries);
                entries.set(i, (text::owned(name), text::owned(category)));
                proof {
                    assert(s[i as int].0 == name@);
                    assert(entries_view(entries@) =~= s.update(i as int, (s[i as int].0, category@)));
                    assert forall|k: Seq<char>| #[trigger] lookup(entries_view(entries@), k) == if k == name@ {
                        Some(category@)
                    } else {
                        lookup(s, k)
                    } by {
                        lemma_lookup_update(s, i as int, category@, k);
                    }
                    lemma_lookup_update(s, i as int, category@, name@);
                }
                self.entries = entries;
            },
            None => {
                proof {
                    lemma_lookup(s, name@);
                    if let Some(v) = lookup(s, name@) {
                        let i = choose|i: int| 0 <= i < s.len() && s[i].0 == name@ && s[i].1 == v && forall|j: int| 0 <= j < i ==> s[j].0 != name@;
                        assert(s[i].0 == self.entries@[i].0@);
                    }
                    assert forall|k: Seq<char>| #[trigger] lookup(s.push((name@, category@)), k) == if k == name@ {
                        Some(category@)
                    } else {
                        lookup(s, k)
                    } by {
                        lemma_lookup_push(s, name@, category@, k);
                    }
                    lemma_lookup_push(s, name@, category@, name@);
                }
                let mut entries: Vec<(String, String)> = Vec::new();
                std::mem::swap(&mut entries, &mut self.entries);
                entries.push((text::owned(name), text::owned(category)));
                proof {
                    assert(entries_view(entries@) =~= s.push((name@, category@)));
                }
                self.entries = entries;
            },
        }
        proof {
            assert(self@ =~= old(self)@.insert(name@, category@));
        }
    }

    /// Unclassify `name`, returning the category it had.
    pub fn remove(&mut self, name: &str) -> (r: Option<String>)
        ensures
            final(self)@ == old(self)@.remove(name@),
            match r {
                Some(c) => old(self)@.contains_key(name@) && old(self)@[name@] == c@,
                None => !old(self)@.contains_key(name@),
            },
    {
        proof {
            use_type_invariant(&*self);
        }
        let ghost s = entries_view(self.entries@);
        match find_name(&self.entries, name) {
            Some(i) => {
                let mut entries: Vec<(String, String)> = Vec::new();
                std::mem::swap(&mut entries, &mut self.entries);
                let (_, c) = entries.remove(i);
                proof {
                    assert(s[i as int].0 == name@);
                    assert(s[i as int].1 == c@);
                    lemma_lookup_at(s, i as int);
                    assert(entries_view(entries@) =~= s.remove(i as int));
                    assert forall|k: Seq<char>| #[trigger] lookup(entries_view(entries@), k) == if k == name@ {
                        None
                    } else {
                        lookup(s, k)
                    } by {
                        lemma_lookup_remove(s, i as int, k);
                    }
                    lemma_lookup_remove(s, i as int, name@);
                }
                self.entries = entries;
                proof {
                    assert(self@ =~= old(self)@.remove(name@));
                }
                Some(c)
            },
            None => {
                proof {
                    lemma_lookup(s, name@);
                    if let Some(v) = lookup(s, name@) {
                        let i = choose|i: int| 0 <= i < s.len() && s[i].0 == name@ && s[i].1 == v && forall|j: int| 0 <= j < i ==> s[j].0 != name@;
                        assert(s[i].0 == self.entries@[i].0@);
                    }
                    assert(self@ =~= old(self)@.remove(name@));
                }
                None
            },
        }
    }

    /// The (name, category) pairs, each name once, sorted by name in
    /// `String` order (as a sorted map walks them).
    pub fn pairs(&self) -> (r: Vec<(String, String)>)
        ensures
            map_of(entries_view(r@)) == self@,
            keys_distinct(entries_view(r@)),
            keys_sorted(keys_of(entries_view(r@))),
    {
        proof {
            use_type_invariant(self);
            assert(pairs_view(self.entries@) =~= entries_view(self.entries@));
        }
        let r = sort_pairs(&self.entries);
        proof {
            let s = entries_view(self.entries@);
            assert(pairs_view(r@) =~= entries_view(r@));
            law_sorted_pairs_are_sorted(s);
            lemma_sorted_keeps_lookup(s);
            assert(map_of(entries_view(r@)) =~= map_of(s));
        }
        r
    }

    /// The categories a list of (name, category) pairs describes; when a name
    /// occurs twice, the later pair wins.
    pub fn from_pairs(pairs: &Vec<(String, String)>) -> (c: Categories)
        ensures
            c@ == map_from(entries_view(pairs@)),
    {
        let mut c = Categories::new();
        let ghost p = entries_view(pairs@);
        let mut i: usize = 0;
        while i < pairs.len()
            invariant
                i <= pairs.len(),
                p == entries_view(pairs@),
                c@ == map_from(p.take(i as int)),
            decreases pairs.len() - i,
        {
            c.insert(pairs[i].0.as_str(), pairs[i].1.as_str());
            proof {
                assert(p.take(i + 1).drop_last() =~= p.take(i as int));
                assert(p.take(i + 1).last() == p[i as int]);
            }
            i = i + 1;
        }
        proof {
            assert(p.take(i as int) =~= p);
        }
        c
    }
}

/// A category, once set, reads back; setting one name leaves every other
/// name's category as it was.
pub proof fn law_insert_then_get(m: Map<Seq<char>, Seq<char>>, name: Seq<char>, category: Seq<char>, other: Seq<char>)
    ensures
        m.insert(name, category).contains_key(name),
        m.insert(name, category)[name] == category,
        other != name ==> (m.insert(name, category).contains_key(other) == m.contains_key(other)),
        other != name && m.contains_key(other) ==> m.insert(name, category)[other] == m[other],
{
}

} // verus!
