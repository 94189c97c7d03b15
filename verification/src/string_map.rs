//! An insertion-ordered map from strings to strings, used for HTTP headers and query parameters.
use vstd::prelude::*;
use crate::text::{chars_of, chars_eq, to_lowercase, lowercase};

verus! {

pub type Entries = Seq<(Seq<char>, Seq<char>)>;

/// The value stored under `k`: that of the first entry with key `k`.
pub open spec fn lookup(e: Entries, k: Seq<char>) -> Option<Seq<char>>
    decreases e.len(),
{
    if e.len() == 0 {
        None
    } else if e[0].0 == k {
        Some(e[0].1)
    } else {
        lookup(e.drop_first(), k)
    }
}

/// No key occurs twice.
pub open spec fn keys_unique(e: Entries) -> bool {
    forall|i: int, j: int| 0 <= i < j < e.len() ==> e[i].0 != e[j].0
}

/// The entries after inserting `v` under `k`: an existing entry keeps its place, a new one goes last.
pub open spec fn insert_entry(e: Entries, k: Seq<char>, v: Seq<char>) -> Entries {
    if exists|i: int| 0 <= i < e.len() && e[i].0 == k {
        let i = choose|i: int| 0 <= i < e.len() && e[i].0 == k;
        e.update(i, (k, v))
    } else {
        e.push((k, v))
    }
}

/// The entries without the one under `k`.
pub open spec fn remove_entry(e: Entries, k: Seq<char>) -> Entries {
    e.filter(|p: (Seq<char>, Seq<char>)| p.0 != k)
}

/// Index of the first entry whose key, lower-cased, equals `name`.
pub open spec fn first_ci_match(e: Entries, name: Seq<char>) -> Option<int> {
    if exists|i: int| 0 <= i < e.len() && lowercase(e[i].0) == name {
        Some(choose|i: int| 0 <= i < e.len() && lowercase(e[i].0) == name
            && forall|j: int| 0 <= j < i ==> lowercase(e[j].0) != name)
    } else {
        None
    }
}

proof fn lemma_lookup_index(e: Entries, k: Seq<char>, i: int)
    requires
        keys_unique(e),
        0 <= i < e.len(),
        e[i].0 == k,
    ensures
        lookup(e, k) == Some(e[i].1),
    decreases e.len(),
{
    if i > 0 {
        assert(e[0].0 != k);
        assert(keys_unique(e.drop_first()));
        lemma_lookup_index(e.drop_first(), k, i - 1);
    }
}

proof fn lemma_lookup_absent(e: Entries, k: Seq<char>)
    requires
        forall|i: int| 0 <= i < e.len() ==> e[i].0 != k,
    ensures
        lookup(e, k) is None,
    decreases e.len(),
{
    if e.len() > 0 {
        assert(e[0].0 != k);
        lemma_lookup_absent(e.drop_first(), k);
    }
}

proof fn lemma_filter_all(e: Entries, k: Seq<char>)
    requires
        forall|i: int| 0 <= i < e.len() ==> e[i].0 != k,
    ensures
        remove_entry(e, k) == e,
    decreases e.len(),
{
    reveal_with_fuel(Seq::filter, 1);
    if e.len() > 0 {
        lemma_filter_all(e.drop_last(), k);
        assert(e.drop_last().push(e.last()) =~= e);
    } else {
        assert(e.filter(|p: (Seq<char>, Seq<char>)| p.0 != k) =~= e);
    }
}

proof fn lemma_remove_is_filter(e: Entries, k: Seq<char>, i: int)
    requires
        keys_unique(e),
        0 <= i < e.len(),
        e[i].0 == k,
    ensures
        e.remove(i) == remove_entry(e, k),
    decreases e.len(),
{
    reveal_with_fuel(Seq::filter, 1);
    let f = |p: (Seq<char>, Seq<char>)| p.0 != k;
    if i == e.len() - 1 {
        assert forall|j: int| 0 <= j < e.drop_last().len() implies e.drop_last()[j].0 != k by {
            assert(e[j].0 != e[i].0);
        }
        lemma_filter_all(e.drop_last(), k);
        assert(e.remove(i) =~= e.drop_last());
    } else {
        let d = e.drop_last();
        assert(keys_unique(d));
        lemma_remove_is_filter(d, k, i);
        assert(e.last().0 != k);
        assert(e.remove(i) =~= d.remove(i).push(e.last()));
    }
}

/// Reading a key after storing a value under it gives that value; other keys read as before.
pub proof fn law_lookup_after_insert(e: Entries, k: Seq<char>, v: Seq<char>, other: Seq<char>)
    requires
        keys_unique(e),
    ensures
        lookup(insert_entry(e, k, v), k) == Some(v),
        other != k ==> lookup(insert_entry(e, k, v), other) == lookup(e, other),
        keys_unique(insert_entry(e, k, v)),
{
    let r = insert_entry(e, k, v);
    if exists|i: int| 0 <= i < e.len() && e[i].0 == k {
        let i = choose|i: int| 0 <= i < e.len() && e[i].0 == k;
        assert(r == e.update(i, (k, v)));
        lemma_lookup_index(r, k, i);
        if other != k {
            if exists|j: int| 0 <= j < e.len() && e[j].0 == other {
                let j = choose|j: int| 0 <= j < e.len() && e[j].0 == other;
                lemma_lookup_index(e, other, j);
                lemma_lookup_index(r, other, j);
            } else {
                lemma_lookup_absent(e, other);
                lemma_lookup_absent(r, other);
            }
        }
    } else {
        assert(r == e.push((k, v)));
        assert(keys_unique(r));
        lemma_lookup_index(r, k, e.len() as int);
        if other != k {
            if exists|j: int| 0 <= j < e.len() && e[j].0 == other {
                let j = choose|j: int| 0 <= j < e.len() && e[j].0 == other;
                lemma_lookup_index(e, other, j);
                lemma_lookup_index(r, other, j);
            } else {
                lemma_lookup_absent(e, other);
                lemma_lookup_absent(r, other);
            }
        }
    }
}

/// After removing a key it reads as absent; other keys read as before.
pub proof fn law_lookup_after_remove(e: Entries, k: Seq<char>, other: Seq<char>)
    requires
        keys_unique(e),
    ensures
        lookup(remove_entry(e, k), k) is None,
        other != k ==> lookup(remove_entry(e, k), other) == lookup(e, other),
{
    reveal_with_fuel(Seq::filter, 1);
    let r = remove_entry(e, k);
    if exists|i: int| 0 <= i < e.len() && e[i].0 == k {
        let i = choose|i: int| 0 <= i < e.len() && e[i].0 == k;
        lemma_remove_is_filter(e, k, i);
        let d = e.remove(i);
        assert(keys_unique(d)) by {
            assert forall|a: int, b: int| 0 <= a < b < d.len() implies d[a].0 != d[b].0 by {
                let a2 = if a < i { a } else { a + 1 };
                let b2 = if b < i { b } else { b + 1 };
                assert(d[a] == e[a2] && d[b] == e[b2]);
            }
        }
        assert forall|j: int| 0 <= j < d.len() implies d[j].0 != k by {
            let j2 = if j < i { j } else { j + 1 };
            assert(d[j] == e[j2]);
        }
        lemma_lookup_absent(d, k);
        if other != k {
            if exists|j: int| 0 <= j < e.len() && e[j].0 == other {
                let j = choose|j: int| 0 <= j < e.len() && e[j].0 == other;
                lemma_lookup_index(e, other, j);
                if j < i {
                    lemma_lookup_index(d, other, j);
                } else {
                    assert(d[j - 1] == e[j]);
                    lemma_lookup_index(d, other, j - 1);
                }
            } else {
                lemma_lookup_absent(e, other);
                assert forall|j: int| 0 <= j < d.len() implies d[j].0 != other by {
                    let j2 = if j < i { j } else { j + 1 };
                    assert(d[j] == e[j2]);
                }
                lemma_lookup_absent(d, other);
            }
        }
    } else {
        lemma_filter_all(e, k);
        lemma_lookup_absent(e, k);
    }
}

/// A map from strings to strings that keeps its entries in insertion order.
#[derive(Debug)]
pub struct StringMap {
    pub entries: Vec<(String, String)>,
}

impl Clone for StringMap {
    fn clone(&self) -> (r: Self)
        ensures
            r@ == self@,
    {
        let mut out: Vec<(String, String)> = Vec::new();
        let mut i: usize = 0;
        while i < self.entries.len()
            invariant
                i <= self.entries.len(),
                out@.len() == i,
                forall|k: int| 0 <= k < i ==> #[trigger] out@[k].0@ == self.entries@[k].0@ && out@[k].1@
                    == self.entries@[k].1@,
            decreases self.entries.len() - i,
        {
            out.push((self.entries[i].0.clone(), self.entries[i].1.clone()));
            i += 1;
        }
        let r = StringMap { entries: out };
        assert(r@ =~= self@);
        r
    }
}

impl View for StringMap {
    type V = Entries;

    open spec fn view(&self) -> Entries {
        self.entries@.map_values(|p: (String, String)| (p.0@, p.1@))
    }
}

impl StringMap {
    /// The map is well formed when no key occurs twice.
    pub open spec fn wf(&self) -> bool {
        keys_unique(self@)
    }

    /// The value under `k`.
    pub open spec fn get_spec(&self, k: Seq<char>) -> Option<Seq<char>> {
        lookup(self@, k)
    }

    /// An empty map.
    pub fn new() -> (m: Self)
        ensures
            m@ == Seq::<(Seq<char>, Seq<char>)>::empty(),
            m.wf(),
    {
        let m = StringMap { entries: Vec::new() };
        assert(m@ =~= Seq::<(Seq<char>, Seq<char>)>::empty());
        m
    }

    pub fn len(&self) -> (n: usize)
        ensures
            n == self@.len(),
    {
        self.entries.len()
    }

    pub fn is_empty(&self) -> (b: bool)
        ensures
            b == (self@.len() == 0),
    {
        self.entries.len() == 0
    }

    /// Index of the entry under `k`.
    fn position(&self, k: &String) -> (r: Option<usize>)
        ensures
            r matches Some(i) ==> i < self@.len() && self@[i as int].0 == k@,
            r is None ==> forall|i: int| 0 <= i < self@.len() ==> self@[i].0 != k@,
    {
        let mut i: usize = 0;
        while i < self.entries.len()
            invariant
                i <= self.entries.len(),
                forall|j: int| 0 <= j < i ==> self@[j].0 != k@,
            decreases self.entries.len() - i,
        {
            if self.entries[i].0 == *k {
                return Some(i);
            }
            i += 1;
        }
        None
    }

    /// Stores `v` under `k`, replacing the value already there.
    pub fn insert(&mut self, k: String, v: String)
        requires
            old(self).wf(),
        ensures
            final(self)@ == insert_entry(old(self)@, k@, v@),
            final(self).wf(),
            final(self).get_spec(k@) == Some(v@),
            forall|x: Seq<char>| x != k@ ==> #[trigger] final(self).get_spec(x) == old(self).get_spec(x),
    {
        let ghost e = self@;
        let ghost kv = k@;
        let ghost vv = v@;
        match self.position(&k) {
            Some(i) => {
                self.entries.set(i, (k, v));
                proof {
                    let c = choose|j: int| 0 <= j < e.len() && e[j].0 == kv;
                    assert(c == i);
                    assert(self@ =~= e.update(i as int, (kv, vv)));
                    lemma_lookup_index(self@, kv, i as int);
                    assert forall|x: Seq<char>| x != kv implies #[trigger] lookup(self@, x) == lookup(e, x) by {
                        if exists|j: int| 0 <= j < e.len() && e[j].0 == x {
                            let j = choose|j: int| 0 <= j < e.len() && e[j].0 == x;
                            lemma_lookup_index(e, x, j);
                            lemma_lookup_index(self@, x, j);
                        } else {
                            lemma_lookup_absent(e, x);
                            lemma_lookup_absent(self@, x);
                        }
                    }
                }
            },
            None => {
                self.entries.push((k, v));
                proof {
                    assert(self@ =~= e.push((kv, vv)));
                    lemma_lookup_index(self@, kv, e.len() as int);
                    assert forall|x: Seq<char>| x != kv implies #[trigger] lookup(self@, x) == lookup(e, x) by {
                        if exists|j: int| 0 <= j < e.len() && e[j].0 == x {
                            let j = choose|j: int| 0 <= j < e.len() && e[j].0 == x;
                            lemma_lookup_index(e, x, j);
                            lemma_lookup_index(self@, x, j);
                        } else {
                            lemma_lookup_absent(e, x);
                            lemma_lookup_absent(self@, x);
                        }
                    }
                }
            },
        }
    }

    /// The value under `k`.
    pub fn get(&self, k: &str) -> (r: Option<&String>)
        requires
            self.wf(),
        ensures
            r matches Some(v) ==> self.get_spec(k@) == Some(v@),
            r is None ==> self.get_spec(k@) is None,
    {
        let key = k.to_owned();
        match self.position(&key) {
            Some(i) => {
                proof {
                    lemma_lookup_index(self@, k@, i as int);
                }
                Some(&self.entries[i].1)
            },
            None => {
                proof {
                    lemma_lookup_absent(self@, k@);
                }
                None
            },
        }
    }

    /// The key of the first entry.
    pub fn first_key(&self) -> (r: Option<String>)
        ensures
            r matches Some(k) ==> self@.len() > 0 && k@ == self@[0].0,
            r is None ==> self@.len() == 0,
    {
        if self.entries.len() == 0 {
            None
        } else {
            Some(self.entries[0].0.clone())
        }
    }

    /// Removes the entry under `k`, if there is one.
    pub fn remove(&mut self, k: &str)
        requires
            old(self).wf(),
        ensures
            final(self)@ == remove_entry(old(self)@, k@),
            final(self).wf(),
            final(self).get_spec(k@) is None,
            forall|x: Seq<char>| x != k@ ==> #[trigger] final(self).get_spec(x) == old(self).get_spec(x),
    {
        let ghost e = self@;
        let key = k.to_owned();
        match self.position(&key) {
            Some(i) => {
                self.entries.remove(i);
                proof {
                    assert(self@ =~= e.remove(i as int));
                    assert(e.remove(i as int) =~= remove_entry(e, k@)) by {
                        let r = e.remove(i as int);
                        let f = |p: (Seq<char>, Seq<char>)| p.0 != k@;
                        lemma_remove_is_filter(e, k@, i as int);
                    }
                    assert forall|x: Seq<char>| x != k@ implies #[trigger] lookup(self@, x) == lookup(e, x) by {
                        if exists|j: int| 0 <= j < e.len() && e[j].0 == x {
                            let j = choose|j: int| 0 <= j < e.len() && e[j].0 == x;
                            lemma_lookup_index(e, x, j);
                            if j < i {
                                lemma_lookup_index(self@, x, j);
                            } else {
                                lemma_lookup_index(self@, x, j - 1);
                            }
                        } else {
                            lemma_lookup_absent(e, x);
                            lemma_lookup_absent(self@, x);
                        }
                    }
                    lemma_lookup_absent(self@, k@);
                }
            },
            None => {
                proof {
                    lemma_filter_all(e, k@);
                    lemma_lookup_absent(e, k@);
                }
            },
        }
    }

    /// The value of the first entry whose key, lower-cased, equals `name`
    /// (`name` is compared as it is; callers pass it lower-cased).
    pub fn find_lowercase(&self, name: &Vec<char>) -> (r: Option<String>)
        ensures
            r matches Some(v) ==> first_ci_match(self@, name@) matches Some(i) && v@ == self@[i].1,
            r is None ==> first_ci_match(self@, name@) is None,
    {
        let mut i: usize = 0;
        while i < self.entries.len()
            invariant
                i <= self.entries.len(),
                forall|j: int| 0 <= j < i ==> lowercase(self@[j].0) != name@,
            decreases self.entries.len() - i,
        {
            let key = chars_of(self.entries[i].0.as_str());
            let low = to_lowercase(&key);
            if chars_eq(&low, name) {
                proof {
                    let e = self@;
                    assert(e[i as int].0 == self.entries@[i as int].0@);
                    assert(lowercase(e[i as int].0) == name@);
                    let k = choose|k: int| 0 <= k < e.len() && lowercase(e[k].0) == name@
                        && forall|j: int| 0 <= j < k ==> lowercase(e[j].0) != name@;
                    if k < i {
                        assert(lowercase(e[k].0) != name@);
                    }
                    if (i as int) < k {
                        assert(lowercase(e[i as int].0) != name@);
                    }
                }
                return Some(self.entries[i].1.clone());
            }
            i += 1;
        }
        None
    }
}

} // verus!
