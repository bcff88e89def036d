//! A header map that keeps insertion order: keys unique and non-empty,
//! a repeated key overwrites the earlier value in place.
use vstd::prelude::*;

verus! {

pub type Entries = Seq<(Seq<char>, Seq<char>)>;

/// The first position at or after `j` whose key is `k`, or -1.
pub open spec fn find_key_from(es: Entries, k: Seq<char>, j: int) -> int
    decreases es.len() - j,
{
    if j < 0 || j >= es.len() {
        -1
    } else if es[j].0 == k {
        j
    } else {
        find_key_from(es, k, j + 1)
    }
}

pub open spec fn find_key(es: Entries, k: Seq<char>) -> int {
    find_key_from(es, k, 0)
}

/// The value stored under `k`, if any.
pub open spec fn lookup(es: Entries, k: Seq<char>) -> Option<Seq<char>> {
    if find_key(es, k) >= 0 {
        Some(es[find_key(es, k)].1)
    } else {
        None
    }
}

/// Storing `v` under `k`: in place where `k` is present, at the end where not.
pub open spec fn insert_entry(es: Entries, k: Seq<char>, v: Seq<char>) -> Entries {
    if find_key(es, k) >= 0 {
        es.update(find_key(es, k), (k, v))
    } else {
        es.push((k, v))
    }
}

/// Storing each pair in turn, first to last, starting from `es`.
pub open spec fn insert_all(es: Entries, pairs: Entries) -> Entries
    decreases pairs.len(),
{
    if pairs.len() == 0 {
        es
    } else {
        insert_all(insert_entry(es, pairs[0].0, pairs[0].1), pairs.drop_first())
    }
}

/// Keys are non-empty and appear once.
pub open spec fn entries_wf(es: Entries) -> bool {
    &&& forall|i: int| 0 <= i < es.len() ==> (#[trigger] es[i]).0.len() > 0
    &&& forall|i: int, j: int| 0 <= i < j < es.len() ==> (#[trigger] es[i]).0 != (#[trigger] es[j]).0
}

#[derive(Debug, Clone, PartialEq, Eq)]
pub struct Headers {
    pub entries: Vec<(String, String)>,
}

impl View for Headers {
    type V = Entries;

    open spec fn view(&self) -> Entries {
        self.entries@.map_values(|p: (String, String)| (p.0@, p.1@))
    }
}

impl Headers {
    pub open spec fn wf(&self) -> bool {
        entries_wf(self@)
    }

    pub fn new() -> (r: Headers)
        ensures
            r@ == Seq::<(Seq<char>, Seq<char>)>::empty(),
            r.wf(),
    {
        let r = Headers { entries: Vec::new() };
        assert(r@ =~= Seq::<(Seq<char>, Seq<char>)>::empty());
        r
    }

    pub fn len(&self) -> (r: usize)
        ensures
            r == self@.len(),
    {
        self.entries.len()
    }

    /// The position of `key`, if present.
    fn position(&self, key: &String) -> (r: Option<usize>)
        ensures
            r is Some <==> find_key(self@, key@) >= 0,
            r is Some ==> r->0 == find_key(self@, key@) && r->0 < self.entries@.len(),
    {
        let mut i: usize = 0;
        while i < self.entries.len()
            invariant
                0 <= i <= self.entries@.len(),
                find_key(self@, key@) == find_key_from(self@, key@, i as int),
            decreases self.entries@.len() - i,
        {
            if self.entries[i].0 == *key {
                return Some(i);
            }
            i = i + 1;
        }
        None
    }

    /// Stores `value` under `key`; an earlier value of `key` is overwritten.
    pub fn insert(&mut self, key: String, value: String)
        requires
            old(self).wf(),
            key@.len() > 0,
        ensures
            final(self).wf(),
            final(self)@ == insert_entry(old(self)@, key@, value@),
    {
        let ghost k = key@;
        let ghost v = value@;
        let ghost es = self@;
        match self.position(&key) {
            Some(p) => {
                proof {
                    lemma_find_key_some(es, k, 0);
                }
                self.entries.set(p, (key, value));
                assert(self@ =~= es.update(p as int, (k, v)));
                assert(forall|i: int| 0 <= i < es.len() ==> (#[trigger] self@[i]).0 == es[i].0);
            },
            None => {
                proof {
                    lemma_find_key_none(es, k, 0);
                }
                self.entries.push((key, value));
                assert(self@ =~= es.push((k, v)));
            },
        }
    }

    /// The value stored under `key`, if any.
    pub fn get(&self, key: &str) -> (r: Option<&String>)
        ensures
            match r {
                Some(v) => lookup(self@, key@) == Some(v@),
                None => lookup(self@, key@) is None,
            },
    {
        let k = key.to_owned();
        match self.position(&k) {
            Some(p) => Some(&self.entries[p].1),
            None => None,
        }
    }
}

proof fn lemma_find_key_some(es: Entries, k: Seq<char>, j: int)
    requires
        0 <= j,
        find_key_from(es, k, j) >= 0,
    ensures
        j <= find_key_from(es, k, j) < es.len(),
        es[find_key_from(es, k, j)].0 == k,
    decreases es.len() - j,
{
    if j < es.len() && es[j].0 != k {
        lemma_find_key_some(es, k, j + 1);
    }
}

proof fn lemma_find_key_none(es: Entries, k: Seq<char>, j: int)
    requires
        0 <= j,
        find_key_from(es, k, j) < 0,
    ensures
        forall|i: int| j <= i < es.len() ==> (#[trigger] es[i]).0 != k,
    decreases es.len() - j,
{
    if j < es.len() {
        lemma_find_key_none(es, k, j + 1);
    }
}

} // verus!
