use vstd::prelude::*;

use crate::text::str_eq;

verus! {

/// A finite association from names to string values with unique keys,
/// viewed as a `Map<Seq<char>, Seq<char>>`.
pub struct StrMap {
    entries: Vec<(String, String)>,
}

/// The ordered key/value pairs of an association list, as character sequences.
pub open spec fn str_pairs_of(entries: Seq<(String, String)>) -> Seq<(Seq<char>, Seq<char>)> {
    entries.map_values(|p: (String, String)| (p.0@, p.1@))
}

/// No key occurs twice.
pub open spec fn keys_unique<V>(s: Seq<(Seq<char>, V)>) -> bool {
    forall|i: int, j: int| 0 <= i < j < s.len() ==> (#[trigger] s[i]).0 != (#[trigger] s[j]).0
}

/// The map described by an ordered pair list; a later pair overrides an
/// earlier one with the same key.
pub open spec fn pairs_to_map<V>(s: Seq<(Seq<char>, V)>) -> Map<Seq<char>, V>
    decreases s.len(),
{
    if s.len() == 0 {
        Map::empty()
    } else {
        pairs_to_map(s.drop_last()).insert(s.last().0, s.last().1)
    }
}

/// Whether some pair of the list holds the key.
pub open spec fn pairs_has_key<V>(s: Seq<(Seq<char>, V)>, k: Seq<char>) -> bool {
    exists|i: int| 0 <= i < s.len() && (#[trigger] s[i]).0 == k
}

/// A pair list and the map it describes hold exactly the same keys, and,
/// when no key repeats, pair `i` gives the value of its key.
pub proof fn lemma_pairs_to_map<V>(s: Seq<(Seq<char>, V)>)
    ensures
        forall|k: Seq<char>| #[trigger] pairs_to_map(s).contains_key(k) <==> pairs_has_key(s, k),
        keys_unique(s) ==> forall|i: int| 0 <= i < s.len()
            ==> pairs_to_map(s).contains_key((#[trigger] s[i]).0)
                && pairs_to_map(s)[s[i].0] == s[i].1,
    decreases s.len(),
{
    if s.len() == 0 {
    } else {
        let s0 = s.drop_last();
        lemma_pairs_to_map(s0);
        assert(forall|i: int| 0 <= i < s0.len() ==> s0[i] == s[i]);
        assert(pairs_to_map(s) == pairs_to_map(s0).insert(s.last().0, s.last().1));
        assert forall|k: Seq<char>| #[trigger] pairs_to_map(s).contains_key(k)
            implies pairs_has_key(s, k) by {
            if k == s.last().0 {
                assert(s[s.len() - 1].0 == k);
            } else {
                assert(pairs_to_map(s0).contains_key(k));
                assert(pairs_has_key(s0, k));
                let i = choose|i: int| 0 <= i < s0.len() && (#[trigger] s0[i]).0 == k;
                assert(s[i].0 == k);
            }
        }
        assert forall|k: Seq<char>| pairs_has_key(s, k)
            implies #[trigger] pairs_to_map(s).contains_key(k) by {
            let i = choose|i: int| 0 <= i < s.len() && (#[trigger] s[i]).0 == k;
            if i == s.len() - 1 {
                assert(s.last().0 == k);
            } else {
                assert(s0[i].0 == k);
                assert(pairs_has_key(s0, k));
                assert(pairs_to_map(s0).contains_key(k));
            }
        }
        if keys_unique(s) {
            assert forall|i: int, j: int| 0 <= i < j < s0.len()
                implies (#[trigger] s0[i]).0 != (#[trigger] s0[j]).0 by {
                assert(s[i] == s0[i] && s[j] == s0[j]);
            }
            assert(keys_unique(s0));
            assert forall|i: int| 0 <= i < s.len()
                implies pairs_to_map(s).contains_key((#[trigger] s[i]).0)
                    && pairs_to_map(s)[s[i].0] == s[i].1 by {
                if i == s.len() - 1 {
                    assert(pairs_to_map(s)[s.last().0] == s.last().1);
                } else {
                    assert(s0[i] == s[i]);
                    assert(pairs_to_map(s0).contains_key(s0[i].0));
                    assert(pairs_to_map(s0)[s[i].0] == s[i].1);
                    assert(s[i].0 != s[s.len() - 1].0);
                }
            }
        }
    }
}

impl StrMap {
    /// The ordered pairs held.
    pub closed spec fn pairs(&self) -> Seq<(Seq<char>, Seq<char>)> {
        str_pairs_of(self.entries@)
    }

    /// Well-formed: no key occurs twice.
    pub open spec fn wf(&self) -> bool {
        keys_unique(self.pairs())
    }

    /// The empty association.
    pub fn new() -> (r: StrMap)
        ensures
            r.wf(),
            r@ == Map::<Seq<char>, Seq<char>>::empty(),
            r.pairs() =~= Seq::<(Seq<char>, Seq<char>)>::empty(),
    {
        let r = StrMap { entries: Vec::new() };
        proof {
            assert(r.pairs() =~= Seq::<(Seq<char>, Seq<char>)>::empty());
        }
        r
    }

    /// How many pairs are held.
    pub fn len(&self) -> (n: usize)
        ensures
            n == self.pairs().len(),
    {
        self.entries.len()
    }

    /// The key of pair `i`.
    pub fn key_at(&self, i: usize) -> (k: &String)
        requires
            i < self.pairs().len(),
        ensures
            k@ == self.pairs()[i as int].0,
    {
        &self.entries[i].0
    }

    /// The value of pair `i`.
    pub fn val_at(&self, i: usize) -> (v: &String)
        requires
            i < self.pairs().len(),
        ensures
            v@ == self.pairs()[i as int].1,
    {
        &self.entries[i].1
    }

    /// Installs `v` under `k`, replacing any value the key already had.
    pub fn insert(&mut self, k: String, v: String)
        requires
            old(self).wf(),
        ensures
            final(self).wf(),
            final(self)@ == old(self)@.insert(k@, v@),
    {
        let ghost p_old = self.pairs();
        let n = self.entries.len();
        let mut found: Option<usize> = None;
        let mut i: usize = 0;
        while i < n
            invariant
                n == self.entries@.len(),
                i <= n,
                *self == *old(self),
                p_old == self.pairs(),
                match found {
                    Some(j) => j < i && p_old[j as int].0 == k@,
                    None => forall|j: int| 0 <= j < i ==> (#[trigger] p_old[j]).0 != k@,
                },
            decreases n - i,
        {
            if found.is_none() && str_eq(self.entries[i].0.as_str(), k.as_str()) {
                proof {
                    assert(p_old[i as int] == (self.entries@[i as int].0@, self.entries@[i as int].1@));
                }
                found = Some(i);
            }
            i += 1;
        }
        match found {
            Some(j) => {
                let _ = self.entries.remove(j);
                self.entries.push((k, v));
                proof {
                    let p_new = self.pairs();
                    assert(p_new =~= p_old.remove(j as int).push((k@, v@)));
                    lemma_insert_replace(p_old, j as int, k@, v@);
                }
            },
            None => {
                self.entries.push((k, v));
                proof {
                    let p_new = self.pairs();
                    assert(p_new =~= p_old.push((k@, v@)));
                    assert(p_new.drop_last() =~= p_old);
                    assert(keys_unique(p_new));
                    assert(pairs_to_map(p_new) == pairs_to_map(p_old).insert(k@, v@));
                }
            },
        }
    }

    /// Looks the key up; returns its value, copied, if present.
    pub fn get(&self, k: &str) -> (r: Option<String>)
        requires
            self.wf(),
        ensures
            match r {
                Some(v) => self@.contains_key(k@) && v@ == self@[k@],
                None => !self@.contains_key(k@),
            },
    {
        proof {
            lemma_pairs_to_map(self.pairs());
        }
        let n = self.entries.len();
        let mut i: usize = 0;
        while i < n
            invariant
                self.wf(),
                n == self.entries@.len(),
                i <= n,
                forall|j: int| 0 <= j < i ==> (#[trigger] self.pairs()[j]).0 != k@,
            decreases n - i,
        {
            if str_eq(self.entries[i].0.as_str(), k) {
                proof {
                    lemma_pairs_to_map(self.pairs());
                    assert(self.pairs()[i as int]
                        == (self.entries@[i as int].0@, self.entries@[i as int].1@));
                    assert(self.pairs()[i as int].0 == k@);
                    assert(self@[k@] == self.pairs()[i as int].1);
                }
                return Some(self.entries[i].1.clone());
            }
            i += 1;
        }
        proof {
            lemma_pairs_to_map(self.pairs());
        }
        None
    }

    /// Whether the key is present.
    pub fn contains_key(&self, k: &str) -> (r: bool)
        requires
            self.wf(),
        ensures
            r == self@.contains_key(k@),
    {
        self.get(k).is_some()
    }
}

/// Replacing the one pair that holds `k` and appending `(k, v)` describes
/// the map with `v` installed under `k`.
pub proof fn lemma_insert_replace<V>(s: Seq<(Seq<char>, V)>, j: int, k: Seq<char>, v: V)
    requires
        keys_unique(s),
        0 <= j < s.len(),
        s[j].0 == k,
    ensures
        keys_unique(s.remove(j).push((k, v))),
        pairs_to_map(s.remove(j).push((k, v))) == pairs_to_map(s).insert(k, v),
{
    let r = s.remove(j);
    let t = r.push((k, v));
    s.remove_ensures(j);
    assert forall|a: int, b: int| 0 <= a < b < t.len() implies (#[trigger] t[a]).0 != (#[trigger] t[b]).0 by {
        if b < t.len() - 1 {
            // both are pairs of s, at shifted positions
            assert(r[a] == if a < j { s[a] } else { s[a + 1] });
            assert(r[b] == if b < j { s[b] } else { s[b + 1] });
        } else {
            // b is the appended pair; a comes from s and cannot hold k
            assert(r[a] == if a < j { s[a] } else { s[a + 1] });
        }
    }
    lemma_pairs_to_map(s);
    lemma_pairs_to_map(t);
    assert forall|x: Seq<char>| #[trigger] pairs_to_map(t).contains_key(x)
        implies pairs_to_map(s).insert(k, v).contains_key(x) by {
        let i = choose|i: int| 0 <= i < t.len() && (#[trigger] t[i]).0 == x;
        if i < t.len() - 1 {
            assert(t[i] == if i < j { s[i] } else { s[i + 1] });
        }
    }
    assert forall|x: Seq<char>| #[trigger] pairs_to_map(s).insert(k, v).contains_key(x)
        implies pairs_to_map(t).contains_key(x) by {
        if x == k {
            assert(t[t.len() - 1].0 == x);
        } else {
            let i = choose|i: int| 0 <= i < s.len() && (#[trigger] s[i]).0 == x;
            assert(i != j);
            if i < j {
                assert(t[i] == s[i]);
            } else {
                assert(t[i - 1] == s[i]);
            }
        }
    }
    assert forall|x: Seq<char>| pairs_to_map(t).contains_key(x)
        implies #[trigger] pairs_to_map(t)[x] == pairs_to_map(s).insert(k, v)[x] by {
        if x == k {
            assert(t[t.len() - 1] == (k, v));
            assert(pairs_to_map(t)[x] == v);
        } else {
            let i = choose|i: int| 0 <= i < t.len() && (#[trigger] t[i]).0 == x;
            assert(i < t.len() - 1);
            let oi: int = if i < j { i } else { i + 1 };
            assert(t[i] == s[oi]);
            assert(pairs_to_map(t)[x] == t[i].1);
            assert(pairs_to_map(s)[x] == s[oi].1);
        }
    }
    assert(pairs_to_map(t) =~= pairs_to_map(s).insert(k, v));
}

impl View for StrMap {
    type V = Map<Seq<char>, Seq<char>>;

    open spec fn view(&self) -> Map<Seq<char>, Seq<char>> {
        pairs_to_map(self.pairs())
    }
}

} // verus!
