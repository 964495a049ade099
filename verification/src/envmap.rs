//! An ordered mapping from variable names to values: insertion order
//! kept, keys unique, last write wins.
use vstd::prelude::*;
use vstd::string::*;

verus! {

/// The value of the last pair holding `k`, looked up from the end.
pub open spec fn spec_assoc(keys: Seq<Seq<char>>, vals: Seq<Seq<char>>, k: Seq<char>) -> Option<
    Seq<char>,
>
    recommends
        keys.len() == vals.len(),
    decreases keys.len(),
{
    if keys.len() == 0 || vals.len() == 0 {
        None
    } else if keys.last() == k {
        Some(vals.last())
    } else {
        spec_assoc(keys.drop_last(), vals.drop_last(), k)
    }
}

/// `spec_assoc` is `None` exactly when no key matches.
pub proof fn lemma_assoc_none(keys: Seq<Seq<char>>, vals: Seq<Seq<char>>, k: Seq<char>)
    requires
        keys.len() == vals.len(),
    ensures
        spec_assoc(keys, vals, k) is None <==> forall|i: int| 0 <= i < keys.len() ==> keys[i] != k,
    decreases keys.len(),
{
    if keys.len() > 0 && keys.last() != k {
        lemma_assoc_none(keys.drop_last(), vals.drop_last(), k);
        assert(forall|i: int| 0 <= i < keys.len() - 1 ==> keys.drop_last()[i] == keys[i]);
    }
}

/// With unique keys, a match at `i` is the association.
pub proof fn lemma_assoc_at(keys: Seq<Seq<char>>, vals: Seq<Seq<char>>, i: int)
    requires
        keys.len() == vals.len(),
        0 <= i < keys.len(),
        forall|a: int, b: int| 0 <= a < b < keys.len() ==> keys[a] != keys[b],
    ensures
        spec_assoc(keys, vals, keys[i]) == Some(vals[i]),
    decreases keys.len(),
{
    if i == keys.len() - 1 {
    } else {
        assert(keys.last() != keys[i]);
        lemma_assoc_at(keys.drop_last(), vals.drop_last(), i);
    }
}

/// Updating the value at the index of `keys[i]` updates the
/// association at that key and no other.
pub proof fn lemma_assoc_update(
    keys: Seq<Seq<char>>,
    vals: Seq<Seq<char>>,
    i: int,
    v: Seq<char>,
    k: Seq<char>,
)
    requires
        keys.len() == vals.len(),
        0 <= i < keys.len(),
        forall|a: int, b: int| 0 <= a < b < keys.len() ==> keys[a] != keys[b],
    ensures
        spec_assoc(keys, vals.update(i, v), k) == (if k == keys[i] {
            Some(v)
        } else {
            spec_assoc(keys, vals, k)
        }),
    decreases keys.len(),
{
    let vals2 = vals.update(i, v);
    if i == keys.len() - 1 {
        if keys.last() != k {
            assert(vals2.drop_last() =~= vals.drop_last());
        }
    } else {
        if keys.last() == k {
            assert(keys[i] != k);
        } else {
            assert(vals2.drop_last() =~= vals.drop_last().update(i, v));
            lemma_assoc_update(keys.drop_last(), vals.drop_last(), i, v, k);
        }
    }
}

/// An ordered name-to-value mapping with unique keys.
pub struct EnvMap {
    keys: Vec<String>,
    vals: Vec<String>,
}

impl EnvMap {
    /// The keys, in insertion order.
    pub closed spec fn spec_keys(&self) -> Seq<Seq<char>> {
        self.keys.deep_view()
    }

    /// The values, aligned with the keys.
    pub closed spec fn spec_vals(&self) -> Seq<Seq<char>> {
        self.vals.deep_view()
    }

    /// Keys and values aligned, keys pairwise distinct.
    pub open spec fn wf(&self) -> bool {
        &&& self.spec_keys().len() == self.spec_vals().len()
        &&& forall|a: int, b: int|
            0 <= a < b < self.spec_keys().len() ==> self.spec_keys()[a] != self.spec_keys()[b]
    }

    /// The value at a key.
    pub open spec fn spec_get(&self, k: Seq<char>) -> Option<Seq<char>> {
        spec_assoc(self.spec_keys(), self.spec_vals(), k)
    }

    /// The number of pairs.
    pub open spec fn spec_len(&self) -> nat {
        self.spec_keys().len()
    }

    /// An empty mapping.
    pub fn new() -> (r: EnvMap)
        ensures
            r.wf(),
            r.spec_len() == 0,
            forall|k: Seq<char>| r.spec_get(k) is None,
    {
        let r = EnvMap { keys: Vec::new(), vals: Vec::new() };
        assert(r.keys.deep_view() =~~= Seq::<Seq<char>>::empty());
        assert(r.vals.deep_view() =~~= Seq::<Seq<char>>::empty());
        r
    }

    /// The number of pairs.
    pub fn len(&self) -> (r: usize)
        ensures
            r == self.spec_len(),
    {
        self.keys.len()
    }

    /// The key at a position.
    pub fn key_at(&self, i: usize) -> (r: String)
        requires
            i < self.spec_len(),
        ensures
            r@ == self.spec_keys()[i as int],
    {
        self.keys[i].clone()
    }

    /// The value at a position.
    pub fn value_at(&self, i: usize) -> (r: String)
        requires
            self.wf(),
            i < self.spec_len(),
        ensures
            r@ == self.spec_vals()[i as int],
    {
        self.vals[i].clone()
    }

    /// The position of a key, if present.
    fn index_of_key(&self, key: &str) -> (r: Option<usize>)
        requires
            self.wf(),
        ensures
            match r {
                Some(i) => i < self.spec_len() && self.spec_keys()[i as int] == key@,
                None => forall|i: int| 0 <= i < self.spec_len() ==> self.spec_keys()[i] != key@,
            },
    {
        let k = String::from_str(key);
        let n = self.keys.len();
        let mut i: usize = 0;
        while i < n
            invariant
                n == self.spec_keys().len(),
                n == self.keys@.len(),
                i <= n,
                forall|j: int| 0 <= j < i ==> self.spec_keys()[j] != key@,
                k@ == key@,
            decreases n - i,
        {
            if self.keys[i].eq(&k) {
                assert(self.spec_keys()[i as int] == self.keys@[i as int]@);
                return Some(i);
            }
            assert(self.spec_keys()[i as int] == self.keys@[i as int]@);
            i = i + 1;
        }
        None
    }

    /// Whether a key is present.
    pub fn contains_key(&self, key: &str) -> (r: bool)
        requires
            self.wf(),
        ensures
            r == (self.spec_get(key@) is Some),
    {
        proof {
            lemma_assoc_none(self.spec_keys(), self.spec_vals(), key@);
        }
        self.index_of_key(key).is_some()
    }

    /// The value at a key, if present.
    pub fn get(&self, key: &str) -> (r: Option<String>)
        requires
            self.wf(),
        ensures
            match r {
                Some(v) => self.spec_get(key@) == Some(v@),
                None => self.spec_get(key@) is None,
            },
    {
        match self.index_of_key(key) {
            Some(i) => {
                proof {
                    lemma_assoc_at(self.spec_keys(), self.spec_vals(), i as int);
                }
                Some(self.vals[i].clone())
            },
            None => {
                proof {
                    lemma_assoc_none(self.spec_keys(), self.spec_vals(), key@);
                }
                None
            },
        }
    }

    /// Bind `key` to `value`: replace the value in place when the key
    /// is present, append the pair otherwise.
    pub fn insert(&mut self, key: String, value: String)
        requires
            old(self).wf(),
        ensures
            final(self).wf(),
            forall|k: Seq<char>|
                final(self).spec_get(k) == (if k == key@ {
                    Some(value@)
                } else {
                    old(self).spec_get(k)
                }),
            old(self).spec_get(key@) is Some ==> final(self).spec_keys() == old(self).spec_keys(),
            old(self).spec_get(key@) is None ==> final(self).spec_keys() == old(
                self,
            ).spec_keys().push(key@),
    {
        proof {
            lemma_assoc_none(self.spec_keys(), self.spec_vals(), key@);
        }
        match self.index_of_key(key.as_str()) {
            Some(i) => {
                let ghost keys0 = self.spec_keys();
                let ghost vals0 = self.spec_vals();
                let ghost v = value@;
                proof {
                    lemma_assoc_at(keys0, vals0, i as int);
                }
                self.vals.set(i, value);
                proof {
                    assert(self.spec_keys() =~~= keys0);
                    assert(self.spec_vals() =~~= vals0.update(i as int, v));
                    assert forall|k: Seq<char>|
                        self.spec_get(k) == (if k == key@ {
                            Some(v)
                        } else {
                            spec_assoc(keys0, vals0, k)
                        }) by {
                        lemma_assoc_update(keys0, vals0, i as int, v, k);
                    }
                }
            },
            None => {
                let ghost keys0 = self.spec_keys();
                let ghost vals0 = self.spec_vals();
                let ghost kk = key@;
                let ghost v = value@;
                proof {
                    lemma_assoc_none(keys0, vals0, kk);
                }
                self.keys.push(key);
                self.vals.push(value);
                proof {
                    assert(self.spec_keys() =~~= keys0.push(kk));
                    assert(self.spec_vals() =~~= vals0.push(v));
                    assert(keys0.push(kk).drop_last() =~= keys0);
                    assert(vals0.push(v).drop_last() =~= vals0);
                }
            },
        }
    }

    /// Replace the value at a position, keeping the keys.
    pub fn set_value_at(&mut self, i: usize, value: String)
        requires
            old(self).wf(),
            i < old(self).spec_len(),
        ensures
            final(self).wf(),
            final(self).spec_keys() == old(self).spec_keys(),
            final(self).spec_vals() == old(self).spec_vals().update(i as int, value@),
    {
        let ghost keys0 = self.spec_keys();
        let ghost vals0 = self.spec_vals();
        let ghost v = value@;
        self.vals.set(i, value);
        proof {
            assert(self.spec_keys() =~~= keys0);
            assert(self.spec_vals() =~~= vals0.update(i as int, v));
        }
    }

    /// Drop `key` and its value; other pairs keep their order.
    pub fn remove(&mut self, key: &str)
        requires
            old(self).wf(),
        ensures
            final(self).wf(),
            forall|k: Seq<char>|
                final(self).spec_get(k) == (if k == key@ {
                    None::<Seq<char>>
                } else {
                    old(self).spec_get(k)
                }),
            old(self).spec_get(key@) is None ==> final(self).spec_keys() == old(self).spec_keys(),
            old(self).spec_get(key@) is Some ==> exists|i: int|
                0 <= i < old(self).spec_len() && old(self).spec_keys()[i] == key@
                    && final(self).spec_keys() == old(self).spec_keys().remove(i),
    {
        proof {
            lemma_assoc_none(self.spec_keys(), self.spec_vals(), key@);
        }
        match self.index_of_key(key) {
            Some(i) => {
                let ghost keys0 = self.spec_keys();
                let ghost vals0 = self.spec_vals();
                self.keys.remove(i);
                self.vals.remove(i);
                proof {
                    assert(self.spec_keys() =~~= keys0.remove(i as int));
                    assert(self.spec_vals() =~~= vals0.remove(i as int));
                    lemma_assoc_remove(keys0, vals0, i as int);
                }
            },
            None => {
                proof {
                    lemma_assoc_none(self.spec_keys(), self.spec_vals(), key@);
                }
            },
        }
    }
}

/// Removing the pair at `i` removes the association at its key and no
/// other (keys unique).
pub proof fn lemma_assoc_remove(keys: Seq<Seq<char>>, vals: Seq<Seq<char>>, i: int)
    requires
        keys.len() == vals.len(),
        0 <= i < keys.len(),
        forall|a: int, b: int| 0 <= a < b < keys.len() ==> keys[a] != keys[b],
    ensures
        forall|k: Seq<char>|
            spec_assoc(keys.remove(i), vals.remove(i), k) == (if k == keys[i] {
                None::<Seq<char>>
            } else {
                spec_assoc(keys, vals, k)
            }),
    decreases keys.len(),
{
    let keys2 = keys.remove(i);
    let vals2 = vals.remove(i);
    assert forall|k: Seq<char>|
        spec_assoc(keys2, vals2, k) == (if k == keys[i] {
            None::<Seq<char>>
        } else {
            spec_assoc(keys, vals, k)
        }) by {
        assert(forall|j: int| 0 <= j < keys.len() - 1 ==> keys.drop_last()[j] == keys[j]);
        if i == keys.len() - 1 {
            assert(keys2 =~= keys.drop_last());
            assert(vals2 =~= vals.drop_last());
            if k == keys[i] {
                lemma_assoc_none(keys.drop_last(), vals.drop_last(), k);
                assert(forall|j: int| 0 <= j < keys.len() - 1 ==> keys[j] != keys[i as int]);
                assert(spec_assoc(keys2, vals2, k) is None);
            }
        } else {
            assert(keys2.len() == keys.len() - 1);
            assert(keys2[keys2.len() - 1] == keys[keys.len() - 1]);
            assert(keys2.last() == keys.last());
            assert(vals2.last() == vals.last());
            assert(keys2.drop_last() =~= keys.drop_last().remove(i));
            assert(vals2.drop_last() =~= vals.drop_last().remove(i));
            lemma_assoc_remove(keys.drop_last(), vals.drop_last(), i);
            assert(keys.drop_last()[i] == keys[i]);
            if k == keys[i] {
                assert(keys.last() != k);
                assert(spec_assoc(keys2, vals2, k) == spec_assoc(
                    keys.drop_last().remove(i),
                    vals.drop_last().remove(i),
                    k,
                ));
            }
        }
    }
}

} // verus!
