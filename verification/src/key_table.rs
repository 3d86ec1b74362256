//! A small association table from string keys to values, kept as a pair of
//! parallel vectors with pairwise-distinct keys. The cache and the per-client
//! rate limiters store their keyed state in it.

use vstd::prelude::*;

verus! {

/// Position of the first occurrence of `key` in `keys`, or -1 when absent.
pub open spec fn key_index(keys: Seq<Seq<char>>, key: Seq<char>) -> int
    decreases keys.len(),
{
    if keys.len() == 0 {
        -1
    } else if keys[0] == key {
        0
    } else {
        let rest = key_index(keys.drop_first(), key);
        if rest == -1 {
            -1
        } else {
            rest + 1
        }
    }
}

/// No key occurs twice.
pub open spec fn distinct_keys(keys: Seq<Seq<char>>) -> bool {
    forall|i: int, j: int| 0 <= i < j < keys.len() ==> keys[i] !== keys[j]
}

/// `key_index` returns a position holding `key`, earlier positions differ
/// from `key`, and -1 means `key` is nowhere.
pub proof fn lemma_key_index(keys: Seq<Seq<char>>, key: Seq<char>)
    ensures
        -1 <= key_index(keys, key) < keys.len(),
        key_index(keys, key) >= 0 ==> keys[key_index(keys, key)] == key,
        forall|i: int| 0 <= i < key_index(keys, key) ==> keys[i] !== key,
        key_index(keys, key) == -1 ==> forall|i: int| 0 <= i < keys.len() ==> keys[i] !== key,
    decreases keys.len(),
{
    if keys.len() == 0 {
    } else if keys[0] == key {
    } else {
        lemma_key_index(keys.drop_first(), key);
        assert forall|i: int| 1 <= i < keys.len() implies keys[i] == keys.drop_first()[i - 1] by {}
    }
}

/// With distinct keys, any position holding `key` is the one `key_index` finds.
pub proof fn lemma_key_index_of_position(keys: Seq<Seq<char>>, key: Seq<char>, i: int)
    requires
        distinct_keys(keys),
        0 <= i < keys.len(),
        keys[i] == key,
    ensures
        key_index(keys, key) == i,
{
    lemma_key_index(keys, key);
    let ki = key_index(keys, key);
    if ki != i {
        if ki == -1 {
            assert(keys[i] !== key);
        } else {
            assert(keys[ki] == key);
            assert(keys[i] == key);
            if ki < i {
                assert(keys[ki] !== keys[i]);
            } else {
                assert(keys[i] !== keys[ki]);
            }
        }
    }
}

/// Appending a fresh key leaves every earlier position, and puts the new key
/// at the end.
pub proof fn lemma_key_index_push(keys: Seq<Seq<char>>, x: Seq<char>, key: Seq<char>)
    ensures
        key_index(keys.push(x), key) == if key_index(keys, key) >= 0 {
            key_index(keys, key)
        } else if x == key {
            keys.len() as int
        } else {
            -1
        },
    decreases keys.len(),
{
    if keys.len() == 0 {
        assert(keys.push(x).len() == 1);
        assert(keys.push(x)[0] == x);
        if x == key {
            assert(key_index(keys.push(x), key) == 0);
        } else {
            assert(keys.push(x).drop_first() =~= Seq::<Seq<char>>::empty());
            assert(key_index(keys.push(x).drop_first(), key) == -1);
        }
    } else if keys[0] == key {
        assert(keys.push(x)[0] == key);
    } else {
        assert(keys.push(x)[0] == keys[0]);
        assert(keys.push(x).drop_first() =~= keys.drop_first().push(x));
        lemma_key_index_push(keys.drop_first(), x, key);
        assert(keys.drop_first().len() == keys.len() - 1);
    }
}

/// Removing position `i` from a distinct key sequence: the removed key is
/// gone, and every other key keeps its place up to the shift.
pub proof fn lemma_key_index_remove(keys: Seq<Seq<char>>, i: int, key: Seq<char>)
    requires
        distinct_keys(keys),
        0 <= i < keys.len(),
    ensures
        key == keys[i] ==> key_index(keys.remove(i), key) == -1,
        key !== keys[i] ==> key_index(keys.remove(i), key) == (if key_index(keys, key) == -1 {
            -1
        } else if key_index(keys, key) < i {
            key_index(keys, key)
        } else {
            key_index(keys, key) - 1
        }),
    decreases keys.len(),
{
    lemma_key_index(keys, key);
    if i == 0 {
        assert(keys.remove(0) =~= keys.drop_first());
        if key == keys[0] {
            lemma_key_index(keys.drop_first(), key);
            let ki = key_index(keys.drop_first(), key);
            if ki >= 0 {
                assert(keys.drop_first()[ki] == key);
                assert(keys[ki + 1] == keys.drop_first()[ki]);
                assert(keys[0] !== keys[ki + 1]);
            }
        } else {
            lemma_key_index(keys.drop_first(), key);
            assert(key_index(keys.remove(0), key) == key_index(keys.drop_first(), key));
            assert(key_index(keys, key) == (if key_index(keys.drop_first(), key) == -1 {
                -1int
            } else {
                key_index(keys.drop_first(), key) + 1
            }));
            assert(key_index(keys.remove(i), key) == (if key_index(keys, key) == -1 {
                -1int
            } else if key_index(keys, key) < i {
                key_index(keys, key)
            } else {
                key_index(keys, key) - 1
            }));
        }
    } else {
        assert(distinct_keys(keys.drop_first())) by {
            assert forall|a: int, b: int|
                0 <= a < b < keys.drop_first().len() implies keys.drop_first()[a]
                !== keys.drop_first()[b] by {
                assert(keys.drop_first()[a] == keys[a + 1]);
                assert(keys.drop_first()[b] == keys[b + 1]);
            }
        }
        assert(keys.remove(i).drop_first() =~= keys.drop_first().remove(i - 1));
        assert(keys.drop_first()[i - 1] == keys[i]);
        lemma_key_index_remove(keys.drop_first(), i - 1, key);
        lemma_key_index(keys.drop_first(), key);
        lemma_key_index(keys.remove(i), key);
        assert(keys.remove(i)[0] == keys[0]);
        assert(keys.remove(i).len() == keys.len() - 1);
        if key == keys[i] {
            assert(keys[0] !== keys[i]);
            assert(key_index(keys.drop_first().remove(i - 1), key) == -1);
            assert(key_index(keys.remove(i), key) == -1);
        } else if keys[0] == key {
            assert(key_index(keys.remove(i), key) == 0);
            assert(key_index(keys, key) == 0);
        } else {
            let rest = key_index(keys.drop_first(), key);
            let rest_new = key_index(keys.drop_first().remove(i - 1), key);
            assert(key_index(keys, key) == (if rest == -1 {
                -1int
            } else {
                rest + 1
            }));
            assert(key_index(keys.remove(i), key) == (if rest_new == -1 {
                -1int
            } else {
                rest_new + 1
            }));
            if rest == i - 1 {
                assert(keys.drop_first()[rest] == key);
                assert(keys[i] == key);
            }
            if rest == -1 {
                assert(key_index(keys.remove(i), key) == -1);
            } else if rest < i - 1 {
                assert(rest_new == rest);
                assert(key_index(keys.remove(i), key) == key_index(keys, key));
            } else {
                assert(rest > i - 1);
                assert(rest_new == rest - 1);
                assert(key_index(keys.remove(i), key) == key_index(keys, key) - 1);
            }
        }
    }
}

/// Distinctness survives appending a key that is not already present.
pub proof fn lemma_distinct_push(keys: Seq<Seq<char>>, x: Seq<char>)
    requires
        distinct_keys(keys),
        key_index(keys, x) == -1,
    ensures
        distinct_keys(keys.push(x)),
{
    lemma_key_index(keys, x);
    assert forall|a: int, b: int|
        0 <= a < b < keys.push(x).len() implies keys.push(x)[a] !== keys.push(x)[b] by {
        if b == keys.len() {
            assert(keys.push(x)[b] == x);
            assert(keys.push(x)[a] == keys[a]);
        } else {
            assert(keys.push(x)[a] == keys[a]);
            assert(keys.push(x)[b] == keys[b]);
        }
    }
}

/// Distinctness survives removing a position.
pub proof fn lemma_distinct_remove(keys: Seq<Seq<char>>, i: int)
    requires
        distinct_keys(keys),
        0 <= i < keys.len(),
    ensures
        distinct_keys(keys.remove(i)),
{
    assert forall|a: int, b: int|
        0 <= a < b < keys.remove(i).len() implies keys.remove(i)[a] !== keys.remove(i)[b] by {
        let a0 = if a < i { a } else { a + 1 };
        let b0 = if b < i { b } else { b + 1 };
        assert(keys.remove(i)[a] == keys[a0]);
        assert(keys.remove(i)[b] == keys[b0]);
    }
}

/// An association table from strings to values of type `V`, with each key
/// present at most once.
pub struct KeyTable<V> {
    keys: Vec<String>,
    vals: Vec<V>,
}

impl<V> KeyTable<V> {
    /// The key strings, as sequences of characters, in insertion order.
    pub closed spec fn spec_keys(&self) -> Seq<Seq<char>> {
        self.keys@.map_values(|k: String| k@)
    }

    /// The values, aligned with `spec_keys`.
    pub closed spec fn spec_vals(&self) -> Seq<V> {
        self.vals@
    }

    /// Keys and values are aligned and no key repeats.
    pub open spec fn wf(&self) -> bool {
        &&& self.spec_keys().len() == self.spec_vals().len()
        &&& distinct_keys(self.spec_keys())
    }

    pub open spec fn spec_len(&self) -> nat {
        self.spec_keys().len()
    }

    pub open spec fn spec_contains(&self, key: Seq<char>) -> bool {
        key_index(self.spec_keys(), key) >= 0
    }

    /// The value stored under `key`; meaningful only when `spec_contains`.
    pub open spec fn spec_at(&self, key: Seq<char>) -> V {
        self.spec_vals()[key_index(self.spec_keys(), key)]
    }

    pub fn new() -> (t: Self)
        ensures
            t.wf(),
            t.spec_len() == 0,
            forall|k: Seq<char>| !t.spec_contains(k),
    {
        let t = KeyTable { keys: Vec::new(), vals: Vec::new() };
        proof {
            assert forall|k: Seq<char>| !t.spec_contains(k) by {
                lemma_key_index(t.spec_keys(), k);
            }
        }
        t
    }

    pub fn len(&self) -> (n: usize)
        requires
            self.wf(),
        ensures
            n == self.spec_len(),
    {
        self.keys.len()
    }

    pub fn key_at(&self, i: usize) -> (k: &String)
        requires
            self.wf(),
            i < self.spec_len(),
        ensures
            k@ == self.spec_keys()[i as int],
    {
        &self.keys[i]
    }

    pub fn val_at(&self, i: usize) -> (v: &V)
        requires
            self.wf(),
            i < self.spec_len(),
        ensures
            *v == self.spec_vals()[i as int],
    {
        &self.vals[i]
    }

    /// Looks `key` up; `Some(i)` is its position.
    pub fn find(&self, key: &String) -> (r: Option<usize>)
        requires
            self.wf(),
        ensures
            match r {
                Some(i) => i < self.spec_len() && self.spec_keys()[i as int] == key@ && key_index(
                    self.spec_keys(),
                    key@,
                ) == i as int,
                None => !self.spec_contains(key@),
            },
    {
        let n = self.keys.len();
        let mut i: usize = 0;
        while i < n
            invariant
                self.wf(),
                n == self.spec_len(),
                i <= n,
                forall|j: int| 0 <= j < i ==> self.spec_keys()[j] !== key@,
            decreases n - i,
        {
            if self.keys[i] == *key {
                proof {
                    lemma_key_index_of_position(self.spec_keys(), key@, i as int);
                }
                return Some(i);
            }
            i += 1;
        }
        proof {
            lemma_key_index(self.spec_keys(), key@);
            let ki = key_index(self.spec_keys(), key@);
            if ki >= 0 {
                assert(self.spec_keys()[ki] == key@);
            }
        }
        None
    }

    /// Inserts a key that is not present yet, at the end.
    pub fn insert_new(&mut self, key: String, v: V)
        requires
            old(self).wf(),
            !old(self).spec_contains(key@),
        ensures
            final(self).wf(),
            final(self).spec_keys() == old(self).spec_keys().push(key@),
            final(self).spec_vals() == old(self).spec_vals().push(v),
            final(self).spec_contains(key@),
            final(self).spec_at(key@) == v,
            forall|k: Seq<char>| k !== key@ ==> final(self).spec_contains(k) == old(self).spec_contains(k),
            forall|k: Seq<char>|
                k !== key@ && old(self).spec_contains(k) ==> final(self).spec_at(k) == old(self).spec_at(k),
    {
        let ghost old_keys = self.spec_keys();
        let ghost keyv = key@;
        self.keys.push(key);
        self.vals.push(v);
        proof {
            assert(self.spec_keys() =~= old_keys.push(keyv));
            lemma_key_index(old_keys, keyv);
            lemma_distinct_push(old_keys, keyv);
            assert forall|k: Seq<char>| true implies #[trigger] key_index(self.spec_keys(), k)
                == if key_index(old_keys, k) >= 0 {
                key_index(old_keys, k)
            } else if keyv == k {
                old_keys.len() as int
            } else {
                -1
            } by {
                lemma_key_index_push(old_keys, keyv, k);
                lemma_key_index(old_keys, k);
            }
            assert forall|k: Seq<char>| k !== keyv && old(self).spec_contains(k) implies self.spec_at(
                k,
            ) == old(self).spec_at(k) by {
                lemma_key_index(old_keys, k);
                lemma_key_index_push(old_keys, keyv, k);
            }
        }
    }

    /// Replaces the value at position `i`; the keys do not change.
    pub fn set_at(&mut self, i: usize, v: V)
        requires
            old(self).wf(),
            i < old(self).spec_len(),
        ensures
            final(self).wf(),
            final(self).spec_keys() == old(self).spec_keys(),
            final(self).spec_vals() == old(self).spec_vals().update(i as int, v),
            forall|k: Seq<char>| final(self).spec_contains(k) == old(self).spec_contains(k),
            final(self).spec_at(old(self).spec_keys()[i as int]) == v,
            forall|k: Seq<char>|
                old(self).spec_contains(k) && k !== old(self).spec_keys()[i as int] ==> final(self).spec_at(k) == old(self).spec_at(k),
    {
        let r = &mut self.vals[i];
        *r = v;
        proof {
            let keys = self.spec_keys();
            lemma_key_index_of_position(keys, keys[i as int], i as int);
            assert forall|k: Seq<char>|
                old(self).spec_contains(k) && k !== keys[i as int] implies self.spec_at(k) == old(self).spec_at(k) by {
                lemma_key_index(keys, k);
            }
        }
    }

    /// Removes the entry at position `i`.
    pub fn remove_at(&mut self, i: usize) -> (v: V)
        requires
            old(self).wf(),
            i < old(self).spec_len(),
        ensures
            final(self).wf(),
            final(self).spec_keys() == old(self).spec_keys().remove(i as int),
            final(self).spec_vals() == old(self).spec_vals().remove(i as int),
            v == old(self).spec_vals()[i as int],
            !final(self).spec_contains(old(self).spec_keys()[i as int]),
            forall|k: Seq<char>|
                k !== old(self).spec_keys()[i as int] ==> final(self).spec_contains(k) == old(self).spec_contains(k),
            forall|k: Seq<char>|
                k !== old(self).spec_keys()[i as int] && old(self).spec_contains(k) ==> final(self).spec_at(k) == old(self).spec_at(k),
    {
        let ghost old_keys = self.spec_keys();
        self.keys.remove(i);
        let v = self.vals.remove(i);
        proof {
            assert(self.spec_keys() =~= old_keys.remove(i as int));
            lemma_distinct_remove(old_keys, i as int);
            assert forall|k: Seq<char>| k !== old_keys[i as int] implies self.spec_contains(k)
                == old(self).spec_contains(k) && (old(self).spec_contains(k) ==> self.spec_at(k)
                == old(self).spec_at(k)) by {
                lemma_key_index_remove(old_keys, i as int, k);
                lemma_key_index(old_keys, k);
            }
            lemma_key_index_remove(old_keys, i as int, old_keys[i as int]);
        }
        v
    }
}

} // verus!
