//! The key-value store abstraction shared by the volatile and the persisted
//! stores, and the laws that every store obeys.
pub mod in_memory;
pub mod persisted;

pub use self::in_memory::InMemoryKeyValueStore;

use vstd::prelude::*;

verus! {

/// Number of characters in every generated key.
pub const KEY_LENGTH: usize = 7;

/// A character that may appear in a generated key: an ASCII letter or digit.
pub open spec fn is_key_char(c: char) -> bool {
    ('A' <= c && c <= 'Z') || ('a' <= c && c <= 'z') || ('0' <= c && c <= '9')
}

/// A well-formed generated key: `KEY_LENGTH` ASCII letters and digits.
pub open spec fn is_key(s: Seq<char>) -> bool {
    &&& s.len() == KEY_LENGTH
    &&& forall|i: int| 0 <= i < s.len() ==> is_key_char(#[trigger] s[i])
}

/// Whether some well-formed key is in use: only then can a random key drawn
/// for an insert collide with an existing one.
pub open spec fn key_in_use(entries: Map<Seq<char>, Seq<char>>) -> bool {
    exists|k: Seq<char>| is_key(k) && #[trigger] entries.contains_key(k)
}

/// Why a store could not complete an `insert`.
#[derive(Debug, Clone, Copy, PartialEq, Eq, Structural)]
pub enum StoreError {
    /// Every random key drawn within the retry budget was already taken.
    KeyspaceExhausted,
    /// The durable record of the entry could not be written.
    Io,
}

/// What a successful `insert` of `value` under `key` does to the entries.
pub open spec fn inserted(
    before: Map<Seq<char>, Seq<char>>,
    after: Map<Seq<char>, Seq<char>>,
    key: Seq<char>,
    value: Seq<char>,
) -> bool {
    &&& is_key(key)
    &&& !before.contains_key(key)
    &&& after == before.insert(key, value)
}

/// What `get` answers for `key` on a store holding `entries`.
pub open spec fn lookup(entries: Map<Seq<char>, Seq<char>>, key: Seq<char>) -> Option<Seq<char>> {
    if entries.contains_key(key) {
        Some(entries[key])
    } else {
        None
    }
}

/// The view of an optional owned string.
pub open spec fn opt_view(r: Option<String>) -> Option<Seq<char>> {
    match r {
        Some(s) => Some(s@),
        None => None,
    }
}

/// The successive entries of a store across a run of `insert` calls:
/// `states[i]` holds the entries before call `i` and `states[i + 1]` those
/// after it; `results[i]` is the key that call returned, or `None` where it
/// failed.
pub open spec fn insert_run(
    states: Seq<Map<Seq<char>, Seq<char>>>,
    values: Seq<Seq<char>>,
    results: Seq<Option<Seq<char>>>,
) -> bool {
    &&& states.len() == results.len() + 1
    &&& values.len() == results.len()
    &&& forall|i: int|
        0 <= i < results.len() ==> match #[trigger] results[i] {
            Some(key) => inserted(states[i], states[i + 1], key, values[i]),
            None => states[i + 1] == states[i],
        }
}

/// Whether some call of a run returned `key`.
pub open spec fn returned(results: Seq<Option<Seq<char>>>, key: Seq<char>) -> bool {
    exists|i: int| 0 <= i < results.len() && results[i] == Some(key)
}

/// How many calls of a run succeeded.
pub open spec fn successes(results: Seq<Option<Seq<char>>>) -> nat
    decreases results.len(),
{
    if results.len() == 0 {
        0
    } else {
        successes(results.drop_last()) + if results.last() is Some { 1nat } else { 0nat }
    }
}

/// Reading back: right after an insert has put `value` under `key`, `get`
/// returns `value` for `key`, and answers for every other key as before.
pub proof fn lemma_get_after_insert(
    before: Map<Seq<char>, Seq<char>>,
    after: Map<Seq<char>, Seq<char>>,
    key: Seq<char>,
    value: Seq<char>,
)
    requires
        inserted(before, after, key, value),
    ensures
        lookup(after, key) == Some(value),
        forall|k: Seq<char>| k != key ==> lookup(after, k) == lookup(before, k),
{
}

/// Across a run of inserts, no two calls return the same key, and no call
/// returns a key that was in use before the run. The store then holds exactly
/// the keys it started with and the keys returned; starting from finitely many
/// entries, it gains exactly one entry per successful call.
pub proof fn lemma_insert_keys_unique(
    states: Seq<Map<Seq<char>, Seq<char>>>,
    values: Seq<Seq<char>>,
    results: Seq<Option<Seq<char>>>,
)
    requires
        insert_run(states, values, results),
    ensures
        forall|i: int, j: int|
            0 <= i < j < results.len() && results[i] is Some && results[j] is Some
                ==> #[trigger] results[i] != #[trigger] results[j],
        forall|i: int|
            0 <= i < results.len() && results[i] is Some
                ==> !states[0].contains_key(#[trigger] results[i]->0),
        forall|k: Seq<char>|
            #[trigger] states.last().contains_key(k) <==> (states[0].contains_key(k) || returned(results, k)),
        states[0].dom().finite() ==> states.last().dom().finite()
            && states.last().len() == states[0].len() + successes(results),
    decreases results.len(),
{
    if results.len() > 0 {
        let n = results.len() - 1;
        let ps = states.drop_last();
        let pv = values.drop_last();
        let pr = results.drop_last();
        assert forall|i: int| 0 <= i < pr.len() implies match #[trigger] pr[i] {
            Some(key) => inserted(ps[i], ps[i + 1], key, pv[i]),
            None => ps[i + 1] == ps[i],
        } by {
            assert(pr[i] == results[i]);
        }
        lemma_insert_keys_unique(ps, pv, pr);
        assert(ps.last() == states[n]);
        assert forall|k: Seq<char>| returned(results, k) <==> (returned(pr, k) || results[n] == Some(k)) by {
            if returned(results, k) {
                let i = choose|i: int| 0 <= i < results.len() && results[i] == Some(k);
                if i < n {
                    assert(pr[i] == results[i]);
                }
            }
            if returned(pr, k) {
                let i = choose|i: int| 0 <= i < pr.len() && pr[i] == Some(k);
                assert(results[i] == pr[i]);
            }
        }
        match results[n] {
            Some(key) => {
                assert(inserted(states[n], states[n + 1], key, values[n]));
                assert(!returned(pr, key));
                assert forall|i: int|
                    0 <= i < n && results[i] is Some implies #[trigger] results[i] != results[n] by {
                    assert(pr[i] == results[i]);
                    assert(returned(pr, results[i]->0));
                }
            },
            None => {
                assert(states[n + 1] == states[n]);
            },
        }
        assert forall|i: int, j: int|
            0 <= i < j < results.len() && results[i] is Some && results[j] is Some
                implies #[trigger] results[i] != #[trigger] results[j] by {
            if j < n {
                assert(pr[i] == results[i] && pr[j] == results[j]);
            } else {
                assert(results[j] == results[n]);
            }
        }
        assert forall|i: int| 0 <= i < results.len() && results[i] is Some
            implies !states[0].contains_key(#[trigger] results[i]->0) by {
            if i < n {
                assert(pr[i] == results[i]);
            } else {
                assert(!returned(pr, results[i]->0)) by {
                    if returned(pr, results[i]->0) {
                        let j = choose|j: int| 0 <= j < pr.len() && pr[j] == Some(results[i]->0);
                        assert(pr[j] == results[j]);
                        assert(results[j] != results[n]);
                    }
                }
            }
        }
        assert(results.drop_last() == pr);
    }
}

/// A run without its last call is a run.
pub proof fn lemma_run_prefix(
    states: Seq<Map<Seq<char>, Seq<char>>>,
    values: Seq<Seq<char>>,
    results: Seq<Option<Seq<char>>>,
)
    requires
        insert_run(states, values, results),
        results.len() > 0,
    ensures
        insert_run(states.drop_last(), values.drop_last(), results.drop_last()),
{
    let pr = results.drop_last();
    assert forall|i: int| 0 <= i < pr.len() implies match #[trigger] pr[i] {
        Some(key) => inserted(states.drop_last()[i], states.drop_last()[i + 1], key, values.drop_last()[i]),
        None => states.drop_last()[i + 1] == states.drop_last()[i],
    } by {
        assert(pr[i] == results[i]);
    }
}

/// Reading back across a run: the value stored by a call that returned a
/// key is what `get` returns for that key at the end of the run, whatever
/// inserts came after it.
pub proof fn lemma_get_after_run(
    states: Seq<Map<Seq<char>, Seq<char>>>,
    values: Seq<Seq<char>>,
    results: Seq<Option<Seq<char>>>,
    i: int,
)
    requires
        insert_run(states, values, results),
        0 <= i < results.len(),
        results[i] is Some,
    ensures
        lookup(states.last(), results[i]->0) == Some(values[i]),
    decreases results.len(),
{
    let n = results.len() - 1;
    let k = results[i]->0;
    assert(states.last() == states[n + 1]);
    if i == n {
        assert(inserted(states[n], states[n + 1], k, values[n]));
    } else {
        lemma_run_prefix(states, values, results);
        assert(results.drop_last()[i] == results[i]);
        lemma_get_after_run(states.drop_last(), values.drop_last(), results.drop_last(), i);
        assert(states.drop_last().last() == states[n]);
        match results[n] {
            Some(k2) => {
                assert(inserted(states[n], states[n + 1], k2, values[n]));
            },
            None => {
                assert(states[n + 1] == states[n]);
            },
        }
    }
}

/// A key that no call of a run returned is absent from a store that started
/// the run empty.
pub proof fn lemma_unreturned_key_absent(
    states: Seq<Map<Seq<char>, Seq<char>>>,
    values: Seq<Seq<char>>,
    results: Seq<Option<Seq<char>>>,
    key: Seq<char>,
)
    requires
        insert_run(states, values, results),
        states[0] == Map::<Seq<char>, Seq<char>>::empty(),
        !returned(results, key),
    ensures
        lookup(states.last(), key) == None::<Seq<char>>,
{
    lemma_insert_keys_unique(states, values, results);
}

/// A mapping from generated keys to stored values.
pub trait KeyValueStore: Sized {
    /// Whether the store's internal state is consistent.
    spec fn wf(&self) -> bool;

    /// Whether inserts are also written to an outside sink, whose failure
    /// makes them fail with `StoreError::Io`.
    spec fn writes_out(&self) -> bool;

    /// The entries currently stored, from key to value.
    spec fn entries(&self) -> Map<Seq<char>, Seq<char>>;

    /// Stores `value` under a freshly generated key and returns that key.
    /// On failure the entries are left as they were; running out of keys is
    /// possible only once some well-formed key is in use.
    fn insert(&mut self, value: String) -> (r: Result<String, StoreError>)
        requires
            old(self).wf(),
        ensures
            final(self).wf(),
            final(self).entries().dom().finite(),
            match r {
                Ok(key) => {
                    &&& inserted(old(self).entries(), final(self).entries(), key@, value@)
                    &&& final(self).entries().len() == old(self).entries().len() + 1
                },
                Err(_) => final(self).entries() == old(self).entries(),
            },
            r == Err::<String, StoreError>(StoreError::KeyspaceExhausted) ==> key_in_use(old(self).entries()),
            r == Err::<String, StoreError>(StoreError::Io) ==> old(self).writes_out(),
            r is Err ==> key_in_use(old(self).entries()) || old(self).writes_out(),
            final(self).writes_out() == old(self).writes_out(),
    ;

    /// The value stored under `key`, if any.
    fn get(&self, key: &str) -> (r: Option<String>)
        requires
            self.wf(),
        ensures
            opt_view(r) == lookup(self.entries(), key@),
    ;
}

} // verus!
