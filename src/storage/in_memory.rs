//! The volatile store: a hash map from key to value, filled through random
//! key generation.
use rand::Rng;
use vstd::hash_map::StringHashMap;
use vstd::prelude::*;

use crate::storage::{inserted, is_key, is_key_char, key_in_use, KeyValueStore, StoreError, KEY_LENGTH};

verus! {

/// How many random keys are drawn before giving up on an insert.
pub const MAX_KEY_ATTEMPTS: usize = 100;

/// The entries that result from inserting `pairs` one after another into an
/// empty map, a later pair overriding an earlier one with the same key.
pub open spec fn fold_pairs(pairs: Seq<(Seq<char>, Seq<char>)>) -> Map<Seq<char>, Seq<char>>
    decreases pairs.len(),
{
    if pairs.len() == 0 {
        Map::empty()
    } else {
        let last = pairs.last();
        fold_pairs(pairs.drop_last()).insert(last.0, last.1)
    }
}

/// The view of a sequence of owned key/value pairs.
pub open spec fn pairs_view(pairs: Seq<(String, String)>) -> Seq<(Seq<char>, Seq<char>)> {
    pairs.map_values(|p: (String, String)| (p.0@, p.1@))
}

/// Relies on rand's `Rng::gen_ascii_chars` on `thread_rng()`: every character
/// it yields is one of `A`-`Z`, `a`-`z` and `0`-`9`, and `take(len)` ends the
/// stream after exactly `len` of them.
#[verifier::external_body]
fn random_alphanumeric(len: usize) -> (r: String)
    ensures
        r@.len() == len,
        forall|i: int| 0 <= i < len ==> is_key_char(#[trigger] r@[i]),
{
    rand::thread_rng().gen_ascii_chars().take(len).collect()
}

/// A store that keeps its entries in memory only.
pub struct InMemoryKeyValueStore {
    data: StringHashMap<String>,
}

impl InMemoryKeyValueStore {
    /// An empty store.
    pub fn new() -> (r: Self)
        ensures
            r.wf(),
            r.entries() == Map::<Seq<char>, Seq<char>>::empty(),
    {
        let r = InMemoryKeyValueStore { data: StringHashMap::new() };
        assert(r.entries() =~= Map::<Seq<char>, Seq<char>>::empty());
        r
    }

    /// A store seeded with `data`; where a key occurs more than once, its
    /// last occurrence wins.
    pub fn with_initial_data(data: Vec<(String, String)>) -> (r: Self)
        ensures
            r.wf(),
            r.entries() == fold_pairs(pairs_view(data@)),
    {
        let mut r = InMemoryKeyValueStore::new();
        let mut i: usize = 0;
        while i < data.len()
            invariant
                i <= data.len(),
                r.wf(),
                r.entries() == fold_pairs(pairs_view(data@.subrange(0, i as int))),
            decreases data.len() - i,
        {
            let key = data[i].0.clone();
            let value = data[i].1.clone();
            proof {
                let pre = data@.subrange(0, i as int);
                let next = data@.subrange(0, i + 1);
                assert(next.drop_last() =~= pre);
                assert(pairs_view(next).drop_last() =~= pairs_view(pre));
                assert(pairs_view(next).last() == (data@[i as int].0@, data@[i as int].1@));
            }
            r.put(key, value);
            i = i + 1;
        }
        assert(data@.subrange(0, data@.len() as int) =~= data@);
        r
    }

    /// Stores `value` under `key`, replacing what was there.
    fn put(&mut self, key: String, value: String)
        requires
            old(self).wf(),
        ensures
            final(self).wf(),
            final(self).entries() == old(self).entries().insert(key@, value@),
    {
        self.data.insert(key, value);
        assert(self.entries() =~= old(self).entries().insert(key@, value@));
    }

    /// A consistent store holds finitely many entries.
    pub proof fn lemma_wf_finite(s: &Self)
        requires
            s.wf(),
        ensures
            s.entries().dom().finite(),
    {
        assert(s.entries().dom() =~= s.data@.dom());
    }

    /// Whether an entry is stored under `key`.
    pub fn contains_key(&self, key: &str) -> (r: bool)
        ensures
            r == self.entries().contains_key(key@),
    {
        self.data.contains_key(key)
    }

    /// Stores `value` under `key` when `key` is a well-formed key that is not
    /// in use yet, and reports whether it did; otherwise nothing changes.
    pub fn insert_with_key(&mut self, key: String, value: String) -> (r: bool)
        requires
            old(self).wf(),
        ensures
            final(self).wf(),
            r == (is_key(key@) && !old(self).entries().contains_key(key@)),
            r ==> inserted(old(self).entries(), final(self).entries(), key@, value@),
            !r ==> final(self).entries() == old(self).entries(),
    {
        if !Self::is_well_formed_key(key.as_str()) || self.data.contains_key(key.as_str()) {
            return false;
        }
        self.put(key, value);
        true
    }

    /// Whether `key` has the shape of a generated key.
    pub fn is_well_formed_key(key: &str) -> (r: bool)
        ensures
            r == is_key(key@),
    {
        let n = key.unicode_len();
        if n != KEY_LENGTH {
            return false;
        }
        let mut i: usize = 0;
        while i < n
            invariant
                i <= n,
                n == key@.len(),
                forall|j: int| 0 <= j < i ==> is_key_char(#[trigger] key@[j]),
            decreases n - i,
        {
            let c = key.get_char(i);
            if !(('A' <= c && c <= 'Z') || ('a' <= c && c <= 'z') || ('0' <= c && c <= '9')) {
                return false;
            }
            i = i + 1;
        }
        true
    }

    /// `candidate` when it is a well-formed key that is not in use yet.
    pub fn key_if_unused(&self, candidate: String) -> (r: Option<String>)
        ensures
            r == (if is_key(candidate@) && !self.entries().contains_key(candidate@) {
                Some(candidate)
            } else {
                None
            }),
    {
        if Self::is_well_formed_key(candidate.as_str()) && !self.data.contains_key(candidate.as_str()) {
            Some(candidate)
        } else {
            None
        }
    }

    /// Draws random keys and returns the first that is not in use; gives up
    /// with `None` after `MAX_KEY_ATTEMPTS` draws, which can happen only when
    /// some well-formed key is in use.
    pub fn generate_unused_random_key(&self) -> (r: Option<String>)
        ensures
            match r {
                Some(key) => is_key(key@) && !self.entries().contains_key(key@),
                None => key_in_use(self.entries()),
            },
    {
        let mut attempts: usize = 0;
        while attempts < MAX_KEY_ATTEMPTS
            invariant
                attempts <= MAX_KEY_ATTEMPTS,
                attempts > 0 ==> key_in_use(self.entries()),
            decreases MAX_KEY_ATTEMPTS - attempts,
        {
            let candidate = random_alphanumeric(KEY_LENGTH);
            let ghost drawn = candidate@;
            match self.key_if_unused(candidate) {
                Some(key) => return Some(key),
                None => {
                    assert(self.entries().contains_key(drawn));
                },
            }
            attempts = attempts + 1;
        }
        None
    }
}

impl KeyValueStore for InMemoryKeyValueStore {
    closed spec fn wf(&self) -> bool {
        self.data@.dom().finite()
    }

    open spec fn writes_out(&self) -> bool {
        false
    }

    closed spec fn entries(&self) -> Map<Seq<char>, Seq<char>> {
        Map::new(|k: Seq<char>| self.data@.contains_key(k), |k: Seq<char>| self.data@[k]@)
    }

    fn insert(&mut self, value: String) -> (r: Result<String, StoreError>)
    {
        proof {
            Self::lemma_wf_finite(self);
        }
        match self.generate_unused_random_key() {
            Some(key) => {
                self.put(key.clone(), value);
                proof {
                    Self::lemma_wf_finite(self);
                }
                Ok(key)
            },
            None => Err(StoreError::KeyspaceExhausted),
        }
    }

    fn get(&self, key: &str) -> (r: Option<String>) {
        match self.data.get(key) {
            Some(v) => Some(v.clone()),
            None => None,
        }
    }
}

} // verus!
