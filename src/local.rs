//! An in-process cluster with the cache semantics that the gateway documents:
//! named caches of text keys and values, created idempotently, written
//! last-write-wins, and emptied for good when destroyed. Code that drives the
//! client can be exercised against it without a running cluster.
//!
//! The laws at the end of this file are proved of this model alone. What a
//! real cluster answers is up to the cluster; the client's decoders only
//! report its answers exactly.

use vstd::prelude::*;
use vstd::string::StringExecFns;
use crate::text::{is_identifier, is_valid_identifier};

verus! {

/// The contents of every cache, by name.
pub type ClusterModel = Map<Seq<char>, Map<Seq<char>, Seq<char>>>;

/// Why a cache administration or key/value operation failed.
#[derive(PartialEq, Eq, Structural, Clone, Copy, Debug)]
pub enum AdminError {
    /// The cache name is refused.
    BadName,
    /// No cache has that name.
    NoSuchCache,
}

/// The map of a list of named entries; a later entry wins.
pub open spec fn pairs_map<V>(s: Seq<(Seq<char>, V)>) -> Map<Seq<char>, V>
    decreases s.len(),
{
    if s.len() == 0 {
        Map::empty()
    } else {
        pairs_map(s.drop_last()).insert(s.last().0, s.last().1)
    }
}

/// No two entries share a name.
pub open spec fn distinct_names<V>(s: Seq<(Seq<char>, V)>) -> bool {
    forall|i: int, j: int| 0 <= i < j < s.len() ==> s[i].0 != s[j].0
}

proof fn lemma_pairs_absent<V>(s: Seq<(Seq<char>, V)>, k: Seq<char>)
    requires
        forall|i: int| 0 <= i < s.len() ==> (#[trigger] s[i]).0 != k,
    ensures
        !pairs_map(s).contains_key(k),
    decreases s.len(),
{
    if s.len() > 0 {
        assert(s.last() == s[s.len() - 1]);
        assert forall|i: int| 0 <= i < s.drop_last().len() implies (#[trigger] s.drop_last()[i]).0
            != k by {
            assert(s.drop_last()[i] == s[i]);
        }
        lemma_pairs_absent(s.drop_last(), k);
    }
}

proof fn lemma_pairs_lookup<V>(s: Seq<(Seq<char>, V)>, i: int)
    requires
        distinct_names(s),
        0 <= i < s.len(),
    ensures
        pairs_map(s).contains_key(s[i].0),
        pairs_map(s)[s[i].0] == s[i].1,
    decreases s.len(),
{
    if i < s.len() - 1 {
        let d = s.drop_last();
        assert(d[i] == s[i]);
        lemma_pairs_lookup(d, i);
        assert(s.last().0 != s[i].0);
    }
}

proof fn lemma_pairs_update<V>(s: Seq<(Seq<char>, V)>, i: int, v: V)
    requires
        distinct_names(s),
        0 <= i < s.len(),
    ensures
        pairs_map(s.update(i, (s[i].0, v))) =~= pairs_map(s).insert(s[i].0, v),
        distinct_names(s.update(i, (s[i].0, v))),
    decreases s.len(),
{
    let t = s.update(i, (s[i].0, v));
    let d = s.drop_last();
    if i == s.len() - 1 {
        assert(t.drop_last() =~= d);
    } else {
        assert(t.drop_last() =~= d.update(i, (d[i].0, v)));
        lemma_pairs_update(d, i, v);
        assert(s.last().0 != s[i].0);
    }
}

proof fn lemma_pairs_remove<V>(s: Seq<(Seq<char>, V)>, i: int)
    requires
        distinct_names(s),
        0 <= i < s.len(),
    ensures
        pairs_map(s.remove(i)) =~= pairs_map(s).remove(s[i].0),
        distinct_names(s.remove(i)),
    decreases s.len(),
{
    let d = s.drop_last();
    if i == s.len() - 1 {
        assert(s.remove(i) =~= d);
        assert forall|j: int| 0 <= j < d.len() implies (#[trigger] d[j]).0 != s[i].0 by {
            assert(d[j] == s[j]);
        }
        lemma_pairs_absent(d, s[i].0);
    } else {
        assert(s.remove(i).drop_last() =~= d.remove(i));
        assert(s.remove(i).last() == s.last());
        lemma_pairs_remove(d, i);
        assert(s.last().0 != s[i].0);
    }
}

proof fn lemma_pairs_push<V>(s: Seq<(Seq<char>, V)>, k: Seq<char>, v: V)
    requires
        distinct_names(s),
        !pairs_map(s).contains_key(k),
    ensures
        pairs_map(s.push((k, v))) == pairs_map(s).insert(k, v),
        distinct_names(s.push((k, v))),
{
    assert(s.push((k, v)).drop_last() =~= s);
    assert forall|i: int| 0 <= i < s.len() implies (#[trigger] s[i]).0 != k by {
        lemma_pairs_lookup(s, i);
    }
}

/// One cache of the local cluster.
pub struct LocalCache {
    name: String,
    entries: Vec<(String, String)>,
}

/// A cluster held in memory.
pub struct LocalCluster {
    caches: Vec<LocalCache>,
}

pub open spec fn entries_view(e: Seq<(String, String)>) -> Seq<(Seq<char>, Seq<char>)> {
    e.map_values(|p: (String, String)| (p.0@, p.1@))
}

pub closed spec fn caches_view(c: Seq<LocalCache>) -> Seq<(Seq<char>, Map<Seq<char>, Seq<char>>)> {
    c.map_values(|lc: LocalCache| (lc.name@, pairs_map(entries_view(lc.entries@))))
}

/// The state of a cluster after `ensure_cache(name)`.
pub open spec fn ensured(m: ClusterModel, name: Seq<char>) -> ClusterModel {
    if is_identifier(name) && !m.contains_key(name) {
        m.insert(name, Map::empty())
    } else {
        m
    }
}

/// What `ensure_cache(name)` answers, whatever the cluster holds.
pub open spec fn ensure_result(name: Seq<char>) -> Result<(), AdminError> {
    if is_identifier(name) {
        Ok(())
    } else {
        Err(AdminError::BadName)
    }
}

/// The state of a cluster after `destroy_cache(name)`.
pub open spec fn destroyed(m: ClusterModel, name: Seq<char>) -> ClusterModel {
    m.remove(name)
}

/// The state of a cluster after `put(cache, key, value)`.
pub open spec fn stored(m: ClusterModel, cache: Seq<char>, key: Seq<char>, value: Seq<char>) -> ClusterModel {
    if m.contains_key(cache) {
        m.insert(cache, m[cache].insert(key, value))
    } else {
        m
    }
}

/// What `get(cache, key)` answers: the value, "absent", or that there is no
/// such cache.
pub open spec fn lookup(m: ClusterModel, cache: Seq<char>, key: Seq<char>) -> Result<Option<Seq<char>>, AdminError> {
    if !m.contains_key(cache) {
        Err(AdminError::NoSuchCache)
    } else if m[cache].contains_key(key) {
        Ok(Some(m[cache][key]))
    } else {
        Ok(None)
    }
}

/// Views a lookup's result as the text it holds.
pub open spec fn value_view(r: Result<Option<String>, AdminError>) -> Result<Option<Seq<char>>, AdminError> {
    match r {
        Ok(Some(s)) => Ok(Some(s@)),
        Ok(None) => Ok(None),
        Err(e) => Err(e),
    }
}

impl View for LocalCluster {
    type V = ClusterModel;

    closed spec fn view(&self) -> ClusterModel {
        pairs_map(caches_view(self.caches@))
    }
}

impl LocalCluster {
    /// Names are distinct among caches and among the keys of each cache.
    pub closed spec fn wf(&self) -> bool {
        &&& distinct_names(caches_view(self.caches@))
        &&& forall|i: int|
            0 <= i < self.caches@.len() ==> distinct_names(
                entries_view(#[trigger] self.caches@[i].entries@),
            )
    }

    /// A cluster without caches.
    pub fn new() -> (r: LocalCluster)
        ensures
            r.wf(),
            r@ == ClusterModel::empty(),
    {
        let r = LocalCluster { caches: Vec::new() };
        assert(caches_view(r.caches@) =~= Seq::empty());
        r
    }

    fn find_cache(&self, name: &String) -> (r: Option<usize>)
        ensures
            match r {
                Some(i) => i < self.caches@.len() && self.caches@[i as int].name@ == name@,
                None => forall|i: int| 0 <= i < self.caches@.len() ==> (#[trigger] self.caches@[i]).name@ != name@,
            },
    {
        let mut i: usize = 0;
        while i < self.caches.len()
            invariant
                i <= self.caches@.len(),
                forall|j: int| 0 <= j < i ==> (#[trigger] self.caches@[j]).name@ != name@,
            decreases self.caches@.len() - i,
        {
            if self.caches[i].name == *name {
                return Some(i);
            }
            i = i + 1;
        }
        None
    }

    proof fn lemma_cache_lookup(&self, i: int)
        requires
            self.wf(),
            0 <= i < self.caches@.len(),
        ensures
            self@.contains_key(self.caches@[i].name@),
            self@[self.caches@[i].name@] == pairs_map(entries_view(self.caches@[i].entries@)),
    {
        lemma_pairs_lookup(caches_view(self.caches@), i);
    }

    proof fn lemma_cache_absent(&self, name: Seq<char>)
        requires
            forall|i: int| 0 <= i < self.caches@.len() ==> (#[trigger] self.caches@[i]).name@ != name,
        ensures
            !self@.contains_key(name),
    {
        let cv = caches_view(self.caches@);
        assert forall|i: int| 0 <= i < cv.len() implies (#[trigger] cv[i]).0 != name by {
            assert(cv[i].0 == self.caches@[i].name@);
        }
        lemma_pairs_absent(cv, name);
    }

    /// Creates the cache `name` unless it exists. Fails only on a refused name.
    pub fn ensure_cache(&mut self, name: &str) -> (r: Result<(), AdminError>)
        requires
            old(self).wf(),
        ensures
            final(self).wf(),
            r == ensure_result(name@),
            final(self)@ == ensured(old(self)@, name@),
    {
        if !is_valid_identifier(name) {
            return Err(AdminError::BadName);
        }
        let key = String::from_str(name);
        match self.find_cache(&key) {
            Some(i) => {
                proof {
                    self.lemma_cache_lookup(i as int);
                }
                Ok(())
            },
            None => {
                proof {
                    self.lemma_cache_absent(name@);
                }
                let ghost before = self.caches@;
                let empty: Vec<(String, String)> = Vec::new();
                assert(entries_view(empty@) =~= Seq::empty());
                self.caches.push(LocalCache { name: key, entries: empty });
                assert(caches_view(self.caches@) =~= caches_view(before).push(
                    (name@, pairs_map(Seq::<(Seq<char>, Seq<char>)>::empty())),
                ));
                proof {
                    lemma_pairs_push(caches_view(before), name@, Map::empty());
                    assert(pairs_map(Seq::<(Seq<char>, Seq<char>)>::empty()) =~= Map::empty());
                    assert forall|i: int| 0 <= i < self.caches@.len() implies distinct_names(
                        entries_view(#[trigger] self.caches@[i].entries@),
                    ) by {
                        if i < before.len() {
                            assert(self.caches@[i] == before[i]);
                        }
                    }
                }
                Ok(())
            },
        }
    }

    /// Deletes the cache `name` and all its contents; fails where there is no
    /// such cache.
    pub fn destroy_cache(&mut self, name: &str) -> (r: Result<(), AdminError>)
        requires
            old(self).wf(),
        ensures
            final(self).wf(),
            r == (if old(self)@.contains_key(name@) {
                Ok::<(), AdminError>(())
            } else {
                Err(AdminError::NoSuchCache)
            }),
            final(self)@ == destroyed(old(self)@, name@),
    {
        let key = String::from_str(name);
        match self.find_cache(&key) {
            Some(i) => {
                proof {
                    self.lemma_cache_lookup(i as int);
                }
                let ghost before = self.caches@;
                self.caches.remove(i);
                assert(caches_view(self.caches@) =~= caches_view(before).remove(i as int));
                proof {
                    lemma_pairs_remove(caches_view(before), i as int);
                    assert forall|j: int| 0 <= j < self.caches@.len() implies distinct_names(
                        entries_view(#[trigger] self.caches@[j].entries@),
                    ) by {
                        if j < i {
                            assert(self.caches@[j] == before[j]);
                        } else {
                            assert(self.caches@[j] == before[j + 1]);
                        }
                    }
                }
                Ok(())
            },
            None => {
                proof {
                    self.lemma_cache_absent(name@);
                    assert(self@.remove(name@) =~= self@);
                }
                Err(AdminError::NoSuchCache)
            },
        }
    }

    /// Stores `value` under `key` in cache `cache`, replacing what was there.
    pub fn put(&mut self, cache: &str, key: &str, value: &str) -> (r: Result<(), AdminError>)
        requires
            old(self).wf(),
        ensures
            final(self).wf(),
            r == (if old(self)@.contains_key(cache@) {
                Ok::<(), AdminError>(())
            } else {
                Err(AdminError::NoSuchCache)
            }),
            final(self)@ == stored(old(self)@, cache@, key@, value@),
    {
        let name = String::from_str(cache);
        let i = match self.find_cache(&name) {
            Some(i) => i,
            None => {
                proof {
                    self.lemma_cache_absent(cache@);
                }
                return Err(AdminError::NoSuchCache);
            },
        };
        proof {
            self.lemma_cache_lookup(i as int);
        }
        let ghost before = self.caches@;
        let mut c = self.caches.remove(i);
        let ghost old_entries = entries_view(c.entries@);
        let k = String::from_str(key);
        let v = String::from_str(value);
        let mut j: usize = 0;
        while j < c.entries.len() && !(c.entries[j].0 == k)
            invariant
                j <= c.entries@.len(),
                k@ == key@,
                c.entries@ == before[i as int].entries@,
                forall|l: int| 0 <= l < j ==> (#[trigger] c.entries@[l]).0@ != key@,
            decreases c.entries@.len() - j,
        {
            j = j + 1;
        }
        assert(distinct_names(old_entries));
        if j < c.entries.len() {
            c.entries[j] = (k, v);
            proof {
                assert(entries_view(c.entries@) =~= old_entries.update(j as int, (old_entries[j as int].0, value@)));
                lemma_pairs_update(old_entries, j as int, value@);
            }
        } else {
            proof {
                assert forall|l: int| 0 <= l < old_entries.len() implies (#[trigger] old_entries[l]).0 != key@ by {
                    assert(old_entries[l].0 == c.entries@[l].0@);
                }
                lemma_pairs_absent(old_entries, key@);
            }
            c.entries.push((k, v));
            proof {
                assert(entries_view(c.entries@) =~= old_entries.push((key@, value@)));
                lemma_pairs_push(old_entries, key@, value@);
            }
        }
        let ghost new_entry = (cache@, pairs_map(entries_view(c.entries@)));
        self.caches.insert(i, c);
        proof {
            let cv = caches_view(before);
            assert(self.caches@ =~= before.update(i as int, self.caches@[i as int]));
            assert(caches_view(self.caches@) =~= cv.update(i as int, (cv[i as int].0, new_entry.1)));
            lemma_pairs_update(cv, i as int, new_entry.1);
            assert forall|l: int| 0 <= l < self.caches@.len() implies distinct_names(
                entries_view(#[trigger] self.caches@[l].entries@),
            ) by {
                if l != i {
                    assert(self.caches@[l] == before[l]);
                }
            }
        }
        Ok(())
    }

    /// Looks `key` up in cache `cache`: its value, `None` where it is absent,
    /// or an error where there is no such cache.
    pub fn get(&self, cache: &str, key: &str) -> (r: Result<Option<String>, AdminError>)
        requires
            self.wf(),
        ensures
            value_view(r) == lookup(self@, cache@, key@),
    {
        let name = String::from_str(cache);
        let i = match self.find_cache(&name) {
            Some(i) => i,
            None => {
                proof {
                    self.lemma_cache_absent(cache@);
                }
                return Err(AdminError::NoSuchCache);
            },
        };
        proof {
            self.lemma_cache_lookup(i as int);
        }
        let entries = &self.caches[i].entries;
        let ghost ev = entries_view(entries@);
        let k = String::from_str(key);
        let mut j: usize = 0;
        while j < entries.len()
            invariant
                j <= entries@.len(),
                k@ == key@,
                distinct_names(ev),
                self@.contains_key(cache@),
                self@[cache@] == pairs_map(ev),
                ev == entries_view(entries@),
                forall|l: int| 0 <= l < j ==> (#[trigger] entries@[l]).0@ != key@,
            decreases entries@.len() - j,
        {
            if entries[j].0 == k {
                proof {
                    lemma_pairs_lookup(ev, j as int);
                    assert(ev[j as int] == (entries@[j as int].0@, entries@[j as int].1@));
                }
                return Ok(Some(entries[j].1.clone()));
            }
            j = j + 1;
        }
        proof {
            assert forall|l: int| 0 <= l < ev.len() implies (#[trigger] ev[l]).0 != key@ by {
                assert(ev[l].0 == entries@[l].0@);
            }
            lemma_pairs_absent(ev, key@);
        }
        Ok(None)
    }
}

/// A cache that was just created holds no key: every lookup in it answers
/// "absent", not an error.
pub proof fn law_new_cache_is_empty(m: ClusterModel, cache: Seq<char>, key: Seq<char>)
    requires
        is_identifier(cache),
        !m.contains_key(cache),
    ensures
        lookup(ensured(m, cache), cache, key) == Ok::<Option<Seq<char>>, AdminError>(None),
{
}

/// Storing one key leaves every other key of every cache as it was, so a key
/// that was never stored stays absent.
pub proof fn law_put_leaves_other_keys(
    m: ClusterModel,
    cache: Seq<char>,
    key: Seq<char>,
    value: Seq<char>,
    other_cache: Seq<char>,
    other_key: Seq<char>,
)
    requires
        cache != other_cache || key != other_key,
    ensures
        lookup(stored(m, cache, key, value), other_cache, other_key) == lookup(m, other_cache, other_key),
{
}

/// A lookup after a put in an existing cache answers the value put.
pub proof fn law_put_then_get(m: ClusterModel, cache: Seq<char>, key: Seq<char>, value: Seq<char>)
    requires
        m.contains_key(cache),
    ensures
        lookup(stored(m, cache, key, value), cache, key) == Ok::<Option<Seq<char>>, AdminError>(Some(value)),
{
}

/// Of two puts of one key the second wins: the state is that of the second
/// put alone, and a lookup answers its value.
pub proof fn law_last_write_wins(
    m: ClusterModel,
    cache: Seq<char>,
    key: Seq<char>,
    first: Seq<char>,
    second: Seq<char>,
)
    requires
        m.contains_key(cache),
    ensures
        stored(stored(m, cache, key, first), cache, key, second) == stored(m, cache, key, second),
        lookup(stored(stored(m, cache, key, first), cache, key, second), cache, key) == Ok::<
            Option<Seq<char>>,
            AdminError,
        >(Some(second)),
{
    assert(m[cache].insert(key, first).insert(key, second) =~= m[cache].insert(key, second));
    assert(stored(stored(m, cache, key, first), cache, key, second) =~= stored(m, cache, key, second));
}

/// Ensuring a cache twice succeeds both times, and the second call changes
/// nothing.
pub proof fn law_ensure_is_idempotent(m: ClusterModel, name: Seq<char>)
    requires
        is_identifier(name),
    ensures
        ensure_result(name) == Ok::<(), AdminError>(()),
        ensured(m, name).contains_key(name),
        ensured(ensured(m, name), name) == ensured(m, name),
{
}

/// Destroying a cache forgets all its keys: a lookup then fails for want of
/// the cache, and once the cache is created again it answers "absent".
pub proof fn law_destroy_forgets(m: ClusterModel, cache: Seq<char>, key: Seq<char>)
    ensures
        lookup(destroyed(m, cache), cache, key) == Err::<Option<Seq<char>>, AdminError>(
            AdminError::NoSuchCache,
        ),
        is_identifier(cache) ==> lookup(ensured(destroyed(m, cache), cache), cache, key) == Ok::<
            Option<Seq<char>>,
            AdminError,
        >(None),
{
}

} // verus!
