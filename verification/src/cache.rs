//! The asset cache: a store from path key to processed asset with a
//! single-flight contract. A key is either absent, in flight (some caller
//! is computing it), or committed; a committed entry is immutable. The
//! transitions are modelled by spec functions over `CacheModel`, the
//! executable methods are proved against them, and the laws at the end
//! state the single-flight, immutability and isolation guarantees.

use vstd::prelude::*;

use crate::bytes::{bytes_eq, copy_bytes};
use crate::content::{category_of, spec_category_of, Encoding};
use crate::transform::{transform, transform_ok, TransformModel, TransformOutput};

verus! {

/// One committed cache record: the path key it is stored under and the
/// processed asset served for it.
pub struct CacheEntry {
    pub path_key: Vec<u8>,
    pub output: TransformOutput,
}

/// Mathematical model of the cache: the committed entries and the set of
/// keys whose computation is in flight.
#[verifier::ext_equal]
pub struct CacheModel {
    pub entries: Map<Seq<u8>, TransformModel>,
    pub pending: Set<Seq<u8>>,
}

/// No key is both in flight and committed.
pub open spec fn model_wf(m: CacheModel) -> bool {
    forall|k: Seq<u8>| m.pending.contains(k) ==> !m.entries.dom().contains(k)
}

/// A caller may become the computing party for `k`: nothing is committed
/// for `k` and nobody is computing it.
pub open spec fn lead_enabled(m: CacheModel, k: Seq<u8>) -> bool {
    !m.entries.dom().contains(k) && !m.pending.contains(k)
}

/// The step that makes a caller the computing party for `k`.
pub open spec fn begin_lead(m: CacheModel, k: Seq<u8>) -> CacheModel {
    CacheModel { entries: m.entries, pending: m.pending.insert(k) }
}

/// The step that commits the computed asset `t` for `k` and ends its
/// flight.
pub open spec fn commit_step(m: CacheModel, k: Seq<u8>, t: TransformModel) -> CacheModel {
    CacheModel { entries: m.entries.insert(k, t), pending: m.pending.remove(k) }
}

/// The step that abandons the flight for `k` without committing anything.
pub open spec fn abort_step(m: CacheModel, k: Seq<u8>) -> CacheModel {
    CacheModel { entries: m.entries, pending: m.pending.remove(k) }
}

spec fn entries_map(s: Seq<CacheEntry>) -> Map<Seq<u8>, TransformModel>
    decreases s.len(),
{
    if s.len() == 0 {
        Map::empty()
    } else {
        entries_map(s.drop_last()).insert(s.last().path_key@, s.last().output@)
    }
}

spec fn key_set(s: Seq<Vec<u8>>) -> Set<Seq<u8>>
    decreases s.len(),
{
    if s.len() == 0 {
        Set::empty()
    } else {
        key_set(s.drop_last()).insert(s.last()@)
    }
}

spec fn entry_keys_distinct(s: Seq<CacheEntry>) -> bool {
    forall|i: int, j: int| 0 <= i < j < s.len() ==> s[i].path_key@ != s[j].path_key@
}

spec fn pending_keys_distinct(s: Seq<Vec<u8>>) -> bool {
    forall|i: int, j: int| 0 <= i < j < s.len() ==> s[i]@ != s[j]@
}

proof fn lemma_entries_map_index(s: Seq<CacheEntry>, i: int)
    requires
        0 <= i < s.len(),
        entry_keys_distinct(s),
    ensures
        entries_map(s).dom().contains(s[i].path_key@),
        entries_map(s)[s[i].path_key@] == s[i].output@,
    decreases s.len(),
{
    if i < s.len() - 1 {
        assert(entry_keys_distinct(s.drop_last())) by {
            assert forall|p: int, q: int|
                0 <= p < q < s.drop_last().len() implies s.drop_last()[p].path_key@
                != s.drop_last()[q].path_key@ by {
                assert(s.drop_last()[p] == s[p]);
                assert(s.drop_last()[q] == s[q]);
            }
        }
        lemma_entries_map_index(s.drop_last(), i);
        assert(s.drop_last()[i] == s[i]);
        assert(s[i].path_key@ != s.last().path_key@);
    }
}

proof fn lemma_entries_map_absent(s: Seq<CacheEntry>, k: Seq<u8>)
    requires
        forall|i: int| 0 <= i < s.len() ==> s[i].path_key@ != k,
    ensures
        !entries_map(s).dom().contains(k),
    decreases s.len(),
{
    if s.len() > 0 {
        assert forall|i: int| 0 <= i < s.drop_last().len() implies s.drop_last()[i].path_key@
            != k by {
            assert(s.drop_last()[i] == s[i]);
        }
        lemma_entries_map_absent(s.drop_last(), k);
        assert(s.last() == s[s.len() - 1]);
    }
}

proof fn lemma_entries_map_push(s: Seq<CacheEntry>, e: CacheEntry)
    ensures
        entries_map(s.push(e)) == entries_map(s).insert(e.path_key@, e.output@),
{
    assert(s.push(e).drop_last() =~= s);
    assert(s.push(e).last() == e);
}

proof fn lemma_key_set_index(s: Seq<Vec<u8>>, i: int)
    requires
        0 <= i < s.len(),
    ensures
        key_set(s).contains(s[i]@),
    decreases s.len(),
{
    if i < s.len() - 1 {
        lemma_key_set_index(s.drop_last(), i);
        assert(s.drop_last()[i] == s[i]);
    }
}

proof fn lemma_key_set_absent(s: Seq<Vec<u8>>, k: Seq<u8>)
    requires
        forall|i: int| 0 <= i < s.len() ==> s[i]@ != k,
    ensures
        !key_set(s).contains(k),
    decreases s.len(),
{
    if s.len() > 0 {
        assert forall|i: int| 0 <= i < s.drop_last().len() implies s.drop_last()[i]@ != k by {
            assert(s.drop_last()[i] == s[i]);
        }
        lemma_key_set_absent(s.drop_last(), k);
        assert(s.last() == s[s.len() - 1]);
    }
}

proof fn lemma_key_set_witness(s: Seq<Vec<u8>>, k: Seq<u8>)
    requires
        key_set(s).contains(k),
    ensures
        exists|i: int| 0 <= i < s.len() && s[i]@ == k,
    decreases s.len(),
{
    if s.len() > 0 {
        if s.last()@ == k {
            assert(s[s.len() - 1]@ == k);
        } else {
            lemma_key_set_witness(s.drop_last(), k);
            let i = choose|i: int| 0 <= i < s.drop_last().len() && s.drop_last()[i]@ == k;
            assert(s[i]@ == k);
        }
    }
}

proof fn lemma_key_set_push(s: Seq<Vec<u8>>, v: Vec<u8>)
    ensures
        key_set(s.push(v)) == key_set(s).insert(v@),
{
    assert(s.push(v).drop_last() =~= s);
    assert(s.push(v).last() == v);
}

proof fn lemma_key_set_remove(s: Seq<Vec<u8>>, i: int)
    requires
        0 <= i < s.len(),
        pending_keys_distinct(s),
    ensures
        key_set(s.remove(i)) == key_set(s).remove(s[i]@),
    decreases s.len(),
{
    assert(pending_keys_distinct(s.drop_last())) by {
        assert forall|p: int, q: int|
            0 <= p < q < s.drop_last().len() implies s.drop_last()[p]@ != s.drop_last()[q]@ by {
            assert(s.drop_last()[p] == s[p]);
            assert(s.drop_last()[q] == s[q]);
        }
    }
    if i == s.len() - 1 {
        assert(s.remove(i) =~= s.drop_last());
        assert forall|j: int| 0 <= j < s.drop_last().len() implies s.drop_last()[j]@
            != s.last()@ by {
            assert(s.drop_last()[j] == s[j]);
        }
        lemma_key_set_absent(s.drop_last(), s.last()@);
        assert(key_set(s.drop_last()).insert(s.last()@).remove(s.last()@) =~= key_set(
            s.drop_last(),
        ));
    } else {
        lemma_key_set_remove(s.drop_last(), i);
        assert(s.remove(i).drop_last() =~= s.drop_last().remove(i));
        assert(s.remove(i).last() == s.last());
        assert(s.drop_last()[i] == s[i]);
        // the two sides differ only in the order of removing s[i] and
        // inserting the unrelated last element
        assert(key_set(s.drop_last()).remove(s[i]@).insert(s.last()@) =~= key_set(
            s.drop_last(),
        ).insert(s.last()@).remove(s[i]@)) by {
            assert(s[i]@ != s.last()@);
        }
    }
}

/// The concurrency-safe store from path key to processed asset. One
/// instance is created at startup and shared by every request task; its
/// methods are the steps a task takes under the store's lock, while the
/// slow work (loading and transforming) happens between them.
pub struct AssetCache {
    entries: Vec<CacheEntry>,
    pending: Vec<Vec<u8>>,
}

impl View for AssetCache {
    type V = CacheModel;

    closed spec fn view(&self) -> CacheModel {
        CacheModel { entries: entries_map(self.entries@), pending: key_set(self.pending@) }
    }
}

/// What `try_begin` found for a key: a committed asset (its bytes and
/// encoding), a flight already under way, or leave to compute it.
pub enum BeginOutcome {
    Hit(Vec<u8>, Encoding),
    Busy,
    Lead,
}

/// What one sequential lookup-or-compute round returned: the processed
/// bytes, a not-found report, or a flight already under way.
pub enum ComputeOutcome {
    Ready(Vec<u8>),
    Missing,
    Busy,
}

impl AssetCache {
    /// Well-formedness: committed keys are unique, in-flight keys are
    /// unique, and no key is both.
    pub closed spec fn wf(&self) -> bool {
        &&& entry_keys_distinct(self.entries@)
        &&& pending_keys_distinct(self.pending@)
        &&& forall|i: int, j: int|
            0 <= i < self.entries@.len() && 0 <= j < self.pending@.len()
                ==> self.entries@[i].path_key@ != self.pending@[j]@
    }

    /// A well-formed cache's model never holds a key as both committed
    /// and in flight.
    pub proof fn lemma_wf_implies_model_wf(self)
        requires
            self.wf(),
        ensures
            model_wf(self@),
    {
        assert forall|k: Seq<u8>| self@.pending.contains(k) implies !self@.entries.dom().contains(
            k,
        ) by {
            lemma_key_set_witness(self.pending@, k);
            let i = choose|i: int| 0 <= i < self.pending@.len() && self.pending@[i]@ == k;
            assert forall|j: int| 0 <= j < self.entries@.len() implies self.entries@[j].path_key@
                != k by {
                assert(self.entries@[j].path_key@ != self.pending@[i]@);
            }
            lemma_entries_map_absent(self.entries@, k);
        }
    }

    /// Creates the empty cache: nothing committed, nothing in flight.
    pub fn new() -> (c: AssetCache)
        ensures
            c.wf(),
            model_wf(c@),
            c@.entries == Map::<Seq<u8>, TransformModel>::empty(),
            c@.pending == Set::<Seq<u8>>::empty(),
    {
        let c = AssetCache { entries: Vec::new(), pending: Vec::new() };
        proof {
            c.lemma_wf_implies_model_wf();
        }
        c
    }

    fn find_entry_index(&self, key: &Vec<u8>) -> (r: Option<usize>)
        ensures
            r matches Some(i) ==> i < self.entries@.len() && self.entries@[i as int].path_key@
                == key@,
            r is None ==> forall|i: int|
                0 <= i < self.entries@.len() ==> self.entries@[i].path_key@ != key@,
    {
        let n = self.entries.len();
        let mut i: usize = 0;
        while i < n
            invariant
                i <= n,
                n == self.entries@.len(),
                forall|j: int| 0 <= j < i ==> self.entries@[j].path_key@ != key@,
            decreases n - i,
        {
            if bytes_eq(&self.entries[i].path_key, key) {
                return Some(i);
            }
            i = i + 1;
        }
        None
    }

    fn find_pending_index(&self, key: &Vec<u8>) -> (r: Option<usize>)
        ensures
            r matches Some(i) ==> i < self.pending@.len() && self.pending@[i as int]@ == key@,
            r is None ==> forall|i: int| 0 <= i < self.pending@.len() ==> self.pending@[i]@ != key@,
    {
        let n = self.pending.len();
        let mut i: usize = 0;
        while i < n
            invariant
                i <= n,
                n == self.pending@.len(),
                forall|j: int| 0 <= j < i ==> self.pending@[j]@ != key@,
            decreases n - i,
        {
            if bytes_eq(&self.pending[i], key) {
                return Some(i);
            }
            i = i + 1;
        }
        None
    }

    /// Reports whether a computation for `key` is in flight.
    pub fn is_pending(&self, key: &Vec<u8>) -> (r: bool)
        ensures
            r == self@.pending.contains(key@),
    {
        match self.find_pending_index(key) {
            Some(i) => {
                proof {
                    lemma_key_set_index(self.pending@, i as int);
                }
                true
            },
            None => {
                proof {
                    lemma_key_set_absent(self.pending@, key@);
                }
                false
            },
        }
    }

    /// Non-blocking read: the committed asset for `key`, if one exists.
    pub fn get(&self, key: &Vec<u8>) -> (r: Option<&TransformOutput>)
        requires
            self.wf(),
        ensures
            r matches Some(t) ==> self@.entries.dom().contains(key@) && t@ == self@.entries[key@],
            r is None ==> !self@.entries.dom().contains(key@),
    {
        match self.find_entry_index(key) {
            Some(i) => {
                proof {
                    lemma_entries_map_index(self.entries@, i as int);
                }
                Some(&self.entries[i].output)
            },
            None => {
                proof {
                    lemma_entries_map_absent(self.entries@, key@);
                }
                None
            },
        }
    }

    /// One atomic step of `get_or_compute`: report a hit, report a flight
    /// under way, or make the caller the computing party for `key`. At
    /// most one caller can obtain `Lead` per key until that flight commits
    /// or aborts.
    pub fn try_begin(&mut self, key: &Vec<u8>) -> (r: BeginOutcome)
        requires
            old(self).wf(),
        ensures
            final(self).wf(),
            model_wf(final(self)@),
            (r is Hit <==> old(self)@.entries.dom().contains(key@)),
            r matches BeginOutcome::Hit(b, e) ==> final(self)@ == old(self)@ && b@ == old(
                self,
            )@.entries[key@].body && e == old(self)@.entries[key@].encoding,
            (r is Busy <==> !old(self)@.entries.dom().contains(key@) && old(
                self,
            )@.pending.contains(key@)),
            r is Busy ==> final(self)@ == old(self)@,
            (r is Lead <==> lead_enabled(old(self)@, key@)),
            r is Lead ==> final(self)@ == begin_lead(old(self)@, key@),
    {
        match self.find_entry_index(key) {
            Some(i) => {
                proof {
                    lemma_entries_map_index(self.entries@, i as int);
                    self.lemma_wf_implies_model_wf();
                }
                let b = copy_bytes(&self.entries[i].output.body);
                let e = self.entries[i].output.encoding;
                BeginOutcome::Hit(b, e)
            },
            None => {
                proof {
                    lemma_entries_map_absent(self.entries@, key@);
                }
                match self.find_pending_index(key) {
                    Some(j) => {
                        proof {
                            lemma_key_set_index(self.pending@, j as int);
                            self.lemma_wf_implies_model_wf();
                        }
                        BeginOutcome::Busy
                    },
                    None => {
                        proof {
                            lemma_key_set_absent(self.pending@, key@);
                        }
                        let kcopy = copy_bytes(key);
                        let ghost p0 = self.pending@;
                        let ghost kv = kcopy@;
                        self.pending.push(kcopy);
                        proof {
                            lemma_key_set_push(p0, self.pending@.last());
                            assert(self.pending@ =~= p0.push(self.pending@.last()));
                            assert(self.pending@.last()@ == key@);
                            assert(pending_keys_distinct(self.pending@)) by {
                                assert forall|a: int, b: int|
                                    0 <= a < b < self.pending@.len() implies self.pending@[a]@
                                    != self.pending@[b]@ by {
                                    if b < p0.len() {
                                        assert(self.pending@[a] == p0[a]);
                                        assert(self.pending@[b] == p0[b]);
                                    } else {
                                        assert(self.pending@[a] == p0[a]);
                                        assert(self.pending@[b]@ == kv);
                                    }
                                }
                            }
                            assert(self.wf());
                            self.lemma_wf_implies_model_wf();
                            assert(self@ =~= begin_lead(old(self)@, key@));
                        }
                        BeginOutcome::Lead
                    },
                }
            },
        }
    }

    fn remove_pending(&mut self, key: &Vec<u8>)
        requires
            old(self).wf(),
            old(self)@.pending.contains(key@),
        ensures
            final(self).wf(),
            final(self).entries@ == old(self).entries@,
            final(self)@.entries == old(self)@.entries,
            final(self)@.pending == old(self)@.pending.remove(key@),
    {
        let idx_opt = self.find_pending_index(key);
        proof {
            if idx_opt is None {
                lemma_key_set_absent(self.pending@, key@);
            }
        }
        let i = idx_opt.unwrap();
        let ghost p0 = self.pending@;
        self.pending.remove(i);
        proof {
            lemma_key_set_remove(p0, i as int);
            assert(self.pending@ == p0.remove(i as int));
            assert(pending_keys_distinct(self.pending@)) by {
                assert forall|a: int, b: int|
                    0 <= a < b < self.pending@.len() implies self.pending@[a]@
                    != self.pending@[b]@ by {
                    let a0: int = if a < i { a } else { a + 1 };
                    let b0: int = if b < i { b } else { b + 1 };
                    assert(self.pending@[a] == p0[a0]);
                    assert(self.pending@[b] == p0[b0]);
                }
            }
            assert forall|p: int, q: int|
                0 <= p < self.entries@.len() && 0 <= q < self.pending@.len() implies self.entries@[
                p].path_key@ != self.pending@[q]@ by {
                let q0: int = if q < i { q } else { q + 1 };
                assert(self.pending@[q] == p0[q0]);
            }
        }
    }

    /// Ends the flight for `key` by committing `output`; every later
    /// lookup of `key` observes exactly this asset.
    pub fn commit(&mut self, key: &Vec<u8>, output: TransformOutput)
        requires
            old(self).wf(),
            old(self)@.pending.contains(key@),
        ensures
            final(self).wf(),
            model_wf(final(self)@),
            final(self)@ == commit_step(old(self)@, key@, output@),
    {
        proof {
            self.lemma_wf_implies_model_wf();
        }
        self.remove_pending(key);
        let ghost e0 = self.entries@;
        let ghost p_after = self@.pending;
        let entry = CacheEntry { path_key: copy_bytes(key), output };
        self.entries.push(entry);
        proof {
            lemma_entries_map_push(e0, self.entries@.last());
            assert(self.entries@ =~= e0.push(self.entries@.last()));
            // the committed key was in flight, so it was not among the
            // committed keys
            assert forall|i: int| 0 <= i < e0.len() implies e0[i].path_key@ != key@ by {
                lemma_entries_map_index(e0, i);
            }
            assert(entry_keys_distinct(self.entries@)) by {
                assert forall|a: int, b: int|
                    0 <= a < b < self.entries@.len() implies self.entries@[a].path_key@
                    != self.entries@[b].path_key@ by {
                    if b < e0.len() {
                        assert(self.entries@[a] == e0[a]);
                        assert(self.entries@[b] == e0[b]);
                    } else {
                        assert(self.entries@[a] == e0[a]);
                    }
                }
            }
            assert forall|p: int, q: int|
                0 <= p < self.entries@.len() && 0 <= q < self.pending@.len() implies self.entries@[
                p].path_key@ != self.pending@[q]@ by {
                lemma_key_set_index(self.pending@, q);
                if p < e0.len() {
                    assert(self.entries@[p] == e0[p]);
                } else {
                    assert(self.entries@[p].path_key@ == key@);
                    assert(p_after.contains(self.pending@[q]@));
                }
            }
            self.lemma_wf_implies_model_wf();
            assert(self@ =~= commit_step(old(self)@, key@, output@));
        }
    }

    /// Ends the flight for `key` without committing anything: the cache
    /// gains no entry, and a later call is free to retry the computation.
    pub fn abort(&mut self, key: &Vec<u8>)
        requires
            old(self).wf(),
            old(self)@.pending.contains(key@),
        ensures
            final(self).wf(),
            model_wf(final(self)@),
            final(self)@ == abort_step(old(self)@, key@),
    {
        self.remove_pending(key);
        proof {
            self.lemma_wf_implies_model_wf();
            assert(self@ =~= abort_step(old(self)@, key@));
        }
    }

    /// One sequential lookup-or-compute round: a hit returns the cached
    /// bytes at once; on a miss the caller's loaded raw bytes (or their
    /// absence) decide between transform-and-commit and an aborted flight;
    /// a key already in flight is reported busy and nothing changes.
    pub fn get_or_compute(&mut self, key: &Vec<u8>, loaded: Option<Vec<u8>>) -> (r: ComputeOutcome)
        requires
            old(self).wf(),
        ensures
            final(self).wf(),
            model_wf(final(self)@),
            old(self)@.entries.dom().contains(key@) ==> final(self)@ == old(self)@ && (r matches
                ComputeOutcome::Ready(b) && b@ == old(self)@.entries[key@].body),
            !old(self)@.entries.dom().contains(key@) && old(self)@.pending.contains(key@)
                ==> final(self)@ == old(self)@ && r is Busy,
            lead_enabled(old(self)@, key@) && loaded is None ==> final(self)@ == old(self)@ && r
                is Missing,
            lead_enabled(old(self)@, key@) ==> (loaded matches Some(raw) ==> r matches ComputeOutcome::Ready(b)
                && exists|t: TransformModel|
                {
                    &&& #[trigger] transform_ok(raw@, spec_category_of(key@), t)
                    &&& final(self)@ == commit_step(begin_lead(old(self)@, key@), key@, t)
                    &&& b@ == t.body
                }),
            lead_enabled(old(self)@, key@) && loaded is Some ==> final(self)@.pending == old(
                self,
            )@.pending,
    {
        match self.try_begin(key) {
            BeginOutcome::Hit(b, _e) => ComputeOutcome::Ready(b),
            BeginOutcome::Busy => ComputeOutcome::Busy,
            BeginOutcome::Lead => {
                match loaded {
                    None => {
                        self.abort(key);
                        proof {
                            assert(self@ =~= old(self)@);
                        }
                        ComputeOutcome::Missing
                    },
                    Some(raw) => {
                        let cat = category_of(key);
                        let out = transform(raw, cat);
                        let body = copy_bytes(&out.body);
                        self.commit(key, out);
                        proof {
                            assert(self@.pending =~= old(self)@.pending);
                        }
                        ComputeOutcome::Ready(body)
                    },
                }
            },
        }
    }
}

/// Law (single-flight): once a caller has become the computing party for a
/// key, no further caller can become one for that key until the flight
/// commits or aborts.
pub proof fn lemma_single_flight(m: CacheModel, k: Seq<u8>)
    requires
        lead_enabled(m, k),
    ensures
        !lead_enabled(begin_lead(m, k), k),
{
}

/// Law (retry after abort): an aborted flight leaves the cache exactly as
/// it was before the flight began, so a later call may retry the key.
pub proof fn lemma_abort_restores(m: CacheModel, k: Seq<u8>)
    requires
        lead_enabled(m, k),
    ensures
        abort_step(begin_lead(m, k), k) == m,
{
    assert(abort_step(begin_lead(m, k), k) =~= m);
}

/// Law (idempotence): a committed entry is immutable. A step for any other
/// key — a new flight, a commit, an abort — leaves the entry for `k`
/// exactly as it was, so repeated lookups of `k` return byte-identical
/// output; and while `k` is committed, no flight for `k` can exist in a
/// well-formed cache, so no step can replace it.
pub proof fn lemma_idempotence(m: CacheModel, k: Seq<u8>, j: Seq<u8>, t: TransformModel)
    requires
        model_wf(m),
        m.entries.dom().contains(k),
        j != k,
    ensures
        !m.pending.contains(k),
        begin_lead(m, j).entries[k] == m.entries[k],
        commit_step(m, j, t).entries.dom().contains(k),
        commit_step(m, j, t).entries[k] == m.entries[k],
        abort_step(m, j).entries[k] == m.entries[k],
{
}

/// Law (isolation): a step for key `j` never disturbs the committed entry
/// or the in-flight status of a different key `k`.
pub proof fn lemma_isolation(m: CacheModel, j: Seq<u8>, k: Seq<u8>, t: TransformModel)
    requires
        j != k,
    ensures
        begin_lead(m, j).entries.dom().contains(k) == m.entries.dom().contains(k),
        begin_lead(m, j).pending.contains(k) == m.pending.contains(k),
        commit_step(m, j, t).entries.dom().contains(k) == m.entries.dom().contains(k),
        commit_step(m, j, t).pending.contains(k) == m.pending.contains(k),
        abort_step(m, j).entries.dom().contains(k) == m.entries.dom().contains(k),
        abort_step(m, j).pending.contains(k) == m.pending.contains(k),
        m.entries.dom().contains(k) ==> begin_lead(m, j).entries[k] == m.entries[k]
            && commit_step(m, j, t).entries[k] == m.entries[k] && abort_step(m, j).entries[k]
            == m.entries[k],
{
}

} // verus!
