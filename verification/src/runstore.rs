use std::collections::BTreeSet;
use vstd::prelude::*;
use crate::naming::{hex_id, path_join, spec_hex_id, spec_path_join};
use crate::runspec::{RunState, RunStateView};
use crate::text::{lemma_lex_asym, lemma_lex_irreflexive, lemma_lex_total, lemma_lex_trans, lex_lt, owned, push_str, str_eq, str_lt, strictly_sorted};
use vstd::string::StringSliceAdditionalSpecFns;

verus! {

/// Version of the checkpoint format written by this runtime.
pub const CHECKPOINT_SCHEMA_VERSION: u32 = 1;

/// A checkpoint of a run.
#[derive(Debug)]
pub struct RunStoreRecord {
    pub checkpoint_version: u32,
    pub run_id: String,
    pub spec_digest: String,
    pub last_sequence: u64,
    pub writer_epoch: u64,
    pub applied_commit_ids: BTreeSet<String>,
    pub state: RunState,
}

pub struct RunStoreRecordView {
    pub checkpoint_version: u32,
    pub run_id: Seq<char>,
    pub spec_digest: Seq<char>,
    pub last_sequence: u64,
    pub writer_epoch: u64,
    pub applied_commit_ids: Set<String>,
    pub state: RunStateView,
}

impl View for RunStoreRecord {
    type V = RunStoreRecordView;

    open spec fn view(&self) -> RunStoreRecordView {
        RunStoreRecordView {
            checkpoint_version: self.checkpoint_version,
            run_id: self.run_id@,
            spec_digest: self.spec_digest@,
            last_sequence: self.last_sequence,
            writer_epoch: self.writer_epoch,
            applied_commit_ids: self.applied_commit_ids@,
            state: self.state@,
        }
    }
}

impl Clone for RunStoreRecord {
    fn clone(&self) -> (r: Self)
        ensures
            r@ == self@,
    {
        RunStoreRecord {
            checkpoint_version: self.checkpoint_version,
            run_id: self.run_id.clone(),
            spec_digest: self.spec_digest.clone(),
            last_sequence: self.last_sequence,
            writer_epoch: self.writer_epoch,
            applied_commit_ids: self.applied_commit_ids.clone(),
            state: self.state.clone(),
        }
    }
}

/// Where checkpoints of runs are kept, one per run id; a later checkpoint of a
/// run replaces the earlier one.
pub trait RunStore {
    /// The checkpoints held, by run id.
    spec fn stored(&self) -> Map<Seq<char>, RunStoreRecordView>;

    fn put(&mut self, record: RunStoreRecord) -> (r: Result<(), String>)
        ensures
            r is Ok ==> final(self).stored() == old(self).stored().insert(record.run_id@, record@),
    ;

    fn get(&self, run_id: &str) -> (r: Result<Option<RunStoreRecord>, String>)
        ensures
            r matches Ok(found) ==> match found {
                Some(x) => self.stored().contains_key(run_id@) && x@ == self.stored()[run_id@],
                None => !self.stored().contains_key(run_id@),
            },
    ;

    fn list_run_ids(&self) -> (r: Result<Vec<String>, String>)
        ensures
            r matches Ok(ids) ==> ids.deep_view().to_set() == self.stored().dom(),
    ;
}

/// A store gives back what was last put for a run, and putting a checkpoint of
/// one run leaves the checkpoints of every other run as they were.
pub proof fn lemma_get_after_put(
    before: Map<Seq<char>, RunStoreRecordView>,
    record: RunStoreRecordView,
    other_run: Seq<char>,
)
    ensures
        before.insert(record.run_id, record).contains_key(record.run_id),
        before.insert(record.run_id, record)[record.run_id] == record,
        other_run != record.run_id ==> (before.insert(record.run_id, record).contains_key(other_run)
            == before.contains_key(other_run)),
        other_run != record.run_id && before.contains_key(other_run) ==> before.insert(record.run_id, record)[other_run]
            == before[other_run],
{
}

/// The run ids of a list of checkpoints, in order.
pub open spec fn record_ids(records: Seq<RunStoreRecord>) -> Seq<Seq<char>> {
    records.map_values(|r: RunStoreRecord| r.run_id@)
}

/// The checkpoints of a list, by run id.
pub open spec fn records_by_id(records: Seq<RunStoreRecord>) -> Map<Seq<char>, RunStoreRecordView> {
    Map::new(
        |k: Seq<char>| record_ids(records).contains(k),
        |k: Seq<char>| records[record_ids(records).index_of(k)]@,
    )
}

/// In a list sorted by id, the checkpoint at `i` is the one held for its id.
proof fn lemma_lookup(records: Seq<RunStoreRecord>, i: int)
    requires
        strictly_sorted(record_ids(records)),
        0 <= i < records.len(),
    ensures
        records_by_id(records).contains_key(records[i].run_id@),
        records_by_id(records)[records[i].run_id@] == records[i]@,
{
    let ids = record_ids(records);
    assert(ids[i] == records[i].run_id@);
    assert(ids.contains(records[i].run_id@));
    let j = ids.index_of(records[i].run_id@);
    assert(ids[j] == ids[i]);
    if j < i {
        assert(lex_lt(ids[j], ids[i]));
        lemma_lex_irreflexive(ids[i]);
    } else if j > i {
        assert(lex_lt(ids[i], ids[j]));
        lemma_lex_irreflexive(ids[i]);
    }
}

/// Keeps checkpoints in memory, ordered by run id.
pub struct MemoryRunStore {
    records: Vec<RunStoreRecord>,
}

impl MemoryRunStore {
    #[verifier::type_invariant]
    spec fn sorted_by_id(self) -> bool {
        strictly_sorted(record_ids(self.records@))
    }

    /// An empty store.
    pub fn new() -> (r: Self)
        ensures
            r.stored() == Map::<Seq<char>, RunStoreRecordView>::empty(),
    {
        let r = MemoryRunStore { records: Vec::new() };
        assert(records_by_id(r.records@) =~= Map::<Seq<char>, RunStoreRecordView>::empty());
        r
    }

    /// The first position whose id does not sort before `run_id`.
    fn search(&self, run_id: &str) -> (r: usize)
        ensures
            r <= self.records@.len(),
            forall|i: int| 0 <= i < r ==> lex_lt(#[trigger] record_ids(self.records@)[i], run_id@),
            r < self.records@.len() ==> !lex_lt(record_ids(self.records@)[r as int], run_id@),
    {
        let mut i: usize = 0;
        while i < self.records.len()
            invariant
                i <= self.records@.len(),
                forall|j: int| 0 <= j < i ==> lex_lt(#[trigger] record_ids(self.records@)[j], run_id@),
            decreases self.records@.len() - i,
        {
            if !str_lt(self.records[i].run_id.as_str(), run_id) {
                return i;
            }
            i = i + 1;
        }
        i
    }
}

impl Default for MemoryRunStore {
    fn default() -> (r: Self)
        ensures
            r.stored() == Map::<Seq<char>, RunStoreRecordView>::empty(),
    {
        MemoryRunStore::new()
    }
}

impl RunStore for MemoryRunStore {
    closed spec fn stored(&self) -> Map<Seq<char>, RunStoreRecordView> {
        records_by_id(self.records@)
    }

    fn put(&mut self, record: RunStoreRecord) -> (r: Result<(), String>)
        ensures
            r is Ok,
    {
        proof {
            use_type_invariant(&*self);
        }
        let p = self.search(record.run_id.as_str());
        let mut taken = MemoryRunStore::new();
        std::mem::swap(&mut taken, self);
        let mut records = taken.records;
        let ghost old_records = records@;
        let ghost key = record.run_id@;
        let ghost rec = record@;
        let ghost old_ids = record_ids(old_records);
        if p < records.len() && str_eq(records[p].run_id.as_str(), record.run_id.as_str()) {
            records.set(p, record);
            proof {
                let ids = record_ids(records@);
                assert(ids =~= old_ids);
                assert forall|k: Seq<char>| #![auto] records_by_id(records@).contains_key(k)
                    == records_by_id(old_records).insert(key, rec).contains_key(k) by {
                    if k == key {
                        assert(ids[p as int] == key);
                    }
                }
                assert forall|k: Seq<char>| #![auto] records_by_id(records@).contains_key(k)
                    implies records_by_id(records@)[k] == records_by_id(old_records).insert(key, rec)[k] by {
                    let j = ids.index_of(k);
                    lemma_lookup(records@, j);
                    if j == p {
                        assert(records@[j]@ == rec);
                    } else {
                        lemma_lookup(old_records, j);
                        assert(ids[j] != key) by {
                            if ids[j] == key {
                                assert(ids[p as int] == key);
                                if j < p {
                                    assert(lex_lt(ids[j], ids[p as int]));
                                } else {
                                    assert(lex_lt(ids[p as int], ids[j]));
                                }
                                lemma_lex_irreflexive(key);
                            }
                        }
                    }
                }
                assert(records_by_id(records@) =~= records_by_id(old_records).insert(key, rec));
            }
        } else {
            proof {
                if p < old_records.len() {
                    lemma_lex_total(old_ids[p as int], key);
                }
            }
            records.insert(p, record);
            proof {
                let ids = record_ids(records@);
                assert(ids =~= old_ids.insert(p as int, key));
                assert forall|a: int, b: int| 0 <= a < b < ids.len() implies lex_lt(
                    #[trigger] ids[a],
                    #[trigger] ids[b],
                ) by {
                    if b < p {
                        assert(lex_lt(old_ids[a], old_ids[b]));
                    } else if b == p {
                        assert(lex_lt(old_ids[a], key));
                    } else if a < p {
                        assert(lex_lt(old_ids[a], key));
                        if b - 1 > p {
                            assert(lex_lt(old_ids[p as int], old_ids[b - 1]));
                            lemma_lex_trans(key, old_ids[p as int], old_ids[b - 1]);
                        }
                        lemma_lex_trans(old_ids[a], key, old_ids[b - 1]);
                    } else if a == p {
                        if b - 1 > p {
                            assert(lex_lt(old_ids[p as int], old_ids[b - 1]));
                            lemma_lex_trans(key, old_ids[p as int], old_ids[b - 1]);
                        }
                    } else {
                        assert(lex_lt(old_ids[a - 1], old_ids[b - 1]));
                    }
                }
                assert forall|k: Seq<char>| #![auto] records_by_id(records@).contains_key(k)
                    == records_by_id(old_records).insert(key, rec).contains_key(k) by {
                    if ids.contains(k) {
                        let j = ids.index_of(k);
                        if j < p {
                            assert(old_ids[j] == k);
                        } else if j > p {
                            assert(old_ids[j - 1] == k);
                        }
                    }
                    if old_ids.contains(k) {
                        let j = old_ids.index_of(k);
                        if j < p {
                            assert(ids[j] == k);
                        } else {
                            assert(ids[j + 1] == k);
                        }
                    }
                    if k == key {
                        assert(ids[p as int] == key);
                    }
                }
                assert forall|k: Seq<char>| #![auto] records_by_id(records@).contains_key(k)
                    implies records_by_id(records@)[k] == records_by_id(old_records).insert(key, rec)[k] by {
                    let j = ids.index_of(k);
                    lemma_lookup(records@, j);
                    if j == p {
                        assert(records@[j]@ == rec);
                    } else if j < p {
                        lemma_lookup(old_records, j);
                        assert(records@[j] == old_records[j]);
                        assert(k != key) by {
                            if k == key {
                                assert(ids[p as int] == key);
                                lemma_lex_irreflexive(key);
                            }
                        }
                    } else {
                        lemma_lookup(old_records, j - 1);
                        assert(records@[j] == old_records[j - 1]);
                        assert(k != key) by {
                            if k == key {
                                assert(ids[p as int] == key);
                                lemma_lex_irreflexive(key);
                            }
                        }
                    }
                }
                assert(records_by_id(records@) =~= records_by_id(old_records).insert(key, rec));
            }
        }
        *self = MemoryRunStore { records };
        Ok(())
    }

    fn get(&self, run_id: &str) -> (r: Result<Option<RunStoreRecord>, String>)
        ensures
            r is Ok,
    {
        proof {
            use_type_invariant(self);
        }
        let p = self.search(run_id);
        let ghost ids = record_ids(self.records@);
        if p < self.records.len() && str_eq(self.records[p].run_id.as_str(), run_id) {
            proof {
                lemma_lookup(self.records@, p as int);
            }
            Ok(Some(self.records[p].clone()))
        } else {
            proof {
                assert(!ids.contains(run_id@)) by {
                    if ids.contains(run_id@) {
                        let j = ids.index_of(run_id@);
                        if j < p {
                            lemma_lex_irreflexive(run_id@);
                        } else if j > p {
                            assert(lex_lt(ids[p as int], ids[j]));
                            lemma_lex_total(ids[p as int], run_id@);
                            lemma_lex_asym(ids[p as int], run_id@);
                        }
                    }
                }
            }
            Ok(None)
        }
    }

    fn list_run_ids(&self) -> (r: Result<Vec<String>, String>)
        ensures
            r matches Ok(ids) && strictly_sorted(ids.deep_view()),
    {
        proof {
            use_type_invariant(self);
        }
        let mut ids: Vec<String> = Vec::new();
        let mut i: usize = 0;
        while i < self.records.len()
            invariant
                i <= self.records@.len(),
                ids@.len() == i,
                forall|j: int| 0 <= j < i ==> #[trigger] ids@[j]@ == self.records@[j].run_id@,
            decreases self.records@.len() - i,
        {
            ids.push(self.records[i].run_id.clone());
            i = i + 1;
        }
        proof {
            assert(ids.deep_view() =~= record_ids(self.records@));
            let s = record_ids(self.records@);
            assert forall|k: Seq<char>| #![auto] s.to_set().contains(k) == records_by_id(self.records@).dom().contains(k) by {
            }
            assert(s.to_set() =~= records_by_id(self.records@).dom());
        }
        Ok(ids)
    }
}

/// Keeps one JSON checkpoint file per run under a root directory; the reading
/// and writing are done by the application around this library.
pub struct FileRunStore {
    root: String,
}

/// The file name of a run's checkpoint: the hex id of the run, then `.json`.
pub open spec fn record_file_name(run_id: &str) -> Seq<char> {
    spec_hex_id(run_id.spec_bytes()) + ".json"@
}

impl FileRunStore {
    pub fn new(root: &str) -> (r: Self)
        ensures
            r.root_path() == root@,
    {
        FileRunStore { root: owned(root) }
    }

    pub closed spec fn root_path(&self) -> Seq<char> {
        self.root@
    }

    /// The root directory.
    pub fn root(&self) -> (r: &str)
        ensures
            r@ == self.root_path(),
    {
        self.root.as_str()
    }

    /// The path of a run's checkpoint file.
    pub fn record_path(&self, run_id: &str) -> (r: String)
        ensures
            r@ == spec_path_join(self.root_path(), record_file_name(run_id)),
    {
        let mut name = hex_id(run_id);
        push_str(&mut name, ".json");
        path_join(self.root.as_str(), name.as_str())
    }
}

/// The ids never decrease, in the order in which `str` compares them.
pub open spec fn lex_ascending(s: Seq<Seq<char>>) -> bool {
    forall|i: int, j: int| 0 <= i <= j < s.len() ==> !lex_lt(s[j], s[i])
}

proof fn lemma_insert_to_multiset<A>(s: Seq<A>, k: int, v: A)
    requires
        0 <= k <= s.len(),
    ensures
        s.insert(k, v).to_multiset() == s.to_multiset().insert(v),
{
    broadcast use vstd::seq_lib::group_to_multiset_ensures;
    broadcast use vstd::multiset::group_multiset_axioms;

    let t = s.insert(k, v);
    assert(t.remove(k) =~= s);
    assert(t[k] == v);
    assert(t.contains(v));
    assert(t.to_multiset() =~= s.to_multiset().insert(v));
}

/// The run ids found in a store's directory, in the order in which `str`
/// compares them, each kept as often as it was found.
pub fn sort_run_ids(ids: Vec<String>) -> (r: Vec<String>)
    ensures
        lex_ascending(r.deep_view()),
        r.deep_view().to_multiset() == ids.deep_view().to_multiset(),
{
    broadcast use vstd::seq_lib::group_to_multiset_ensures;

    let ghost all = ids.deep_view();
    let mut out: Vec<String> = Vec::new();
    let mut i: usize = 0;
    assert(out.deep_view() =~= all.subrange(0, 0));
    while i < ids.len()
        invariant
            i <= ids@.len(),
            all == ids.deep_view(),
            lex_ascending(out.deep_view()),
            out.deep_view().to_multiset() == all.subrange(0, i as int).to_multiset(),
        decreases ids@.len() - i,
    {
        let v = ids[i].clone();
        let ghost before = out.deep_view();
        let mut k: usize = out.len();
        while k > 0 && str_lt(v.as_str(), out[k - 1].as_str())
            invariant
                k <= out@.len(),
                before == out.deep_view(),
                forall|j: int| k <= j < before.len() ==> lex_lt(v@, #[trigger] before[j]),
            decreases k,
        {
            k = k - 1;
        }
        proof {
            let after = before.insert(k as int, v@);
            assert forall|a: int, b: int| 0 <= a <= b < after.len() implies !lex_lt(after[b], after[a]) by {
                if a == b {
                    lemma_lex_irreflexive(after[a]);
                } else if b == k {
                    // after[a] == before[a] with a < k: before[a] <= before[k - 1] <= v
                    assert(after[a] == before[a]);
                    assert(!lex_lt(v@, before[k - 1]));
                    assert(!lex_lt(before[k - 1], before[a]));
                    lemma_lex_total(v@, before[k - 1]);
                    lemma_lex_total(before[k - 1], before[a]);
                    if lex_lt(v@, before[a]) {
                        if before[k - 1] == before[a] {
                        } else if v@ == before[k - 1] {
                        } else {
                            lemma_lex_trans(v@, before[a], before[k - 1]);
                            lemma_lex_asym(before[a], before[k - 1]);
                        }
                    }
                } else if a == k {
                    assert(after[b] == before[b - 1]);
                    assert(lex_lt(v@, before[b - 1]));
                    lemma_lex_asym(v@, before[b - 1]);
                } else {
                    let a0 = if a < k { a } else { a - 1 };
                    let b0 = if b < k { b } else { b - 1 };
                    assert(after[a] == before[a0]);
                    assert(after[b] == before[b0]);
                }
            }
            lemma_insert_to_multiset(before, k as int, v@);
            assert(all[i as int] == v@);
            assert(all.subrange(0, i + 1) =~= all.subrange(0, i as int).push(v@));
            vstd::seq_lib::to_multiset_build(all.subrange(0, i as int), v@);
            assert(all.subrange(0, i + 1).to_multiset() == all.subrange(0, i as int).to_multiset().insert(v@));
        }
        out.insert(k, v);
        assert(out.deep_view() =~= before.insert(k as int, v@));
        i = i + 1;
    }
    assert(all.subrange(0, i as int) =~= all);
    out
}

} // verus!
