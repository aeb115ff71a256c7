use axiom_core::lease::acquire_decision;
use axiom_core::runstore::sort_run_ids;
use std::collections::BTreeSet;

use axiom_core::{
    CHECKPOINT_SCHEMA_VERSION, FileRunLeaseStore, FileRunStore, MemoryRunLeaseStore, MemoryRunStore, RunLeaseStore,
    RunSpec, RunState, RunStore, RunStoreRecord, WriterLease,
};

fn record(run_id: &str, index: usize) -> RunStoreRecord {
    let mut state = RunState::from_spec(&RunSpec::new(run_id, "n", vec![]));
    state.next_step_index = index;
    RunStoreRecord {
        checkpoint_version: CHECKPOINT_SCHEMA_VERSION,
        run_id: run_id.to_string(),
        spec_digest: String::new(),
        last_sequence: index as u64,
        writer_epoch: 0,
        applied_commit_ids: BTreeSet::new(),
        state,
    }
}

#[test]
fn run_store_gives_back_the_last_checkpoint() {
    let mut store = MemoryRunStore::new();
    assert!(store.get("a").unwrap().is_none());
    store.put(record("a", 1)).unwrap();
    store.put(record("b", 2)).unwrap();
    store.put(record("a", 3)).unwrap();
    assert_eq!(store.get("a").unwrap().unwrap().state.next_step_index, 3);
    assert_eq!(store.get("b").unwrap().unwrap().state.next_step_index, 2);
    assert!(store.get("c").unwrap().is_none());
}

#[test]
fn run_store_lists_ids_in_order() {
    let mut store = MemoryRunStore::new();
    for id in ["zeta", "alpha", "mid", "alpha", "Zed"] {
        store.put(record(id, 0)).unwrap();
    }
    assert_eq!(store.list_run_ids().unwrap(), vec!["Zed".to_string(), "alpha".to_string(), "mid".to_string(), "zeta".to_string()]);
}

#[test]
fn file_store_paths_use_hex_ids() {
    let store = FileRunStore::new("/var/runs");
    assert_eq!(store.root(), "/var/runs");
    assert_eq!(store.record_path("ab"), "/var/runs/6162.json");
    let leases = FileRunLeaseStore::new("leases/");
    assert_eq!(leases.root(), "leases/");
    assert_eq!(leases.lease_path("r1"), "leases/7231.lease");
}

#[test]
fn lease_acquire_renew_release_cycle() {
    let mut store = MemoryRunLeaseStore::new();
    let lease = store.acquire("run", "w1", 100, 50).unwrap();
    assert_eq!(lease, WriterLease { run_id: "run".to_string(), holder_id: "w1".to_string(), epoch: 1, expires_at_ms: 150 });
    assert!(store.validate(&lease, 149).is_ok());
    assert_eq!(store.validate(&lease, 150), Err("writer_lease_expired:run:w1:1".to_string()));

    let again = store.acquire("run", "w1", 120, 50).unwrap();
    assert_eq!(again.epoch, 1);
    assert_eq!(again.expires_at_ms, 170);

    assert_eq!(store.acquire("run", "w2", 130, 50), Err("writer_lease_held:run:w1:1".to_string()));

    let renewed = store.renew(&again, 160, 100).unwrap();
    assert_eq!(renewed.epoch, 1);
    assert_eq!(renewed.expires_at_ms, 260);

    store.release(&renewed).unwrap();
    assert_eq!(store.validate(&renewed, 0), Err("writer_lease_expired:run:w1:1".to_string()));
}

#[test]
fn lease_takeover_fences_the_old_writer() {
    let mut store = MemoryRunLeaseStore::new();
    let old = store.acquire("run", "w1", 0, 10).unwrap();
    let new = store.acquire("run", "w2", 20, 10).unwrap();
    assert_eq!(new.epoch, 2);
    assert_eq!(store.validate(&old, 21), Err("writer_fenced:run:w1:1:w2:2".to_string()));
    assert_eq!(store.renew(&old, 21, 5), Err("writer_fenced:run:w1:1:w2:2".to_string()));
    assert_eq!(store.release(&old), Err("writer_fenced:run:w1:1:w2:2".to_string()));
    assert!(store.validate(&new, 21).is_ok());
}

#[test]
fn lease_missing_and_saturation() {
    let mut store = MemoryRunLeaseStore::new();
    let ghost = WriterLease { run_id: "x".to_string(), holder_id: "h".to_string(), epoch: 1, expires_at_ms: 5 };
    assert_eq!(store.validate(&ghost, 0), Err("writer_lease_missing:x".to_string()));
    let lease = store.acquire("x", "h", u64::MAX - 1, 10).unwrap();
    assert_eq!(lease.expires_at_ms, u64::MAX);
}

#[test]
fn lease_decisions_at_the_last_epoch() {
    let last = WriterLease { run_id: "r".to_string(), holder_id: "a".to_string(), epoch: u64::MAX, expires_at_ms: 100 };
    assert_eq!(
        acquire_decision(Some(&last), "r", "b", 50, 10),
        Err(format!("writer_lease_held:r:a:{}", u64::MAX))
    );
    let kept = acquire_decision(Some(&last), "r", "a", 50, 10).unwrap();
    assert_eq!(kept.epoch, u64::MAX);
    assert_eq!(kept.expires_at_ms, 60);
}

#[test]
fn run_ids_sort_like_strings() {
    let ids = vec!["b".to_string(), "a2".to_string(), "a10".to_string(), "b".to_string(), "".to_string()];
    let mut expected = ids.clone();
    expected.sort();
    assert_eq!(sort_run_ids(ids), expected);
    assert_eq!(sort_run_ids(vec!["é".to_string(), "z".to_string()]), vec!["z".to_string(), "é".to_string()]);
}
