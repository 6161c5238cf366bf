use ozymem::engram::{EngramContract, IncrementalEngramStore, ENGRAM_FILE};

fn login_contract(signature: &str) -> EngramContract {
    EngramContract {
        symbol_path: "src/auth.rs::login".to_string(),
        file_path: "src/auth.rs".to_string(),
        name: "login".to_string(),
        signature: signature.to_string(),
        line_number: 5,
        end_line: 20,
        kind: "Function".to_string(),
        language: "Rust".to_string(),
        dependencies: vec!["User".to_string()],
        doc_summary: "Inicia sesión".to_string(),
    }
}

const LOGIN_KEY: u64 = 0x1234_5678_9abc_def0;

#[test]
fn test_incremental_engram_store_lifecycle() {
    let mut store = IncrementalEngramStore::new();
    let c1 = login_contract("pub fn login(user: &str) -> bool");

    // 1. Insert into the mem table.
    store.update_file_incremental("src/auth.rs", vec![(LOGIN_KEY, c1.clone())]);
    assert_eq!(store.lookup(LOGIN_KEY, None), Some(c1.clone()));
    assert_eq!(store.total_contracts(&vec![]), 1);

    // 2. Compact into a new base snapshot.
    let base = store.compact(&vec![]);
    assert_eq!(base.len(), 1);

    // 3. Look up through the base snapshot after compaction.
    let base_hit = base.iter().find(|(k, _)| *k == LOGIN_KEY).map(|(_, c)| c.clone());
    let lookup_res = store.lookup(LOGIN_KEY, base_hit.clone());
    assert!(lookup_res.is_some());
    assert_eq!(lookup_res.unwrap().name, "login");

    // 4. Incremental update (modification).
    let c1_v2 = login_contract("pub fn login(user: &str, pass: &str) -> bool");
    store.update_file_incremental("src/auth.rs", vec![(LOGIN_KEY, c1_v2.clone())]);
    let updated_res = store.lookup(LOGIN_KEY, base_hit.clone()).unwrap();
    assert_eq!(updated_res.signature, "pub fn login(user: &str, pass: &str) -> bool");

    // 5. Incremental removal (tombstone).
    store.remove_file_incremental("src/auth.rs");
    assert_eq!(store.lookup(LOGIN_KEY, base_hit.clone()), None);
    let base_keys: Vec<u64> = base.iter().map(|(k, _)| *k).collect();
    assert_eq!(store.total_contracts(&base_keys), 0);

    // 6. Compact after removal.
    let base2 = store.compact(&base);
    assert_eq!(base2.len(), 0);
    assert_eq!(store.total_contracts(&vec![]), 0);
}

#[test]
fn engram_file_name() {
    assert_eq!(ENGRAM_FILE, "engrams.rkyv");
}

#[test]
fn lookup_after_insert_ignores_base() {
    let mut store = IncrementalEngramStore::new();
    let old = login_contract("old");
    let new = login_contract("new");
    store.insert(7, new.clone());
    assert_eq!(store.lookup(7, Some(old.clone())), Some(new));
    assert_eq!(store.lookup(8, Some(old.clone())), Some(old));
    assert_eq!(store.lookup(9, None), None);
}

#[test]
fn update_tombstones_symbols_that_left_the_file() {
    let mut store = IncrementalEngramStore::new();
    let a = login_contract("a");
    let b = login_contract("b");
    store.update_file_incremental("f.rs", vec![(1, a.clone()), (2, b.clone())]);
    store.update_file_incremental("f.rs", vec![(2, a.clone())]);
    assert_eq!(store.lookup(1, Some(b.clone())), None);
    assert_eq!(store.lookup(2, None), Some(a.clone()));
    // another file's keys are untouched
    store.update_file_incremental("g.rs", vec![(3, b.clone())]);
    store.remove_file_incremental("f.rs");
    assert_eq!(store.lookup(3, None), Some(b));
    assert_eq!(store.lookup(2, None), None);
}

#[test]
fn compaction_preserves_lookups_and_count() {
    let mut store = IncrementalEngramStore::new();
    let a = login_contract("a");
    let b = login_contract("b");
    let c = login_contract("c");
    let base = vec![(1u64, a.clone()), (2u64, b.clone()), (1u64, c.clone())];
    store.insert(2, a.clone());
    store.insert(4, b.clone());
    store.update_file_incremental("x.rs", vec![(5, c.clone())]);
    store.remove_file_incremental("x.rs");
    let keys: Vec<u64> = base.iter().map(|(k, _)| *k).collect();
    let before: Vec<Option<EngramContract>> = (0u64..6)
        .map(|k| {
            let hit = base.iter().rev().find(|(bk, _)| *bk == k).map(|(_, v)| v.clone());
            store.lookup(k, hit)
        })
        .collect();
    let total = store.total_contracts(&keys);
    let merged = store.compact(&base);
    assert_eq!(merged.len(), total);
    assert_eq!(total, 3);
    for k in 0u64..6 {
        let hit = merged.iter().find(|(mk, _)| *mk == k).map(|(_, v)| v.clone());
        assert_eq!(store.lookup(k, hit), before[k as usize]);
    }
    assert_eq!(before[1], Some(c));
}

#[test]
fn lookup_by_name_prefers_the_mem_table() {
    let mut store = IncrementalEngramStore::new();
    let mut other = login_contract("x");
    other.name = "logout".to_string();
    other.symbol_path = "src/auth.rs::logout".to_string();
    let live = login_contract("live");
    let stale = login_contract("stale");
    store.insert(1, live.clone());
    let base = vec![(1u64, stale.clone()), (2u64, other.clone()), (3u64, stale.clone())];
    let found = store.lookup_by_name("login", &base);
    assert_eq!(found, vec![live, stale]);
    assert_eq!(store.lookup_by_name("logout", &base), vec![other]);
}
