use harbor_kv::errors::KvError;
use harbor_kv::manager::StoreManager;
use harbor_kv::provision::{initialization_statements, provisioning_statements};

fn seg(parts: &[&str]) -> Vec<String> {
    parts.iter().map(|p| p.to_string()).collect()
}

#[test]
fn every_operation_fails_cleanly_before_initialization() {
    let mut m = StoreManager::new();
    assert!(!m.is_initialized());
    assert_eq!(m.get("notes", &seg(&["a"])), Err(KvError::NotInitialized));
    assert_eq!(m.set("notes", &seg(&["a"]), "v"), Err(KvError::NotInitialized));
    assert_eq!(m.delete("notes", &seg(&["a"])), Err(KvError::NotInitialized));
    assert_eq!(m.list("notes"), Err(KvError::NotInitialized));
    assert_eq!(m.tables(), Err(KvError::NotInitialized));
    assert_eq!(m.ensure_collection("notes"), Err(KvError::NotInitialized));
    assert!(matches!(m.search("word"), Err(KvError::NotInitialized)));
    assert!(m.handle().is_err());
}

#[test]
fn operations_work_after_initialization() {
    let mut m = StoreManager::new();
    m.initialize();
    assert!(m.is_initialized());
    assert_eq!(m.set("notes", &seg(&["a"]), "payload"), Ok(()));
    assert_eq!(m.get("notes", &seg(&["a"])), Ok("payload".to_string()));
    assert_eq!(m.tables(), Ok(vec!["notes".to_string()]));
    assert_eq!(
        m.list("notes"),
        Ok(vec![("a".to_string(), "payload".to_string())])
    );
    let hits = m.search("payload").unwrap();
    assert_eq!(hits.len(), 1);
    assert_eq!(hits[0].value, "payload");
    assert_eq!(m.ensure_collection("extra"), Ok(()));
    assert_eq!(m.delete("notes", &seg(&["a"])), Ok(()));
    assert_eq!(m.get("notes", &seg(&["a"])), Err(KvError::NotFound));
    assert!(m.handle().is_ok());
}

#[test]
fn initialization_statements_create_registry_and_search_object() {
    let stmts = initialization_statements();
    assert_eq!(stmts.len(), 2);
    assert_eq!(
        stmts[0],
        "CREATE TABLE IF NOT EXISTS kv_registry (table_name TEXT PRIMARY KEY, created_at INTEGER DEFAULT (strftime('%s','now')))"
    );
    assert_eq!(
        stmts[1],
        "CREATE VIRTUAL TABLE IF NOT EXISTS kv_search USING fts5(table_name UNINDEXED, key UNINDEXED, value, content='')"
    );
}

#[test]
fn provisioning_statements_use_the_sanitized_name() {
    let stmts = provisioning_statements("my-table");
    assert_eq!(stmts.len(), 5);
    assert_eq!(
        stmts[0],
        "CREATE TABLE IF NOT EXISTS my_table (key TEXT PRIMARY KEY, value TEXT NOT NULL, created_at INTEGER DEFAULT (strftime('%s','now')), updated_at INTEGER DEFAULT (strftime('%s','now')))"
    );
    assert_eq!(stmts[1], "INSERT OR IGNORE INTO kv_registry (table_name) VALUES (?)");
    assert_eq!(
        stmts[2],
        "CREATE TRIGGER IF NOT EXISTS my_table_fts_insert AFTER INSERT ON my_table BEGIN INSERT INTO kv_search(table_name, key, value) VALUES ('my_table', new.key, new.value); END"
    );
    assert_eq!(
        stmts[3],
        "CREATE TRIGGER IF NOT EXISTS my_table_fts_update AFTER UPDATE ON my_table BEGIN UPDATE kv_search SET value = new.value WHERE table_name = 'my_table' AND key = new.key; END"
    );
    assert_eq!(
        stmts[4],
        "CREATE TRIGGER IF NOT EXISTS my_table_fts_delete AFTER DELETE ON my_table BEGIN DELETE FROM kv_search WHERE table_name = 'my_table' AND key = old.key; END"
    );
}

#[test]
fn error_descriptions_carry_context() {
    assert_eq!(KvError::NotInitialized.describe(), "store not initialized");
    assert_eq!(KvError::NotFound.describe(), "not found");
    assert_eq!(KvError::LockFailed.describe(), "store lock poisoned");
    assert_eq!(
        KvError::ProvisionFailed("ensure notes: disk full".to_string()).describe(),
        "provisioning failed: ensure notes: disk full"
    );
    assert_eq!(
        KvError::WriteFailed("set notes: disk full".to_string()).describe(),
        "write failed: set notes: disk full"
    );
    assert_eq!(
        KvError::SearchFailed("bad query".to_string()).describe(),
        "search failed: bad query"
    );
}
