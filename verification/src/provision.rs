//! The provisioner's schema statements, built over sanitized names.

use vstd::prelude::*;
use vstd::string::*;
use crate::sanitize::{is_sanitized, sanitize_table_name, spec_sanitized};

verus! {

/// The statement that creates the registry of provisioned collections.
pub open spec fn spec_registry_ddl() -> Seq<char> {
    "CREATE TABLE IF NOT EXISTS kv_registry (table_name TEXT PRIMARY KEY, created_at INTEGER DEFAULT (strftime('%s','now')))"@
}

/// The statement that creates the global external-content search object:
/// the indexed `value` column is authoritative, not a copy of primary data.
pub open spec fn spec_search_ddl() -> Seq<char> {
    "CREATE VIRTUAL TABLE IF NOT EXISTS kv_search USING fts5(table_name UNINDEXED, key UNINDEXED, value, content='')"@
}

/// The statement that registers a collection name, ignoring a duplicate;
/// the name is bound as its one parameter.
pub open spec fn spec_register_dml() -> Seq<char> {
    "INSERT OR IGNORE INTO kv_registry (table_name) VALUES (?)"@
}

/// The statement that creates one collection's storage object.
pub open spec fn spec_collection_ddl(n: Seq<char>) -> Seq<char> {
    "CREATE TABLE IF NOT EXISTS "@ + n
        + " (key TEXT PRIMARY KEY, value TEXT NOT NULL, created_at INTEGER DEFAULT (strftime('%s','now')), updated_at INTEGER DEFAULT (strftime('%s','now')))"@
}

/// The trigger that appends a search entry when a record is inserted.
pub open spec fn spec_insert_trigger_ddl(n: Seq<char>) -> Seq<char> {
    "CREATE TRIGGER IF NOT EXISTS "@ + n + "_fts_insert AFTER INSERT ON "@ + n
        + " BEGIN INSERT INTO kv_search(table_name, key, value) VALUES ('"@ + n
        + "', new.key, new.value); END"@
}

/// The trigger that overwrites a search entry's value when a record changes.
pub open spec fn spec_update_trigger_ddl(n: Seq<char>) -> Seq<char> {
    "CREATE TRIGGER IF NOT EXISTS "@ + n + "_fts_update AFTER UPDATE ON "@ + n
        + " BEGIN UPDATE kv_search SET value = new.value WHERE table_name = '"@ + n
        + "' AND key = new.key; END"@
}

/// The trigger that removes a search entry when a record is deleted.
pub open spec fn spec_delete_trigger_ddl(n: Seq<char>) -> Seq<char> {
    "CREATE TRIGGER IF NOT EXISTS "@ + n + "_fts_delete AFTER DELETE ON "@ + n
        + " BEGIN DELETE FROM kv_search WHERE table_name = '"@ + n
        + "' AND key = old.key; END"@
}

/// The registry-creation statement.
pub fn registry_ddl() -> (r: String)
    ensures
        r@ == spec_registry_ddl(),
{
    String::from_str(
        "CREATE TABLE IF NOT EXISTS kv_registry (table_name TEXT PRIMARY KEY, created_at INTEGER DEFAULT (strftime('%s','now')))",
    )
}

/// The search-object creation statement.
pub fn search_ddl() -> (r: String)
    ensures
        r@ == spec_search_ddl(),
{
    String::from_str(
        "CREATE VIRTUAL TABLE IF NOT EXISTS kv_search USING fts5(table_name UNINDEXED, key UNINDEXED, value, content='')",
    )
}

/// The registration statement; its one parameter is the sanitized name.
pub fn register_dml() -> (r: String)
    ensures
        r@ == spec_register_dml(),
{
    String::from_str("INSERT OR IGNORE INTO kv_registry (table_name) VALUES (?)")
}

/// The storage-object creation statement for one collection. The name must
/// already have passed the sanitizer: only then is it safe to interpolate.
pub fn collection_ddl(name: &str) -> (r: String)
    requires
        is_sanitized(name@),
    ensures
        r@ == spec_collection_ddl(name@),
{
    let mut s = String::from_str("CREATE TABLE IF NOT EXISTS ");
    s.append(name);
    s.append(
        " (key TEXT PRIMARY KEY, value TEXT NOT NULL, created_at INTEGER DEFAULT (strftime('%s','now')), updated_at INTEGER DEFAULT (strftime('%s','now')))",
    );
    s
}

/// The insert-trigger statement for one collection; the sanitized name also
/// stands as a literal inside the trigger body, which the sanitizer makes
/// safe without further escaping.
pub fn insert_trigger_ddl(name: &str) -> (r: String)
    requires
        is_sanitized(name@),
    ensures
        r@ == spec_insert_trigger_ddl(name@),
{
    let mut s = String::from_str("CREATE TRIGGER IF NOT EXISTS ");
    s.append(name);
    s.append("_fts_insert AFTER INSERT ON ");
    s.append(name);
    s.append(" BEGIN INSERT INTO kv_search(table_name, key, value) VALUES ('");
    s.append(name);
    s.append("', new.key, new.value); END");
    s
}

/// The update-trigger statement for one collection.
pub fn update_trigger_ddl(name: &str) -> (r: String)
    requires
        is_sanitized(name@),
    ensures
        r@ == spec_update_trigger_ddl(name@),
{
    let mut s = String::from_str("CREATE TRIGGER IF NOT EXISTS ");
    s.append(name);
    s.append("_fts_update AFTER UPDATE ON ");
    s.append(name);
    s.append(" BEGIN UPDATE kv_search SET value = new.value WHERE table_name = '");
    s.append(name);
    s.append("' AND key = new.key; END");
    s
}

/// The delete-trigger statement for one collection.
pub fn delete_trigger_ddl(name: &str) -> (r: String)
    requires
        is_sanitized(name@),
    ensures
        r@ == spec_delete_trigger_ddl(name@),
{
    let mut s = String::from_str("CREATE TRIGGER IF NOT EXISTS ");
    s.append(name);
    s.append("_fts_delete AFTER DELETE ON ");
    s.append(name);
    s.append(" BEGIN DELETE FROM kv_search WHERE table_name = '");
    s.append(name);
    s.append("' AND key = old.key; END");
    s
}

/// The two statements that initialization runs once: the registry and the
/// shared search object.
pub fn initialization_statements() -> (r: Vec<String>)
    ensures
        r@.len() == 2,
        r@[0]@ == spec_registry_ddl(),
        r@[1]@ == spec_search_ddl(),
{
    let mut out: Vec<String> = Vec::new();
    out.push(registry_ddl());
    out.push(search_ddl());
    out
}

/// The five statements that provision a collection, in execution order:
/// storage object, registry entry (with the name as bound parameter), and
/// the three search-synchronization triggers. The caller's name is
/// sanitized here, so any string may be handed in.
pub fn provisioning_statements(table: &str) -> (r: Vec<String>)
    ensures
        r@.len() == 5,
        r@[0]@ == spec_collection_ddl(spec_sanitized(table@)),
        r@[1]@ == spec_register_dml(),
        r@[2]@ == spec_insert_trigger_ddl(spec_sanitized(table@)),
        r@[3]@ == spec_update_trigger_ddl(spec_sanitized(table@)),
        r@[4]@ == spec_delete_trigger_ddl(spec_sanitized(table@)),
{
    let safe = sanitize_table_name(table);
    let mut out: Vec<String> = Vec::new();
    out.push(collection_ddl(safe.as_str()));
    out.push(register_dml());
    out.push(insert_trigger_ddl(safe.as_str()));
    out.push(update_trigger_ddl(safe.as_str()));
    out.push(delete_trigger_ddl(safe.as_str()));
    out
}

} // verus!
