use harbor_kv::errors::KvError;
use harbor_kv::store::KvStore;

fn seg(parts: &[&str]) -> Vec<String> {
    parts.iter().map(|p| p.to_string()).collect()
}

#[test]
fn set_then_get_returns_value() {
    let mut s = KvStore::new();
    s.set("notes", &seg(&["a"]), "payload");
    assert_eq!(s.get("notes", &seg(&["a"])), Ok("payload".to_string()));
}

#[test]
fn get_never_written_is_not_found() {
    let s = KvStore::new();
    assert_eq!(s.get("notes", &seg(&["a"])), Err(KvError::NotFound));
}

#[test]
fn get_other_key_is_not_found() {
    let mut s = KvStore::new();
    s.set("notes", &seg(&["a"]), "payload");
    assert_eq!(s.get("notes", &seg(&["b"])), Err(KvError::NotFound));
    assert_eq!(s.get("other", &seg(&["a"])), Err(KvError::NotFound));
}

#[test]
fn get_does_not_provision() {
    let s = KvStore::new();
    let _ = s.get("notes", &seg(&["a"]));
    assert_eq!(s.tables(), Vec::<String>::new());
}

#[test]
fn set_overwrites_and_get_sees_last_value() {
    let mut s = KvStore::new();
    s.set("notes", &seg(&["a"]), "first");
    s.set("notes", &seg(&["a"]), "second");
    assert_eq!(s.get("notes", &seg(&["a"])), Ok("second".to_string()));
    assert_eq!(s.list("notes").len(), 1);
}

#[test]
fn delete_is_idempotent() {
    let mut s = KvStore::new();
    s.set("notes", &seg(&["a"]), "payload");
    s.delete("notes", &seg(&["a"]));
    assert_eq!(s.get("notes", &seg(&["a"])), Err(KvError::NotFound));
    s.delete("notes", &seg(&["a"]));
    assert_eq!(s.get("notes", &seg(&["a"])), Err(KvError::NotFound));
    assert_eq!(s.list("notes").len(), 0);
}

#[test]
fn delete_provisions_like_every_write() {
    let mut s = KvStore::new();
    s.delete("notes", &seg(&["a"]));
    assert_eq!(s.tables(), vec!["notes".to_string()]);
    assert_eq!(s.list("notes").len(), 0);
}

#[test]
fn list_returns_pairs_in_storage_order() {
    let mut s = KvStore::new();
    s.set("notes", &seg(&["b"]), "2");
    s.set("notes", &seg(&["a"]), "1");
    let pairs = s.list("notes");
    assert_eq!(
        pairs,
        vec![("b".to_string(), "2".to_string()), ("a".to_string(), "1".to_string())]
    );
}

#[test]
fn list_absent_collection_is_empty_not_error() {
    let s = KvStore::new();
    assert_eq!(s.list("nowhere"), Vec::<(String, String)>::new());
}

#[test]
fn tables_after_provisioning_two_collections() {
    let mut ab = KvStore::new();
    ab.ensure_collection("alpha");
    ab.ensure_collection("beta");
    let mut ba = KvStore::new();
    ba.ensure_collection("beta");
    ba.ensure_collection("alpha");
    let mut names_ab = ab.tables();
    let mut names_ba = ba.tables();
    names_ab.sort();
    names_ba.sort();
    assert_eq!(names_ab, vec!["alpha".to_string(), "beta".to_string()]);
    assert_eq!(names_ab, names_ba);
}

#[test]
fn tables_are_sanitized_names() {
    let mut s = KvStore::new();
    s.ensure_collection("my-table");
    assert_eq!(s.tables(), vec!["my_table".to_string()]);
}

#[test]
fn ensure_collection_is_idempotent() {
    let mut s = KvStore::new();
    s.ensure_collection("xdata");
    s.ensure_collection("xdata");
    s.ensure_collection("xdata");
    assert_eq!(s.tables(), vec!["xdata".to_string()]);
    assert_eq!(s.list("xdata").len(), 0);
}

#[test]
fn colliding_names_merge_into_one_collection() {
    let mut s = KvStore::new();
    s.set("a-b", &seg(&["k"]), "one");
    s.set("a_b", &seg(&["k"]), "two");
    assert_eq!(s.tables(), vec!["a_b".to_string()]);
    assert_eq!(s.get("a-b", &seg(&["k"])), Ok("two".to_string()));
}

#[test]
fn search_finds_written_value() {
    let mut s = KvStore::new();
    s.set("notes", &seg(&["a"]), "the quick brown fox");
    let hits = s.search("quick").unwrap();
    assert_eq!(hits.len(), 1);
    assert_eq!(hits[0].table_name, "notes");
    assert_eq!(hits[0].key, "a");
    assert_eq!(hits[0].value, "the quick brown fox");
}

#[test]
fn search_requires_every_query_token() {
    let mut s = KvStore::new();
    s.set("notes", &seg(&["a"]), "the quick brown fox");
    assert_eq!(s.search("quick fox").unwrap().len(), 1);
    assert_eq!(s.search("quick wolf").unwrap().len(), 0);
}

#[test]
fn search_spans_all_collections() {
    let mut s = KvStore::new();
    s.set("notes", &seg(&["a"]), "shared word");
    s.set("drafts", &seg(&["b"]), "another shared thing");
    let hits = s.search("shared").unwrap();
    let mut names: Vec<String> = hits.iter().map(|h| h.table_name.clone()).collect();
    names.sort();
    assert_eq!(names, vec!["drafts".to_string(), "notes".to_string()]);
}

#[test]
fn search_sees_updated_value_only() {
    let mut s = KvStore::new();
    s.set("notes", &seg(&["a"]), "ancient text");
    s.set("notes", &seg(&["a"]), "modern text");
    assert_eq!(s.search("ancient").unwrap().len(), 0);
    let hits = s.search("modern").unwrap();
    assert_eq!(hits.len(), 1);
    assert_eq!(hits[0].value, "modern text");
}

#[test]
fn search_after_delete_finds_nothing() {
    let mut s = KvStore::new();
    s.set("notes", &seg(&["a"]), "ephemeral words");
    s.delete("notes", &seg(&["a"]));
    assert_eq!(s.search("ephemeral").unwrap().len(), 0);
}

#[test]
fn search_with_no_tokens_is_search_failed() {
    let mut s = KvStore::new();
    s.set("notes", &seg(&["a"]), "something");
    match s.search("   ...   ") {
        Err(KvError::SearchFailed(_)) => {},
        other => panic!("expected SearchFailed, got {:?}", other),
    }
}

#[test]
fn search_does_not_match_keys() {
    let mut s = KvStore::new();
    s.set("notes", &seg(&["unusualkey"]), "plain value");
    assert_eq!(s.search("unusualkey").unwrap().len(), 0);
}

#[test]
fn tables_keep_registration_order() {
    let mut s = KvStore::new();
    s.ensure_collection("zeta");
    s.ensure_collection("alpha");
    s.set("zeta", &seg(&["k"]), "v");
    assert_eq!(s.tables(), vec!["zeta".to_string(), "alpha".to_string()]);
}

#[test]
fn search_returns_hits_in_index_order() {
    let mut s = KvStore::new();
    s.set("notes", &seg(&["first"]), "common one");
    s.set("notes", &seg(&["second"]), "common two");
    let hits = s.search("common").unwrap();
    assert_eq!(hits.len(), 2);
    assert_eq!(hits[0].key, "first");
    assert_eq!(hits[1].key, "second");
}

#[test]
fn scenario_notes_hello_world() {
    let mut s = KvStore::new();
    s.set("notes", &seg(&["2024", "01", "01"]), "hello world");
    assert_eq!(
        s.get("notes", &seg(&["2024", "01", "01"])),
        Ok("hello world".to_string())
    );
    let hits = s.search("hello").unwrap();
    assert_eq!(hits.len(), 1);
    assert_eq!(hits[0].table_name, "notes");
    assert_eq!(hits[0].key, "2024/01/01");
    assert_eq!(hits[0].value, "hello world");
}
