use lspgraph::cache::{accept_loaded, cache_dir_under, hash_bytes, hash_str, stale_files, stale_paths, CacheFile, SCHEMA_VERSION};
use lspgraph::graph::{CallGraph, Expansion, Node, NodeId, NodeState};
use lspgraph::uri::path_to_uri;

#[test]
fn cache_dir_is_stable_and_repo_specific() {
    let a = cache_dir_under("/home/u/.cache", "/home/u/proj-a");
    let b = cache_dir_under("/home/u/.cache", "/home/u/proj-b");
    assert_ne!(a, b);
    assert_eq!(a, cache_dir_under("/home/u/.cache", "/home/u/proj-a"));
    assert!(a.contains("lspgraph"));
    assert!(a.starts_with("/home/u/.cache/lspgraph/"));
    assert_eq!(a.len(), "/home/u/.cache/lspgraph/".len() + 16);
}

#[test]
fn hashes_are_sha256_in_lowercase_hex() {
    assert_eq!(hash_str(""), "e3b0c44298fc1c149afbf4c8996fb92427ae41e4649b934ca495991b7852b855");
    assert_eq!(hash_bytes(b"abc"), "ba7816bf8f01cfea414140de5dae2223b00361a396177a9cb410ff61f20015ad");
    assert_eq!(hash_str("abc"), hash_bytes(b"abc"));
}

#[test]
fn discards_a_mismatched_schema() {
    let mut cache = CacheFile::new(CallGraph::new());
    cache.schema = 9999;
    assert!(accept_loaded(cache).is_none(), "mismatched schema must be discarded");
    let ok = CacheFile::new(CallGraph::new());
    assert_eq!(ok.schema, SCHEMA_VERSION);
    assert!(accept_loaded(ok).is_some());
}

#[test]
fn detects_a_changed_file() {
    let path = "/tmp/lspgraph-changed.txt";
    let mut cache = CacheFile::new(CallGraph::new());
    cache.file_hashes.insert(path.to_string(), hash_bytes(b"one"));
    assert!(stale_files(&cache, &[Some(hash_bytes(b"one"))]).unwrap().is_empty());

    let stale = stale_files(&cache, &[Some(hash_bytes(b"two"))]).unwrap();
    assert_eq!(stale.len(), 1);
    assert_eq!(stale[0], path_to_uri(path).unwrap());
}

#[test]
fn a_deleted_file_counts_as_stale() {
    let path = "/tmp/definitely-not-here-lspgraph-cache-test.rs";
    let mut cache = CacheFile::new(CallGraph::new());
    cache.file_hashes.insert(path.to_string(), "abc".to_string());
    let stale = stale_files(&cache, &[None]).unwrap();
    assert_eq!(stale.len(), 1);
    assert_eq!(stale[0], path_to_uri(path).unwrap());
}

#[test]
fn stale_files_output_can_invalidate_graph_nodes() {
    let path = "/tmp/lspgraph-inv-invalidate.rs";
    let uri = path_to_uri(path).unwrap();
    let node_id = NodeId { uri: uri.clone(), line: 1, character: 3, name: "f".into() };
    let mut graph = CallGraph::new();
    graph.upsert(Node {
        id: node_id.clone(),
        kind_name: "Function".into(),
        detail: None,
        state: NodeState::Unexpanded,
    });
    graph.record_expansion(&node_id, &Expansion { callers: vec![], callees: vec![] });
    assert_eq!(graph.len(), 1);

    let mut cache = CacheFile::new(graph);
    cache.file_hashes.insert(path.to_string(), hash_bytes(b"one"));

    let stale = stale_files(&cache, &[Some(hash_bytes(b"two"))]).unwrap();
    assert_eq!(stale.len(), 1);

    cache.graph.remove_file(&stale[0]);
    assert!(cache.graph.nodes_in_file(&uri).is_empty());
    assert_eq!(cache.graph.len(), 0);
}

#[test]
fn stale_paths_lists_changed_and_unreadable_files_in_order() {
    let mut cache = CacheFile::new(CallGraph::new());
    cache.file_hashes.insert("/r/a.rs".to_string(), hash_bytes(b"a"));
    cache.file_hashes.insert("/r/b.rs".to_string(), hash_bytes(b"b"));
    cache.file_hashes.insert("/r/c.rs".to_string(), hash_bytes(b"c"));
    let current = [Some(hash_bytes(b"a")), Some(hash_bytes(b"B")), None];
    assert_eq!(stale_paths(&cache, &current), vec!["/r/b.rs".to_string(), "/r/c.rs".to_string()]);
    assert_eq!(
        stale_files(&cache, &current).unwrap(),
        vec!["file:///r/b.rs".to_string(), "file:///r/c.rs".to_string()]
    );
}
