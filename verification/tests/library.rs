use consul_desktop_ui::client::ConsulClient;
use consul_desktop_ui::client::Host;
use consul_desktop_ui::client::Port;
use consul_desktop_ui::client::Scheme;
use consul_desktop_ui::codec::generate_key_values;
use consul_desktop_ui::codec::insert_value;
use consul_desktop_ui::file::get_file_system_helper;
use consul_desktop_ui::flat::FlatMap;
use consul_desktop_ui::paths::join_segments;
use consul_desktop_ui::paths::split_key;
use consul_desktop_ui::snapshot::decode_kv_value;
use consul_desktop_ui::snapshot::update_plan;
use consul_desktop_ui::snapshot::ConsulValues;
use consul_desktop_ui::sync::plan_update;
use consul_desktop_ui::sync::SyncAction;
use consul_desktop_ui::tree::has_no_array;
use consul_desktop_ui::tree::Tree;
use consul_desktop_ui::SyncError;

fn s(x: &str) -> String {
    String::from(x)
}

fn leaf(v: &str) -> Tree {
    Tree::Leaf(s(v))
}

fn node(fields: Vec<(&str, Tree)>) -> Tree {
    Tree::Node(fields.into_iter().map(|(k, v)| (s(k), v)).collect())
}

fn root(fields: Vec<(&str, Tree)>) -> Vec<(String, Tree)> {
    fields.into_iter().map(|(k, v)| (s(k), v)).collect()
}

fn sorted_items(m: &FlatMap) -> Vec<(String, String)> {
    let mut items = m.items();
    items.sort();
    items
}

#[test]
fn split_key_splits_on_separators() {
    assert_eq!(split_key("a/b/c"), vec![s("a"), s("b"), s("c")]);
    assert_eq!(split_key("alone"), vec![s("alone")]);
    assert_eq!(split_key(""), vec![s("")]);
    assert_eq!(split_key("a//b"), vec![s("a"), s(""), s("b")]);
    assert_eq!(split_key("a/"), vec![s("a"), s("")]);
}

#[test]
fn join_segments_joins_with_separators() {
    assert_eq!(join_segments(&vec![s("a"), s("b"), s("c")]), s("a/b/c"));
    assert_eq!(join_segments(&vec![s("alone")]), s("alone"));
    assert_eq!(join_segments(&vec![]), s(""));
}

#[test]
fn split_undoes_join() {
    let segs = vec![s("db"), s("host"), s("name")];
    assert_eq!(split_key(&join_segments(&segs)), segs);
}

#[test]
fn has_no_array_reports_arrays_at_any_depth() {
    assert!(has_no_array(&node(vec![("a", leaf("1"))])));
    assert!(!has_no_array(&Tree::Array));
    assert!(!has_no_array(&node(vec![("a", node(vec![("b", Tree::Array)]))])));
    assert!(has_no_array(&node(vec![("a", Tree::Scalar)])));
}

#[test]
fn flatten_emits_one_entry_per_leaf() {
    let doc = root(vec![
        ("key1", leaf("value1")),
        ("key2", node(vec![("key3", leaf("value3"))])),
    ]);
    let m = generate_key_values(&doc).unwrap();
    assert_eq!(
        sorted_items(&m),
        vec![(s("key1"), s("value1")), (s("key2/key3"), s("value3"))]
    );
}

#[test]
fn flatten_rejects_arrays_before_non_string_leaves() {
    let doc = root(vec![("bad", Tree::Scalar), ("worse", Tree::Array)]);
    assert!(matches!(generate_key_values(&doc), Err(SyncError::InvalidShape)));
    let doc2 = root(vec![("bad", Tree::Scalar)]);
    assert!(matches!(generate_key_values(&doc2), Err(SyncError::NonStringLeaf)));
}

#[test]
fn insert_value_creates_intermediate_nodes() {
    let mut doc: Vec<(String, Tree)> = Vec::new();
    insert_value(&mut doc, &vec![s("key"), s("path")], &s("value"));
    let m = generate_key_values(&doc).unwrap();
    assert_eq!(sorted_items(&m), vec![(s("key/path"), s("value"))]);
}

#[test]
fn insert_value_overwrites_exact_path() {
    let mut doc: Vec<(String, Tree)> = Vec::new();
    insert_value(&mut doc, &vec![s("a"), s("b")], &s("1"));
    insert_value(&mut doc, &vec![s("a"), s("b")], &s("2"));
    let m = generate_key_values(&doc).unwrap();
    assert_eq!(sorted_items(&m), vec![(s("a/b"), s("2"))]);
}

#[test]
fn insert_value_overwrites_leaf_with_node() {
    let mut doc: Vec<(String, Tree)> = Vec::new();
    insert_value(&mut doc, &vec![s("a")], &s("1"));
    insert_value(&mut doc, &vec![s("a"), s("b")], &s("2"));
    let m = generate_key_values(&doc).unwrap();
    assert_eq!(sorted_items(&m), vec![(s("a/b"), s("2"))]);
}

#[test]
fn round_trip_rebuilds_the_document() {
    let doc = root(vec![
        ("db", node(vec![("host", leaf("localhost")), ("port", leaf("5432"))])),
        ("app", leaf("ui")),
    ]);
    let flat = generate_key_values(&doc).unwrap();
    let mut rebuilt: Vec<(String, Tree)> = Vec::new();
    for (key, value) in flat.items() {
        let path = split_key(&key);
        insert_value(&mut rebuilt, &path, &value);
    }
    let reflat = generate_key_values(&rebuilt).unwrap();
    assert_eq!(sorted_items(&reflat), sorted_items(&flat));
    assert_eq!(rebuilt.len(), doc.len());
    assert_eq!(rebuilt[0].0, s("db"));
    assert_eq!(rebuilt[1].0, s("app"));
    match &rebuilt[0].1 {
        Tree::Node(fields) => {
            assert_eq!(fields.len(), 2);
            assert_eq!(fields[0].0, s("host"));
            assert_eq!(fields[1].0, s("port"));
        }
        _ => panic!("expected a node"),
    }
}

#[test]
fn flat_map_insert_get_and_overwrite() {
    let mut m = FlatMap::new();
    m.insert(s("a"), s("1"));
    m.insert(s("b"), s("2"));
    assert_eq!(m.get(&s("a")), Some(&s("1")));
    assert!(m.contains_key(&s("b")));
    assert!(!m.contains_key(&s("c")));
    m.insert(s("a"), s("3"));
    assert_eq!(m.get(&s("a")), Some(&s("3")));
    assert_eq!(sorted_items(&m), vec![(s("a"), s("3")), (s("b"), s("2"))]);
}

#[test]
fn plan_is_empty_for_equal_maps() {
    let mut before = FlatMap::new();
    before.insert(s("x"), s("1"));
    let mut after = FlatMap::new();
    after.insert(s("x"), s("1"));
    let plan = plan_update(&before, &after);
    assert_eq!(plan.len(), 0);
}

#[test]
fn key_removal_issues_exactly_one_delete() {
    let mut before = FlatMap::new();
    before.insert(s("x"), s("1"));
    before.insert(s("y"), s("2"));
    let mut after = FlatMap::new();
    after.insert(s("x"), s("1"));
    let plan = plan_update(&before, &after);
    assert_eq!(plan.len(), 1);
    match &plan[0] {
        SyncAction::Delete(k) => assert_eq!(k, &s("y")),
        SyncAction::Write(_, _) => panic!("expected a delete"),
    }
}

#[test]
fn deletes_come_before_writes() {
    let before = ConsulValues::new_from_json(root(vec![(
        "a",
        node(vec![("b", leaf("1"))]),
    )]))
    .unwrap();
    let after = ConsulValues::new_from_json(root(vec![("a", leaf("x"))])).unwrap();
    let plan = update_plan(&before, &after);
    assert_eq!(plan.len(), 2);
    match &plan[0] {
        SyncAction::Delete(k) => assert_eq!(k, &s("a/b")),
        SyncAction::Write(_, _) => panic!("delete must come first"),
    }
    match &plan[1] {
        SyncAction::Write(k, v) => {
            assert_eq!(k, &s("a"));
            assert_eq!(v, &s("x"));
        }
        SyncAction::Delete(_) => panic!("write must come second"),
    }
}

#[test]
fn diff_covers_added_changed_and_unchanged() {
    let mut before = FlatMap::new();
    before.insert(s("keep"), s("same"));
    before.insert(s("edit"), s("old"));
    before.insert(s("drop"), s("gone"));
    let mut after = FlatMap::new();
    after.insert(s("keep"), s("same"));
    after.insert(s("edit"), s("new"));
    after.insert(s("add"), s("fresh"));
    let plan = plan_update(&before, &after);
    let mut deletes: Vec<String> = Vec::new();
    let mut writes: Vec<(String, String)> = Vec::new();
    for act in plan {
        match act {
            SyncAction::Delete(k) => deletes.push(k),
            SyncAction::Write(k, v) => writes.push((k, v)),
        }
    }
    writes.sort();
    assert_eq!(deletes, vec![s("drop")]);
    assert_eq!(writes, vec![(s("add"), s("fresh")), (s("edit"), s("new"))]);
}

#[test]
fn pull_edit_push_scenario() {
    // Remote values arrive base64-encoded: "localhost" and "5432".
    let entries = vec![
        (s("db/host"), s("bG9jYWxob3N0")),
        (s("db/port"), s("NTQzMg==")),
    ];
    let baseline = ConsulValues::new_from_remote_entries(&entries).unwrap();
    assert_eq!(
        sorted_items(baseline.key_values()),
        vec![(s("db/host"), s("localhost")), (s("db/port"), s("5432"))]
    );
    let doc = baseline.to_json();
    assert_eq!(doc.len(), 1);
    assert_eq!(doc[0].0, s("db"));

    let edited = ConsulValues::new_from_json(root(vec![(
        "db",
        node(vec![
            ("host", leaf("localhost")),
            ("port", leaf("5433")),
            ("name", leaf("prod")),
        ]),
    )]))
    .unwrap();
    let plan = update_plan(&baseline, &edited);
    let mut deletes: Vec<String> = Vec::new();
    let mut writes: Vec<(String, String)> = Vec::new();
    for act in plan {
        match act {
            SyncAction::Delete(k) => deletes.push(k),
            SyncAction::Write(k, v) => writes.push((k, v)),
        }
    }
    writes.sort();
    assert_eq!(deletes.len(), 0);
    assert_eq!(
        writes,
        vec![(s("db/name"), s("prod")), (s("db/port"), s("5433"))]
    );
}

#[test]
fn array_rejection_scenario() {
    let r = ConsulValues::new_from_json(root(vec![("list", Tree::Array)]));
    assert!(matches!(r, Err(SyncError::InvalidShape)));
}

#[test]
fn non_string_leaf_is_rejected() {
    let r = ConsulValues::new_from_json(root(vec![("n", Tree::Scalar)]));
    assert!(matches!(r, Err(SyncError::NonStringLeaf)));
}

#[test]
fn decode_kv_value_decodes_base64_utf8() {
    assert_eq!(decode_kv_value(&s("aGVsbG8=")).unwrap(), s("hello"));
    assert_eq!(decode_kv_value(&s("")).unwrap(), s(""));
    assert!(matches!(
        decode_kv_value(&s("not base64!")),
        Err(SyncError::DecodeError)
    ));
    // Valid base64 that decodes to invalid UTF-8 bytes.
    assert!(matches!(decode_kv_value(&s("/w==")), Err(SyncError::DecodeError)));
}

#[test]
fn remote_entries_with_bad_value_fail_to_decode() {
    let entries = vec![(s("ok"), s("YQ==")), (s("bad"), s("%%%"))];
    let r = ConsulValues::new_from_remote_entries(&entries);
    assert!(matches!(r, Err(SyncError::DecodeError)));
}

#[test]
fn remote_unavailable_carries_its_text() {
    let e = SyncError::RemoteUnavailable(s("status 500"));
    match e {
        SyncError::RemoteUnavailable(msg) => assert_eq!(msg, s("status 500")),
        _ => panic!("expected a remote error"),
    }
}

#[test]
fn client_address_renders_scheme_host_port() {
    let client = ConsulClient {
        name: s("local"),
        host: Host::new(s("localhost")),
        port: Port::new(8500).unwrap(),
        scheme: Scheme::HTTP,
    };
    assert_eq!(client.address(), s("http://localhost:8500"));
    assert_eq!(client.kv_url(&s("db/host")), s("http://localhost:8500/v1/kv/db/host"));
    let secure = ConsulClient {
        name: s("remote"),
        host: Host::new(s("example.test")),
        port: Port::new(1).unwrap(),
        scheme: Scheme::HTTPS,
    };
    assert_eq!(secure.address(), s("https://example.test:1"));
}

#[test]
fn port_zero_is_rejected() {
    assert!(Port::new(0).is_err());
    assert!(Port::new(1).is_ok());
    assert!(Port::new(65535).is_ok());
}

#[test]
fn file_helper_joins_paths_under_app_directory() {
    let helper = get_file_system_helper();
    assert_eq!(
        helper.get_path(&s("/home/user"), &s("servers.json")),
        s("/home/user/.consul-desktop-ui/servers.json")
    );
    assert_eq!(
        helper.app_directory_path(&s("/home/user")),
        s("/home/user/.consul-desktop-ui")
    );
}
