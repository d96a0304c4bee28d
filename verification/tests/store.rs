use kubectl_watch::db::{Database, Memory, UID};
use kubectl_watch::dynamic_object::{DynamicObject, ObjectMeta, TypeMeta};

fn snapshot(name: &str, namespace: Option<&str>, rv: &str) -> DynamicObject {
    DynamicObject {
        types: Some(TypeMeta { api_version: "v1".to_string(), kind: "Pod".to_string() }),
        metadata: ObjectMeta {
            name: name.to_string(),
            namespace: namespace.map(|ns| ns.to_string()),
            resource_version: rv.to_string(),
            creation_timestamp: 1_000,
            managed_fields: Some("- manager: kubelet".to_string()),
            other: "labels: {}".to_string(),
        },
        data: "spec: {}".to_string(),
    }
}

fn versions(list: &Vec<DynamicObject>) -> Vec<String> {
    list.iter().map(|o| o.resource_version()).collect()
}

#[test]
fn identity_is_name_followed_by_namespace() {
    assert_eq!(snapshot("web", Some("prod"), "1").uid(), "webprod");
    assert_eq!(snapshot("node-1", None, "1").uid(), "node-1");
    assert_eq!(snapshot("web", Some("prod"), "17").resource_version(), "17");
}

#[test]
fn empty_store_knows_nothing() {
    let db: Memory<DynamicObject> = Memory::new();
    let probe = snapshot("a", Some("ns"), "1");
    assert!(db.items_of(&probe).is_none());
    assert!(db.items_of_uid("ans".to_string()).is_none());
    assert_eq!(db.position_of(&probe), None);
    assert_eq!(db.index_of(&probe), 0);
    assert!(db.sibling(&probe).is_none());
}

#[test]
fn history_keeps_insertion_order() {
    let mut db: Memory<DynamicObject> = Memory::new();
    for rv in ["5", "3", "9", "4"] {
        db.do_insert(snapshot("a", Some("ns"), rv));
    }
    let history = db.items_of_uid("ans".to_string()).unwrap();
    assert_eq!(versions(history), vec!["5", "3", "9", "4"]);
}

#[test]
fn histories_are_kept_apart_by_identity() {
    let mut db: Memory<DynamicObject> = Memory::new();
    db.do_insert(snapshot("a", Some("ns"), "1"));
    db.do_insert(snapshot("b", Some("ns"), "2"));
    db.do_insert(snapshot("a", Some("ns"), "3"));
    db.do_insert(snapshot("a", Some("other"), "4"));
    db.do_insert(snapshot("b", Some("ns"), "5"));
    assert_eq!(versions(db.items_of_uid("ans".to_string()).unwrap()), vec!["1", "3"]);
    assert_eq!(versions(db.items_of_uid("bns".to_string()).unwrap()), vec!["2", "5"]);
    assert_eq!(versions(db.items_of(&snapshot("a", Some("other"), "x")).unwrap()), vec!["4"]);
    assert!(db.items_of_uid("cns".to_string()).is_none());
}

#[test]
fn sibling_is_the_snapshot_before() {
    let mut db: Memory<DynamicObject> = Memory::new();
    for rv in ["10", "11", "12"] {
        db.do_insert(snapshot("a", Some("ns"), rv));
    }
    db.do_insert(snapshot("b", Some("ns"), "11"));
    let history: Vec<DynamicObject> =
        db.items_of_uid("ans".to_string()).unwrap().iter().map(|o| o.duplicate()).collect();
    assert!(db.sibling(&history[0]).is_none());
    assert_eq!(db.sibling(&history[1]).unwrap().resource_version(), "10");
    assert_eq!(db.sibling(&history[2]).unwrap().resource_version(), "11");
    assert_eq!(db.index_of(&history[2]), 2);
    assert_eq!(db.position_of(&history[2]), Some(2));
    // the first of another identity has no sibling, whatever its marker
    assert!(db.sibling(&snapshot("b", Some("ns"), "11")).is_none());
}

#[test]
fn index_of_is_zero_for_first_and_for_missing() {
    let mut db: Memory<DynamicObject> = Memory::new();
    db.do_insert(snapshot("a", Some("ns"), "10"));
    db.do_insert(snapshot("a", Some("ns"), "11"));
    let first = snapshot("a", Some("ns"), "10");
    let missing = snapshot("a", Some("ns"), "99");
    assert_eq!(db.index_of(&first), 0);
    assert_eq!(db.index_of(&missing), 0);
    assert_eq!(db.position_of(&first), Some(0));
    assert_eq!(db.position_of(&missing), None);
    assert!(db.sibling(&missing).is_none());
}

#[test]
fn repeated_marker_is_found_at_its_first_place() {
    let mut db: Memory<DynamicObject> = Memory::new();
    for rv in ["1", "2", "2", "3"] {
        db.do_insert(snapshot("a", None, rv));
    }
    let probe = snapshot("a", None, "2");
    assert_eq!(db.index_of(&probe), 1);
    assert_eq!(db.sibling(&probe).unwrap().resource_version(), "1");
}

#[test]
fn duplicate_is_equal_in_every_field() {
    let source = snapshot("a", Some("ns"), "7");
    let copy = source.duplicate();
    assert_eq!(copy.metadata.name, "a");
    assert_eq!(copy.metadata.namespace, Some("ns".to_string()));
    assert_eq!(copy.metadata.resource_version, "7");
    assert_eq!(copy.metadata.creation_timestamp, 1_000);
    assert_eq!(copy.metadata.managed_fields, source.metadata.managed_fields);
    assert_eq!(copy.metadata.other, source.metadata.other);
    assert_eq!(copy.data, source.data);
    assert_eq!(copy.types.unwrap().kind, "Pod");
}
