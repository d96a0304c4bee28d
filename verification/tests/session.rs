use kubectl_watch::db::{Database, UID};
use kubectl_watch::diff::Difft;
use kubectl_watch::dynamic_object::{DynamicObject, ObjectMeta, TypeMeta};
use kubectl_watch::event::{KeyCode, Msg, CHANNEL_CAPACITY};
use kubectl_watch::tui::{Controller, Flow};

fn snapshot(name: &str, rv: &str) -> DynamicObject {
    DynamicObject {
        types: Some(TypeMeta { api_version: "v1".to_string(), kind: "Pod".to_string() }),
        metadata: ObjectMeta {
            name: name.to_string(),
            namespace: Some("ns".to_string()),
            resource_version: rv.to_string(),
            creation_timestamp: 100,
            managed_fields: Some("managers".to_string()),
            other: String::new(),
        },
        data: format!("spec-{}-{}", name, rv),
    }
}

fn visible(ctrl: &Controller) -> Vec<(String, String)> {
    ctrl.items
        .iter()
        .map(|o| (o.metadata.name.clone(), o.metadata.resource_version.clone()))
        .collect()
}

fn pair(name: &str, rv: &str) -> (String, String) {
    (name.to_string(), rv.to_string())
}

fn session(events: &[(&str, &str)]) -> Controller {
    let mut ctrl = Controller::new(Difft::new(false));
    for (name, rv) in events {
        ctrl.ingest(snapshot(name, rv));
    }
    ctrl
}

fn select(ctrl: &mut Controller, index: usize) {
    ctrl.next();
    while ctrl.state != Some(index) {
        ctrl.next();
    }
}

#[test]
fn new_session_is_an_empty_overview() {
    let ctrl = Controller::new(Difft::new(true));
    assert_eq!(ctrl.state, None);
    assert!(ctrl.items.is_empty());
    assert!(ctrl.total_items.is_empty());
    assert_eq!(ctrl.active_uid, None);
    assert!(ctrl.l_diff.is_none());
    assert!(ctrl.r_diff.is_none());
    assert_eq!(ctrl.scroll, 0);
    assert_eq!(ctrl.scroll_step, 5);
    assert!(ctrl.diff_tool.include_managed_fields);
    assert_eq!(CHANNEL_CAPACITY, 32);
}

#[test]
fn ingest_appends_in_arrival_order_and_keeps_selection() {
    let mut ctrl = session(&[("a", "1"), ("b", "2")]);
    ctrl.next();
    ctrl.next();
    assert_eq!(ctrl.state, Some(1));
    ctrl.ingest(snapshot("a", "3"));
    assert_eq!(visible(&ctrl), vec![pair("a", "1"), pair("b", "2"), pair("a", "3")]);
    assert_eq!(ctrl.state, Some(1));
    assert_eq!(ctrl.r_diff.as_ref().unwrap().metadata.resource_version, "2");
    assert_eq!(ctrl.database.items_of_uid("ans".to_string()).unwrap().len(), 2);
    assert_eq!(ctrl.total_items.len(), 3);
}

#[test]
fn ingest_in_drilldown_shows_only_the_same_identity() {
    let mut ctrl = session(&[("a", "1"), ("b", "2")]);
    select(&mut ctrl, 0);
    ctrl.enter();
    assert_eq!(ctrl.active_uid, Some("ans".to_string()));
    ctrl.ingest(snapshot("b", "3"));
    assert_eq!(visible(&ctrl), vec![pair("a", "1")]);
    ctrl.ingest(snapshot("a", "4"));
    assert_eq!(visible(&ctrl), vec![pair("a", "1"), pair("a", "4")]);
    assert_eq!(ctrl.state, Some(0));
    assert_eq!(ctrl.total_items.len(), 4);
    assert_eq!(ctrl.database.items_of_uid("bns".to_string()).unwrap().len(), 2);
}

#[test]
fn next_wraps_from_last_to_first() {
    let mut ctrl = session(&[("a", "1"), ("b", "2"), ("c", "3")]);
    ctrl.next();
    assert_eq!(ctrl.state, Some(0));
    ctrl.next();
    ctrl.next();
    assert_eq!(ctrl.state, Some(2));
    ctrl.next();
    assert_eq!(ctrl.state, Some(0));
}

#[test]
fn previous_wraps_from_first_to_last() {
    let mut ctrl = session(&[("a", "1"), ("b", "2"), ("c", "3")]);
    ctrl.previous();
    assert_eq!(ctrl.state, Some(0));
    ctrl.previous();
    assert_eq!(ctrl.state, Some(2));
    ctrl.previous();
    assert_eq!(ctrl.state, Some(1));
}

#[test]
fn moving_on_an_empty_list_selects_the_start() {
    let mut ctrl = Controller::new(Difft::new(false));
    ctrl.next();
    assert_eq!(ctrl.state, Some(0));
    ctrl.next();
    assert_eq!(ctrl.state, Some(0));
    ctrl.previous();
    assert_eq!(ctrl.state, Some(0));
    assert!(ctrl.r_diff.is_none());
    ctrl.enter();
    ctrl.escape();
    assert_eq!(ctrl.active_uid, None);
    assert_eq!(ctrl.state, Some(0));
}

#[test]
fn moving_compares_selection_with_its_sibling_from_the_store() {
    let mut ctrl = session(&[("a", "1"), ("b", "2"), ("a", "3")]);
    select(&mut ctrl, 2);
    // the sibling of a@3 is a@1, not its neighbour b@2 in the visible list
    assert_eq!(ctrl.l_diff.as_ref().unwrap().metadata.resource_version, "1");
    assert_eq!(ctrl.l_diff.as_ref().unwrap().metadata.name, "a");
    assert_eq!(ctrl.r_diff.as_ref().unwrap().metadata.resource_version, "3");
    select(&mut ctrl, 1);
    assert!(ctrl.l_diff.is_none());
    assert_eq!(ctrl.r_diff.as_ref().unwrap().metadata.name, "b");
}

#[test]
fn compared_documents_are_redacted() {
    let mut ctrl = session(&[("a", "1"), ("a", "2")]);
    select(&mut ctrl, 1);
    let left = ctrl.l_diff.as_ref().unwrap();
    let right = ctrl.r_diff.as_ref().unwrap();
    assert!(left.types.is_none() && right.types.is_none());
    assert!(left.metadata.managed_fields.is_none() && right.metadata.managed_fields.is_none());
    assert_eq!(right.data, "spec-a-2");
    // what the session holds is untouched
    assert!(ctrl.items[1].types.is_some());
    assert!(ctrl.items[1].metadata.managed_fields.is_some());

    let mut keeping = Controller::new(Difft::new(true));
    keeping.ingest(snapshot("a", "1"));
    keeping.next();
    let shown = keeping.r_diff.as_ref().unwrap();
    assert!(shown.types.is_none());
    assert_eq!(shown.metadata.managed_fields, Some("managers".to_string()));
}

#[test]
fn moving_resets_scroll() {
    let mut ctrl = session(&[("a", "1"), ("b", "2")]);
    ctrl.page_down();
    ctrl.page_down();
    assert_eq!(ctrl.scroll, 10);
    ctrl.next();
    assert_eq!(ctrl.scroll, 0);
    ctrl.page_down();
    ctrl.previous();
    assert_eq!(ctrl.scroll, 0);
}

#[test]
fn scrolling_is_clamped_and_view_only() {
    let mut ctrl = session(&[("a", "1"), ("a", "2")]);
    select(&mut ctrl, 1);
    ctrl.page_up();
    assert_eq!(ctrl.scroll, 0);
    ctrl.page_down();
    ctrl.page_down();
    ctrl.page_down();
    assert_eq!(ctrl.scroll, 15);
    ctrl.page_up();
    assert_eq!(ctrl.scroll, 10);
    ctrl.scroll = 3;
    ctrl.page_up();
    assert_eq!(ctrl.scroll, 0);
    ctrl.page_down();
    ctrl.page_home();
    assert_eq!(ctrl.scroll, 0);
    ctrl.scroll = u16::MAX - 2;
    ctrl.page_down();
    assert_eq!(ctrl.scroll, u16::MAX);
    assert_eq!(ctrl.state, Some(1));
    assert_eq!(ctrl.r_diff.as_ref().unwrap().metadata.resource_version, "2");
    assert_eq!(ctrl.l_diff.as_ref().unwrap().metadata.resource_version, "1");
}

#[test]
fn enter_then_escape_restores_selection() {
    // A (2 snapshots), B (1 snapshot), C (2 snapshots)
    let mut ctrl = session(&[("a", "1"), ("b", "2"), ("c", "3"), ("a", "4"), ("c", "5")]);
    select(&mut ctrl, 3);
    assert_eq!(ctrl.items[3].metadata.resource_version, "4");
    ctrl.enter();
    assert_eq!(ctrl.active_uid, Some("ans".to_string()));
    assert_eq!(visible(&ctrl), vec![pair("a", "1"), pair("a", "4")]);
    assert_eq!(ctrl.state, Some(1));
    ctrl.escape();
    assert_eq!(ctrl.active_uid, None);
    assert_eq!(ctrl.items.len(), 5);
    assert_eq!(ctrl.state, Some(3));
    assert_eq!(ctrl.items[3].uid(), "ans");
    assert_eq!(ctrl.items[3].metadata.resource_version, "4");
}

#[test]
fn drilldown_scenario() {
    let mut ctrl = session(&[("a", "v1"), ("a", "v2"), ("b", "v1b")]);
    select(&mut ctrl, 1);
    ctrl.enter();
    assert_eq!(ctrl.active_uid, Some("ans".to_string()));
    assert_eq!(visible(&ctrl), vec![pair("a", "v1"), pair("a", "v2")]);
    assert_eq!(ctrl.state, Some(1));
    assert_eq!(ctrl.l_diff.as_ref().unwrap().metadata.resource_version, "v1");
    assert_eq!(ctrl.r_diff.as_ref().unwrap().metadata.resource_version, "v2");
    ctrl.escape();
    assert_eq!(ctrl.active_uid, None);
    assert_eq!(visible(&ctrl), vec![pair("a", "v1"), pair("a", "v2"), pair("b", "v1b")]);
    assert_eq!(ctrl.state, Some(1));
    assert_eq!(ctrl.items[1].metadata.resource_version, "v2");
    assert_eq!(ctrl.r_diff.as_ref().unwrap().metadata.resource_version, "v2");
}

#[test]
fn enter_on_the_drilled_identity_changes_nothing() {
    let mut ctrl = session(&[("a", "1"), ("b", "2"), ("a", "3")]);
    select(&mut ctrl, 2);
    ctrl.enter();
    ctrl.previous();
    assert_eq!(ctrl.state, Some(0));
    ctrl.page_down();
    ctrl.enter();
    assert_eq!(ctrl.active_uid, Some("ans".to_string()));
    assert_eq!(ctrl.state, Some(0));
    assert_eq!(ctrl.scroll, 5);
    assert_eq!(visible(&ctrl), vec![pair("a", "1"), pair("a", "3")]);
}

#[test]
fn enter_without_selection_changes_nothing() {
    let mut ctrl = session(&[("a", "1")]);
    ctrl.enter();
    assert_eq!(ctrl.active_uid, None);
    assert_eq!(ctrl.state, None);
    assert_eq!(ctrl.items.len(), 1);
}

#[test]
fn escape_in_overview_changes_nothing() {
    let mut ctrl = session(&[("a", "1"), ("b", "2")]);
    select(&mut ctrl, 1);
    ctrl.page_down();
    ctrl.escape();
    assert_eq!(ctrl.state, Some(1));
    assert_eq!(ctrl.scroll, 5);
    assert_eq!(ctrl.items.len(), 2);
}

#[test]
fn escape_relocates_by_version_marker() {
    // in the drill-down the selection moves to a@3, which stands third in the overview
    let mut ctrl = session(&[("a", "1"), ("b", "2"), ("a", "3"), ("b", "4")]);
    select(&mut ctrl, 0);
    ctrl.enter();
    ctrl.next();
    assert_eq!(ctrl.state, Some(1));
    ctrl.ingest(snapshot("b", "5"));
    ctrl.escape();
    assert_eq!(ctrl.state, Some(2));
    assert_eq!(ctrl.items[2].metadata.resource_version, "3");
    assert_eq!(ctrl.items.len(), 5);
    assert_eq!(ctrl.l_diff.as_ref().unwrap().metadata.resource_version, "1");
}

#[test]
fn keys_drive_the_session() {
    let mut ctrl = Controller::new(Difft::new(false));
    assert_eq!(ctrl.handle(Msg::Obj(snapshot("a", "1"))), Flow::Continue);
    assert_eq!(ctrl.handle(Msg::Obj(snapshot("a", "2"))), Flow::Continue);
    assert_eq!(ctrl.handle(Msg::Obj(snapshot("b", "3"))), Flow::Continue);
    assert_eq!(ctrl.handle(Msg::Key(KeyCode::Down)), Flow::Continue);
    assert_eq!(ctrl.handle(Msg::Key(KeyCode::Char('j'))), Flow::Continue);
    assert_eq!(ctrl.state, Some(1));
    ctrl.handle(Msg::Key(KeyCode::Char('k')));
    assert_eq!(ctrl.state, Some(0));
    ctrl.handle(Msg::Key(KeyCode::Up));
    assert_eq!(ctrl.state, Some(2));
    ctrl.handle(Msg::Key(KeyCode::PageDown));
    ctrl.handle(Msg::Key(KeyCode::PageDown));
    ctrl.handle(Msg::Key(KeyCode::PageUp));
    assert_eq!(ctrl.scroll, 5);
    ctrl.handle(Msg::Key(KeyCode::Home));
    assert_eq!(ctrl.scroll, 0);
    ctrl.handle(Msg::Key(KeyCode::Enter));
    assert_eq!(ctrl.active_uid, Some("bns".to_string()));
    assert_eq!(ctrl.items.len(), 1);
    ctrl.handle(Msg::Key(KeyCode::Esc));
    assert_eq!(ctrl.active_uid, None);
    assert_eq!(ctrl.state, Some(2));
    assert_eq!(ctrl.handle(Msg::Key(KeyCode::Other)), Flow::Continue);
    assert_eq!(ctrl.handle(Msg::Key(KeyCode::Char('x'))), Flow::Continue);
    assert_eq!(ctrl.state, Some(2));
    assert_eq!(ctrl.handle(Msg::Key(KeyCode::Char('q'))), Flow::Quit);
    assert_eq!(ctrl.state, Some(2));
    assert_eq!(ctrl.items.len(), 3);
}

#[test]
fn table_rows_number_the_items_from_one() {
    let mut ctrl = session(&[("a", "1"), ("b", "2")]);
    ctrl.ingest(DynamicObject {
        types: None,
        metadata: ObjectMeta {
            name: "node-1".to_string(),
            namespace: None,
            resource_version: "77".to_string(),
            creation_timestamp: 0,
            managed_fields: None,
            other: String::new(),
        },
        data: String::new(),
    });
    let rows = ctrl.get_raws(100 + 3 * 86400);
    assert_eq!(rows.len(), 3);
    assert_eq!(rows[0], vec!["1", "ns", "a", "3d0h", "1"]);
    assert_eq!(rows[1], vec!["2", "ns", "b", "3d0h", "2"]);
    assert_eq!(rows[2], vec!["3", "", "node-1", "3d0h", "77"]);
    assert_eq!(ctrl.get_raws(130)[0][3], "30s");
    assert_eq!(ctrl.get_header(), vec!["ID", "NAMESPACE", "NAME", "AGE", "REV"]);
}
