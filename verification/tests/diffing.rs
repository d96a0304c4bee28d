use kubectl_watch::db::{Database, Memory};
use kubectl_watch::diff::{
    build_pipeline, delta_print_process, detect_display_width, diff, interpret_exit_code, new,
    Backend, DiffOutcome, Difft,
};
use kubectl_watch::dynamic_object::{DynamicObject, ObjectMeta, TypeMeta};
use kubectl_watch::options::{App, DiffTool, Mode};
use kubectl_watch::persistent::{store_resource, MINUS_FILE, PLUS_FILE, TMP_DIR};
use kubectl_watch::pipeline::{exclude_managed_fields, exclude_types, Pipeline, Process, Task};

fn snapshot(name: &str, namespace: Option<&str>, rv: &str) -> DynamicObject {
    DynamicObject {
        types: Some(TypeMeta { api_version: "apps/v1".to_string(), kind: "Deployment".to_string() }),
        metadata: ObjectMeta {
            name: name.to_string(),
            namespace: namespace.map(|ns| ns.to_string()),
            resource_version: rv.to_string(),
            creation_timestamp: 5,
            managed_fields: Some("- manager: kubectl".to_string()),
            other: "labels:\n  app: web".to_string(),
        },
        data: format!("spec:\n  replicas: {}", rv),
    }
}

fn settings(include_managed_fields: bool, diff_tool: DiffTool) -> App {
    App {
        selector: None,
        namespace: None,
        all: false,
        mode: Mode::Simple,
        diff_tool,
        use_tls: true,
        include_managed_fields,
        export: None,
        resource: Some("deploy".to_string()),
        name: None,
    }
}

#[test]
fn defaults_of_the_settings() {
    assert_eq!(Mode::default(), Mode::TUI);
    assert_eq!(DiffTool::default(), DiffTool::Difft);
}

#[test]
fn default_pipeline_strips_type_envelope() {
    let mut l = snapshot("a", Some("ns"), "1");
    let mut r = snapshot("a", Some("ns"), "2");
    Pipeline::init().process(&mut l, &mut r);
    assert!(l.types.is_none());
    assert!(r.types.is_none());
    assert_eq!(l.metadata.managed_fields, Some("- manager: kubectl".to_string()));
    assert_eq!(r.metadata.resource_version, "2");
    assert_eq!(r.data, "spec:\n  replicas: 2");
    assert_eq!(l.metadata.other, "labels:\n  app: web");
}

#[test]
fn pipeline_strips_types_whatever_is_added() {
    let mut p = Pipeline::init();
    p.add_task(Task::ExcludeManagedFields);
    p.add_task(Task::ExcludeTypes);
    p.add_task(Task::ExcludeManagedFields);
    let mut l = snapshot("a", None, "1");
    let mut r = DynamicObject {
        types: None,
        metadata: ObjectMeta {
            name: String::new(),
            namespace: None,
            resource_version: String::new(),
            creation_timestamp: 0,
            managed_fields: None,
            other: String::new(),
        },
        data: String::new(),
    };
    p.process(&mut l, &mut r);
    assert!(l.types.is_none() && r.types.is_none());
    assert!(l.metadata.managed_fields.is_none() && r.metadata.managed_fields.is_none());
    assert_eq!(l.metadata.name, "a");
}

#[test]
fn session_pipeline_follows_managed_fields_setting() {
    let mut l = snapshot("a", Some("ns"), "1");
    let mut r = snapshot("a", Some("ns"), "2");
    build_pipeline(false).process(&mut l, &mut r);
    assert!(l.types.is_none() && l.metadata.managed_fields.is_none());
    assert!(r.types.is_none() && r.metadata.managed_fields.is_none());
    let mut l = snapshot("a", Some("ns"), "1");
    let mut r = snapshot("a", Some("ns"), "2");
    build_pipeline(true).process(&mut l, &mut r);
    assert!(l.types.is_none() && l.metadata.managed_fields.is_some());
    assert!(r.types.is_none() && r.metadata.managed_fields.is_some());
}

#[test]
fn single_transforms_touch_one_field() {
    let mut l = snapshot("a", Some("ns"), "1");
    let mut r = snapshot("b", None, "2");
    exclude_managed_fields(&mut l, &mut r);
    assert!(l.metadata.managed_fields.is_none() && r.metadata.managed_fields.is_none());
    assert_eq!(l.types.as_ref().unwrap().kind, "Deployment");
    assert_eq!(r.metadata.name, "b");
    exclude_types(&mut l, &mut r);
    assert!(l.types.is_none() && r.types.is_none());
    assert_eq!(l.metadata.namespace, Some("ns".to_string()));
    assert_eq!(r.data, "spec:\n  replicas: 2");
    let mut alone = snapshot("c", None, "3");
    alone.exclude_types();
    assert!(alone.types.is_none() && alone.metadata.managed_fields.is_some());
    alone.exclude_managed_fields();
    assert!(alone.metadata.managed_fields.is_none());
    assert_eq!(alone.metadata.creation_timestamp, 5);
}

#[test]
fn renderer_works_on_copies() {
    let before = snapshot("a", Some("ns"), "1");
    let after = snapshot("a", Some("ns"), "2");
    let mut tool = Difft::new(false);
    let (left, right) = tool.tui_diff(Some(&before), &after);
    let left = left.unwrap();
    assert!(left.types.is_none() && right.types.is_none());
    assert!(left.metadata.managed_fields.is_none());
    assert_eq!(left.metadata.resource_version, "1");
    assert_eq!(right.metadata.resource_version, "2");
    assert!(before.types.is_some() && after.types.is_some());
    assert!(before.metadata.managed_fields.is_some());
    let (none, only) = tool.tui_diff(None, &after);
    assert!(none.is_none());
    assert_eq!(only.data, after.data);
    assert!(!tool.include_managed_fields);
}

#[test]
fn renderer_is_chosen_by_the_settings() {
    assert_eq!(new(&settings(false, DiffTool::Delta)), Backend::Delta);
    assert_eq!(
        new(&settings(true, DiffTool::Difft)),
        Backend::Difft(Difft { include_managed_fields: true })
    );
    assert_eq!(new(&settings(false, DiffTool::Difft)), Backend::Difft(Difft::new(false)));
}

#[test]
fn fewer_than_two_snapshots_give_no_comparison() {
    let app = settings(false, DiffTool::Delta);
    assert!(diff(&app, &vec![]).is_none());
    assert!(diff(&app, &vec![snapshot("a", Some("ns"), "1")]).is_none());
}

#[test]
fn comparison_takes_the_last_two_snapshots() {
    let app = settings(false, DiffTool::Delta);
    let history =
        vec![snapshot("a", Some("ns"), "1"), snapshot("a", Some("ns"), "2"), snapshot("a", Some("ns"), "3")];
    let job = diff(&app, &history).unwrap();
    assert_eq!(job.minus.metadata.resource_version, "2");
    assert_eq!(job.plus.metadata.resource_version, "3");
    assert!(job.minus.types.is_none() && job.plus.types.is_none());
    assert!(job.minus.metadata.managed_fields.is_none());
    assert_eq!(job.backend, Backend::Delta);
    assert_eq!(job.header.event_number, 2);
    assert!(job.header.spaced);
    assert_eq!(job.header.name, "a");
    assert_eq!(job.header.namespace, Some("ns".to_string()));
    let types = job.header.types.unwrap();
    assert_eq!(types.api_version, "apps/v1");
    assert_eq!(types.kind, "Deployment");
    let two = diff(&settings(true, DiffTool::Difft), &history[..2].iter().map(|o| o.duplicate()).collect())
        .unwrap();
    assert_eq!(two.header.event_number, 1);
    assert!(!two.header.spaced);
    assert!(two.plus.metadata.managed_fields.is_some());
    assert_eq!(two.backend, Backend::Difft(Difft::new(true)));
}

#[test]
fn exit_codes_of_the_line_renderer() {
    assert_eq!(interpret_exit_code(0), DiffOutcome::Same);
    assert_eq!(interpret_exit_code(1), DiffOutcome::Different);
    assert_eq!(interpret_exit_code(2), DiffOutcome::Fatal(2));
    assert_eq!(interpret_exit_code(-1), DiffOutcome::Fatal(-1));
    assert_eq!(interpret_exit_code(i32::MAX), DiffOutcome::Fatal(i32::MAX));
}

#[test]
fn line_session_compares_each_change_with_the_one_before() {
    let app = settings(false, DiffTool::Delta);
    let mut map: Memory<DynamicObject> = Memory::new();
    assert!(delta_print_process(&app, &mut map, snapshot("a", Some("ns"), "1")).is_none());
    assert!(delta_print_process(&app, &mut map, snapshot("b", Some("ns"), "2")).is_none());
    let job = delta_print_process(&app, &mut map, snapshot("a", Some("ns"), "3")).unwrap();
    assert_eq!(job.minus.metadata.resource_version, "1");
    assert_eq!(job.plus.metadata.resource_version, "3");
    assert_eq!(job.header.event_number, 1);
    let next = delta_print_process(&app, &mut map, snapshot("a", Some("ns"), "4")).unwrap();
    assert_eq!(next.minus.metadata.resource_version, "3");
    assert_eq!(next.header.event_number, 2);
    assert!(next.header.spaced);
    assert_eq!(map.items_of_uid("ans".to_string()).unwrap().len(), 3);
    assert_eq!(map.items_of_uid("bns".to_string()).unwrap().len(), 1);
}

#[test]
fn display_width_prefers_the_terminal() {
    assert_eq!(detect_display_width(Some(132), Some(100)), 132);
    assert_eq!(detect_display_width(None, Some(100)), 100);
    assert_eq!(detect_display_width(Some(0), None), 0);
    assert_eq!(detect_display_width(None, None), 80);
}

#[test]
fn export_goes_under_namespace_and_name() {
    let obj = snapshot("web", Some("prod"), "42");
    let path = store_resource(&Some("/tmp/out".to_string()), &obj).unwrap();
    assert_eq!(path.dir, vec!["/tmp/out", "prod", "web"]);
    assert_eq!(path.file_name, "42.yaml");
    let cluster = store_resource(&Some("out".to_string()), &snapshot("node-1", None, "7")).unwrap();
    assert_eq!(cluster.dir, vec!["out", "node-1"]);
    assert_eq!(cluster.file_name, "7.yaml");
}

#[test]
fn no_export_without_a_directory() {
    let obj = snapshot("web", Some("prod"), "42");
    assert!(store_resource(&None, &obj).is_none());
    assert!(store_resource(&Some(String::new()), &obj).is_none());
    assert_eq!(TMP_DIR, "kubectl-watch");
    assert_eq!(MINUS_FILE, "minus.yaml");
    assert_eq!(PLUS_FILE, "plus.yaml");
}
