//! What is compared with what: the choice of a renderer, the redaction of the
//! two snapshots that go to it, and the reading of what it reports.

use vstd::prelude::*;
use crate::db::{history_in, Database, Memory, UID};
use crate::dynamic_object::{DynamicObject, TypeMeta};
use crate::options::{App, DiffTool};
use crate::pipeline::{apply_tasks, Pipeline, Process, Task};

verus! {

/// The transforms of a session, by whether it shows managed fields.
pub open spec fn redaction_tasks(include_managed_fields: bool) -> Seq<Task> {
    if include_managed_fields {
        seq![Task::ExcludeTypes]
    } else {
        seq![Task::ExcludeTypes, Task::ExcludeManagedFields]
    }
}

/// A snapshot as the renderer gets it.
pub open spec fn redacted(obj: DynamicObject, include_managed_fields: bool) -> DynamicObject {
    apply_tasks(redaction_tasks(include_managed_fields), obj)
}

/// The pipeline of a session.
pub fn build_pipeline(include_managed_fields: bool) -> (p: Pipeline)
    ensures
        p.tasks() == redaction_tasks(include_managed_fields),
{
    let mut p = Pipeline::init();
    if !include_managed_fields {
        p.add_task(Task::ExcludeManagedFields);
    }
    assert(p.tasks() =~= redaction_tasks(include_managed_fields));
    p
}

/// The structural renderer.
#[derive(Clone, Copy, Debug, PartialEq, Eq, Structural)]
pub struct Difft {
    /// Whether the managed-field metadata stays in what is compared.
    pub include_managed_fields: bool,
}

impl Difft {
    pub fn new(include_managed_fields: bool) -> (d: Self)
        ensures
            d.include_managed_fields == include_managed_fields,
    {
        Difft { include_managed_fields }
    }

    /// The two documents of the side-by-side view for `next` and the snapshot
    /// `pre` before it: redacted copies of both. The left one is missing where
    /// there is no snapshot before.
    pub fn tui_diff(&mut self, pre: Option<&DynamicObject>, next: &DynamicObject) -> (panes: (
        Option<DynamicObject>,
        DynamicObject,
    ))
        ensures
            *final(self) == *old(self),
            panes.0 == match pre {
                Some(p) => Some(redacted(*p, old(self).include_managed_fields)),
                None => None,
            },
            panes.1 == redacted(*next, old(self).include_managed_fields),
    {
        let p = build_pipeline(self.include_managed_fields);
        let mut r = next.duplicate();
        match pre {
            Some(before) => {
                let mut l = before.duplicate();
                p.process(&mut l, &mut r);
                (Some(l), r)
            },
            None => {
                let mut l = next.duplicate();
                p.process(&mut l, &mut r);
                (None, r)
            },
        }
    }
}

/// A renderer, chosen once for a session.
#[derive(Clone, Copy, Debug, PartialEq, Eq, Structural)]
pub enum Backend {
    /// The line-oriented renderer.
    Delta,
    /// The structural renderer.
    Difft(Difft),
}

/// The renderer that the settings `app` ask for.
pub open spec fn backend_of(app: App) -> Backend {
    match app.diff_tool {
        DiffTool::Delta => Backend::Delta,
        DiffTool::Difft => Backend::Difft(Difft { include_managed_fields: app.include_managed_fields }),
    }
}

/// The renderer that the settings ask for.
pub fn new(app: &App) -> (b: Backend)
    ensures
        b == backend_of(*app),
{
    match app.diff_tool {
        DiffTool::Delta => Backend::Delta,
        DiffTool::Difft => Backend::Difft(Difft::new(app.include_managed_fields)),
    }
}

/// What the line above a comparison says.
#[derive(Debug)]
pub struct Header {
    /// The type envelope of the newer snapshot, if it has one.
    pub types: Option<TypeMeta>,
    /// The namespace of the object; none for a cluster-scoped one.
    pub namespace: Option<String>,
    pub name: String,
    /// How many changes of this object were seen, this one included.
    pub event_number: usize,
    /// Whether blank lines set this comparison off from the one before.
    pub spaced: bool,
}

/// One comparison to render.
#[derive(Debug)]
pub struct DiffJob {
    pub header: Header,
    /// The older snapshot, redacted.
    pub minus: DynamicObject,
    /// The newer snapshot, redacted.
    pub plus: DynamicObject,
    pub backend: Backend,
}

/// The header for the last snapshot of a history.
pub open spec fn header_of(v: Seq<DynamicObject>) -> Header
    recommends
        v.len() > 0,
{
    Header {
        types: v.last().types,
        namespace: v.last().metadata.namespace,
        name: v.last().metadata.name,
        event_number: (v.len() - 1) as usize,
        spaced: v.len() > 2,
    }
}

fn paint_header_line(list: &Vec<DynamicObject>) -> (h: Header)
    requires
        list.len() > 0,
    ensures
        h == header_of(list@),
{
    let obj = &list[list.len() - 1];
    let types = match &obj.types {
        Some(t) => Some(t.duplicate()),
        None => None,
    };
    let namespace = match &obj.metadata.namespace {
        Some(ns) => Some(ns.clone()),
        None => None,
    };
    Header {
        types,
        namespace,
        name: obj.metadata.name.clone(),
        event_number: list.len() - 1,
        spaced: list.len() > 2,
    }
}

/// The comparison of the last two snapshots of a history: none while the
/// history holds fewer than two.
pub fn diff(app: &App, v: &Vec<DynamicObject>) -> (job: Option<DiffJob>)
    ensures
        v.len() < 2 <==> job is None,
        job matches Some(j) ==> {
            &&& j.header == header_of(v@)
            &&& j.minus == redacted(v[v.len() - 2], app.include_managed_fields)
            &&& j.plus == redacted(v[v.len() - 1], app.include_managed_fields)
            &&& j.backend == backend_of(*app)
        },
{
    if v.len() < 2 {
        return None;
    }
    let header = paint_header_line(v);
    let p = build_pipeline(app.include_managed_fields);
    let mut l = v[v.len() - 2].duplicate();
    let mut r = v[v.len() - 1].duplicate();
    p.process(&mut l, &mut r);
    Some(DiffJob { header, minus: l, plus: r, backend: new(app) })
}

/// What the exit code of the line-oriented renderer means.
#[derive(Clone, Copy, Debug, PartialEq, Eq, Structural)]
pub enum DiffOutcome {
    /// Code 0: the two documents do not differ.
    Same,
    /// Code 1: differences were found and shown.
    Different,
    /// Any other code: the renderer failed, and the watch ends with this code.
    Fatal(i32),
}

/// Reads the exit code of the line-oriented renderer.
pub fn interpret_exit_code(exit_code: i32) -> (o: DiffOutcome)
    ensures
        o == if exit_code == 0 {
            DiffOutcome::Same
        } else if exit_code == 1 {
            DiffOutcome::Different
        } else {
            DiffOutcome::Fatal(exit_code)
        },
{
    if exit_code == 0 {
        DiffOutcome::Same
    } else if exit_code == 1 {
        DiffOutcome::Different
    } else {
        DiffOutcome::Fatal(exit_code)
    }
}

/// One step of the line-oriented session: files `obj` under its identity and
/// gives the comparison with the snapshot before it, if there is one.
pub fn delta_print_process(app: &App, map: &mut Memory<DynamicObject>, obj: DynamicObject) -> (job:
    Option<DiffJob>)
    requires
        old(map).well_formed(),
    ensures
        final(map).well_formed(),
        final(map).histories() == old(map).histories().insert(
            obj.uid_spec(),
            history_in(old(map).histories(), obj.uid_spec()).push(obj),
        ),
        job is None <==> !old(map).histories().contains_key(obj.uid_spec()),
        job matches Some(j) ==> {
            let list = final(map).histories()[obj.uid_spec()];
            &&& j.header == header_of(list)
            &&& j.minus == redacted(list[list.len() - 2], app.include_managed_fields)
            &&& j.plus == redacted(obj, app.include_managed_fields)
            &&& j.backend == backend_of(*app)
        },
{
    let probe = obj.duplicate();
    proof {
        if map.histories().contains_key(obj.uid_spec()) {
            map.lemma_histories_hold_their_identity(obj.uid_spec());
        }
    }
    map.do_insert(obj);
    match map.items_of(&probe) {
        Some(list) => diff(app, list),
        None => None,
    }
}

/// The width to render in: what the terminal reports, else what the fallback
/// probe reports, else 80 columns.
pub fn detect_display_width(terminal: Option<usize>, fallback: Option<usize>) -> (width: usize)
    ensures
        width == match terminal {
            Some(w) => w,
            None => match fallback {
                Some(w) => w,
                None => 80,
            },
        },
{
    if let Some(width) = terminal {
        return width;
    }
    if let Some(width) = fallback {
        return width;
    }
    80
}

} // verus!
