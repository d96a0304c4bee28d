//! What a watch asks the cluster for, worked out from the settings and the
//! catalog before anything is asked.

use vstd::prelude::*;
use vstd::string::*;
use crate::apigroup::{ApiCapabilities, ApiResource, Scope};
use crate::discovery::{dynamic_api, resolve_api_resource, resolved, ApiTarget, Discovery};
use crate::options::App;

verus! {

/// Why no watch can start.
#[derive(Clone, Copy, Debug, PartialEq, Eq, Structural)]
pub enum WatchError {
    /// The catalog has no resource that the token names.
    ResourceNotFound,
    /// A namespace was given for a resource that is not namespaced.
    ScopeMismatch,
}

/// What a watch asks for.
#[derive(Debug)]
pub struct WatchPlan {
    pub resource: ApiResource,
    pub capabilities: ApiCapabilities,
    pub target: ApiTarget,
    /// The label query, if one was given.
    pub labels: Option<String>,
    /// The field query that holds the watch to one object, if a name was
    /// given.
    pub fields: Option<String>,
}

/// The field query for the object called `name`.
pub open spec fn name_query(name: Seq<char>) -> Seq<char> {
    "metadata.name="@ + name
}

/// The text of an optional string.
pub open spec fn text_of(s: Option<String>) -> Option<Seq<char>> {
    match s {
        Some(text) => Some(text@),
        None => None,
    }
}

/// Whether `plan` is the plan for the settings `app` and the resource `entry`.
pub open spec fn is_plan_for(
    plan: WatchPlan,
    app: App,
    entry: crate::apigroup::EntryView,
) -> bool {
    &&& plan.resource@ == entry.0
    &&& plan.capabilities@ == entry.1
    &&& text_of(plan.labels) == text_of(app.selector)
    &&& text_of(plan.fields) == match app.name {
        Some(name) => Some(name_query(name@)),
        None => None,
    }
    &&& if entry.1.scope == Scope::Cluster || app.all {
        plan.target is All
    } else {
        match app.namespace {
            Some(namespace) => plan.target matches ApiTarget::Namespaced(n) && n@ == namespace@,
            None => plan.target is DefaultNamespace,
        }
    }
}

/// Plans the watch that the settings ask for. Without a resource there is
/// nothing to watch. The resource must be in the catalog, and a namespace may
/// be given only for a namespaced resource.
pub fn watch(app: &App, discovery: &Discovery) -> (r: Result<Option<WatchPlan>, WatchError>)
    requires
        discovery.well_formed(),
    ensures
        match app.resource {
            None => r matches Ok(None),
            Some(resource) => match resolved(discovery.catalog(), resource@) {
                None => r matches Err(WatchError::ResourceNotFound),
                Some(entry) => if entry.1.scope == Scope::Cluster && app.namespace is Some {
                    r matches Err(WatchError::ScopeMismatch)
                } else {
                    r matches Ok(Some(plan)) && is_plan_for(plan, *app, entry)
                },
            },
        },
{
    let resource = match &app.resource {
        Some(resource) => resource,
        None => {
            return Ok(None);
        },
    };
    let (ar, caps) = match resolve_api_resource(discovery, resource.as_str()) {
        Some(found) => found,
        None => {
            return Err(WatchError::ResourceNotFound);
        },
    };
    let cluster_scoped = match caps.scope {
        Scope::Cluster => true,
        Scope::Namespaced => false,
    };
    if cluster_scoped && app.namespace.is_some() {
        return Err(WatchError::ScopeMismatch);
    }
    let labels = match &app.selector {
        Some(label) => Some(label.clone()),
        None => None,
    };
    let fields = match &app.name {
        Some(name) => Some("metadata.name=".to_owned().concat(name.as_str())),
        None => None,
    };
    let target = dynamic_api(&caps, &app.namespace, app.all);
    Ok(Some(WatchPlan { resource: ar, capabilities: caps, target, labels, fields }))
}

} // verus!
