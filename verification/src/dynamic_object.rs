//! One observed state of a cluster object, reduced to what the session reads.

use vstd::prelude::*;
use vstd::string::*;
use crate::db::UID;

verus! {

/// The type envelope of a document: which API and which kind it belongs to.
#[derive(Debug)]
pub struct TypeMeta {
    pub api_version: String,
    pub kind: String,
}

/// The metadata of an object that the session looks at.
///
/// `managed_fields` and `other` are carried as serialised text: nothing here
/// reads inside them.
#[derive(Debug)]
pub struct ObjectMeta {
    pub name: String,
    /// Absent for a cluster-scoped object.
    pub namespace: Option<String>,
    /// The version marker of this state; opaque.
    pub resource_version: String,
    /// Creation time, in seconds since the epoch.
    pub creation_timestamp: i64,
    pub managed_fields: Option<String>,
    pub other: String,
}

/// A snapshot: one object at one resource version.
#[derive(Debug)]
pub struct DynamicObject {
    /// The type fields, not always present.
    pub types: Option<TypeMeta>,
    pub metadata: ObjectMeta,
    /// All other keys, serialised.
    pub data: String,
}

/// The identity of an object with this name in this namespace: the name
/// followed by the namespace, the latter empty for a cluster-scoped object.
pub open spec fn identity_of(name: Seq<char>, namespace: Option<String>) -> Seq<char> {
    match namespace {
        Some(ns) => name + ns@,
        None => name,
    }
}

fn copy_option(s: &Option<String>) -> (r: Option<String>)
    ensures
        r == *s,
{
    match s {
        Some(text) => Some(text.clone()),
        None => None,
    }
}

impl TypeMeta {
    /// A copy that is equal to this value.
    pub fn duplicate(&self) -> (r: Self)
        ensures
            r == *self,
    {
        TypeMeta { api_version: self.api_version.clone(), kind: self.kind.clone() }
    }
}

impl ObjectMeta {
    /// A copy that is equal to this value.
    pub fn duplicate(&self) -> (r: Self)
        ensures
            r == *self,
    {
        ObjectMeta {
            name: self.name.clone(),
            namespace: copy_option(&self.namespace),
            resource_version: self.resource_version.clone(),
            creation_timestamp: self.creation_timestamp,
            managed_fields: copy_option(&self.managed_fields),
            other: self.other.clone(),
        }
    }
}

impl DynamicObject {
    /// A copy that is equal to this value.
    pub fn duplicate(&self) -> (r: Self)
        ensures
            r == *self,
    {
        let types = match &self.types {
            Some(t) => Some(t.duplicate()),
            None => None,
        };
        DynamicObject { types, metadata: self.metadata.duplicate(), data: self.data.clone() }
    }

    /// Drops the type envelope.
    pub fn exclude_types(&mut self)
        ensures
            final(self).types is None,
            final(self).metadata == old(self).metadata,
            final(self).data == old(self).data,
    {
        self.types = None;
    }

    /// Drops the record of which manager owns which field.
    pub fn exclude_managed_fields(&mut self)
        ensures
            final(self).metadata.managed_fields is None,
            final(self).metadata.name == old(self).metadata.name,
            final(self).metadata.namespace == old(self).metadata.namespace,
            final(self).metadata.resource_version == old(self).metadata.resource_version,
            final(self).metadata.creation_timestamp == old(self).metadata.creation_timestamp,
            final(self).metadata.other == old(self).metadata.other,
            final(self).types == old(self).types,
            final(self).data == old(self).data,
    {
        self.metadata.managed_fields = None;
    }
}

impl UID for DynamicObject {
    open spec fn uid_spec(&self) -> Seq<char> {
        identity_of(self.metadata.name@, self.metadata.namespace)
    }

    open spec fn resource_version_spec(&self) -> Seq<char> {
        self.metadata.resource_version@
    }

    fn uid(&self) -> (id: String) {
        let name = self.metadata.name.clone();
        match &self.metadata.namespace {
            Some(ns) => name.concat(ns.as_str()),
            None => name,
        }
    }

    fn resource_version(&self) -> (rv: String) {
        self.metadata.resource_version.clone()
    }
}

} // verus!
