//! The redaction pipeline: an ordered list of transforms that strip fields
//! from a pair of snapshots before the two are compared.

use vstd::prelude::*;
use crate::dynamic_object::{DynamicObject, ObjectMeta};

verus! {

/// One transform of the pipeline.
#[derive(Clone, Copy, Debug, PartialEq, Eq, Structural)]
pub enum Task {
    /// Strips the type envelope.
    ExcludeTypes,
    /// Strips the managed-field metadata.
    ExcludeManagedFields,
}

/// `obj` without its type envelope.
pub open spec fn without_types(obj: DynamicObject) -> DynamicObject {
    DynamicObject { types: None, metadata: obj.metadata, data: obj.data }
}

/// `obj` without its managed-field metadata.
pub open spec fn without_managed_fields(obj: DynamicObject) -> DynamicObject {
    DynamicObject {
        types: obj.types,
        metadata: ObjectMeta {
            name: obj.metadata.name,
            namespace: obj.metadata.namespace,
            resource_version: obj.metadata.resource_version,
            creation_timestamp: obj.metadata.creation_timestamp,
            managed_fields: None,
            other: obj.metadata.other,
        },
        data: obj.data,
    }
}

/// What one transform makes of a snapshot.
pub open spec fn apply_task(task: Task, obj: DynamicObject) -> DynamicObject {
    match task {
        Task::ExcludeTypes => without_types(obj),
        Task::ExcludeManagedFields => without_managed_fields(obj),
    }
}

/// What the transforms of `tasks`, applied from the first to the last, make
/// of a snapshot.
pub open spec fn apply_tasks(tasks: Seq<Task>, obj: DynamicObject) -> DynamicObject
    decreases tasks.len(),
{
    if tasks.len() == 0 {
        obj
    } else {
        apply_task(tasks.last(), apply_tasks(tasks.drop_last(), obj))
    }
}

/// A list of transforms that begins by stripping the type envelope leaves no
/// type envelope, whatever follows and whatever the snapshot.
pub proof fn lemma_types_stay_stripped(tasks: Seq<Task>, obj: DynamicObject)
    requires
        tasks.len() > 0,
        tasks[0] == Task::ExcludeTypes,
    ensures
        apply_tasks(tasks, obj).types is None,
    decreases tasks.len(),
{
    if tasks.len() > 1 {
        lemma_types_stay_stripped(tasks.drop_last(), obj);
    } else {
        assert(tasks.drop_last().len() == 0);
    }
}

/// Stripping fields changes neither the identity of a snapshot nor its version
/// marker, nor what lies outside the stripped fields.
pub proof fn lemma_tasks_keep_the_rest(tasks: Seq<Task>, obj: DynamicObject)
    ensures
        apply_tasks(tasks, obj).data == obj.data,
        apply_tasks(tasks, obj).metadata.name == obj.metadata.name,
        apply_tasks(tasks, obj).metadata.namespace == obj.metadata.namespace,
        apply_tasks(tasks, obj).metadata.resource_version == obj.metadata.resource_version,
        apply_tasks(tasks, obj).metadata.creation_timestamp == obj.metadata.creation_timestamp,
        apply_tasks(tasks, obj).metadata.other == obj.metadata.other,
    decreases tasks.len(),
{
    if tasks.len() > 0 {
        lemma_tasks_keep_the_rest(tasks.drop_last(), obj);
    }
}

/// Something that transforms a pair of snapshots, each by itself.
pub trait Process {
    /// What this makes of one snapshot.
    spec fn applied(&self, obj: DynamicObject) -> DynamicObject;

    fn process(self, l: &mut DynamicObject, r: &mut DynamicObject)
        ensures
            *final(l) == self.applied(*old(l)),
            *final(r) == self.applied(*old(r)),
    ;
}

/// The transforms of one session, in the order in which they run. The first
/// always strips the type envelope.
pub struct Pipeline {
    tasks: Vec<Task>,
}

impl Pipeline {
    #[verifier::type_invariant]
    spec fn starts_with_types(&self) -> bool {
        self.tasks.len() > 0 && self.tasks[0] == Task::ExcludeTypes
    }

    /// The transforms, in their order.
    pub closed spec fn tasks(&self) -> Seq<Task> {
        self.tasks@
    }

    /// The default pipeline: it strips the type envelope and nothing else.
    pub fn init() -> (p: Self)
        ensures
            p.tasks() == seq![Task::ExcludeTypes],
    {
        let mut tasks: Vec<Task> = Vec::new();
        tasks.push(Task::ExcludeTypes);
        assert(tasks@ =~= seq![Task::ExcludeTypes]);
        Pipeline { tasks }
    }

    /// Appends a transform, which will run after those already there.
    pub fn add_task(&mut self, task: Task)
        ensures
            final(self).tasks() == old(self).tasks().push(task),
    {
        proof {
            use_type_invariant(&*self);
        }
        let mut tasks: Vec<Task> = Vec::new();
        let mut i: usize = 0;
        while i < self.tasks.len()
            invariant
                i <= self.tasks.len(),
                tasks@ == self.tasks@.take(i as int),
            decreases self.tasks.len() - i,
        {
            tasks.push(self.tasks[i]);
            assert(self.tasks@.take(i + 1) =~= self.tasks@.take(i as int).push(self.tasks@[i as int]));
            i += 1;
        }
        assert(self.tasks@.take(i as int) =~= self.tasks@);
        tasks.push(task);
        self.tasks = tasks;
    }
}

impl Process for Pipeline {
    open spec fn applied(&self, obj: DynamicObject) -> DynamicObject {
        apply_tasks(self.tasks(), obj)
    }

    fn process(self, l: &mut DynamicObject, r: &mut DynamicObject)
        ensures
            final(l).types is None,
            final(r).types is None,
    {
        proof {
            use_type_invariant(&self);
            lemma_types_stay_stripped(self.tasks@, *l);
            lemma_types_stay_stripped(self.tasks@, *r);
        }
        let mut i: usize = 0;
        while i < self.tasks.len()
            invariant
                i <= self.tasks.len(),
                *l == apply_tasks(self.tasks@.take(i as int), *old(l)),
                *r == apply_tasks(self.tasks@.take(i as int), *old(r)),
            decreases self.tasks.len() - i,
        {
            assert(self.tasks@.take(i + 1).drop_last() =~= self.tasks@.take(i as int));
            match self.tasks[i] {
                Task::ExcludeTypes => exclude_types(l, r),
                Task::ExcludeManagedFields => exclude_managed_fields(l, r),
            }
            i += 1;
        }
        assert(self.tasks@.take(i as int) =~= self.tasks@);
    }
}

/// Strips the managed-field metadata from both snapshots.
pub fn exclude_managed_fields(l: &mut DynamicObject, r: &mut DynamicObject)
    ensures
        *final(l) == without_managed_fields(*old(l)),
        *final(r) == without_managed_fields(*old(r)),
{
    l.exclude_managed_fields();
    r.exclude_managed_fields();
}

/// Strips the type envelope from both snapshots.
pub fn exclude_types(l: &mut DynamicObject, r: &mut DynamicObject)
    ensures
        *final(l) == without_types(*old(l)),
        *final(r) == without_types(*old(r)),
{
    l.exclude_types();
    r.exclude_types();
}

} // verus!
