//! Where snapshots are written to: the files for a comparison, and the export
//! of everything that was watched.

use vstd::prelude::*;
use vstd::string::*;
use crate::dynamic_object::DynamicObject;

verus! {

/// The directory under the system's temporary directory that holds the two
/// documents of a comparison.
pub const TMP_DIR: &'static str = "kubectl-watch";

/// The file of the older document of a comparison.
pub const MINUS_FILE: &'static str = "minus.yaml";

/// The file of the newer document of a comparison.
pub const PLUS_FILE: &'static str = "plus.yaml";

/// Where one snapshot is exported to.
#[derive(Debug)]
pub struct ExportPath {
    /// The directory, from the export directory down: the namespace, if the
    /// object has one, and the name.
    pub dir: Vec<String>,
    /// The file: the resource version, with the extension of a YAML file.
    pub file_name: String,
}

/// The directory of the export of `obj` under `path`.
pub open spec fn export_dir(path: Seq<char>, obj: DynamicObject) -> Seq<Seq<char>> {
    match obj.metadata.namespace {
        Some(namespace) => seq![path, namespace@, obj.metadata.name@],
        None => seq![path, obj.metadata.name@],
    }
}

/// Says where `obj` is exported to; nowhere, if no export directory is given
/// or it is the empty text.
pub fn store_resource(path: &Option<String>, obj: &DynamicObject) -> (r: Option<ExportPath>)
    ensures
        match path {
            Some(p) => if p@.len() == 0 {
                r is None
            } else {
                &&& r matches Some(e)
                &&& e.dir@.map_values(|s: String| s@) == export_dir(p@, *obj)
                &&& e.file_name@ == obj.metadata.resource_version@ + ".yaml"@
            },
            None => r is None,
        },
{
    match path {
        Some(p) => {
            if p.as_str().is_empty() {
                return None;
            }
            let mut dir: Vec<String> = Vec::new();
            dir.push(p.clone());
            if let Some(namespace) = &obj.metadata.namespace {
                dir.push(namespace.clone());
            }
            dir.push(obj.metadata.name.clone());
            assert(dir@.map_values(|s: String| s@) =~= export_dir(p@, *obj));
            let file_name = obj.metadata.resource_version.clone().concat(".yaml");
            Some(ExportPath { dir, file_name })
        },
        None => None,
    }
}

} // verus!
