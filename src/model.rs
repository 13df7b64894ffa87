use vstd::prelude::*;

verus! {

/// Identity of a namespaced object: the namespace and the object's name.
pub struct ObjectPath {
    pub namespace: String,
    pub name: String,
}

impl View for ObjectPath {
    type V = (Seq<char>, Seq<char>);

    open spec fn view(&self) -> (Seq<char>, Seq<char>) {
        (self.namespace@, self.name@)
    }
}

impl ObjectPath {
    pub fn new(namespace: String, name: String) -> (r: ObjectPath)
        ensures
            r@ == (namespace@, name@),
    {
        ObjectPath { namespace, name }
    }
}

/// The identities of a sequence of object paths.
pub open spec fn paths_view(paths: Seq<ObjectPath>) -> Seq<(Seq<char>, Seq<char>)> {
    paths.map_values(|p: ObjectPath| p@)
}

/// The contents of a sequence of strings.
pub open spec fn strings_view(strings: Seq<String>) -> Seq<Seq<char>> {
    strings.map_values(|s: String| s@)
}

/// A persistent volume claim as listed from the cluster. Fields the listing
/// did not carry are `None`.
pub struct PvcRecord {
    pub namespace: Option<String>,
    pub name: Option<String>,
    pub storage_class_name: Option<String>,
}

impl PvcRecord {
    pub fn new(namespace: Option<String>, name: Option<String>, storage_class_name: Option<String>) -> (r: PvcRecord)
        ensures
            r == (PvcRecord { namespace, name, storage_class_name }),
    {
        PvcRecord { namespace, name, storage_class_name }
    }
}

/// A pod as listed from the cluster. `claims` holds one entry per volume of
/// the pod: the claim name of a volume backed by a persistent volume claim,
/// `None` for any other kind of volume.
pub struct PodRecord {
    pub namespace: Option<String>,
    pub name: Option<String>,
    pub phase: Option<String>,
    pub owner_count: usize,
    pub claims: Vec<Option<String>>,
}

impl PodRecord {
    pub fn new(
        namespace: Option<String>,
        name: Option<String>,
        phase: Option<String>,
        owner_count: usize,
        claims: Vec<Option<String>>,
    ) -> (r: PodRecord)
        ensures
            r == (PodRecord { namespace, name, phase, owner_count, claims }),
    {
        PodRecord { namespace, name, phase, owner_count, claims }
    }
}

} // verus!
