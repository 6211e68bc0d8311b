//! Resource resolution: pure extraction of hierarchical facts from a
//! structured resource document.
//!
//! A document is a list of resource records, each carrying its kind, name
//! and namespace together with optional owner references and nested
//! containers and volume mounts; any field may be absent. The resolver
//! filters records by kind and namespace and shapes them into resource
//! values, skipping records without a name. Zero matches is a valid empty
//! result, never an error.

use vstd::prelude::*;

use crate::text::opt_view;

verus! {

/// A single owner reference carried by a resource record.
#[derive(Debug)]
pub struct OwnerReference {
    pub kind: Option<String>,
    pub name: Option<String>,
}

/// A volume mount nested in a container.
#[derive(Debug)]
pub struct VolumeMountRecord {
    pub name: Option<String>,
}

/// A container nested in a resource record.
#[derive(Debug)]
pub struct ContainerRecord {
    pub name: Option<String>,
    pub volume_mounts: Vec<VolumeMountRecord>,
}

/// One resource object of a structured document.
#[derive(Debug)]
pub struct ResourceRecord {
    pub kind: Option<String>,
    pub name: Option<String>,
    pub namespace: Option<String>,
    pub owner_references: Vec<OwnerReference>,
    pub containers: Vec<ContainerRecord>,
}

/// Mathematical model of an owner reference.
#[verifier::ext_equal]
pub ghost struct OwnerReferenceModel {
    pub kind: Option<Seq<char>>,
    pub name: Option<Seq<char>>,
}

/// Mathematical model of a volume mount.
#[verifier::ext_equal]
pub ghost struct VolumeMountModel {
    pub name: Option<Seq<char>>,
}

/// Mathematical model of a container.
#[verifier::ext_equal]
pub ghost struct ContainerModel {
    pub name: Option<Seq<char>>,
    pub volume_mounts: Seq<VolumeMountModel>,
}

/// Mathematical model of a resource record.
#[verifier::ext_equal]
pub ghost struct ResourceRecordModel {
    pub kind: Option<Seq<char>>,
    pub name: Option<Seq<char>>,
    pub namespace: Option<Seq<char>>,
    pub owner_references: Seq<OwnerReferenceModel>,
    pub containers: Seq<ContainerModel>,
}

impl View for OwnerReference {
    type V = OwnerReferenceModel;

    open spec fn view(&self) -> OwnerReferenceModel {
        OwnerReferenceModel { kind: opt_view(self.kind), name: opt_view(self.name) }
    }
}

impl View for VolumeMountRecord {
    type V = VolumeMountModel;

    open spec fn view(&self) -> VolumeMountModel {
        VolumeMountModel { name: opt_view(self.name) }
    }
}

impl View for ContainerRecord {
    type V = ContainerModel;

    open spec fn view(&self) -> ContainerModel {
        ContainerModel {
            name: opt_view(self.name),
            volume_mounts: self.volume_mounts@.map_values(|v: VolumeMountRecord| v@),
        }
    }
}

impl View for ResourceRecord {
    type V = ResourceRecordModel;

    open spec fn view(&self) -> ResourceRecordModel {
        ResourceRecordModel {
            kind: opt_view(self.kind),
            name: opt_view(self.name),
            namespace: opt_view(self.namespace),
            owner_references: self.owner_references@.map_values(|o: OwnerReference| o@),
            containers: self.containers@.map_values(|c: ContainerRecord| c@),
        }
    }
}

/// The view of a whole document: each record's model, in order.
pub open spec fn records_view(items: Seq<ResourceRecord>) -> Seq<ResourceRecordModel> {
    items.map_values(|x: ResourceRecord| x@)
}

/// A resolved resource: its name and kind, an optional single-level owner,
/// and the names of its containers.
#[derive(Debug)]
pub struct K8sResource {
    pub name: String,
    pub kind: String,
    pub owner: Option<Box<K8sResource>>,
    pub containers: Vec<String>,
}

impl K8sResource {
    /// Packs the parts of a resolved resource, boxing the owner.
    pub fn new(
        name: String,
        kind: String,
        owner: Option<K8sResource>,
        containers: Vec<String>,
    ) -> (r: K8sResource)
        ensures
            r.name == name,
            r.kind == kind,
            match owner {
                Some(o) => r.owner matches Some(b) && *b == o,
                None => r.owner is None,
            },
            r.containers == containers,
    {
        K8sResource { name, kind, owner: owner.map(Box::new), containers }
    }
}

/// A resolved resource in tree form: an optional single-level parent and
/// child resources (containers, and below them volume mounts).
#[derive(Debug)]
pub struct IntegrationResource {
    pub name: String,
    pub kind: String,
    pub parent: Option<Box<IntegrationResource>>,
    pub children: Vec<IntegrationResource>,
}

impl IntegrationResource {
    /// Packs the parts of a resolved resource, boxing the parent.
    pub fn new(
        name: String,
        kind: String,
        parent: Option<IntegrationResource>,
        children: Vec<IntegrationResource>,
    ) -> (r: IntegrationResource)
        ensures
            r.name == name,
            r.kind == kind,
            match parent {
                Some(p) => r.parent matches Some(b) && *b == p,
                None => r.parent is None,
            },
            r.children == children,
    {
        IntegrationResource { name, kind, parent: parent.map(Box::new), children }
    }
}

/// Whether a record belongs to the asked-for kind and namespace and carries
/// a name.
pub open spec fn record_matches(rec: ResourceRecordModel, kind: Seq<char>, ns: Seq<char>) -> bool {
    rec.kind == Some(kind) && rec.namespace == Some(ns) && rec.name is Some
}

/// The records of the asked-for kind and namespace that carry a name, in
/// document order.
pub open spec fn matching_records(
    items: Seq<ResourceRecordModel>,
    kind: Seq<char>,
    ns: Seq<char>,
) -> Seq<ResourceRecordModel>
    decreases items.len(),
{
    if items.len() == 0 {
        Seq::empty()
    } else {
        let rest = matching_records(items.drop_last(), kind, ns);
        if record_matches(items.last(), kind, ns) {
            rest.push(items.last())
        } else {
            rest
        }
    }
}

/// The owner named by the first owner reference, as a kind and name pair,
/// provided that reference carries both.
pub open spec fn first_owner_reference(refs: Seq<OwnerReferenceModel>) -> Option<
    (Seq<char>, Seq<char>),
> {
    if refs.len() == 0 {
        None
    } else {
        match (refs[0].kind, refs[0].name) {
            (Some(k), Some(n)) => Some((k, n)),
            _ => None,
        }
    }
}

/// The names of the named containers, in document order.
pub open spec fn named_container_names(cs: Seq<ContainerModel>) -> Seq<Seq<char>>
    decreases cs.len(),
{
    if cs.len() == 0 {
        Seq::empty()
    } else {
        let rest = named_container_names(cs.drop_last());
        match cs.last().name {
            Some(n) => rest.push(n),
            None => rest,
        }
    }
}

/// The named containers themselves, in document order.
pub open spec fn named_containers(cs: Seq<ContainerModel>) -> Seq<ContainerModel>
    decreases cs.len(),
{
    if cs.len() == 0 {
        Seq::empty()
    } else {
        let rest = named_containers(cs.drop_last());
        if cs.last().name is Some {
            rest.push(cs.last())
        } else {
            rest
        }
    }
}

/// The names of the named volume mounts, in document order.
pub open spec fn named_volume_mount_names(vs: Seq<VolumeMountModel>) -> Seq<Seq<char>>
    decreases vs.len(),
{
    if vs.len() == 0 {
        Seq::empty()
    } else {
        let rest = named_volume_mount_names(vs.drop_last());
        match vs.last().name {
            Some(n) => rest.push(n),
            None => rest,
        }
    }
}

/// The namespaces named by the records, first occurrence first, each once.
pub open spec fn distinct_namespaces(recs: Seq<ResourceRecordModel>) -> Seq<Seq<char>>
    decreases recs.len(),
{
    if recs.len() == 0 {
        Seq::empty()
    } else {
        let rest = distinct_namespaces(recs.drop_last());
        match recs.last().namespace {
            Some(ns) => if rest.contains(ns) {
                rest
            } else {
                rest.push(ns)
            },
            None => rest,
        }
    }
}

/// How a resolved resource reflects its record: the record's name, the
/// asked-for kind, the first full owner reference as a childless owner, and
/// the named containers' names.
pub open spec fn resource_reflects_record(
    r: K8sResource,
    rec: ResourceRecordModel,
    kind: Seq<char>,
) -> bool {
    &&& rec.name matches Some(n) && r.name@ == n
    &&& r.kind@ == kind
    &&& match first_owner_reference(rec.owner_references) {
        Some(o) => r.owner matches Some(b) && (*b).kind@ == o.0 && (*b).name@ == o.1
            && (*b).owner is None && (*b).containers@.len() == 0,
        None => r.owner is None,
    }
    &&& r.containers@.map_values(|s: String| s@) == named_container_names(rec.containers)
}

/// Every namespace a record of the document names, each once, in first
/// occurrence order.
pub fn get_namespaces(items: &Vec<ResourceRecord>) -> (r: Vec<String>)
    ensures
        r@.map_values(|s: String| s@) == distinct_namespaces(records_view(items@)),
{
    let mut r: Vec<String> = Vec::new();
    let n = items.len();
    let mut j: usize = 0;
    while j < n
        invariant
            0 <= j <= n,
            n == items@.len(),
            r@.map_values(|s: String| s@) == distinct_namespaces(records_view(items@.take(j as int))),
        decreases n - j,
    {
        proof {
            assert(records_view(items@.take(j + 1)).drop_last() =~= records_view(
                items@.take(j as int),
            ));
            assert(records_view(items@.take(j + 1)).last() == items@[j as int]@);
        }
        let ghost prev = distinct_namespaces(records_view(items@.take(j as int)));
        if let Some(ns) = &items[j].namespace {
            let mut found = false;
            let m = r.len();
            let mut k: usize = 0;
            while k < m
                invariant
                    0 <= k <= m,
                    m == r@.len(),
                    found == exists|t: int| 0 <= t < k && (#[trigger] r@[t])@ == ns@,
                decreases m - k,
            {
                if crate::text::str_eq(r[k].as_str(), ns.as_str()) {
                    found = true;
                }
                k += 1;
            }
            proof {
                let mapped = r@.map_values(|s: String| s@);
                if found {
                    let t = choose|t: int| 0 <= t < r@.len() && (#[trigger] r@[t])@ == ns@;
                    assert(mapped[t] == ns@);
                    assert(prev.contains(ns@));
                } else {
                    if prev.contains(ns@) {
                        let t = choose|t: int| 0 <= t < mapped.len() && mapped[t] == ns@;
                        assert((r@[t])@ == ns@);
                        assert(false);
                    }
                }
            }
            if !found {
                r.push(ns.clone());
                proof {
                    assert(r@.map_values(|s: String| s@) =~= prev.push(ns@));
                }
            }
        }
        j += 1;
    }
    proof {
        assert(items@.take(n as int) =~= items@);
    }
    r
}

/// The resources of the asked-for kind in the asked-for namespace: one per
/// matching named record, in document order, each reflecting its record.
pub fn get_names(items: &Vec<ResourceRecord>, kind: &str, namespace: &str) -> (r: Vec<K8sResource>)
    ensures
        r@.len() == matching_records(records_view(items@), kind@, namespace@).len(),
        forall|k: int|
            0 <= k < r@.len() ==> resource_reflects_record(
                #[trigger] r@[k],
                matching_records(records_view(items@), kind@, namespace@)[k],
                kind@,
            ),
{
    let mut r: Vec<K8sResource> = Vec::new();
    let n = items.len();
    let mut j: usize = 0;
    while j < n
        invariant
            0 <= j <= n,
            n == items@.len(),
            r@.len() == matching_records(records_view(items@.take(j as int)), kind@, namespace@).len(),
            forall|k: int|
                0 <= k < r@.len() ==> resource_reflects_record(
                    #[trigger] r@[k],
                    matching_records(records_view(items@.take(j as int)), kind@, namespace@)[k],
                    kind@,
                ),
        decreases n - j,
    {
        proof {
            assert(records_view(items@.take(j + 1)).drop_last() =~= records_view(
                items@.take(j as int),
            ));
            assert(records_view(items@.take(j + 1)).last() == items@[j as int]@);
        }
        let ghost prev = matching_records(records_view(items@.take(j as int)), kind@, namespace@);
        let rec = &items[j];
        let kind_hit = match &rec.kind {
            Some(k) => crate::text::str_eq(k.as_str(), kind),
            None => false,
        };
        let ns_hit = match &rec.namespace {
            Some(s) => crate::text::str_eq(s.as_str(), namespace),
            None => false,
        };
        if kind_hit && ns_hit && rec.name.is_some() {
            let name = match &rec.name {
                Some(nm) => nm.clone(),
                None => String::new(),
            };
            let owner = get_owner_reference(rec);
            let owner_resource = match owner {
                Some((okind, oname)) => Some(K8sResource::new(oname, okind, None, Vec::new())),
                None => None,
            };
            let container_names = collect_container_names(&rec.containers);
            let built = K8sResource::new(name, kind.to_owned(), owner_resource, container_names);
            r.push(built);
            proof {
                assert(record_matches(items@[j as int]@, kind@, namespace@));
                assert(matching_records(records_view(items@.take(j + 1)), kind@, namespace@)
                    =~= prev.push(items@[j as int]@));
            }
        } else {
            proof {
                assert(!record_matches(items@[j as int]@, kind@, namespace@));
            }
        }
        j += 1;
    }
    proof {
        assert(items@.take(n as int) =~= items@);
    }
    r
}

/// The kind and name pair of the record's first owner reference, provided
/// that reference carries both.
pub fn get_owner_reference(rec: &ResourceRecord) -> (r: Option<(String, String)>)
    ensures
        match first_owner_reference(rec@.owner_references) {
            Some(o) => r matches Some(p) && p.0@ == o.0 && p.1@ == o.1,
            None => r is None,
        },
{
    if rec.owner_references.len() == 0 {
        return None;
    }
    let first = &rec.owner_references[0];
    match (&first.kind, &first.name) {
        (Some(k), Some(n)) => Some((k.clone(), n.clone())),
        _ => None,
    }
}

/// The names of the record's named containers, in document order.
fn collect_container_names(cs: &Vec<ContainerRecord>) -> (r: Vec<String>)
    ensures
        r@.map_values(|s: String| s@) == named_container_names(
            cs@.map_values(|c: ContainerRecord| c@),
        ),
{
    let mut r: Vec<String> = Vec::new();
    let n = cs.len();
    let mut j: usize = 0;
    while j < n
        invariant
            0 <= j <= n,
            n == cs@.len(),
            r@.map_values(|s: String| s@) == named_container_names(
                cs@.take(j as int).map_values(|c: ContainerRecord| c@),
            ),
        decreases n - j,
    {
        proof {
            assert(cs@.take(j + 1).map_values(|c: ContainerRecord| c@).drop_last() =~= cs@.take(
                j as int,
            ).map_values(|c: ContainerRecord| c@));
            assert(cs@.take(j + 1).map_values(|c: ContainerRecord| c@).last() == cs@[j as int]@);
        }
        let ghost prev = named_container_names(cs@.take(j as int).map_values(|c: ContainerRecord| c@));
        if let Some(nm) = &cs[j].name {
            r.push(nm.clone());
            proof {
                assert(r@.map_values(|s: String| s@) =~= prev.push(nm@));
            }
        }
        j += 1;
    }
    proof {
        assert(cs@.take(n as int) =~= cs@);
    }
    r
}


/// How a volume mount resource reflects a mount's name: the name itself,
/// the volume mount kind, and nothing above or below it.
pub open spec fn volume_mount_resource_reflects(r: IntegrationResource, name: Seq<char>) -> bool {
    &&& r.name@ == name
    &&& r.kind@ == "VolumeMount"@
    &&& r.parent is None
    &&& r.children@.len() == 0
}

/// How a container resource reflects its container: the container's name,
/// the container kind, no parent, and one child per named volume mount.
pub open spec fn container_resource_reflects(r: IntegrationResource, c: ContainerModel) -> bool {
    &&& c.name matches Some(n) && r.name@ == n
    &&& r.kind@ == "Container"@
    &&& r.parent is None
    &&& r.children@.len() == named_volume_mount_names(c.volume_mounts).len()
    &&& forall|m: int|
        0 <= m < r.children@.len() ==> volume_mount_resource_reflects(
            #[trigger] r.children@[m],
            named_volume_mount_names(c.volume_mounts)[m],
        )
}

/// One resource per named volume mount of the container, in document
/// order.
pub fn get_volume_mounts(container: &ContainerRecord) -> (r: Vec<IntegrationResource>)
    ensures
        r@.len() == named_volume_mount_names(container@.volume_mounts).len(),
        forall|k: int|
            0 <= k < r@.len() ==> volume_mount_resource_reflects(
                #[trigger] r@[k],
                named_volume_mount_names(container@.volume_mounts)[k],
            ),
{
    let mut r: Vec<IntegrationResource> = Vec::new();
    let n = container.volume_mounts.len();
    let mut j: usize = 0;
    while j < n
        invariant
            0 <= j <= n,
            n == container.volume_mounts@.len(),
            r@.len() == named_volume_mount_names(
                container.volume_mounts@.take(j as int).map_values(|v: VolumeMountRecord| v@),
            ).len(),
            forall|k: int|
                0 <= k < r@.len() ==> volume_mount_resource_reflects(
                    #[trigger] r@[k],
                    named_volume_mount_names(
                        container.volume_mounts@.take(j as int).map_values(
                            |v: VolumeMountRecord| v@,
                        ),
                    )[k],
                ),
        decreases n - j,
    {
        proof {
            assert(container.volume_mounts@.take(j + 1).map_values(|v: VolumeMountRecord| v@)
                .drop_last() =~= container.volume_mounts@.take(j as int).map_values(
                |v: VolumeMountRecord| v@,
            ));
            assert(container.volume_mounts@.take(j + 1).map_values(|v: VolumeMountRecord| v@).last()
                == container.volume_mounts@[j as int]@);
        }
        if let Some(nm) = &container.volume_mounts[j].name {
            let built = IntegrationResource::new(
                nm.clone(),
                "VolumeMount".to_owned(),
                None,
                Vec::new(),
            );
            r.push(built);
        }
        j += 1;
    }
    proof {
        assert(container.volume_mounts@.take(n as int) =~= container.volume_mounts@);
    }
    r
}

/// One resource per named container of the record, in document order, each
/// carrying its volume mounts as children.
pub fn get_containers(rec: &ResourceRecord) -> (r: Vec<IntegrationResource>)
    ensures
        r@.len() == named_containers(rec@.containers).len(),
        forall|k: int|
            0 <= k < r@.len() ==> container_resource_reflects(
                #[trigger] r@[k],
                named_containers(rec@.containers)[k],
            ),
{
    let mut r: Vec<IntegrationResource> = Vec::new();
    let n = rec.containers.len();
    let mut j: usize = 0;
    while j < n
        invariant
            0 <= j <= n,
            n == rec.containers@.len(),
            r@.len() == named_containers(
                rec.containers@.take(j as int).map_values(|c: ContainerRecord| c@),
            ).len(),
            forall|k: int|
                0 <= k < r@.len() ==> container_resource_reflects(
                    #[trigger] r@[k],
                    named_containers(
                        rec.containers@.take(j as int).map_values(|c: ContainerRecord| c@),
                    )[k],
                ),
        decreases n - j,
    {
        proof {
            assert(rec.containers@.take(j + 1).map_values(|c: ContainerRecord| c@).drop_last()
                =~= rec.containers@.take(j as int).map_values(|c: ContainerRecord| c@));
            assert(rec.containers@.take(j + 1).map_values(|c: ContainerRecord| c@).last()
                == rec.containers@[j as int]@);
        }
        if let Some(nm) = &rec.containers[j].name {
            let volume_mounts = get_volume_mounts(&rec.containers[j]);
            let built = IntegrationResource::new(
                nm.clone(),
                "Container".to_owned(),
                None,
                volume_mounts,
            );
            r.push(built);
        }
        j += 1;
    }
    proof {
        assert(rec.containers@.take(n as int) =~= rec.containers@);
    }
    r
}

} // verus!
