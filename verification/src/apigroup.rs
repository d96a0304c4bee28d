//! The resources of an API group: what discovery reports of them, and what
//! the catalog keeps.

use vstd::prelude::*;
use vstd::string::*;
use crate::text::{contains_char, strip_prefix};
use crate::version::{has_higher_priority, higher_priority, lemma_priority_is_an_order,
    lemma_stable_comes_first, parsed_version};

verus! {

/// Why a catalog could not be built.
#[derive(Clone, Copy, Debug, PartialEq, Eq, Structural)]
pub enum DiscoveryError {
    /// A group reports no version at all.
    EmptyGroupVersions,
    /// The resource lists handed over are not one for each version.
    MissingResourceList,
    /// A resource list does not hold the resource that was asked for.
    MissingResource,
    /// A group version could not be parsed.
    InvalidGroupVersion,
}

/// One resource, as discovery reports it.
#[derive(Debug)]
pub struct DiscoveredResource {
    /// The plural name; for a subresource the parent's, a slash and its own.
    pub name: String,
    pub kind: String,
    /// The group, where it differs from that of the list.
    pub group: Option<String>,
    /// The version, where it differs from that of the list.
    pub version: Option<String>,
    pub namespaced: bool,
    pub short_names: Option<Vec<String>>,
    pub verbs: Vec<String>,
}

/// The resources of one group at one version, as discovery reports them.
#[derive(Debug)]
pub struct DiscoveredResourceList {
    pub group_version: String,
    pub resources: Vec<DiscoveredResource>,
}

/// A `DiscoveredResource`, as mathematics.
pub struct DiscoveredResourceView {
    pub name: Seq<char>,
    pub kind: Seq<char>,
    pub group: Option<Seq<char>>,
    pub version: Option<Seq<char>>,
    pub namespaced: bool,
    pub short_names: Option<Seq<Seq<char>>>,
    pub verbs: Seq<Seq<char>>,
}

/// A `DiscoveredResourceList`, as mathematics.
pub struct DiscoveredResourceListView {
    pub group_version: Seq<char>,
    pub resources: Seq<DiscoveredResourceView>,
}

impl View for DiscoveredResource {
    type V = DiscoveredResourceView;

    open spec fn view(&self) -> DiscoveredResourceView {
        DiscoveredResourceView {
            name: self.name@,
            kind: self.kind@,
            group: match self.group {
                Some(g) => Some(g@),
                None => None,
            },
            version: match self.version {
                Some(v) => Some(v@),
                None => None,
            },
            namespaced: self.namespaced,
            short_names: match self.short_names {
                Some(names) => Some(texts(names@)),
                None => None,
            },
            verbs: texts(self.verbs@),
        }
    }
}

impl View for DiscoveredResourceList {
    type V = DiscoveredResourceListView;

    open spec fn view(&self) -> DiscoveredResourceListView {
        DiscoveredResourceListView {
            group_version: self.group_version@,
            resources: self.resources@.map_values(|r: DiscoveredResource| r@),
        }
    }
}

/// Whether the objects of a resource live in namespaces.
#[derive(Clone, Copy, Debug, PartialEq, Eq, Structural)]
pub enum Scope {
    Cluster,
    Namespaced,
}

/// What describes a resource: enough to address its objects.
#[derive(Debug)]
pub struct ApiResource {
    /// Resource group, empty for the core group.
    pub group: String,
    pub version: String,
    /// The version for the core group, the group and the version with a
    /// slash between them for any other.
    pub api_version: String,
    /// Singular name of the resource, in Pascal case.
    pub kind: String,
    /// Plural name of the resource.
    pub plural: String,
    pub short_names: Option<Vec<String>>,
}

/// What can be done with a resource.
#[derive(Debug)]
pub struct ApiCapabilities {
    pub scope: Scope,
    /// The subresources, each named without the name of its parent.
    pub subresources: Vec<(ApiResource, ApiCapabilities)>,
    /// The operations that the resource supports.
    pub operations: Vec<String>,
}

/// The texts of a list of strings.
pub open spec fn texts(list: Seq<String>) -> Seq<Seq<char>> {
    list.map_values(|s: String| s@)
}

/// An `ApiResource`, as mathematics.
pub struct ApiResourceView {
    pub group: Seq<char>,
    pub version: Seq<char>,
    pub api_version: Seq<char>,
    pub kind: Seq<char>,
    pub plural: Seq<char>,
    pub short_names: Option<Seq<Seq<char>>>,
}

/// An `ApiCapabilities`, as mathematics.
pub struct ApiCapabilitiesView {
    pub scope: Scope,
    pub subresources: Seq<(ApiResourceView, ApiCapabilitiesView)>,
    pub operations: Seq<Seq<char>>,
}

impl View for ApiResource {
    type V = ApiResourceView;

    open spec fn view(&self) -> ApiResourceView {
        ApiResourceView {
            group: self.group@,
            version: self.version@,
            api_version: self.api_version@,
            kind: self.kind@,
            plural: self.plural@,
            short_names: match self.short_names {
                Some(names) => Some(texts(names@)),
                None => None,
            },
        }
    }
}

impl View for ApiCapabilities {
    type V = ApiCapabilitiesView;

    open spec fn view(&self) -> ApiCapabilitiesView {
        self.model()
    }
}

impl ApiCapabilities {
    /// What the capabilities say, subresources included.
    pub open spec fn model(&self) -> ApiCapabilitiesView
        decreases self,
    {
        ApiCapabilitiesView {
            scope: self.scope,
            subresources: Seq::new(
                self.subresources.len() as nat,
                |i: int|
                    if 0 <= i < self.subresources.len() {
                        (self.subresources[i].0@, self.subresources[i].1.model())
                    } else {
                        arbitrary()
                    },
            ),
            operations: texts(self.operations@),
        }
    }
}

/// A list with the same texts in the same order.
pub(crate) fn copy_strings(list: &Vec<String>) -> (r: Vec<String>)
    ensures
        texts(r@) == texts(list@),
{
    let mut r: Vec<String> = Vec::new();
    let mut i: usize = 0;
    while i < list.len()
        invariant
            i <= list.len(),
            r.len() == i,
            forall|k: int| 0 <= k < i ==> (#[trigger] r[k])@ == list[k]@,
        decreases list.len() - i,
    {
        r.push(list[i].clone());
        i += 1;
    }
    assert(texts(r@) =~= texts(list@));
    r
}

pub(crate) fn copy_names(names: &Option<Vec<String>>) -> (r: Option<Vec<String>>)
    ensures
        match names {
            Some(list) => r is Some && texts(r->0@) == texts(list@),
            None => r is None,
        },
{
    match names {
        Some(list) => Some(copy_strings(list)),
        None => None,
    }
}

impl ApiResource {
    /// A copy that reads the same.
    pub fn duplicate(&self) -> (r: Self)
        ensures
            r@ == self@,
    {
        ApiResource {
            group: self.group.clone(),
            version: self.version.clone(),
            api_version: self.api_version.clone(),
            kind: self.kind.clone(),
            plural: self.plural.clone(),
            short_names: copy_names(&self.short_names),
        }
    }
}

impl ApiCapabilities {
    /// A copy that reads the same.
    pub fn duplicate(&self) -> (r: Self)
        ensures
            r@ == self@,
        decreases self,
    {
        let mut subresources: Vec<(ApiResource, ApiCapabilities)> = Vec::new();
        let mut i: usize = 0;
        while i < self.subresources.len()
            invariant
                i <= self.subresources.len(),
                subresources.len() == i,
                forall|k: int|
                    0 <= k < i ==> (#[trigger] subresources[k]).0@ == self.subresources[k].0@
                        && subresources[k].1@ == self.subresources[k].1@,
            decreases self.subresources.len() - i,
        {
            let sub = &self.subresources[i];
            subresources.push((sub.0.duplicate(), sub.1.duplicate()));
            i += 1;
        }
        let r = ApiCapabilities {
            scope: self.scope,
            subresources,
            operations: copy_strings(&self.operations),
        };
        assert(r.view().subresources =~= self.view().subresources);
        r
    }
}

/// Where the first slash of `s` stands; the length of `s` if it has none.
pub open spec fn first_slash(s: Seq<char>) -> int
    decreases s.len(),
{
    if s.len() == 0 {
        0
    } else if s[0] == '/' {
        0
    } else {
        1 + first_slash(s.drop_first())
    }
}

/// The group that a group version names: what stands before its first slash,
/// and nothing if it has no slash.
pub open spec fn group_part(group_version: Seq<char>) -> Seq<char> {
    if first_slash(group_version) < group_version.len() {
        group_version.take(first_slash(group_version))
    } else {
        Seq::empty()
    }
}

/// The version that a group version names: what stands behind its first
/// slash, and all of it if it has no slash.
pub open spec fn version_part(group_version: Seq<char>) -> Seq<char> {
    if first_slash(group_version) < group_version.len() {
        group_version.skip(first_slash(group_version) + 1)
    } else {
        group_version
    }
}

/// How a group and a version are written together: the version alone for the
/// core group, which has no name, else both with a slash between them.
pub open spec fn api_version_text(group: Seq<char>, version: Seq<char>) -> Seq<char> {
    if group.len() == 0 {
        version
    } else {
        group + seq!['/'] + version
    }
}

/// `GroupVersion::from_str` of kube_core, which splits a group version at its
/// first slash: the group and the version. It finds both in every text.
#[verifier::external_body]
fn parse_group_version(group_version: &str) -> (r: Option<(String, String)>)
    ensures
        r is Some,
        r matches Some(parts) ==> parts.0@ == group_part(group_version@),
        r matches Some(parts) ==> parts.1@ == version_part(group_version@),
{
    <kube_core::gvk::GroupVersion as std::str::FromStr>::from_str(group_version).ok().map(
        |gv| (gv.group, gv.version),
    )
}

/// `GroupVersion::api_version` of kube_core, on the group version made of
/// `group` and `version`: the two written together.
#[verifier::external_body]
fn api_version(group: &str, version: &str) -> (r: String)
    ensures
        r@ == api_version_text(group@, version@),
{
    kube_core::gvk::GroupVersion::gv(group, version).api_version()
}

/// The description of the resource `ar` from the list of `group_version`.
pub open spec fn api_resource_of(
    ar: DiscoveredResourceView,
    group_version: Seq<char>,
) -> ApiResourceView {
    ApiResourceView {
        group: match ar.group {
            Some(g) => g,
            None => group_part(group_version),
        },
        version: match ar.version {
            Some(v) => v,
            None => version_part(group_version),
        },
        api_version: api_version_text(group_part(group_version), version_part(group_version)),
        kind: ar.kind,
        plural: ar.name,
        short_names: ar.short_names,
    }
}

/// Describes a resource that discovery reported in the list of
/// `group_version`. Group and version are those of the list unless the
/// resource names its own.
pub fn parse_apiresource(ar: &DiscoveredResource, group_version: &str) -> (r: Result<
    ApiResource,
    DiscoveryError,
>)
    ensures
        r is Ok,
        r->Ok_0@ == api_resource_of(ar@, group_version@),
{
    match parse_group_version(group_version) {
        Some((group, version)) => {
            let api_version = api_version(group.as_str(), version.as_str());
            Ok(
                ApiResource {
                    group: match &ar.group {
                        Some(g) => g.clone(),
                        None => group,
                    },
                    version: match &ar.version {
                        Some(v) => v.clone(),
                        None => version,
                    },
                    api_version,
                    kind: ar.kind.clone(),
                    plural: ar.name.clone(),
                    short_names: copy_names(&ar.short_names),
                },
            )
        },
        None => Err(DiscoveryError::InvalidGroupVersion),
    }
}

/// The length of the longest name in `resources`.
pub open spec fn longest_name(resources: Seq<DiscoveredResourceView>) -> nat
    decreases resources.len(),
{
    if resources.len() == 0 {
        0
    } else {
        let rest = longest_name(resources.drop_last());
        if resources.last().name.len() > rest {
            resources.last().name.len()
        } else {
            rest
        }
    }
}

/// No name in `resources` is longer than the longest.
pub proof fn lemma_longest_name(resources: Seq<DiscoveredResourceView>, i: int)
    requires
        0 <= i < resources.len(),
    ensures
        resources[i].name.len() <= longest_name(resources),
    decreases resources.len(),
{
    if i < resources.len() - 1 {
        lemma_longest_name(resources.drop_last(), i);
    }
}

/// Where the first resource called `name` stands in `resources`; their number
/// if none is called so.
pub open spec fn position_of_name(resources: Seq<DiscoveredResourceView>, name: Seq<char>) -> int
    decreases resources.len(),
{
    if resources.len() == 0 {
        0
    } else if resources[0].name == name {
        0
    } else {
        1 + position_of_name(resources.drop_first(), name)
    }
}

/// `position_of_name` is the first position with that name, or the length.
pub proof fn lemma_position_of_name(resources: Seq<DiscoveredResourceView>, name: Seq<char>)
    ensures
        0 <= position_of_name(resources, name) <= resources.len(),
        position_of_name(resources, name) < resources.len() ==> resources[position_of_name(
            resources,
            name,
        )].name == name,
        forall|j: int|
            0 <= j < position_of_name(resources, name) ==> (#[trigger] resources[j]).name != name,
    decreases resources.len(),
{
    if resources.len() > 0 && resources[0].name != name {
        let rest = resources.drop_first();
        lemma_position_of_name(rest, name);
        assert forall|j: int| 0 <= j < position_of_name(resources, name) implies (
        #[trigger] resources[j]).name != name by {
            if j > 0 {
                assert(rest[j - 1] == resources[j]);
            }
        }
    }
}

/// Whether `candidate` names a subresource of the resource called `parent`:
/// it begins with that name and a slash.
pub open spec fn is_subresource_of(candidate: Seq<char>, parent: Seq<char>) -> bool {
    (parent + seq!['/']).is_prefix_of(candidate)
}

/// The description of the subresource `res` of the resource called `parent`:
/// that of `res`, under the name that follows the parent's name and the slash.
pub open spec fn subresource_of(
    res: DiscoveredResourceView,
    group_version: Seq<char>,
    parent: Seq<char>,
) -> ApiResourceView {
    ApiResourceView { plural: res.name.skip(parent.len() as int + 1), ..api_resource_of(res, group_version) }
}

/// What can be done with the resource called `name` of `list`: the scope and
/// the operations of the first resource of that name, and as subresources
/// every resource of the list whose name begins with `name` and a slash, each
/// with its own capabilities, found in the same way.
pub open spec fn capabilities_of(list: DiscoveredResourceListView, name: Seq<char>) -> ApiCapabilitiesView
    decreases longest_name(list.resources) - name.len(), list.resources.len() + 1,
{
    let at = position_of_name(list.resources, name);
    ApiCapabilitiesView {
        scope: if at < list.resources.len() && list.resources[at].namespaced {
            Scope::Namespaced
        } else {
            Scope::Cluster
        },
        subresources: subresources_upto(list, name, list.resources.len()),
        operations: if at < list.resources.len() {
            list.resources[at].verbs
        } else {
            Seq::empty()
        },
    }
}

/// The subresources of the resource called `name` among the first `n`
/// resources of `list`, in the order of the list.
pub open spec fn subresources_upto(
    list: DiscoveredResourceListView,
    name: Seq<char>,
    n: nat,
) -> Seq<(ApiResourceView, ApiCapabilitiesView)>
    decreases longest_name(list.resources) - name.len(), n,
{
    if n == 0 || n > list.resources.len() {
        Seq::empty()
    } else {
        let before = subresources_upto(list, name, (n - 1) as nat);
        let res = list.resources[n - 1];
        if is_subresource_of(res.name, name) {
            proof {
                lemma_longest_name(list.resources, n - 1);
            }
            before.push(
                (subresource_of(res, list.group_version, name), capabilities_of(list, res.name)),
            )
        } else {
            before
        }
    }
}

/// The views of a list of resources with their capabilities.
pub open spec fn entries_view(entries: Seq<(ApiResource, ApiCapabilities)>) -> Seq<
    (ApiResourceView, ApiCapabilitiesView),
> {
    Seq::new(entries.len(), |i: int| (entries[i].0@, entries[i].1@))
}

/// Says what can be done with the resource called `name` of `list`.
pub fn parse_apicapabilities(list: &DiscoveredResourceList, name: &str) -> (r: Result<
    ApiCapabilities,
    DiscoveryError,
>)
    ensures
        position_of_name(list@.resources, name@) < list.resources.len() ==> r is Ok
            && r->Ok_0@ == capabilities_of(list@, name@),
        position_of_name(list@.resources, name@) >= list.resources.len() ==> r == Err::<
            ApiCapabilities,
            DiscoveryError,
        >(DiscoveryError::MissingResource),
    decreases longest_name(list@.resources) - name@.len(),
{
    proof {
        lemma_position_of_name(list@.resources, name@);
    }
    let wanted = name.to_owned();
    let mut at: usize = 0;
    while at < list.resources.len() && list.resources[at].name != wanted
        invariant
            at <= list.resources.len(),
            wanted@ == name@,
            forall|j: int| 0 <= j < at ==> (#[trigger] list@.resources[j]).name != name@,
        decreases list.resources.len() - at,
    {
        assert(list@.resources[at as int] == list.resources[at as int]@);
        at += 1;
    }
    if at >= list.resources.len() {
        return Err(DiscoveryError::MissingResource);
    }
    assert(list@.resources[at as int] == list.resources[at as int]@);
    let scope = if list.resources[at].namespaced {
        Scope::Namespaced
    } else {
        Scope::Cluster
    };
    proof {
        reveal_strlit("/");
    }
    let subresource_name_prefix = name.to_owned().concat("/");
    assert(subresource_name_prefix@ =~= name@ + seq!['/']);
    let mut subresources: Vec<(ApiResource, ApiCapabilities)> = Vec::new();
    let mut i: usize = 0;
    while i < list.resources.len()
        invariant
            i <= list.resources.len(),
            subresource_name_prefix@ == name@ + seq!['/'],
            entries_view(subresources@) == subresources_upto(list@, name@, i as nat),
        decreases list.resources.len() - i,
    {
        let res = &list.resources[i];
        assert(list@.resources[i as int] == res@);
        if let Some(subresource_name) = strip_prefix(
            res.name.as_str(),
            subresource_name_prefix.as_str(),
        ) {
            proof {
                lemma_longest_name(list@.resources, i as int);
                lemma_position_of_name(list@.resources, res.name@);
            }
            let mut api_resource = match parse_apiresource(res, list.group_version.as_str()) {
                Ok(described) => described,
                Err(e) => {
                    return Err(e);
                },
            };
            api_resource.plural = subresource_name.to_owned();
            let caps = match parse_apicapabilities(list, res.name.as_str()) {
                Ok(caps) => caps,
                Err(e) => {
                    return Err(e);
                },
            };
            let ghost before = subresources@;
            subresources.push((api_resource, caps));
            assert(entries_view(subresources@) =~= entries_view(before).push(
                (subresource_of(res@, list@.group_version, name@), capabilities_of(list@, res.name@)),
            ));
        }
        i += 1;
    }
    let caps = ApiCapabilities {
        scope,
        subresources,
        operations: copy_strings(&list.resources[at].verbs),
    };
    assert(caps@.subresources =~= entries_view(caps.subresources@));
    Ok(caps)
}

/// The resources of one group at one version, as the catalog keeps them.
#[derive(Debug)]
pub struct GroupVersionData {
    /// The version.
    pub version: String,
    /// The resources, each with what it supports. Subresources stand with
    /// their parents, not here.
    pub resources: Vec<(ApiResource, ApiCapabilities)>,
}

/// A `GroupVersionData`, as mathematics.
pub struct GroupVersionDataView {
    pub version: Seq<char>,
    pub resources: Seq<(ApiResourceView, ApiCapabilitiesView)>,
}

impl View for GroupVersionData {
    type V = GroupVersionDataView;

    open spec fn view(&self) -> GroupVersionDataView {
        GroupVersionDataView { version: self.version@, resources: entries_view(self.resources@) }
    }
}

/// What the catalog keeps of the first `n` resources of `list`: each resource
/// whose name holds no slash, described and with its capabilities.
pub open spec fn resources_upto(list: DiscoveredResourceListView, n: nat) -> Seq<
    (ApiResourceView, ApiCapabilitiesView),
>
    decreases n,
{
    if n == 0 || n > list.resources.len() {
        Seq::empty()
    } else {
        let before = resources_upto(list, (n - 1) as nat);
        let res = list.resources[n - 1];
        if res.name.contains('/') {
            before
        } else {
            before.push((api_resource_of(res, list.group_version), capabilities_of(list, res.name)))
        }
    }
}

impl GroupVersionData {
    /// Keeps of a resource list what the catalog needs, under `version`.
    pub fn new(version: String, list: &DiscoveredResourceList) -> (r: Result<Self, DiscoveryError>)
        ensures
            r is Ok,
            r->Ok_0@ == (GroupVersionDataView {
                version: version@,
                resources: resources_upto(list@, list.resources.len() as nat),
            }),
    {
        let mut resources: Vec<(ApiResource, ApiCapabilities)> = Vec::new();
        let mut i: usize = 0;
        while i < list.resources.len()
            invariant
                i <= list.resources.len(),
                entries_view(resources@) == resources_upto(list@, i as nat),
            decreases list.resources.len() - i,
        {
            let res = &list.resources[i];
            assert(list@.resources[i as int] == res@);
            // subresources stand with their parents
            if !contains_char(res.name.as_str(), '/') {
                proof {
                    lemma_position_of_name(list@.resources, res.name@);
                }
                let ar = match parse_apiresource(res, list.group_version.as_str()) {
                    Ok(described) => described,
                    Err(e) => {
                        return Err(e);
                    },
                };
                let caps = match parse_apicapabilities(list, res.name.as_str()) {
                    Ok(caps) => caps,
                    Err(e) => {
                        return Err(e);
                    },
                };
                let ghost before = resources@;
                resources.push((ar, caps));
                assert(entries_view(resources@) =~= entries_view(before).push(
                    (api_resource_of(res@, list@.group_version), capabilities_of(list@, res.name@)),
                ));
            }
            i += 1;
        }
        Ok(GroupVersionData { version, resources })
    }
}

/// The views of a list of group version data.
pub open spec fn data_view(data: Seq<GroupVersionData>) -> Seq<GroupVersionDataView> {
    data.map_values(|d: GroupVersionData| d@)
}

/// Whether in an order by priority the version at `a` of `unsorted` stands
/// before the one at `b`: it has the higher priority, or the same and the
/// earlier place.
pub open spec fn comes_before(unsorted: Seq<GroupVersionDataView>, a: int, b: int) -> bool {
    ||| higher_priority(unsorted[a].version, unsorted[b].version)
    ||| !higher_priority(unsorted[b].version, unsorted[a].version) && a < b
}

/// Whether `places` arranges the first `n` items of `unsorted` as the first
/// `n` items of `sorted`: each of these places is taken once, and the items
/// stand in the order of `comes_before`.
pub open spec fn arranges(
    places: Seq<int>,
    unsorted: Seq<GroupVersionDataView>,
    sorted: Seq<GroupVersionDataView>,
    n: int,
) -> bool {
    &&& places.len() == unsorted.len() == sorted.len()
    &&& 0 <= n <= places.len()
    &&& forall|i: int| 0 <= i < n ==> 0 <= #[trigger] places[i] < n
    &&& forall|i: int, j: int| 0 <= i < j < n ==> #[trigger] places[i] != #[trigger] places[j]
    &&& forall|i: int| 0 <= i < places.len() ==> #[trigger] sorted[i] == unsorted[places[i]]
    &&& forall|i: int| n <= i < places.len() ==> #[trigger] places[i] == i
    &&& forall|i: int, j: int|
        0 <= i < j < n ==> comes_before(unsorted, #[trigger] places[i], #[trigger] places[j])
}

/// Whether `sorted` holds the versions of `unsorted` by priority, the highest
/// first, and those of equal priority in the order that they had.
pub open spec fn is_sorted_by_priority(
    sorted: Seq<GroupVersionDataView>,
    unsorted: Seq<GroupVersionDataView>,
) -> bool {
    exists|places: Seq<int>| arranges(places, unsorted, sorted, unsorted.len() as int)
}

/// In a list sorted by priority no version stands behind one of lower
/// priority.
pub proof fn lemma_sorted_has_highest_first(
    sorted: Seq<GroupVersionDataView>,
    unsorted: Seq<GroupVersionDataView>,
    i: int,
    j: int,
)
    requires
        is_sorted_by_priority(sorted, unsorted),
        0 <= i < j < sorted.len(),
    ensures
        !higher_priority(sorted[j].version, sorted[i].version),
{
    let places = choose|places: Seq<int>| arranges(places, unsorted, sorted, unsorted.len() as int);
    assert(comes_before(unsorted, places[i], places[j]));
    assert(sorted[i] == unsorted[places[i]]);
    assert(sorted[j] == unsorted[places[j]]);
    lemma_priority_is_an_order(sorted[i].version, sorted[j].version, sorted[i].version);
}

/// An arrangement of `n` places fills each of them.
proof fn lemma_places_cover(places: Seq<int>, v: int)
    requires
        forall|i: int| 0 <= i < places.len() ==> 0 <= #[trigger] places[i] < places.len(),
        forall|i: int, j: int|
            0 <= i < j < places.len() ==> #[trigger] places[i] != #[trigger] places[j],
        0 <= v < places.len(),
    ensures
        exists|j: int| 0 <= j < places.len() && #[trigger] places[j] == v,
{
    let n = places.len() as int;
    let range = vstd::set_lib::set_int_range(0, n);
    vstd::set_lib::lemma_int_range(0, n);
    assert(places.no_duplicates());
    places.unique_seq_to_set();
    assert(places.to_set().subset_of(range)) by {
        assert forall|x: int| places.to_set().contains(x) implies range.contains(x) by {
            let at = choose|at: int| 0 <= at < places.len() && places[at] == x;
            assert(0 <= places[at] < n);
        }
    }
    vstd::set_lib::lemma_len_subset(places.to_set(), range);
    vstd::set_lib::lemma_subset_equality(places.to_set(), range);
    assert(range.contains(v));
    assert(places.to_set().contains(v));
    let j = choose|j: int| 0 <= j < places.len() && places[j] == v;
    assert(places[j] == v);
}

/// Two arrangements of the same versions by priority agree up to any place.
proof fn lemma_same_places(p: Seq<int>, q: Seq<int>, unsorted: Seq<GroupVersionDataView>, n: int)
    requires
        exists|a: Seq<GroupVersionDataView>| arranges(p, unsorted, a, unsorted.len() as int),
        exists|b: Seq<GroupVersionDataView>| arranges(q, unsorted, b, unsorted.len() as int),
        0 <= n <= unsorted.len(),
    ensures
        forall|i: int| 0 <= i < n ==> p[i] == q[i],
    decreases n,
{
    if n > 0 {
        lemma_same_places(p, q, unsorted, n - 1);
        let i = n - 1;
        let x = p[i];
        let y = q[i];
        if x != y {
            assert(0 <= p[i] < p.len());
            assert(0 <= q[i] < q.len());
            lemma_places_cover(q, x);
            lemma_places_cover(p, y);
            let j = choose|j: int| 0 <= j < q.len() && #[trigger] q[j] == x;
            let k = choose|k: int| 0 <= k < p.len() && #[trigger] p[k] == y;
            if j < i {
                assert(p[j] == q[j]);
                assert(p[j] != p[i]);
            }
            if k < i {
                assert(p[k] == q[k]);
                assert(q[k] != q[i]);
            }
            assert(comes_before(unsorted, q[i], q[j]));
            assert(comes_before(unsorted, p[i], p[k]));
            lemma_priority_is_an_order(unsorted[x].version, unsorted[y].version, unsorted[x].version);
        }
    }
}

/// There is one way only to sort versions by priority.
pub proof fn lemma_sorting_is_determined(
    a: Seq<GroupVersionDataView>,
    b: Seq<GroupVersionDataView>,
    unsorted: Seq<GroupVersionDataView>,
)
    requires
        is_sorted_by_priority(a, unsorted),
        is_sorted_by_priority(b, unsorted),
    ensures
        a == b,
{
    let p = choose|p: Seq<int>| arranges(p, unsorted, a, unsorted.len() as int);
    let q = choose|q: Seq<int>| arranges(q, unsorted, b, unsorted.len() as int);
    lemma_same_places(p, q, unsorted, unsorted.len() as int);
    assert forall|i: int| 0 <= i < a.len() implies a[i] == b[i] by {
        assert(a[i] == unsorted[p[i]]);
        assert(b[i] == unsorted[q[i]]);
    }
    assert(a =~= b);
}

/// The versions of `unsorted` by priority, the highest first, and those of
/// equal priority in the order that they had.
pub open spec fn sorted_by_priority(unsorted: Seq<GroupVersionDataView>) -> Seq<GroupVersionDataView> {
    choose|sorted: Seq<GroupVersionDataView>| is_sorted_by_priority(sorted, unsorted)
}

/// One group of the catalog.
#[derive(Debug)]
pub struct ApiGroup {
    /// Name of the group, empty for the core group.
    pub name: String,
    /// The resources of the group at each of its versions, the most preferred
    /// version first.
    pub data: Vec<GroupVersionData>,
    /// The version that the group itself prefers, if it says so.
    pub preferred: Option<String>,
}

/// An `ApiGroup`, as mathematics.
pub struct ApiGroupView {
    pub name: Seq<char>,
    pub data: Seq<GroupVersionDataView>,
    pub preferred: Option<Seq<char>>,
}

impl View for ApiGroup {
    type V = ApiGroupView;

    open spec fn view(&self) -> ApiGroupView {
        ApiGroupView {
            name: self.name@,
            data: data_view(self.data@),
            preferred: match self.preferred {
                Some(v) => Some(v@),
                None => None,
            },
        }
    }
}

impl ApiGroup {
    /// Returns the name of this group.
    pub fn name(&self) -> (name: &str)
        ensures
            name@ == self@.name,
    {
        self.name.as_str()
    }

    /// Puts the versions in the order of their priority, the highest first.
    /// Versions of equal priority keep their order.
    pub fn sort_versions(&mut self)
        ensures
            final(self)@.name == old(self)@.name,
            final(self)@.preferred == old(self)@.preferred,
            is_sorted_by_priority(final(self)@.data, old(self)@.data),
            final(self)@.data == sorted_by_priority(old(self)@.data),
    {
        let ghost unsorted = data_view(self.data@);
        let ghost mut places: Seq<int> = Seq::new(self.data.len() as nat, |i: int| i);
        let n = self.data.len();
        let mut i: usize = 0;
        while i < n
            invariant
                n == self.data.len(),
                i <= n,
                self.name == old(self).name,
                self.preferred == old(self).preferred,
                unsorted == data_view(old(self).data@),
                arranges(places, unsorted, data_view(self.data@), i as int),
            decreases n - i,
        {
            let ghost before = data_view(self.data@);
            let current = self.data.remove(i);
            assert(data_view(self.data@) =~= before.remove(i as int));
            let ghost rest = data_view(self.data@);
            let mut j: usize = i;
            while j > 0 && has_higher_priority(
                current.version.as_str(),
                self.data[j - 1].version.as_str(),
            )
                invariant
                    j <= i,
                    i < n,
                    self.data.len() == n - 1,
                    rest == data_view(self.data@),
                    forall|k: int|
                        j <= k < i ==> higher_priority(current@.version, (#[trigger] rest[k]).version),
                decreases j,
            {
                j -= 1;
            }
            self.data.insert(j, current);
            assert(data_view(self.data@) =~= rest.insert(j as int, current@));
            proof {
                let moved = places.remove(i as int).insert(j as int, i as int);
                let after = data_view(self.data@);
                assert(before[i as int] == current@);
                assert(places[i as int] == i);
                assert forall|k: int| 0 <= k < moved.len() implies #[trigger] after[k]
                    == unsorted[moved[k]] by {
                    if k < j {
                        assert(after[k] == before[k]);
                    } else if k > j {
                        if k <= i {
                            assert(after[k] == before[k - 1]);
                        } else {
                            assert(after[k] == before[k]);
                        }
                    }
                }
                assert forall|a: int, b: int| 0 <= a < b < i + 1 implies comes_before(
                    unsorted,
                    #[trigger] moved[a],
                    #[trigger] moved[b],
                ) by {
                    if b == j {
                        // `current` stops behind an item that it does not outrank, and
                        // so behind every item before that one
                        assert(moved[a] == places[a]);
                        assert(before[a] == unsorted[places[a]]);
                        assert(before[j - 1] == unsorted[places[j - 1]]);
                        assert(rest[j - 1] == before[j - 1]);
                        if a < j - 1 {
                            assert(comes_before(unsorted, places[a], places[j - 1]));
                        }
                        lemma_priority_is_an_order(
                            current@.version,
                            before[j - 1].version,
                            before[a].version,
                        );
                        lemma_priority_is_an_order(
                            before[a].version,
                            before[j - 1].version,
                            before[a].version,
                        );
                    } else if a == j {
                        assert(moved[b] == places[b - 1]);
                        assert(rest[b - 1] == before[b - 1]);
                        assert(before[b - 1] == unsorted[places[b - 1]]);
                        lemma_priority_is_an_order(
                            current@.version,
                            before[b - 1].version,
                            current@.version,
                        );
                    } else {
                        let pa = if a < j {
                            a
                        } else {
                            a - 1
                        };
                        let pb = if b < j {
                            b
                        } else {
                            b - 1
                        };
                        assert(moved[a] == places[pa] && moved[b] == places[pb]);
                        assert(comes_before(unsorted, places[pa], places[pb]));
                    }
                }
                assert forall|a: int, b: int| 0 <= a < b < i + 1 implies #[trigger] moved[a]
                    != #[trigger] moved[b] by {
                    let pa = if a < j {
                        a
                    } else {
                        a - 1
                    };
                    let pb = if b < j {
                        b
                    } else {
                        b - 1
                    };
                    if a != j && b != j {
                        assert(moved[a] == places[pa] && moved[b] == places[pb]);
                    } else if a == j {
                        assert(moved[b] == places[pb]);
                    } else {
                        assert(moved[a] == places[pa]);
                    }
                }
                assert forall|k: int| 0 <= k < i + 1 implies 0 <= #[trigger] moved[k] < i + 1 by {
                    if k < j {
                        assert(moved[k] == places[k]);
                    } else if k > j {
                        assert(moved[k] == places[k - 1]);
                    }
                }
                assert forall|k: int| i + 1 <= k < moved.len() implies #[trigger] moved[k] == k by {
                    assert(moved[k] == places[k]);
                }
                places = moved;
            }
            i += 1;
        }
        proof {
            assert(is_sorted_by_priority(data_view(self.data@), unsorted));
            lemma_sorting_is_determined(
                data_view(self.data@),
                sorted_by_priority(unsorted),
                unsorted,
            );
        }
    }
}

/// A resource with its capabilities, as mathematics.
pub type EntryView = (ApiResourceView, ApiCapabilitiesView);

/// The resources of all versions, those of the first version first.
pub open spec fn all_resources(data: Seq<GroupVersionDataView>) -> Seq<EntryView>
    decreases data.len(),
{
    if data.len() == 0 {
        Seq::empty()
    } else {
        all_resources(data.drop_last()) + data.last().resources
    }
}

/// Whether entry `j` is to be preferred to entry `i`: its version has the
/// higher priority, or the same and `j` stands earlier.
pub open spec fn is_preferred(all: Seq<EntryView>, j: int, i: int) -> bool {
    ||| higher_priority(all[j].0.version, all[i].0.version)
    ||| !higher_priority(all[i].0.version, all[j].0.version) && j < i
}

/// Whether entry `i` stands for its kind: no entry of the same kind is to be
/// preferred to it.
pub open spec fn is_representative(all: Seq<EntryView>, i: int) -> bool {
    forall|j: int|
        0 <= j < all.len() && (#[trigger] all[j]).0.kind == all[i].0.kind ==> !is_preferred(all, j, i)
}

/// The representatives among the first `n` entries, in the order of the
/// entries.
pub open spec fn representatives_upto(all: Seq<EntryView>, n: nat) -> Seq<EntryView>
    decreases n,
{
    if n == 0 || n > all.len() {
        Seq::empty()
    } else if is_representative(all, n - 1) {
        representatives_upto(all, (n - 1) as nat).push(all[n - 1])
    } else {
        representatives_upto(all, (n - 1) as nat)
    }
}

/// The representative resources of a group: one for each kind, from the
/// version of the highest priority that has the kind.
pub open spec fn representatives(group: ApiGroupView) -> Seq<EntryView> {
    representatives_upto(all_resources(group.data), all_resources(group.data).len())
}

/// The entry that is to be preferred among those of the kind `kind` in the
/// first `n` entries; -1 if there is none of that kind.
pub open spec fn champion(all: Seq<EntryView>, kind: Seq<char>, n: nat) -> int
    decreases n,
{
    if n == 0 || n > all.len() {
        -1
    } else {
        let so_far = champion(all, kind, (n - 1) as nat);
        if all[n - 1].0.kind != kind {
            so_far
        } else if so_far < 0 || is_preferred(all, n - 1, so_far) {
            n - 1
        } else {
            so_far
        }
    }
}

/// The champion of a kind is of that kind, and no entry of the kind among
/// those looked at is to be preferred to it.
pub proof fn lemma_champion(all: Seq<EntryView>, kind: Seq<char>, n: nat)
    requires
        n <= all.len(),
    ensures
        -1 <= champion(all, kind, n) < n,
        champion(all, kind, n) >= 0 ==> all[champion(all, kind, n)].0.kind == kind,
        forall|j: int|
            0 <= j < n && (#[trigger] all[j]).0.kind == kind ==> champion(all, kind, n) >= 0
                && !is_preferred(all, j, champion(all, kind, n)),
    decreases n,
{
    if n > 0 {
        let so_far = champion(all, kind, (n - 1) as nat);
        let best = champion(all, kind, n);
        lemma_champion(all, kind, (n - 1) as nat);
        assert forall|j: int| 0 <= j < n && (#[trigger] all[j]).0.kind == kind implies best >= 0
            && !is_preferred(all, j, best) by {
            lemma_priority_is_an_order(all[j].0.version, all[best].0.version, all[j].0.version);
            if j < n - 1 {
                lemma_priority_is_an_order(
                    all[j].0.version,
                    all[so_far].0.version,
                    all[best].0.version,
                );
                lemma_priority_is_an_order(
                    all[best].0.version,
                    all[so_far].0.version,
                    all[j].0.version,
                );
                lemma_priority_is_an_order(
                    all[so_far].0.version,
                    all[best].0.version,
                    all[j].0.version,
                );
                lemma_priority_is_an_order(
                    all[j].0.version,
                    all[best].0.version,
                    all[so_far].0.version,
                );
                lemma_priority_is_an_order(
                    all[best].0.version,
                    all[j].0.version,
                    all[so_far].0.version,
                );
                lemma_priority_is_an_order(
                    all[so_far].0.version,
                    all[j].0.version,
                    all[best].0.version,
                );
            }
        }
    }
}

/// Every kind of a group has exactly one representative: an entry of each
/// kind that occurs is a representative, and two representatives of one kind
/// are the same entry.
pub proof fn lemma_one_representative_per_kind(all: Seq<EntryView>, i: int, k: int)
    requires
        0 <= i < all.len(),
        0 <= k < all.len(),
    ensures
        exists|r: int|
            0 <= r < all.len() && (#[trigger] all[r]).0.kind == all[i].0.kind && is_representative(
                all,
                r,
            ),
        is_representative(all, i) && is_representative(all, k) && all[i].0.kind == all[k].0.kind
            ==> i == k,
{
    let kind = all[i].0.kind;
    lemma_champion(all, kind, all.len());
    let r = champion(all, kind, all.len());
    assert(all[i].0.kind == kind);
    assert(all[r].0.kind == all[i].0.kind && is_representative(all, r));
    if is_representative(all, i) && is_representative(all, k) && all[i].0.kind == all[k].0.kind {
        assert(!is_preferred(all, i, k));
        assert(!is_preferred(all, k, i));
    }
}

/// The representatives are entries that stand for their kind, each of them
/// once.
pub proof fn lemma_representatives(all: Seq<EntryView>, n: nat)
    requires
        n <= all.len(),
    ensures
        forall|e: EntryView| #[trigger]
            representatives_upto(all, n).contains(e) <==> exists|r: int|
                0 <= r < n && is_representative(all, r) && #[trigger] all[r] == e,
    decreases n,
{
    let reps = representatives_upto(all, n);
    if n > 0 {
        let before = representatives_upto(all, (n - 1) as nat);
        lemma_representatives(all, (n - 1) as nat);
        assert forall|e: EntryView| #[trigger]
            reps.contains(e) <==> exists|r: int|
                0 <= r < n && is_representative(all, r) && #[trigger] all[r] == e by {
            if reps.contains(e) {
                let at = choose|at: int| 0 <= at < reps.len() && reps[at] == e;
                if is_representative(all, n - 1) && at == reps.len() - 1 {
                    assert(all[n - 1] == e);
                } else {
                    assert(before[at] == e);
                    assert(before.contains(e));
                    let r = choose|r: int|
                        0 <= r < n - 1 && is_representative(all, r) && #[trigger] all[r] == e;
                    assert(all[r] == e);
                }
            }
            if exists|r: int| 0 <= r < n && is_representative(all, r) && #[trigger] all[r] == e {
                let r = choose|r: int| 0 <= r < n && is_representative(all, r) && #[trigger] all[r] == e;
                if r == n - 1 {
                    assert(reps[reps.len() - 1] == e);
                } else {
                    assert(all[r] == e);
                    assert(before.contains(e));
                    let at = choose|at: int| 0 <= at < before.len() && before[at] == e;
                    assert(reps[at] == e);
                }
            }
        }
    }
}

/// A stable version is preferred to a pre-release: where a kind has an entry
/// with a stable version, an entry of that kind whose version is not stable
/// does not stand for it.
pub proof fn lemma_stable_is_preferred(all: Seq<EntryView>, stable: int, other: int)
    requires
        0 <= stable < all.len(),
        0 <= other < all.len(),
        all[stable].0.kind == all[other].0.kind,
        parsed_version(all[stable].0.version) is Stable,
        !(parsed_version(all[other].0.version) is Stable),
    ensures
        !is_representative(all, other),
{
    lemma_stable_comes_first(all[stable].0.version, all[other].0.version);
    assert(is_preferred(all, stable, other));
}

/// The representative of a kind that has a stable version is stable: where
/// some resource of a group has a stable version, the representative resource
/// of its kind has one too.
pub proof fn lemma_representatives_prefer_stable(group: ApiGroupView, stable: int, chosen: EntryView)
    requires
        0 <= stable < all_resources(group.data).len(),
        parsed_version(all_resources(group.data)[stable].0.version) is Stable,
        representatives(group).contains(chosen),
        chosen.0.kind == all_resources(group.data)[stable].0.kind,
    ensures
        parsed_version(chosen.0.version) is Stable,
{
    let all = all_resources(group.data);
    lemma_representatives(all, all.len());
    let r = choose|r: int| 0 <= r < all.len() && is_representative(all, r) && #[trigger] all[r] == chosen;
    if !(parsed_version(chosen.0.version) is Stable) {
        lemma_stable_is_preferred(all, stable, r);
    }
}

/// Something that can say which of its resources stand for their kinds.
pub trait AllResource {
    /// The representative resources.
    spec fn recommended(&self) -> Seq<EntryView>;

    fn recommended_resources(&self) -> (r: Vec<(ApiResource, ApiCapabilities)>)
        ensures
            entries_view(r@) == self.recommended(),
    ;
}

impl ApiGroup {
    /// The resources of all versions of the group, those of the most
    /// preferred version first.
    pub fn resources(&self) -> (r: Vec<(ApiResource, ApiCapabilities)>)
        ensures
            entries_view(r@) == all_resources(self@.data),
    {
        let mut r: Vec<(ApiResource, ApiCapabilities)> = Vec::new();
        let mut i: usize = 0;
        while i < self.data.len()
            invariant
                i <= self.data.len(),
                entries_view(r@) == all_resources(self@.data.take(i as int)),
            decreases self.data.len() - i,
        {
            let version_data = &self.data[i];
            let ghost before = entries_view(r@);
            let mut k: usize = 0;
            while k < version_data.resources.len()
                invariant
                    k <= version_data.resources.len(),
                    entries_view(r@) == before + entries_view(version_data.resources@).take(k as int),
                decreases version_data.resources.len() - k,
            {
                let entry = &version_data.resources[k];
                let ghost so_far = entries_view(r@);
                r.push((entry.0.duplicate(), entry.1.duplicate()));
                assert(entries_view(r@) =~= so_far.push((entry.0@, entry.1@)));
                assert(entries_view(r@) =~= before + entries_view(version_data.resources@).take(
                    k + 1,
                ));
                k += 1;
            }
            assert(entries_view(version_data.resources@).take(k as int) =~= version_data@.resources);
            assert(self@.data.take(i + 1).drop_last() =~= self@.data.take(i as int));
            assert(self@.data.take(i + 1).last() == version_data@);
            i += 1;
        }
        assert(self@.data.take(i as int) =~= self@.data);
        r
    }
}

impl AllResource for ApiGroup {
    open spec fn recommended(&self) -> Seq<EntryView> {
        representatives(self@)
    }

    /// One resource for each kind of the group: of the entries of a kind the
    /// one whose version has the highest priority, and of several such the
    /// first. The result is in the order in which these stand in the group.
    fn recommended_resources(&self) -> (r: Vec<(ApiResource, ApiCapabilities)>) {
        let all = self.resources();
        let ghost all_view = entries_view(all@);
        let mut r: Vec<(ApiResource, ApiCapabilities)> = Vec::new();
        let mut i: usize = 0;
        while i < all.len()
            invariant
                i <= all.len(),
                all_view == entries_view(all@),
                entries_view(r@) == representatives_upto(all_view, i as nat),
            decreases all.len() - i,
        {
            let mut best = true;
            let mut j: usize = 0;
            while j < all.len() && best
                invariant
                    j <= all.len(),
                    i < all.len(),
                    all_view == entries_view(all@),
                    best ==> forall|k: int|
                        0 <= k < j && (#[trigger] all_view[k]).0.kind == all_view[i as int].0.kind
                            ==> !is_preferred(all_view, k, i as int),
                    !best ==> !is_representative(all_view, i as int),
                decreases all.len() - j + if best { 1int } else { 0int },
            {
                if all[j].0.kind == all[i].0.kind {
                    let higher = has_higher_priority(
                        all[j].0.version.as_str(),
                        all[i].0.version.as_str(),
                    );
                    let preferred = higher || (j < i && !has_higher_priority(
                        all[i].0.version.as_str(),
                        all[j].0.version.as_str(),
                    ));
                    if preferred {
                        assert(all_view[j as int].0.kind == all_view[i as int].0.kind);
                        assert(is_preferred(all_view, j as int, i as int));
                        best = false;
                    }
                }
                if best {
                    j += 1;
                }
            }
            if best {
                let ghost so_far = entries_view(r@);
                r.push((all[i].0.duplicate(), all[i].1.duplicate()));
                assert(entries_view(r@) =~= so_far.push(all_view[i as int]));
            }
            i += 1;
        }
        r
    }
}

/// One version of a group, as discovery names it.
#[derive(Debug)]
pub struct DiscoveredVersion {
    /// The group and the version, as the resource lists are asked for.
    pub group_version: String,
    pub version: String,
}

/// One group, as discovery reports it.
#[derive(Debug)]
pub struct DiscoveredGroup {
    pub name: String,
    pub versions: Vec<DiscoveredVersion>,
    pub preferred_version: Option<DiscoveredVersion>,
}

/// The names of the versions of a group.
pub open spec fn version_names(versions: Seq<DiscoveredVersion>) -> Seq<Seq<char>> {
    versions.map_values(|v: DiscoveredVersion| v.version@)
}

/// The views of resource lists.
pub open spec fn lists_view(lists: Seq<DiscoveredResourceList>) -> Seq<DiscoveredResourceListView> {
    lists.map_values(|l: DiscoveredResourceList| l@)
}

/// What the catalog keeps of the resource lists of a group, one list for each
/// version, before the versions are put in order.
pub open spec fn collected(versions: Seq<Seq<char>>, lists: Seq<DiscoveredResourceListView>) -> Seq<
    GroupVersionDataView,
> {
    Seq::new(
        versions.len(),
        |i: int|
            GroupVersionDataView {
                version: versions[i],
                resources: resources_upto(lists[i], lists[i].resources.len()),
            },
    )
}

/// The group that is built from a name, a preferred version, the names of
/// the versions and their resource lists: it keeps what the lists hold for
/// each version, the versions by priority.
pub open spec fn built_group(
    name: Seq<char>,
    preferred: Option<Seq<char>>,
    versions: Seq<Seq<char>>,
    lists: Seq<DiscoveredResourceListView>,
) -> ApiGroupView {
    ApiGroupView { name, preferred, data: sorted_by_priority(collected(versions, lists)) }
}

/// What a group is built from, and whether it can be built.
pub open spec fn collecting_fails(versions: nat, lists: nat) -> Option<DiscoveryError> {
    if versions == 0 {
        Some(DiscoveryError::EmptyGroupVersions)
    } else if lists != versions {
        Some(DiscoveryError::MissingResourceList)
    } else {
        None
    }
}

/// The group that is built from what discovery reports as `g` and from the
/// resource lists of its versions.
pub open spec fn group_of(g: DiscoveredGroup, lists: Seq<DiscoveredResourceListView>) -> ApiGroupView {
    built_group(
        g.name@,
        match g.preferred_version {
            Some(v) => Some(v.version@),
            None => None,
        },
        version_names(g.versions@),
        lists,
    )
}

/// The core group that is built from its versions and their resource lists:
/// it has no name and prefers `v1`.
pub open spec fn core_group_of(
    versions: Seq<Seq<char>>,
    lists: Seq<DiscoveredResourceListView>,
) -> ApiGroupView {
    built_group(Seq::empty(), Some("v1"@), versions, lists)
}

fn collect(versions: &Vec<String>, lists: &Vec<DiscoveredResourceList>) -> (r: Result<
    Vec<GroupVersionData>,
    DiscoveryError,
>)
    ensures
        match collecting_fails(versions.len() as nat, lists.len() as nat) {
            Some(e) => r is Err && r->Err_0 == e,
            None => r is Ok && data_view(r->Ok_0@) == collected(texts(versions@), lists_view(lists@)),
        },
{
    if versions.len() == 0 {
        return Err(DiscoveryError::EmptyGroupVersions);
    }
    if lists.len() != versions.len() {
        return Err(DiscoveryError::MissingResourceList);
    }
    let mut data: Vec<GroupVersionData> = Vec::new();
    let mut i: usize = 0;
    while i < versions.len()
        invariant
            i <= versions.len(),
            lists.len() == versions.len(),
            data.len() == i,
            forall|k: int|
                0 <= k < i ==> (#[trigger] data[k])@ == collected(
                    texts(versions@),
                    lists_view(lists@),
                )[k],
        decreases versions.len() - i,
    {
        let version_data = match GroupVersionData::new(versions[i].clone(), &lists[i]) {
            Ok(version_data) => version_data,
            Err(e) => {
                return Err(e);
            },
        };
        data.push(version_data);
        i += 1;
    }
    assert(data_view(data@) =~= collected(texts(versions@), lists_view(lists@)));
    Ok(data)
}

impl ApiGroup {
    /// The core group, which has no name.
    pub const CORE_GROUP: &'static str = "";

    /// Builds a group from what discovery reports of it and from the resource
    /// lists of its versions, one list for each version and in their order.
    /// A group without versions is an error.
    pub fn query_apis(g: &DiscoveredGroup, lists: &Vec<DiscoveredResourceList>) -> (r: Result<
        Self,
        DiscoveryError,
    >)
        ensures
            match collecting_fails(g.versions.len() as nat, lists.len() as nat) {
                Some(e) => r is Err && r->Err_0 == e,
                None => r is Ok && r->Ok_0@ == group_of(*g, lists_view(lists@)),
            },
    {
        let mut versions: Vec<String> = Vec::new();
        let mut i: usize = 0;
        while i < g.versions.len()
            invariant
                i <= g.versions.len(),
                versions.len() == i,
                forall|k: int| 0 <= k < i ==> (#[trigger] versions[k])@ == g.versions[k].version@,
            decreases g.versions.len() - i,
        {
            versions.push(g.versions[i].version.clone());
            i += 1;
        }
        assert(texts(versions@) =~= version_names(g.versions@));
        let data = match collect(&versions, lists) {
            Ok(data) => data,
            Err(e) => {
                return Err(e);
            },
        };
        let preferred = match &g.preferred_version {
            Some(v) => Some(v.version.clone()),
            None => None,
        };
        let mut group = ApiGroup { name: g.name.clone(), data, preferred };
        group.sort_versions();
        Ok(group)
    }

    /// Builds the core group from its versions and from their resource
    /// lists, one list for each version and in their order. The core group
    /// prefers `v1`.
    pub fn query_core(coreapis: &Vec<String>, lists: &Vec<DiscoveredResourceList>) -> (r: Result<
        Self,
        DiscoveryError,
    >)
        ensures
            match collecting_fails(coreapis.len() as nat, lists.len() as nat) {
                Some(e) => r is Err && r->Err_0 == e,
                None => r is Ok && r->Ok_0@ == core_group_of(texts(coreapis@), lists_view(lists@)),
            },
    {
        let data = match collect(coreapis, lists) {
            Ok(data) => data,
            Err(e) => {
                return Err(e);
            },
        };
        let mut group = ApiGroup {
            name: String::new(),
            data,
            preferred: Some("v1".to_owned()),
        };
        group.sort_versions();
        Ok(group)
    }
}

} // verus!
