//! The catalog of the API groups of a cluster, and the resolution of what a
//! user typed to one resource of it.

use vstd::prelude::*;
use vstd::string::*;
use crate::apigroup::{collecting_fails, core_group_of, entries_view, group_of, lists_view,
    representatives, texts, AllResource, ApiCapabilities, ApiGroup, ApiGroupView, ApiResource,
    DiscoveredGroup, DiscoveredResourceList, DiscoveryError, EntryView, Scope};
use crate::text::{eq_ignore_ascii_case, eq_ignoring_ascii_case};
use crate::version::{lemma_text_less_irreflexive, lemma_text_less_total,
    lemma_text_less_transitive, str_less, text_less};

verus! {

/// Which groups discovery asks about.
#[derive(Debug)]
pub enum DiscoveryMode {
    /// Only the groups listed.
    Allow(Vec<String>),
    /// All groups but the ones listed.
    Block(Vec<String>),
}

/// Whether `mode` lets discovery ask about the group called `group`.
pub open spec fn queryable(mode: DiscoveryMode, group: Seq<char>) -> bool {
    match mode {
        DiscoveryMode::Allow(allowed) => texts(allowed@).contains(group),
        DiscoveryMode::Block(blocked) => !texts(blocked@).contains(group),
    }
}

fn holds(list: &Vec<String>, wanted: &String) -> (r: bool)
    ensures
        r == texts(list@).contains(wanted@),
{
    let mut i: usize = 0;
    while i < list.len()
        invariant
            i <= list.len(),
            forall|k: int| 0 <= k < i ==> (#[trigger] texts(list@)[k]) != wanted@,
        decreases list.len() - i,
    {
        if list[i] == *wanted {
            assert(texts(list@)[i as int] == wanted@);
            return true;
        }
        i += 1;
    }
    false
}

impl DiscoveryMode {
    pub fn is_queryable(&self, group: &String) -> (r: bool)
        ensures
            r == queryable(*self, group@),
    {
        match self {
            DiscoveryMode::Allow(allowed) => holds(allowed, group),
            DiscoveryMode::Block(blocked) => !holds(blocked, group),
        }
    }
}

/// The catalog: the groups of a cluster, each under its name.
pub struct Discovery {
    groups: Vec<ApiGroup>,
    mode: DiscoveryMode,
}

/// One group that discovery reported, with the resource lists of its
/// versions, one for each version and in their order.
#[derive(Debug)]
pub struct FetchedGroup {
    pub group: DiscoveredGroup,
    pub lists: Vec<DiscoveredResourceList>,
}

/// The versions of the core group, with their resource lists, one for each
/// version and in their order.
#[derive(Debug)]
pub struct FetchedCore {
    pub versions: Vec<String>,
    pub lists: Vec<DiscoveredResourceList>,
}

/// The catalog after one group was taken in: unchanged for a group that the
/// mode leaves out; else with the group that was built under its name, in
/// place of a group of that name; an error if it cannot be built.
pub open spec fn with_group(
    mode: DiscoveryMode,
    catalog: Map<Seq<char>, ApiGroupView>,
    fetched: FetchedGroup,
) -> Result<Map<Seq<char>, ApiGroupView>, DiscoveryError> {
    if !queryable(mode, fetched.group.name@) {
        Ok(catalog)
    } else {
        match collecting_fails(fetched.group.versions.len() as nat, fetched.lists.len() as nat) {
            Some(e) => Err(e),
            None => Ok(
                catalog.insert(fetched.group.name@, group_of(fetched.group, lists_view(fetched.lists@))),
            ),
        }
    }
}

/// The catalog after the core group was taken in.
pub open spec fn with_core(
    mode: DiscoveryMode,
    catalog: Map<Seq<char>, ApiGroupView>,
    fetched: FetchedCore,
) -> Result<Map<Seq<char>, ApiGroupView>, DiscoveryError> {
    if !queryable(mode, Seq::empty()) {
        Ok(catalog)
    } else {
        match collecting_fails(fetched.versions.len() as nat, fetched.lists.len() as nat) {
            Some(e) => Err(e),
            None => Ok(
                catalog.insert(
                    Seq::empty(),
                    core_group_of(texts(fetched.versions@), lists_view(fetched.lists@)),
                ),
            ),
        }
    }
}

/// The catalog after the groups of `fetched` were taken in, one after the
/// other; the error of the first that cannot be built.
pub open spec fn with_groups(
    mode: DiscoveryMode,
    catalog: Map<Seq<char>, ApiGroupView>,
    fetched: Seq<FetchedGroup>,
) -> Result<Map<Seq<char>, ApiGroupView>, DiscoveryError>
    decreases fetched.len(),
{
    if fetched.len() == 0 {
        Ok(catalog)
    } else {
        match with_groups(mode, catalog, fetched.drop_last()) {
            Ok(before) => with_group(mode, before, fetched.last()),
            Err(e) => Err(e),
        }
    }
}

/// The catalog that is built from everything that discovery reported: the
/// named groups first, then the core group if it was asked for.
pub open spec fn discovered(
    mode: DiscoveryMode,
    fetched: Seq<FetchedGroup>,
    core: Option<FetchedCore>,
) -> Result<Map<Seq<char>, ApiGroupView>, DiscoveryError> {
    match with_groups(mode, Map::empty(), fetched) {
        Ok(named) => match core {
            Some(c) => with_core(mode, named, c),
            None => Ok(named),
        },
        Err(e) => Err(e),
    }
}

impl Discovery {
    spec fn slot_of(&self, name: Seq<char>) -> int {
        choose|i: int| 0 <= i < self.groups.len() && (#[trigger] self.groups[i])@.name == name
    }

    spec fn knows(&self, name: Seq<char>) -> bool {
        exists|i: int| 0 <= i < self.groups.len() && (#[trigger] self.groups[i])@.name == name
    }

    /// What holds of every catalog that was made by `new` and filled through
    /// its own methods: no two of its groups have the same name.
    pub closed spec fn well_formed(&self) -> bool {
        forall|i: int, j: int|
            0 <= i < j < self.groups.len() ==> (#[trigger] self.groups[i])@.name != (
            #[trigger] self.groups[j])@.name
    }

    /// The groups of the catalog, by name.
    pub closed spec fn catalog(&self) -> Map<Seq<char>, ApiGroupView> {
        Map::new(|name: Seq<char>| self.knows(name), |name: Seq<char>| self.groups[self.slot_of(name)]@)
    }

    /// Which groups this catalog asks about.
    pub closed spec fn mode(&self) -> DiscoveryMode {
        self.mode
    }

    /// An empty catalog that asks about every group.
    #[must_use]
    pub fn new() -> (d: Self)
        ensures
            d.well_formed(),
            d.catalog() == Map::<Seq<char>, ApiGroupView>::empty(),
            forall|group: Seq<char>| queryable(d.mode(), group),
    {
        let d = Discovery { groups: Vec::new(), mode: DiscoveryMode::Block(Vec::new()) };
        assert(d.catalog() =~= Map::<Seq<char>, ApiGroupView>::empty());
        assert forall|group: Seq<char>| queryable(d.mode(), group) by {
            assert(texts(Seq::<String>::empty()) =~= Seq::<Seq<char>>::empty());
        }
        d
    }

    /// All groups of the catalog, each once.
    pub fn groups(&self) -> (r: &Vec<ApiGroup>)
        requires
            self.well_formed(),
        ensures
            forall|i: int|
                0 <= i < r.len() ==> self.catalog().contains_key((#[trigger] r[i])@.name)
                    && self.catalog()[r[i]@.name] == r[i]@,
            forall|name: Seq<char>|
                self.catalog().contains_key(name) ==> exists|i: int|
                    0 <= i < r.len() && (#[trigger] r[i])@.name == name,
            forall|i: int, j: int|
                0 <= i < j < r.len() ==> (#[trigger] r[i])@.name != (#[trigger] r[j])@.name,
    {
        assert forall|i: int| 0 <= i < self.groups.len() implies self.catalog().contains_key(
            (#[trigger] self.groups[i])@.name,
        ) && self.catalog()[self.groups[i]@.name] == self.groups[i]@ by {
            assert(self.knows(self.groups[i]@.name));
        }
        &self.groups
    }

    /// Whether discovery asks about the group called `group`.
    pub fn is_queryable(&self, group: &String) -> (r: bool)
        ensures
            r == queryable(self.mode(), group@),
    {
        self.mode.is_queryable(group)
    }

    /// Forgets every group.
    pub fn clear(&mut self)
        ensures
            final(self).well_formed(),
            final(self).mode() == old(self).mode(),
            final(self).catalog() == Map::<Seq<char>, ApiGroupView>::empty(),
    {
        self.groups.clear();
        assert(self.catalog() =~= Map::<Seq<char>, ApiGroupView>::empty());
    }

    /// Files `group` under its name, in place of a group of that name.
    fn insert(&mut self, group: ApiGroup)
        requires
            old(self).well_formed(),
        ensures
            final(self).well_formed(),
            final(self).mode() == old(self).mode(),
            final(self).catalog() == old(self).catalog().insert(group@.name, group@),
    {
        let ghost before = *self;
        let ghost name = group@.name;
        let ghost view = group@;
        let mut i: usize = 0;
        while i < self.groups.len() && self.groups[i].name != group.name
            invariant
                i <= self.groups.len(),
                forall|k: int| 0 <= k < i ==> (#[trigger] self.groups[k])@.name != group@.name,
            decreases self.groups.len() - i,
        {
            i += 1;
        }
        if i < self.groups.len() {
            assert(before.groups[i as int]@.name == name);
            self.groups.set(i, group);
            assert(self.groups[i as int]@.name == name);
            assert forall|a: int, b: int| 0 <= a < b < self.groups.len() implies (
            #[trigger] self.groups[a])@.name != (#[trigger] self.groups[b])@.name by {
                assert(before.groups[a]@.name == self.groups[a]@.name);
                assert(before.groups[b]@.name == self.groups[b]@.name);
            }
            assert(self.knows(name));
            assert(self.slot_of(name) == i);
            assert forall|n: Seq<char>| self.knows(n) == before.knows(n) by {
                if before.knows(n) {
                    assert(self.groups[before.slot_of(n)]@.name == n);
                }
                if self.knows(n) {
                    assert(before.groups[self.slot_of(n)]@.name == n);
                }
            }
            assert forall|n: Seq<char>| before.knows(n) implies self.slot_of(n) == before.slot_of(
                n,
            ) by {
                assert(self.groups[before.slot_of(n)]@.name == n);
            }
            assert forall|n: Seq<char>| before.knows(n) && n != name implies self.groups[self.slot_of(
                n,
            )]@ == before.groups[before.slot_of(n)]@ by {
                assert(before.slot_of(n) != i);
            }
            assert(self.catalog() =~= before.catalog().insert(name, view));
        } else {
            self.groups.push(group);
            let ghost last = self.groups.len() - 1;
            assert(self.groups[last]@.name == name);
            assert forall|n: Seq<char>| self.knows(n) == (before.knows(n) || n == name) by {
                if before.knows(n) {
                    assert(self.groups[before.slot_of(n)]@.name == n);
                }
            }
            assert forall|n: Seq<char>| before.knows(n) implies self.slot_of(n) == before.slot_of(
                n,
            ) by {
                assert(self.groups[before.slot_of(n)]@.name == n);
            }
            assert(self.slot_of(name) == last);
            assert(self.catalog() =~= before.catalog().insert(name, view));
        }
    }

    /// Takes in one group that discovery reported. A group that the mode
    /// leaves out is passed over. A group that cannot be built is an error, and
    /// leaves the catalog as it was.
    pub fn add_group(&mut self, fetched: &FetchedGroup) -> (r: Result<(), DiscoveryError>)
        requires
            old(self).well_formed(),
        ensures
            final(self).well_formed(),
            final(self).mode() == old(self).mode(),
            match with_group(old(self).mode(), old(self).catalog(), *fetched) {
                Ok(catalog) => r is Ok && final(self).catalog() == catalog,
                Err(e) => r is Err && r->Err_0 == e && final(self).catalog() == old(self).catalog(),
            },
    {
        if !self.mode.is_queryable(&fetched.group.name) {
            return Ok(());
        }
        let group = match ApiGroup::query_apis(&fetched.group, &fetched.lists) {
            Ok(group) => group,
            Err(e) => {
                return Err(e);
            },
        };
        self.insert(group);
        Ok(())
    }

    /// Takes in the core group, unless the mode leaves it out.
    pub fn add_core(&mut self, fetched: &FetchedCore) -> (r: Result<(), DiscoveryError>)
        requires
            old(self).well_formed(),
        ensures
            final(self).well_formed(),
            final(self).mode() == old(self).mode(),
            match with_core(old(self).mode(), old(self).catalog(), *fetched) {
                Ok(catalog) => r is Ok && final(self).catalog() == catalog,
                Err(e) => r is Err && r->Err_0 == e && final(self).catalog() == old(self).catalog(),
            },
    {
        let corekey = String::new();
        if !self.mode.is_queryable(&corekey) {
            return Ok(());
        }
        let group = match ApiGroup::query_core(&fetched.versions, &fetched.lists) {
            Ok(group) => group,
            Err(e) => {
                return Err(e);
            },
        };
        self.insert(group);
        Ok(())
    }

    /// Builds the catalog anew from everything that discovery reported: the
    /// named groups, then the core group. What the catalog held before is
    /// forgotten. The first group that cannot be built is an error.
    pub fn run(self, fetched: &Vec<FetchedGroup>, core: &Option<FetchedCore>) -> (r: Result<
        Self,
        DiscoveryError,
    >)
        ensures
            match discovered(self.mode(), fetched@, *core) {
                Ok(catalog) => {
                    &&& r is Ok
                    &&& r->Ok_0.well_formed()
                    &&& r->Ok_0.mode() == self.mode()
                    &&& r->Ok_0.catalog() == catalog
                },
                Err(e) => r is Err && r->Err_0 == e,
            },
    {
        let ghost mode = self.mode();
        let mut discovery = self;
        discovery.clear();
        let mut i: usize = 0;
        while i < fetched.len()
            invariant
                i <= fetched.len(),
                mode == self.mode(),
                discovery.well_formed(),
                discovery.mode() == mode,
                with_groups(mode, Map::empty(), fetched@.take(i as int)) == Ok::<
                    Map<Seq<char>, ApiGroupView>,
                    DiscoveryError,
                >(discovery.catalog()),
            decreases fetched.len() - i,
        {
            assert(fetched@.take(i + 1).drop_last() =~= fetched@.take(i as int));
            assert(fetched@.take(i + 1).last() == fetched@[i as int]);
            let ghost before = discovery.catalog();
            match discovery.add_group(&fetched[i]) {
                Ok(()) => {},
                Err(e) => {
                    proof {
                        assert(with_group(mode, before, fetched@[i as int]) == Err::<
                            Map<Seq<char>, ApiGroupView>,
                            DiscoveryError,
                        >(e));
                        assert(with_groups(mode, Map::empty(), fetched@.take(i + 1)) == Err::<
                            Map<Seq<char>, ApiGroupView>,
                            DiscoveryError,
                        >(e));
                        lemma_failure_stays(mode, fetched@, i + 1);
                    }
                    return Err(e);
                },
            }
            i += 1;
        }
        assert(fetched@.take(i as int) =~= fetched@);
        if let Some(c) = core {
            match discovery.add_core(c) {
                Ok(()) => {},
                Err(e) => {
                    return Err(e);
                },
            }
        }
        Ok(discovery)
    }
}

/// Once a group cannot be built, nothing that follows mends it.
proof fn lemma_failure_stays(mode: DiscoveryMode, fetched: Seq<FetchedGroup>, n: int)
    requires
        0 <= n <= fetched.len(),
        with_groups(mode, Map::empty(), fetched.take(n)) is Err,
    ensures
        with_groups(mode, Map::empty(), fetched) == with_groups(mode, Map::empty(), fetched.take(n)),
    decreases fetched.len() - n,
{
    if n < fetched.len() {
        assert(fetched.take(n + 1).drop_last() =~= fetched.take(n));
        lemma_failure_stays(mode, fetched, n + 1);
    } else {
        assert(fetched.take(n) =~= fetched);
    }
}

/// Whether `token` is one of `names`, the case of ASCII letters ignored.
pub open spec fn is_one_of(names: Seq<Seq<char>>, token: Seq<char>) -> bool {
    exists|k: int| 0 <= k < names.len() && eq_ignoring_ascii_case(token, #[trigger] names[k])
}

/// Whether `token` names the resource of `entry`: it is its kind, its plural
/// name or one of its short names, the case of ASCII letters ignored.
pub open spec fn matches_token(entry: EntryView, token: Seq<char>) -> bool {
    ||| eq_ignoring_ascii_case(token, entry.0.kind)
    ||| eq_ignoring_ascii_case(token, entry.0.plural)
    ||| match entry.0.short_names {
        Some(names) => is_one_of(names, token),
        None => false,
    }
}

/// Where the first entry that `token` names stands in `entries`; their number
/// if it names none.
pub open spec fn first_match(entries: Seq<EntryView>, token: Seq<char>) -> int
    decreases entries.len(),
{
    if entries.len() == 0 {
        0
    } else if matches_token(entries[0], token) {
        0
    } else {
        1 + first_match(entries.drop_first(), token)
    }
}

/// `first_match` is the first position that `token` names, or the length.
pub proof fn lemma_first_match(entries: Seq<EntryView>, token: Seq<char>)
    ensures
        0 <= first_match(entries, token) <= entries.len(),
        first_match(entries, token) < entries.len() ==> matches_token(
            entries[first_match(entries, token)],
            token,
        ),
        forall|j: int|
            0 <= j < first_match(entries, token) ==> !matches_token(#[trigger] entries[j], token),
    decreases entries.len(),
{
    if entries.len() > 0 && !matches_token(entries[0], token) {
        let rest = entries.drop_first();
        lemma_first_match(rest, token);
        assert forall|j: int| 0 <= j < first_match(entries, token) implies !matches_token(
            #[trigger] entries[j],
            token,
        ) by {
            if j > 0 {
                assert(rest[j - 1] == entries[j]);
            }
        }
    }
}

/// Whether `token` names one of the representative resources of `group`.
pub open spec fn group_matches(group: ApiGroupView, token: Seq<char>) -> bool {
    first_match(representatives(group), token) < representatives(group).len()
}

/// Whether the group called `name` is the one that `token` resolves in: the
/// token names one of its representative resources, and does so in no group
/// whose name comes before `name` in the order of texts.
pub open spec fn is_best_group(
    catalog: Map<Seq<char>, ApiGroupView>,
    name: Seq<char>,
    token: Seq<char>,
) -> bool {
    &&& catalog.contains_key(name)
    &&& group_matches(catalog[name], token)
    &&& forall|other: Seq<char>|
        #[trigger] catalog.contains_key(other) && group_matches(catalog[other], token)
            ==> !text_less(other, name)
}

/// What `token` resolves to in `catalog`: of the groups in which it names a
/// representative resource the one whose name comes first in the order of
/// texts, where the core group, which has no name, comes before all others;
/// and in that group the first representative resource that it names.
pub open spec fn resolved(catalog: Map<Seq<char>, ApiGroupView>, token: Seq<char>) -> Option<
    EntryView,
> {
    if exists|name: Seq<char>| is_best_group(catalog, name, token) {
        let name = choose|name: Seq<char>| is_best_group(catalog, name, token);
        let entries = representatives(catalog[name]);
        Some(entries[first_match(entries, token)])
    } else {
        None
    }
}

/// A token resolves in one group at most.
pub proof fn lemma_best_group_is_unique(
    catalog: Map<Seq<char>, ApiGroupView>,
    a: Seq<char>,
    b: Seq<char>,
    token: Seq<char>,
)
    requires
        is_best_group(catalog, a, token),
        is_best_group(catalog, b, token),
    ensures
        a == b,
{
    lemma_text_less_total(a, b);
}

/// Resolution is determined by the catalog and the token: catalogs that hold
/// the same groups under the same names resolve a token to the same resource,
/// in whatever order the groups came in.
pub proof fn lemma_resolution_is_determined(a: &Discovery, b: &Discovery, token: Seq<char>)
    requires
        a.catalog() =~= b.catalog(),
    ensures
        resolved(a.catalog(), token) == resolved(b.catalog(), token),
{
}

/// The core group comes first: a token that names a representative resource
/// of the core group resolves there, whatever other groups it names one in.
pub proof fn lemma_core_group_comes_first(catalog: Map<Seq<char>, ApiGroupView>, token: Seq<char>)
    requires
        catalog.contains_key(Seq::<char>::empty()),
        group_matches(catalog[Seq::<char>::empty()], token),
    ensures
        is_best_group(catalog, Seq::<char>::empty(), token),
        resolved(catalog, token) == Some(
            representatives(catalog[Seq::<char>::empty()])[first_match(
                representatives(catalog[Seq::<char>::empty()]),
                token,
            )],
        ),
{
    let core = Seq::<char>::empty();
    assert(is_best_group(catalog, core, token));
    let name = choose|name: Seq<char>| is_best_group(catalog, name, token);
    lemma_best_group_is_unique(catalog, name, core, token);
}

/// What a token resolves to is a representative resource that it names.
pub proof fn lemma_resolved_matches(catalog: Map<Seq<char>, ApiGroupView>, token: Seq<char>)
    ensures
        resolved(catalog, token) matches Some(entry) ==> matches_token(entry, token) && exists|
            name: Seq<char>,
        |
            #[trigger] catalog.contains_key(name) && representatives(catalog[name]).contains(entry),
{
    if exists|name: Seq<char>| is_best_group(catalog, name, token) {
        let name = choose|name: Seq<char>| is_best_group(catalog, name, token);
        let entries = representatives(catalog[name]);
        lemma_first_match(entries, token);
        assert(catalog.contains_key(name) && entries.contains(entries[first_match(entries, token)]));
    }
}

fn is_match(entry: &(ApiResource, ApiCapabilities), name: &str) -> (r: bool)
    ensures
        r == matches_token((entry.0@, entry.1@), name@),
{
    if eq_ignore_ascii_case(name, entry.0.kind.as_str()) {
        return true;
    }
    if eq_ignore_ascii_case(name, entry.0.plural.as_str()) {
        return true;
    }
    match &entry.0.short_names {
        Some(short_names) => {
            let mut k: usize = 0;
            while k < short_names.len()
                invariant
                    k <= short_names.len(),
                    entry.0@.short_names == Some(texts(short_names@)),
                    !eq_ignoring_ascii_case(name@, entry.0@.kind),
                    !eq_ignoring_ascii_case(name@, entry.0@.plural),
                    forall|j: int|
                        0 <= j < k ==> !eq_ignoring_ascii_case(
                            name@,
                            #[trigger] texts(short_names@)[j],
                        ),
                decreases short_names.len() - k,
            {
                if eq_ignore_ascii_case(name, short_names[k].as_str()) {
                    let ghost names = texts(short_names@);
                    let ghost view = (entry.0@, entry.1@);
                    assert(view.0.short_names == Some(names));
                    assert(0 <= k < names.len() && eq_ignoring_ascii_case(name@, names[k as int]));
                    assert(is_one_of(names, name@));
                    return true;
                }
                k += 1;
            }
            false
        },
        None => false,
    }
}

/// Where the first entry that `name` stands for is found in `entries`.
fn find_match(entries: &Vec<(ApiResource, ApiCapabilities)>, name: &str) -> (at: usize)
    ensures
        at as int == first_match(entries_view(entries@), name@),
        at <= entries.len(),
{
    let ghost views = entries_view(entries@);
    proof {
        lemma_first_match(views, name@);
    }
    let mut at: usize = 0;
    while at < entries.len() && !is_match(&entries[at], name)
        invariant
            at <= entries.len(),
            views == entries_view(entries@),
            forall|j: int| 0 <= j < at ==> !matches_token(#[trigger] views[j], name@),
        decreases entries.len() - at,
    {
        assert(views[at as int] == (entries[at as int].0@, entries[at as int].1@));
        at += 1;
    }
    if at < entries.len() {
        assert(views[at as int] == (entries[at as int].0@, entries[at as int].1@));
    }
    at
}

/// Whether the group at `at` is the one that `token` resolves in among the
/// first `n` of `groups`.
spec fn is_best_so_far(groups: Seq<ApiGroup>, at: int, n: int, token: Seq<char>) -> bool {
    &&& 0 <= at < n
    &&& group_matches(groups[at]@, token)
    &&& forall|k: int|
        0 <= k < n && group_matches((#[trigger] groups[k])@, token) ==> !text_less(
            groups[k]@.name,
            groups[at]@.name,
        )
}

/// One more group is looked at: the best group so far stays, or the new one
/// takes its place because its name comes before.
proof fn lemma_best_so_far_step(
    groups: Seq<ApiGroup>,
    at: int,
    n: int,
    token: Seq<char>,
    found: bool,
)
    requires
        0 <= n < groups.len(),
        found ==> is_best_so_far(groups, at, n, token),
        !found ==> forall|k: int| 0 <= k < n ==> !group_matches((#[trigger] groups[k])@, token),
    ensures
        !group_matches(groups[n]@, token) && found ==> is_best_so_far(groups, at, n + 1, token),
        !group_matches(groups[n]@, token) && !found ==> forall|k: int|
            0 <= k < n + 1 ==> !group_matches((#[trigger] groups[k])@, token),
        group_matches(groups[n]@, token) && (!found || text_less(groups[n]@.name, groups[at]@.name))
            ==> is_best_so_far(groups, n, n + 1, token),
        group_matches(groups[n]@, token) && found && !text_less(groups[n]@.name, groups[at]@.name)
            ==> is_best_so_far(groups, at, n + 1, token),
{
    lemma_text_less_irreflexive(groups[n]@.name);
    if group_matches(groups[n]@, token) && found && text_less(groups[n]@.name, groups[at]@.name) {
        assert forall|k: int|
            0 <= k < n + 1 && group_matches((#[trigger] groups[k])@, token) implies !text_less(
            groups[k]@.name,
            groups[n]@.name,
        ) by {
            if k < n && text_less(groups[k]@.name, groups[n]@.name) {
                lemma_text_less_transitive(groups[k]@.name, groups[n]@.name, groups[at]@.name);
            }
        }
    }
}

/// Finds the resource that `name` stands for: a kind, a plural name or a
/// short name, in any case of letters. Only the representative resources of
/// each group are looked at; where several groups have one, the group whose
/// name comes first wins. Nothing is found where no group has one.
pub fn resolve_api_resource(discovery: &Discovery, name: &str) -> (r: Option<
    (ApiResource, ApiCapabilities),
>)
    requires
        discovery.well_formed(),
    ensures
        match r {
            Some(entry) => resolved(discovery.catalog(), name@) == Some((entry.0@, entry.1@)),
            None => resolved(discovery.catalog(), name@) is None,
        },
        r is None <==> forall|group: Seq<char>|
            #[trigger] discovery.catalog().contains_key(group) ==> !group_matches(
                discovery.catalog()[group],
                name@,
            ),
{
    let groups = discovery.groups();
    let ghost catalog = discovery.catalog();
    let mut best: Option<(ApiResource, ApiCapabilities)> = None;
    let mut best_at: usize = 0;
    let mut i: usize = 0;
    while i < groups.len()
        invariant
            i <= groups.len(),
            best is Some ==> is_best_so_far(groups@, best_at as int, i as int, name@),
            best matches Some(entry) ==> (entry.0@, entry.1@) == representatives(
                groups[best_at as int]@,
            )[first_match(representatives(groups[best_at as int]@), name@)],
            best is None ==> forall|k: int|
                0 <= k < i ==> !group_matches((#[trigger] groups@[k])@, name@),
        decreases groups.len() - i,
    {
        let group = &groups[i];
        let mut entries = group.recommended_resources();
        let at = find_match(&entries, name);
        proof {
            lemma_best_so_far_step(groups@, best_at as int, i as int, name@, best is Some);
        }
        if at < entries.len() {
            let better = match &best {
                Some(_) => str_less(group.name.as_str(), groups[best_at].name.as_str()),
                None => true,
            };
            if better {
                assert(entries_view(entries@)[at as int] == (
                    entries[at as int].0@,
                    entries[at as int].1@,
                ));
                best = Some(entries.remove(at));
                best_at = i;
            }
        }
        i += 1;
    }
    proof {
        lemma_resolution(discovery, groups@, best_at as int, name@, best is Some);
    }
    best
}

/// What was found in the list of the groups is what the token resolves to in
/// the catalog.
proof fn lemma_resolution(
    discovery: &Discovery,
    groups: Seq<ApiGroup>,
    at: int,
    token: Seq<char>,
    found: bool,
)
    requires
        forall|i: int|
            0 <= i < groups.len() ==> discovery.catalog().contains_key((#[trigger] groups[i])@.name)
                && discovery.catalog()[groups[i]@.name] == groups[i]@,
        forall|name: Seq<char>|
            discovery.catalog().contains_key(name) ==> exists|i: int|
                0 <= i < groups.len() && (#[trigger] groups[i])@.name == name,
        found ==> is_best_so_far(groups, at, groups.len() as int, token),
        !found ==> forall|k: int|
            0 <= k < groups.len() ==> !group_matches((#[trigger] groups[k])@, token),
    ensures
        found ==> resolved(discovery.catalog(), token) == Some(
            representatives(groups[at]@)[first_match(representatives(groups[at]@), token)],
        ),
        !found ==> resolved(discovery.catalog(), token) is None,
        !found <==> forall|group: Seq<char>|
            #[trigger] discovery.catalog().contains_key(group) ==> !group_matches(
                discovery.catalog()[group],
                token,
            ),
{
    let catalog = discovery.catalog();
    if found {
        let held = groups[at]@.name;
        assert(catalog.contains_key(held) && catalog[held] == groups[at]@);
        assert forall|other: Seq<char>| #[trigger]
            catalog.contains_key(other) && group_matches(
                catalog[other],
                token,
            ) implies !text_less(other, held) by {
            let k = choose|k: int| 0 <= k < groups.len() && (#[trigger] groups[k])@.name == other;
            assert(catalog[groups[k]@.name] == groups[k]@);
        }
        assert(is_best_group(catalog, held, token));
        let chosen = choose|n: Seq<char>| is_best_group(catalog, n, token);
        lemma_best_group_is_unique(catalog, chosen, held, token);
    } else {
        assert forall|other: Seq<char>| #[trigger] catalog.contains_key(other) implies !group_matches(
            catalog[other],
            token,
        ) by {
            let k = choose|k: int| 0 <= k < groups.len() && (#[trigger] groups[k])@.name == other;
            assert(catalog[groups[k]@.name] == groups[k]@);
        }
    }
}

/// Which objects of a resource a watch asks for.
#[derive(Debug)]
pub enum ApiTarget {
    /// The objects of all namespaces, or of none for a cluster-scoped
    /// resource.
    All,
    /// The objects of one namespace.
    Namespaced(String),
    /// The objects of the namespace that the cluster connection defaults to.
    DefaultNamespace,
}

/// Chooses what a watch of a resource with the capabilities `caps` asks for:
/// everything for a cluster-scoped resource or where all namespaces are
/// wanted, else the namespace `ns`, else the default namespace.
pub fn dynamic_api(caps: &ApiCapabilities, ns: &Option<String>, all: bool) -> (target: ApiTarget)
    ensures
        caps.scope == Scope::Cluster || all ==> target is All,
        !(caps.scope == Scope::Cluster || all) ==> match ns {
            Some(namespace) => target matches ApiTarget::Namespaced(n) && n@ == namespace@,
            None => target is DefaultNamespace,
        },
{
    let cluster_wide = match caps.scope {
        Scope::Cluster => true,
        Scope::Namespaced => false,
    };
    if cluster_wide || all {
        ApiTarget::All
    } else if let Some(namespace) = ns {
        ApiTarget::Namespaced(namespace.clone())
    } else {
        ApiTarget::DefaultNamespace
    }
}

} // verus!
