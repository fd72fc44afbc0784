//! The registry of applications: a map from display name to launch
//! description, filled in discovery order so that later entries replace
//! earlier ones of the same name.

use crate::application::{Application, ApplicationBody, ApplicationView, BodyView};
use crate::text::same_text;
use vstd::prelude::*;

verus! {

/// The map that results from registering `apps` one after the other on top of
/// `base`: each application replaces whatever its name stood for before.
pub open spec fn extended(
    base: Map<Seq<char>, BodyView>,
    apps: Seq<ApplicationView>,
) -> Map<Seq<char>, BodyView>
    decreases apps.len(),
{
    if apps.len() == 0 {
        base
    } else {
        extended(base, apps.drop_last()).insert(apps.last().name, apps.last().body)
    }
}

/// The registry that holds exactly `apps`, registered in order.
pub open spec fn registry_of(apps: Seq<ApplicationView>) -> Map<Seq<char>, BodyView> {
    extended(Map::empty(), apps)
}

/// The applications found in a list of search directories, in directory
/// order.  A directory that could not be read (`None`) contributes nothing.
pub open spec fn merged(directories: Seq<Option<Seq<ApplicationView>>>) -> Seq<ApplicationView>
    decreases directories.len(),
{
    if directories.len() == 0 {
        Seq::empty()
    } else {
        merged(directories.drop_last()) + match directories.last() {
            Some(apps) => apps,
            None => Seq::empty(),
        }
    }
}

/// Whether no two of `apps` share a name.
pub open spec fn distinct_names(apps: Seq<ApplicationView>) -> bool {
    forall|i: int, j: int| 0 <= i < j < apps.len() ==> apps[i].name != apps[j].name
}

/// Whether some application of `apps` is called `name`.
pub open spec fn has_name(apps: Seq<ApplicationView>, name: Seq<char>) -> bool {
    exists|i: int| 0 <= i < apps.len() && #[trigger] apps[i].name == name
}

/// Whether applications of the same name are the same in everything else too.
pub open spec fn unambiguous(apps: Seq<ApplicationView>) -> bool {
    forall|i: int, j: int|
        0 <= i < apps.len() && 0 <= j < apps.len() && apps[i].name == apps[j].name ==> apps[i].body
            == apps[j].body
}

/// Whether two runs of discovery found the same: the same directories could
/// be read, and each of them gave the same applications, in whatever order.
pub open spec fn same_findings(
    first: Seq<Option<Seq<ApplicationView>>>,
    second: Seq<Option<Seq<ApplicationView>>>,
) -> bool {
    &&& first.len() == second.len()
    &&& forall|k: int|
        0 <= k < first.len() ==> match (#[trigger] first[k], second[k]) {
            (Some(a), Some(b)) => a.to_multiset() == b.to_multiset(),
            (None, None) => true,
            _ => false,
        }
}

/// Applications registered by name.
#[derive(Debug)]
pub struct Registry {
    entries: Vec<Application>,
}

impl Registry {
    #[verifier::type_invariant]
    spec fn names_are_distinct(&self) -> bool {
        distinct_names(self.entries.deep_view())
    }

    /// The registry as a map from display name to launch description.
    pub closed spec fn view(&self) -> Map<Seq<char>, BodyView> {
        registry_of(self.entries.deep_view())
    }

    /// An empty registry.
    pub fn new() -> (registry: Registry)
        ensures
            registry@ == Map::<Seq<char>, BodyView>::empty(),
    {
        Registry { entries: Vec::new() }
    }

    /// Registers `app` under its name.  An application registered under the
    /// same name before is replaced.
    pub fn insert(&mut self, app: Application)
        ensures
            final(self)@ == old(self)@.insert(app.name@, app.body@),
    {
        proof {
            use_type_invariant(&*self);
        }
        let ghost before = self.entries.deep_view();
        let ghost added = app@;
        // The entries are taken out while they change, and put back once
        // their names are known to be distinct again.
        let mut entries: Vec<Application> = Vec::new();
        std::mem::swap(&mut self.entries, &mut entries);
        let mut i: usize = 0;
        while i < entries.len() && !same_text(entries[i].name.as_str(), app.name.as_str())
            invariant
                i <= entries.len(),
                entries.deep_view() == before,
                forall|k: int| 0 <= k < i ==> before[k].name != app.name@,
            decreases entries.len() - i,
        {
            i += 1;
        }
        if i < entries.len() {
            entries.set(i, app);
            proof {
                let after = entries.deep_view();
                assert(after =~= before.update(i as int, added));
                lemma_replaced(before, i as int, added);
            }
        } else {
            entries.push(app);
            proof {
                let after = entries.deep_view();
                assert(after =~= before.push(added));
                assert(after.drop_last() =~= before);
            }
        }
        self.entries = entries;
    }

    /// Looks up the launch description registered under `name`.
    pub fn get(&self, name: &str) -> (body: Option<&ApplicationBody>)
        ensures
            match body {
                Some(body) => self@.contains_key(name@) && self@[name@] == body@,
                None => !self@.contains_key(name@),
            },
    {
        let ghost apps = self.entries.deep_view();
        let mut i: usize = 0;
        while i < self.entries.len() && !same_text(self.entries[i].name.as_str(), name)
            invariant
                i <= self.entries.len(),
                apps == self.entries.deep_view(),
                forall|k: int| 0 <= k < i ==> apps[k].name != name@,
            decreases self.entries.len() - i,
        {
            i += 1;
        }
        proof {
            use_type_invariant(self);
            lemma_extended_names(Map::empty(), apps, name@);
        }
        if i < self.entries.len() {
            proof {
                lemma_extended_last_wins(Map::empty(), apps, i as int);
            }
            Some(&self.entries[i].body)
        } else {
            proof {
                if has_name(apps, name@) {
                    let k = choose|k: int| 0 <= k < apps.len() && #[trigger] apps[k].name == name@;
                    assert(false);
                }
            }
            None
        }
    }

    /// The number of registered applications.
    pub fn len(&self) -> (n: usize)
        ensures
            self@.dom().finite(),
            n == self@.dom().len(),
    {
        proof {
            use_type_invariant(self);
            lemma_distinct_names_count(self.entries.deep_view());
        }
        self.entries.len()
    }

    /// The registered names, each once, in no particular order.
    pub fn names(&self) -> (names: Vec<String>)
        ensures
            names.deep_view().no_duplicates(),
            names.deep_view().to_set() == self@.dom(),
    {
        proof {
            use_type_invariant(self);
        }
        let mut names: Vec<String> = Vec::new();
        let mut i: usize = 0;
        while i < self.entries.len()
            invariant
                i <= self.entries.len(),
                names.len() == i,
                forall|k: int|
                    0 <= k < i ==> #[trigger] names.deep_view()[k]
                        == self.entries.deep_view()[k].name,
            decreases self.entries.len() - i,
        {
            let name = self.entries[i].name.clone();
            let ghost before = names.deep_view();
            names.push(name);
            proof {
                assert(names.deep_view() =~= before.push(name@));
            }
            i += 1;
        }
        proof {
            let apps = self.entries.deep_view();
            let listed = names.deep_view();
            assert forall|name: Seq<char>| listed.to_set().contains(name) <==> self@.dom().contains(
                name,
            ) by {
                lemma_extended_names(Map::empty(), apps, name);
                if listed.contains(name) {
                    let k = choose|k: int| 0 <= k < listed.len() && listed[k] == name;
                    assert(apps[k].name == name);
                }
                if has_name(apps, name) {
                    let k = choose|k: int| 0 <= k < apps.len() && #[trigger] apps[k].name == name;
                    assert(listed[k] == name);
                }
            }
        }
        names
    }

    /// Registers every application of `apps`, in order.
    pub fn extend(&mut self, apps: Vec<Application>)
        ensures
            final(self)@ == extended(old(self)@, apps.deep_view()),
    {
        let ghost all = apps.deep_view();
        let ghost base = self@;
        for app in it: apps
            invariant
                it.seq() == apps@,
                all == apps.deep_view(),
                self@ == extended(base, all.take(it.index())),
        {
            proof {
                assert(all.take(it.index() + 1).drop_last() =~= all.take(it.index()));
            }
            self.insert(app);
        }
        proof {
            assert(all.take(all.len() as int) =~= all);
        }
    }

    /// Builds the registry of a run from what each search directory gave, in
    /// search order.  `None` stands for a directory that could not be read.
    pub fn build(directories: Vec<Option<Vec<Application>>>) -> (registry: Registry)
        ensures
            registry@ == registry_of(merged(directories.deep_view())),
    {
        let ghost all = directories.deep_view();
        let mut registry = Registry::new();
        for directory in it: directories
            invariant
                it.seq() == directories@,
                all == directories.deep_view(),
                registry@ == registry_of(merged(all.take(it.index()))),
        {
            proof {
                assert(all.take(it.index() + 1).drop_last() =~= all.take(it.index()));
            }
            match directory {
                Some(apps) => {
                    proof {
                        lemma_extended_concat(
                            Map::empty(),
                            merged(all.take(it.index())),
                            apps.deep_view(),
                        );
                    }
                    registry.extend(apps);
                },
                None => {
                    proof {
                        assert(merged(all.take(it.index())) + Seq::<ApplicationView>::empty()
                            =~= merged(all.take(it.index())));
                    }
                },
            }
        }
        proof {
            assert(all.take(all.len() as int) =~= all);
        }
        registry
    }
}

/// A name is registered after [`extended`] exactly if it was in `base` or is
/// the name of one of `apps`.
pub proof fn lemma_extended_names(
    base: Map<Seq<char>, BodyView>,
    apps: Seq<ApplicationView>,
    name: Seq<char>,
)
    ensures
        extended(base, apps).contains_key(name) <==> base.contains_key(name) || has_name(
            apps,
            name,
        ),
    decreases apps.len(),
{
    if apps.len() > 0 {
        lemma_extended_names(base, apps.drop_last(), name);
        lemma_has_name_step(apps, name);
    }
}

/// Under the name of one of `apps`, [`extended`] holds the body of the last
/// application so called.
pub proof fn lemma_extended_last_wins(
    base: Map<Seq<char>, BodyView>,
    apps: Seq<ApplicationView>,
    i: int,
)
    requires
        0 <= i < apps.len(),
        forall|j: int| i < j < apps.len() ==> (#[trigger] apps[j]).name != apps[i].name,
    ensures
        extended(base, apps)[apps[i].name] == apps[i].body,
    decreases apps.len(),
{
    if i < apps.len() - 1 {
        let front = apps.drop_last();
        assert(apps.last().name != apps[i].name);
        assert forall|j: int| i < j < front.len() implies (#[trigger] front[j]).name
            != front[i].name by {
            assert(front[j] == apps[j]);
        }
        lemma_extended_last_wins(base, front, i);
    }
}

/// Under a name that none of `apps` has, [`extended`] holds what `base` held.
pub proof fn lemma_extended_keeps(
    base: Map<Seq<char>, BodyView>,
    apps: Seq<ApplicationView>,
    name: Seq<char>,
)
    requires
        !has_name(apps, name),
    ensures
        extended(base, apps)[name] == base[name],
    decreases apps.len(),
{
    if apps.len() > 0 {
        lemma_has_name_step(apps, name);
        lemma_extended_keeps(base, apps.drop_last(), name);
    }
}

/// Under the name of one of `apps`, [`extended`] holds the body of one of the
/// applications so called, whatever `base` held.
pub proof fn lemma_extended_body(
    base: Map<Seq<char>, BodyView>,
    apps: Seq<ApplicationView>,
    name: Seq<char>,
) -> (i: int)
    requires
        has_name(apps, name),
    ensures
        0 <= i < apps.len(),
        apps[i].name == name,
        extended(base, apps)[name] == apps[i].body,
        registry_of(apps)[name] == apps[i].body,
    decreases apps.len(),
{
    if apps.last().name == name {
        apps.len() - 1
    } else {
        lemma_has_name_step(apps, name);
        lemma_extended_body(base, apps.drop_last(), name)
    }
}

/// Registering one sequence of applications after another is registering
/// their concatenation.
pub proof fn lemma_extended_concat(
    base: Map<Seq<char>, BodyView>,
    first: Seq<ApplicationView>,
    second: Seq<ApplicationView>,
)
    ensures
        extended(base, first + second) == extended(extended(base, first), second),
    decreases second.len(),
{
    if second.len() == 0 {
        assert(first + second =~= first);
    } else {
        lemma_extended_concat(base, first, second.drop_last());
        assert((first + second).drop_last() =~= first + second.drop_last());
    }
}

/// Applications with pairwise distinct names fill a registry with one entry
/// each.
pub proof fn lemma_distinct_names_count(apps: Seq<ApplicationView>)
    requires
        distinct_names(apps),
    ensures
        registry_of(apps).dom().finite(),
        registry_of(apps).dom().len() == apps.len(),
    decreases apps.len(),
{
    if apps.len() > 0 {
        let front = apps.drop_last();
        let name = apps.last().name;
        lemma_distinct_names_count(front);
        lemma_extended_names(Map::empty(), front, name);
        if has_name(front, name) {
            let i = choose|i: int| 0 <= i < front.len() && #[trigger] front[i].name == name;
            assert(apps[i].name == apps[apps.len() - 1].name);
        }
    }
}

/// Merge order: registering `later` after `earlier` gives, under every name
/// that `later` registers, what `later` registers there, and under the other
/// names what `earlier` registers.
pub proof fn lemma_later_wins(earlier: Seq<ApplicationView>, later: Seq<ApplicationView>)
    ensures
        registry_of(earlier + later) == registry_of(earlier).union_prefer_right(
            registry_of(later),
        ),
{
    let whole = registry_of(earlier + later);
    let merged = registry_of(earlier).union_prefer_right(registry_of(later));
    lemma_extended_concat(Map::empty(), earlier, later);
    assert forall|name: Seq<char>| #[trigger]
        whole.contains_key(name) == merged.contains_key(name) && (whole.contains_key(name)
            ==> whole[name] == merged[name]) by {
        lemma_extended_names(registry_of(earlier), later, name);
        lemma_extended_names(Map::empty(), later, name);
        if has_name(later, name) {
            lemma_extended_body(registry_of(earlier), later, name);
        } else {
            lemma_extended_keeps(registry_of(earlier), later, name);
        }
    }
    assert(whole =~= merged);
}

/// Merge order across directories: a directory searched after others
/// overrides them, name by name.
pub proof fn lemma_later_directory_wins(
    directories: Seq<Option<Seq<ApplicationView>>>,
    later: Seq<ApplicationView>,
)
    ensures
        registry_of(merged(directories.push(Some(later)))) == registry_of(
            merged(directories),
        ).union_prefer_right(registry_of(later)),
{
    assert(directories.push(Some(later)).drop_last() =~= directories);
    lemma_later_wins(merged(directories), later);
}

/// A directory that could not be read changes nothing.
pub proof fn lemma_unreadable_directory(directories: Seq<Option<Seq<ApplicationView>>>)
    ensures
        merged(directories.push(None)) == merged(directories),
{
    assert(directories.push(None).drop_last() =~= directories);
    assert(merged(directories) + Seq::<ApplicationView>::empty() =~= merged(directories));
}

/// Where no directory could be read, the registry is empty.
pub proof fn lemma_nothing_readable(directories: Seq<Option<Seq<ApplicationView>>>)
    requires
        forall|k: int| 0 <= k < directories.len() ==> #[trigger] directories[k] is None,
    ensures
        registry_of(merged(directories)) == Map::<Seq<char>, BodyView>::empty(),
    decreases directories.len(),
{
    if directories.len() > 0 {
        let front = directories.drop_last();
        assert forall|k: int| 0 <= k < front.len() implies #[trigger] front[k] is None by {
            assert(front[k] == directories[k]);
        }
        lemma_nothing_readable(front);
        assert(directories.last() == directories[directories.len() - 1]);
        assert(merged(directories) =~= merged(front));
    }
}

/// The order in which unambiguous applications are registered does not
/// matter.
pub proof fn lemma_order_irrelevant(first: Seq<ApplicationView>, second: Seq<ApplicationView>)
    requires
        first.to_multiset() == second.to_multiset(),
        unambiguous(first),
    ensures
        registry_of(first) == registry_of(second),
{
    assert forall|name: Seq<char>| #[trigger]
        registry_of(first).contains_key(name) == registry_of(second).contains_key(name) && (
        registry_of(first).contains_key(name) ==> registry_of(first)[name] == registry_of(
            second,
        )[name]) by {
        lemma_extended_names(Map::empty(), first, name);
        lemma_extended_names(Map::empty(), second, name);
        if has_name(first, name) {
            let i = lemma_extended_body(Map::empty(), first, name);
            let j = lemma_same_elements(first, second, i);
            assert(second[j].name == name);
        }
        if has_name(second, name) {
            let j = lemma_extended_body(Map::empty(), second, name);
            let k = lemma_same_elements(second, first, j);
            assert(first[k].name == name);
            let i = lemma_extended_body(Map::empty(), first, name);
            assert(first[k].body == first[i].body);
        }
    }
    assert(registry_of(first) =~= registry_of(second));
}

/// Discovery is repeatable: two runs over the same directories that find the
/// same applications build the same registry, in whatever order each
/// directory lists its entries, provided that no directory holds two
/// different applications of one name.
pub proof fn lemma_discovery_repeatable(
    first: Seq<Option<Seq<ApplicationView>>>,
    second: Seq<Option<Seq<ApplicationView>>>,
)
    requires
        same_findings(first, second),
        forall|k: int|
            0 <= k < first.len() ==> (#[trigger] first[k] matches Some(apps) ==> unambiguous(
                apps,
            )),
    ensures
        registry_of(merged(first)) == registry_of(merged(second)),
    decreases first.len(),
{
    if first.len() > 0 {
        let front_first = first.drop_last();
        let front_second = second.drop_last();
        assert forall|k: int| 0 <= k < front_first.len() implies #[trigger] front_first[k]
            == first[k] && front_second[k] == second[k] by {}
        lemma_discovery_repeatable(front_first, front_second);
        match (first.last(), second.last()) {
            (Some(a), Some(b)) => {
                lemma_order_irrelevant(a, b);
                lemma_later_wins(merged(front_first), a);
                lemma_later_wins(merged(front_second), b);
            },
            _ => {
                assert(merged(first) =~= merged(front_first));
                assert(merged(second) =~= merged(front_second));
            },
        }
    }
}

/// A name occurs among applications if the last of them has it or one of
/// those before.
proof fn lemma_has_name_step(apps: Seq<ApplicationView>, name: Seq<char>)
    requires
        apps.len() > 0,
    ensures
        has_name(apps, name) <==> apps.last().name == name || has_name(apps.drop_last(), name),
{
    let front = apps.drop_last();
    if has_name(front, name) {
        let i = choose|i: int| 0 <= i < front.len() && #[trigger] front[i].name == name;
        assert(apps[i].name == name);
    }
    if apps.last().name == name {
        assert(apps[apps.len() - 1].name == name);
    }
    if has_name(apps, name) && apps.last().name != name {
        let i = choose|i: int| 0 <= i < apps.len() && #[trigger] apps[i].name == name;
        assert(front[i].name == name);
    }
}

/// Rearrangements hold the same elements: what stands at `i` in one stands
/// somewhere in the other.
proof fn lemma_same_elements(
    first: Seq<ApplicationView>,
    second: Seq<ApplicationView>,
    i: int,
) -> (j: int)
    requires
        first.to_multiset() == second.to_multiset(),
        0 <= i < first.len(),
    ensures
        0 <= j < second.len(),
        second[j] == first[i],
{
    broadcast use vstd::seq_lib::to_multiset_contains;

    assert(first.contains(first[i]));
    assert(second.to_multiset().count(first[i]) > 0);
    choose|j: int| 0 <= j < second.len() && second[j] == first[i]
}

/// Replacing an application by one of the same name, among applications with
/// distinct names, puts the new body under that name and changes nothing else.
proof fn lemma_replaced(before: Seq<ApplicationView>, at: int, added: ApplicationView)
    requires
        distinct_names(before),
        0 <= at < before.len(),
        before[at].name == added.name,
    ensures
        distinct_names(before.update(at, added)),
        registry_of(before.update(at, added)) == registry_of(before).insert(
            added.name,
            added.body,
        ),
{
    let after = before.update(at, added);
    let expected = registry_of(before).insert(added.name, added.body);
    assert forall|k: int| 0 <= k < after.len() implies (#[trigger] after[k]).name
        == before[k].name by {}
    assert forall|name: Seq<char>| #[trigger]
        registry_of(after).contains_key(name) == expected.contains_key(name) && (registry_of(
            after,
        ).contains_key(name) ==> registry_of(after)[name] == expected[name]) by {
        lemma_extended_names(Map::empty(), before, name);
        lemma_extended_names(Map::empty(), after, name);
        if has_name(before, name) {
            let k = choose|k: int| 0 <= k < before.len() && #[trigger] before[k].name == name;
            assert(after[k].name == name);
            lemma_extended_last_wins(Map::empty(), after, k);
            if k != at {
                lemma_extended_last_wins(Map::empty(), before, k);
            }
        }
        if has_name(after, name) {
            let k = choose|k: int| 0 <= k < after.len() && #[trigger] after[k].name == name;
            assert(before[k].name == name);
        }
    }
    assert(registry_of(after) =~= expected);
}

} // verus!
