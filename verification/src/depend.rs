//! Satisfaction queries against the installed packages: the catalog index
//! (real and available versions per name), dependency and conflict checks,
//! missing-dependency reports, and command checks.
//!
//! The *real* versions of a name are the versions of installed packages
//! bearing that name.  The *available* versions also count every virtual
//! provision declared under that name, so a dependency on a capability can
//! be satisfied by any package providing it.  Conflicts are checked against
//! real versions only.

use vstd::prelude::*;
use crate::list::{InstalledPackageView, PackageListData};
use crate::pkg::{PackageData, PackageRange, PackageRangeView, PackageVersionView, RelationData};
use crate::strutil::str_eq;
use crate::version::{range_matches, RangeDataView, Version, VersionRange, VersionView};

verus! {

// ---------------------------------------------------------------------------
// The catalog index model
// ---------------------------------------------------------------------------

/// The version an installed package contributes under its own name, if `n`
/// is that name.
pub open spec fn own_contrib(p: InstalledPackageView, n: Seq<char>) -> Seq<VersionView> {
    if p.info.about.package.name == n {
        seq![p.info.about.package.version]
    } else {
        Seq::empty()
    }
}

/// The versions a list of virtual provisions contributes under the name
/// `n`, in declaration order.
pub open spec fn virt_versions(vs: Seq<PackageVersionView>, n: Seq<char>) -> Seq<VersionView>
    decreases vs.len(),
{
    if vs.len() == 0 {
        Seq::empty()
    } else {
        virt_versions(vs.drop_last(), n) + (if vs.last().name == n {
            seq![vs.last().version]
        } else {
            Seq::empty()
        })
    }
}

/// Everything one installed package contributes under the name `n`: its own
/// version, then its virtual provisions of that name.
pub open spec fn record_contrib(p: InstalledPackageView, n: Seq<char>) -> Seq<VersionView> {
    own_contrib(p, n) + virt_versions(p.info.relation.virtuals, n)
}

/// The real versions installed under the name `n`, in list order.
pub open spec fn real_versions(inst: Seq<InstalledPackageView>, n: Seq<char>) -> Seq<VersionView>
    decreases inst.len(),
{
    if inst.len() == 0 {
        Seq::empty()
    } else {
        real_versions(inst.drop_last(), n) + own_contrib(inst.last(), n)
    }
}

/// The available versions under the name `n`: real versions and virtual
/// provisions, in list order.
pub open spec fn avail_versions(inst: Seq<InstalledPackageView>, n: Seq<char>) -> Seq<VersionView>
    decreases inst.len(),
{
    if inst.len() == 0 {
        Seq::empty()
    } else {
        avail_versions(inst.drop_last(), n) + record_contrib(inst.last(), n)
    }
}

/// Whether some version in `vs` lies in the range `range`.
pub open spec fn any_match(vs: Seq<VersionView>, range: Option<RangeDataView>) -> bool {
    exists|i: int| 0 <= i < vs.len() && range_matches(range, vs[i])
}

/// Whether the dependency reference `dep` is satisfied by the installed
/// packages, counting virtual provisions.
pub open spec fn dep_satisfied(inst: Seq<InstalledPackageView>, dep: PackageRangeView) -> bool {
    any_match(avail_versions(inst, dep.name), dep.range)
}

/// Whether some member of the alternative group `g` is satisfied.
pub open spec fn group_satisfied(inst: Seq<InstalledPackageView>, g: Seq<PackageRangeView>) -> bool {
    exists|j: int| 0 <= j < g.len() && dep_satisfied(inst, #[trigger] g[j])
}

/// Whether every alternative group in `groups` is satisfied.
pub open spec fn all_groups_satisfied(
    inst: Seq<InstalledPackageView>,
    groups: Seq<Seq<PackageRangeView>>,
) -> bool {
    forall|g: int| 0 <= g < groups.len() ==> group_satisfied(inst, #[trigger] groups[g])
}

/// The unsatisfied groups of `groups`, in their original order.
pub open spec fn missing_groups(
    inst: Seq<InstalledPackageView>,
    groups: Seq<Seq<PackageRangeView>>,
) -> Seq<Seq<PackageRangeView>>
    decreases groups.len(),
{
    if groups.len() == 0 {
        Seq::empty()
    } else {
        missing_groups(inst, groups.drop_last()) + (if group_satisfied(inst, groups.last()) {
            Seq::empty()
        } else {
            seq![groups.last()]
        })
    }
}

/// The missing-group report is exactly the order-preserving filter of the
/// groups by unsatisfiedness: it keeps exactly the unsatisfied groups,
/// none more or fewer, in their original order.
pub proof fn lemma_missing_groups_is_filter(
    inst: Seq<InstalledPackageView>,
    groups: Seq<Seq<PackageRangeView>>,
)
    ensures
        missing_groups(inst, groups) == groups.filter(|g: Seq<PackageRangeView>| !group_satisfied(inst, g)),
    decreases groups.len(),
{
    reveal(Seq::filter);
    if groups.len() > 0 {
        lemma_missing_groups_is_filter(inst, groups.drop_last());
        if group_satisfied(inst, groups.last()) {
            assert(missing_groups(inst, groups) =~= missing_groups(inst, groups.drop_last()));
        } else {
            assert(missing_groups(inst, groups) =~= missing_groups(
                inst,
                groups.drop_last(),
            ).push(groups.last()));
        }
    }
}

/// A version is a real version of `n` exactly when some installed package
/// is itself named `n` and has that version: virtual provisions never count
/// toward the real versions.
pub proof fn lemma_real_versions_from_records(
    inst: Seq<InstalledPackageView>,
    n: Seq<char>,
    v: VersionView,
)
    ensures
        real_versions(inst, n).contains(v) <==> exists|k: int|
            0 <= k < inst.len() && #[trigger] inst[k].info.about.package.name == n
                && inst[k].info.about.package.version == v,
    decreases inst.len(),
{
    if inst.len() > 0 {
        lemma_real_versions_from_records(inst.drop_last(), n, v);
        let prev = real_versions(inst.drop_last(), n);
        let whole = real_versions(inst, n);
        if whole.contains(v) {
            let i = choose|i: int| 0 <= i < whole.len() && whole[i] == v;
            if i < prev.len() {
                assert(prev.contains(v));
                let k = choose|k: int|
                    0 <= k < inst.drop_last().len() && #[trigger] inst.drop_last()[k].info.about.package.name
                        == n && inst.drop_last()[k].info.about.package.version == v;
                assert(inst[k].info.about.package.name == n);
            } else {
                assert(inst.last().info.about.package.name == n);
                assert(inst[inst.len() - 1].info.about.package.version == v);
            }
        }
        if exists|k: int|
            0 <= k < inst.len() && #[trigger] inst[k].info.about.package.name == n
                && inst[k].info.about.package.version == v {
            let k = choose|k: int|
                0 <= k < inst.len() && #[trigger] inst[k].info.about.package.name == n
                    && inst[k].info.about.package.version == v;
            if k < inst.len() - 1 {
                assert(inst.drop_last()[k].info.about.package.name == n);
                assert(prev.contains(v));
                let i = choose|i: int| 0 <= i < prev.len() && prev[i] == v;
                assert(whole[i] == v);
            } else {
                assert(whole[whole.len() - 1] == v);
            }
        }
    }
}

// ---------------------------------------------------------------------------
// The version tables
// ---------------------------------------------------------------------------

/// One table entry: a package name and the versions recorded under it.
#[derive(Debug)]
pub struct NameVersions {
    pub name: String,
    pub versions: Vec<Version>,
}

/// The mathematical content of a [`NameVersions`].
pub struct NameVersionsView {
    pub name: Seq<char>,
    pub versions: Seq<VersionView>,
}

impl View for NameVersions {
    type V = NameVersionsView;

    open spec fn view(&self) -> NameVersionsView {
        NameVersionsView { name: self.name@, versions: self.versions.deep_view() }
    }
}

impl DeepView for NameVersions {
    type V = NameVersionsView;

    open spec fn deep_view(&self) -> NameVersionsView {
        self@
    }
}

/// A map from package names to recorded versions, kept as a list of entries
/// with pairwise distinct names.
#[derive(Debug)]
pub struct VersionTable {
    pub entries: Vec<NameVersions>,
}

impl View for VersionTable {
    type V = Seq<NameVersionsView>;

    open spec fn view(&self) -> Seq<NameVersionsView> {
        self.entries.deep_view()
    }
}

/// Whether the entry names are pairwise distinct.
pub open spec fn table_keys_distinct(s: Seq<NameVersionsView>) -> bool {
    forall|i: int, j: int| 0 <= i < j < s.len() ==> #[trigger] s[i].name != #[trigger] s[j].name
}

/// The versions recorded under `n`: those of the first entry named `n`, or
/// none when no entry is.
pub open spec fn table_lookup(s: Seq<NameVersionsView>, n: Seq<char>) -> Seq<VersionView>
    decreases s.len(),
{
    if s.len() == 0 {
        Seq::empty()
    } else if s[0].name == n {
        s[0].versions
    } else {
        table_lookup(s.drop_first(), n)
    }
}

proof fn lemma_lookup_absent(s: Seq<NameVersionsView>, n: Seq<char>)
    requires
        forall|i: int| 0 <= i < s.len() ==> (#[trigger] s[i].name) != n,
    ensures
        table_lookup(s, n) == Seq::<VersionView>::empty(),
    decreases s.len(),
{
    if s.len() > 0 {
        assert(forall|i: int|
            0 <= i < s.drop_first().len() ==> (#[trigger] s.drop_first()[i].name) != n);
        lemma_lookup_absent(s.drop_first(), n);
    }
}

proof fn lemma_lookup_found(s: Seq<NameVersionsView>, n: Seq<char>, i: int)
    requires
        0 <= i < s.len(),
        s[i].name == n,
        forall|k: int| 0 <= k < i ==> (#[trigger] s[k].name) != n,
    ensures
        table_lookup(s, n) == s[i].versions,
    decreases i,
{
    if i > 0 {
        assert(s.drop_first()[i - 1] == s[i]);
        assert(forall|k: int| 0 <= k < i - 1 ==> (#[trigger] s.drop_first()[k].name) != n);
        lemma_lookup_found(s.drop_first(), n, i - 1);
    }
}

proof fn lemma_lookup_update(s: Seq<NameVersionsView>, i: int, e: NameVersionsView, n: Seq<char>)
    requires
        0 <= i < s.len(),
        e.name == s[i].name,
        forall|k: int| 0 <= k < i ==> (#[trigger] s[k].name) != s[i].name,
    ensures
        s[i].name == n ==> table_lookup(s.update(i, e), n) == e.versions,
        s[i].name != n ==> table_lookup(s.update(i, e), n) == table_lookup(s, n),
    decreases i,
{
    let s2 = s.update(i, e);
    if i == 0 {
        if s[0].name != n {
            assert(s2.drop_first() =~= s.drop_first());
        }
    } else {
        assert(s2.drop_first() =~= s.drop_first().update(i - 1, e));
        assert(s.drop_first()[i - 1] == s[i]);
        assert(forall|k: int|
            0 <= k < i - 1 ==> (#[trigger] s.drop_first()[k].name) != s.drop_first()[i - 1].name);
        lemma_lookup_update(s.drop_first(), i - 1, e, n);
    }
}

proof fn lemma_lookup_append(s: Seq<NameVersionsView>, e: NameVersionsView, n: Seq<char>)
    requires
        forall|i: int| 0 <= i < s.len() ==> (#[trigger] s[i].name) != e.name,
    ensures
        e.name == n ==> table_lookup(s.push(e), n) == e.versions,
        e.name != n ==> table_lookup(s.push(e), n) == table_lookup(s, n),
    decreases s.len(),
{
    if s.len() == 0 {
        if e.name != n {
            assert(table_lookup(s.push(e), n) == table_lookup(s.push(e).drop_first(), n) || s.push(
                e,
            )[0].name == n);
        }
    } else {
        assert(s.push(e).drop_first() =~= s.drop_first().push(e));
        lemma_lookup_append(s.drop_first(), e, n);
    }
}

impl VersionTable {
    /// A table with no entry.
    pub fn new() -> (r: VersionTable)
        ensures
            r@.len() == 0,
            table_keys_distinct(r@),
            forall|n: Seq<char>| table_lookup(r@, n) == Seq::<VersionView>::empty(),
    {
        let r = VersionTable { entries: Vec::new() };
        proof {
            assert(r@ =~= Seq::<NameVersionsView>::empty());
        }
        r
    }

    /// Records `version` under `name`, appending to the entry of that name
    /// or opening a new entry; the versions of every other name stay as
    /// they were.
    pub fn push_version(&mut self, name: &String, version: Version)
        requires
            table_keys_distinct(old(self)@),
        ensures
            table_keys_distinct(final(self)@),
            table_lookup(final(self)@, name@) == table_lookup(old(self)@, name@).push(version@),
            forall|n: Seq<char>|
                n != name@ ==> table_lookup(final(self)@, n) == table_lookup(old(self)@, n),
    {
        let ghost s0 = self@;
        let mut i: usize = 0;
        while i < self.entries.len()
            invariant
                self@ == s0,
                s0 == old(self)@,
                table_keys_distinct(s0),
                0 <= i <= self.entries@.len(),
                self.entries@.len() == s0.len(),
                forall|k: int| 0 <= k < i ==> (#[trigger] s0[k].name) != name@,
            decreases self.entries@.len() - i,
        {
            proof {
                assert(s0[i as int] == self.entries@[i as int].deep_view());
            }
            if str_eq(self.entries[i].name.as_str(), name.as_str()) {
                let mut versions = clone_version_list(&self.entries[i].versions);
                versions.push(version);
                let nm = self.entries[i].name.clone();
                let e = NameVersions { name: nm, versions };
                self.entries.set(i, e);
                proof {
                    assert(self@ =~= s0.update(i as int, e@));
                    assert(e@.name == s0[i as int].name);
                    lemma_lookup_found(s0, name@, i as int);
                    assert(e@.versions =~= table_lookup(s0, name@).push(version@));
                    assert(table_lookup(self@, name@) == table_lookup(s0, name@).push(version@))
                        by {
                        lemma_lookup_update(s0, i as int, e@, name@);
                    }
                    assert forall|n: Seq<char>| n != name@ implies table_lookup(self@, n)
                        == table_lookup(s0, n) by {
                        lemma_lookup_update(s0, i as int, e@, n);
                    }
                    assert forall|a: int, b: int|
                        0 <= a < b < self@.len() implies #[trigger] self@[a].name
                        != #[trigger] self@[b].name by {
                        assert(self@[a].name == s0[a].name);
                        assert(self@[b].name == s0[b].name);
                    }
                }
                return ;
            }
            i = i + 1;
        }
        let mut versions: Vec<Version> = Vec::new();
        versions.push(version);
        let e = NameVersions { name: name.clone(), versions };
        self.entries.push(e);
        proof {
            assert(self@ =~= s0.push(e@));
            assert(e@.versions =~= Seq::<VersionView>::empty().push(version@));
            lemma_lookup_absent(s0, name@);
            assert(table_lookup(self@, name@) == table_lookup(s0, name@).push(version@)) by {
                lemma_lookup_append(s0, e@, name@);
            }
            assert forall|n: Seq<char>| n != name@ implies table_lookup(self@, n) == table_lookup(
                s0,
                n,
            ) by {
                lemma_lookup_append(s0, e@, n);
            }
            assert forall|a: int, b: int|
                0 <= a < b < self@.len() implies #[trigger] self@[a].name
                != #[trigger] self@[b].name by {
                if b < s0.len() {
                    assert(self@[a].name == s0[a].name);
                    assert(self@[b].name == s0[b].name);
                } else {
                    assert(self@[b].name == name@);
                    assert(self@[a].name == s0[a].name);
                }
            }
        }
    }

    /// Whether some version recorded under `name` lies in `range`.
    pub fn any_version_matches(&self, name: &str, range: &VersionRange) -> (r: bool)
        ensures
            r == any_match(table_lookup(self@, name@), range@),
    {
        let mut i: usize = 0;
        while i < self.entries.len()
            invariant
                0 <= i <= self.entries@.len(),
                self@.len() == self.entries@.len(),
                forall|k: int| 0 <= k < i ==> (#[trigger] self@[k].name) != name@,
            decreases self.entries@.len() - i,
        {
            proof {
                assert(self@[i as int] == self.entries@[i as int].deep_view());
            }
            if str_eq(self.entries[i].name.as_str(), name) {
                proof {
                    lemma_lookup_found(self@, name@, i as int);
                }
                let versions = &self.entries[i].versions;
                let mut j: usize = 0;
                while j < versions.len()
                    invariant
                        0 <= j <= versions@.len(),
                        versions.deep_view() == table_lookup(self@, name@),
                        versions@.len() == versions.deep_view().len(),
                        forall|k: int|
                            0 <= k < j ==> !range_matches(
                                range@,
                                #[trigger] versions.deep_view()[k],
                            ),
                    decreases versions@.len() - j,
                {
                    proof {
                        assert(versions.deep_view()[j as int] == versions@[j as int].deep_view());
                    }
                    if range.compare(&versions[j]) {
                        return true;
                    }
                    j = j + 1;
                }
                return false;
            }
            i = i + 1;
        }
        proof {
            lemma_lookup_absent(self@, name@);
        }
        false
    }
}

fn clone_version_list(v: &Vec<Version>) -> (r: Vec<Version>)
    ensures
        r.deep_view() == v.deep_view(),
{
    let mut r: Vec<Version> = Vec::new();
    let mut i: usize = 0;
    while i < v.len()
        invariant
            0 <= i <= v.len(),
            r@.len() == i,
            forall|k: int| 0 <= k < i ==> r@[k].deep_view() == v@[k].deep_view(),
        decreases v.len() - i,
    {
        r.push(v[i].clone());
        i = i + 1;
    }
    assert(r.deep_view() =~~= v.deep_view());
    r
}

// ---------------------------------------------------------------------------
// Building the catalog index
// ---------------------------------------------------------------------------

/// Builds the catalog index from the installed packages: the real versions
/// per name, and the available versions per name, which also count every
/// virtual provision.
pub fn build_package_maps(installed_packages: &PackageListData) -> (r: (VersionTable, VersionTable))
    ensures
        table_keys_distinct(r.0@),
        table_keys_distinct(r.1@),
        forall|n: Seq<char>| table_lookup(r.0@, n) == real_versions(installed_packages@, n),
        forall|n: Seq<char>| table_lookup(r.1@, n) == avail_versions(installed_packages@, n),
{
    let mut real_packages = VersionTable::new();
    let mut available_packages = VersionTable::new();
    let ghost inst = installed_packages@;
    let list = &installed_packages.installed_packages;
    let mut i: usize = 0;
    while i < list.len()
        invariant
            inst == list.deep_view(),
            inst.len() == list@.len(),
            0 <= i <= list@.len(),
            table_keys_distinct(real_packages@),
            table_keys_distinct(available_packages@),
            forall|n: Seq<char>|
                table_lookup(real_packages@, n) == real_versions(inst.take(i as int), n),
            forall|n: Seq<char>|
                table_lookup(available_packages@, n) == avail_versions(inst.take(i as int), n),
        decreases list@.len() - i,
    {
        let p = &list[i];
        let ghost pv = inst[i as int];
        proof {
            assert(pv == list@[i as int].deep_view());
        }
        let name = &p.info.about.package.name;
        let version = &p.info.about.package.version;
        let ghost real0 = real_packages@;
        real_packages.push_version(name, version.clone());
        proof {
            assert(inst.take(i + 1).drop_last() =~= inst.take(i as int));
            assert(inst.take(i + 1).last() == pv);
            assert forall|n: Seq<char>|
                table_lookup(real_packages@, n) == real_versions(
                    inst.take(i + 1),
                    n,
                ) by {
                if n == name@ {
                    assert(table_lookup(real_packages@, n) == table_lookup(real0, n).push(
                        version@,
                    ));
                    assert(real_versions(inst.take(i as int), n).push(version@) =~= real_versions(
                        inst.take(i as int),
                        n,
                    ) + own_contrib(pv, n));
                } else {
                    assert(real_versions(inst.take(i as int), n) + own_contrib(pv, n)
                        =~= real_versions(inst.take(i as int), n));
                }
            }
        }
        let ghost avail0 = available_packages@;
        available_packages.push_version(name, version.clone());
        proof {
            assert forall|n: Seq<char>|
                table_lookup(available_packages@, n) == avail_versions(inst.take(i as int), n)
                    + own_contrib(pv, n) by {
                if n == name@ {
                    assert(avail_versions(inst.take(i as int), n).push(version@)
                        =~= avail_versions(inst.take(i as int), n) + own_contrib(pv, n));
                } else {
                    assert(avail_versions(inst.take(i as int), n) + own_contrib(pv, n)
                        =~= avail_versions(inst.take(i as int), n));
                }
            }
        }
        let virtuals = &p.info.relation.virtuals;
        let ghost vvs = pv.info.relation.virtuals;
        proof {
            assert(vvs == virtuals.deep_view());
        }
        let mut j: usize = 0;
        while j < virtuals.len()
            invariant
                vvs == virtuals.deep_view(),
                vvs.len() == virtuals@.len(),
                0 <= j <= virtuals@.len(),
                table_keys_distinct(available_packages@),
                forall|n: Seq<char>|
                    table_lookup(available_packages@, n) == avail_versions(inst.take(i as int), n)
                        + own_contrib(pv, n) + virt_versions(vvs.take(j as int), n),
            decreases virtuals@.len() - j,
        {
            let v = &virtuals[j];
            let ghost vv = vvs[j as int];
            proof {
                assert(vv == virtuals@[j as int].deep_view());
            }
            let ghost avail1 = available_packages@;
            available_packages.push_version(&v.name, v.version.clone());
            proof {
                assert(vvs.take(j + 1).drop_last() =~= vvs.take(j as int));
                assert(vvs.take(j + 1).last() == vv);
                assert forall|n: Seq<char>|
                    table_lookup(available_packages@, n) == avail_versions(inst.take(i as int), n)
                        + own_contrib(pv, n) + virt_versions(vvs.take(j + 1), n) by {
                    if n == vv.name {
                        assert((avail_versions(inst.take(i as int), n) + own_contrib(pv, n)
                            + virt_versions(vvs.take(j as int), n)).push(vv.version)
                            =~= avail_versions(inst.take(i as int), n) + own_contrib(pv, n)
                            + virt_versions(vvs.take(j + 1), n));
                    } else {
                        assert(avail_versions(inst.take(i as int), n) + own_contrib(pv, n)
                            + virt_versions(vvs.take(j + 1), n) =~= avail_versions(
                            inst.take(i as int),
                            n,
                        ) + own_contrib(pv, n) + virt_versions(vvs.take(j as int), n));
                    }
                }
            }
            j = j + 1;
        }
        proof {
            assert(vvs.take(vvs.len() as int) =~= vvs);
            assert forall|n: Seq<char>|
                table_lookup(available_packages@, n) == avail_versions(
                    inst.take(i + 1),
                    n,
                ) by {
                assert(avail_versions(inst.take(i as int), n) + own_contrib(pv, n) + virt_versions(
                    vvs,
                    n,
                ) =~= avail_versions(inst.take(i as int), n) + record_contrib(pv, n));
            }
        }
        i = i + 1;
    }
    proof {
        assert(inst.take(inst.len() as int) =~= inst);
    }
    (real_packages, available_packages)
}

// ---------------------------------------------------------------------------
// Satisfaction queries
// ---------------------------------------------------------------------------

/// Whether `dep` is satisfied by an installed package or by a virtual
/// provision: some available version of the referenced name lies in the
/// reference's range.
pub fn is_dependency_satisfied(dep: &PackageRange, installed_packages: &PackageListData) -> (r:
    bool)
    ensures
        r == dep_satisfied(installed_packages@, dep@),
{
    let (_, available_packages) = build_package_maps(installed_packages);
    available_packages.any_version_matches(dep.name.as_str(), &dep.range)
}

/// Whether every alternative group of the package's dependencies has at
/// least one satisfied member.
pub fn are_dependencies_satisfied(package: &PackageData, installed_packages: &PackageListData) -> (
    r: bool)
    ensures
        r == all_groups_satisfied(installed_packages@, package@.relation.depend),
{
    let (_, available_packages) = build_package_maps(installed_packages);
    let groups = &package.relation.depend;
    let ghost gdv = groups.deep_view();
    let mut g: usize = 0;
    while g < groups.len()
        invariant
            gdv == groups.deep_view(),
            gdv == package@.relation.depend,
            gdv.len() == groups@.len(),
            0 <= g <= groups@.len(),
            forall|n: Seq<char>|
                table_lookup(available_packages@, n) == avail_versions(installed_packages@, n),
            forall|k: int|
                0 <= k < g ==> group_satisfied(installed_packages@, #[trigger] gdv[k]),
        decreases groups@.len() - g,
    {
        let group = &groups[g];
        proof {
            assert(gdv[g as int] == groups@[g as int].deep_view());
        }
        let mut j: usize = 0;
        let mut found = false;
        while j < group.len() && !found
            invariant
                0 <= g < gdv.len(),
                gdv[g as int] == group.deep_view(),
                group.deep_view().len() == group@.len(),
                0 <= j <= group@.len(),
                forall|n: Seq<char>|
                    table_lookup(available_packages@, n) == avail_versions(installed_packages@, n),
                found ==> group_satisfied(installed_packages@, gdv[g as int]),
                !found ==> forall|k: int|
                    0 <= k < j ==> !dep_satisfied(
                        installed_packages@,
                        #[trigger] group.deep_view()[k],
                    ),
            decreases group@.len() - j,
        {
            proof {
                assert(group.deep_view()[j as int] == group@[j as int].deep_view());
            }
            let dep = &group[j];
            if available_packages.any_version_matches(dep.name.as_str(), &dep.range) {
                found = true;
                proof {
                    assert(dep_satisfied(installed_packages@, group.deep_view()[j as int]));
                    assert(group_satisfied(installed_packages@, gdv[g as int]));
                }
            }
            j = j + 1;
        }
        if !found {
            proof {
                let gv = gdv[g as int];
                assert forall|j2: int| 0 <= j2 < gv.len() implies !dep_satisfied(
                    installed_packages@,
                    #[trigger] gv[j2],
                ) by {
                    assert(gv[j2] == group.deep_view()[j2]);
                }
                assert(!group_satisfied(installed_packages@, gv));
            }
            return false;
        }
        g = g + 1;
    }
    true
}

/// The alternative groups with no satisfied member, in their original
/// order: exactly the unsatisfied groups, none more or fewer.
pub fn get_missing_dependencies(package: &PackageData, installed_packages: &PackageListData) -> (r:
    Vec<Vec<PackageRange>>)
    ensures
        r.deep_view() == missing_groups(installed_packages@, package@.relation.depend),
{
    let (_, available_packages) = build_package_maps(installed_packages);
    let groups = &package.relation.depend;
    let ghost gdv = groups.deep_view();
    let mut missing: Vec<Vec<PackageRange>> = Vec::new();
    let mut g: usize = 0;
    while g < groups.len()
        invariant
            gdv == groups.deep_view(),
            gdv == package@.relation.depend,
            gdv.len() == groups@.len(),
            0 <= g <= groups@.len(),
            forall|n: Seq<char>|
                table_lookup(available_packages@, n) == avail_versions(installed_packages@, n),
            missing.deep_view() == missing_groups(installed_packages@, gdv.take(g as int)),
        decreases groups@.len() - g,
    {
        let group = &groups[g];
        proof {
            assert(gdv[g as int] == groups@[g as int].deep_view());
            assert(gdv.take(g + 1).drop_last() =~= gdv.take(g as int));
            assert(gdv.take(g + 1).last() == gdv[g as int]);
        }
        let mut j: usize = 0;
        let mut found = false;
        while j < group.len() && !found
            invariant
                0 <= g < gdv.len(),
                gdv[g as int] == group.deep_view(),
                group.deep_view().len() == group@.len(),
                0 <= j <= group@.len(),
                forall|n: Seq<char>|
                    table_lookup(available_packages@, n) == avail_versions(installed_packages@, n),
                found ==> group_satisfied(installed_packages@, gdv[g as int]),
                !found ==> forall|k: int|
                    0 <= k < j ==> !dep_satisfied(
                        installed_packages@,
                        #[trigger] group.deep_view()[k],
                    ),
            decreases group@.len() - j,
        {
            proof {
                assert(group.deep_view()[j as int] == group@[j as int].deep_view());
            }
            let dep = &group[j];
            if available_packages.any_version_matches(dep.name.as_str(), &dep.range) {
                found = true;
                proof {
                    assert(dep_satisfied(installed_packages@, group.deep_view()[j as int]));
                    assert(group_satisfied(installed_packages@, gdv[g as int]));
                }
            }
            j = j + 1;
        }
        if !found {
            proof {
                let gv = gdv[g as int];
                assert forall|j2: int| 0 <= j2 < gv.len() implies !dep_satisfied(
                    installed_packages@,
                    #[trigger] gv[j2],
                ) by {
                    assert(gv[j2] == group.deep_view()[j2]);
                }
                assert(!group_satisfied(installed_packages@, gv));
            }
            missing.push(crate::pkg::clone_range_vec(group));
            proof {
                assert(missing.deep_view() =~~= missing_groups(
                    installed_packages@,
                    gdv.take(g + 1),
                ));
            }
        } else {
            proof {
                assert(missing.deep_view() =~= missing_groups(
                    installed_packages@,
                    gdv.take(g + 1),
                ));
            }
        }
        g = g + 1;
    }
    proof {
        assert(gdv.take(gdv.len() as int) =~= gdv);
    }
    missing
}

/// Whether the command `c` is among the available commands.
pub open spec fn cmd_available(avail: Seq<Seq<char>>, c: Seq<char>) -> bool {
    exists|i: int| 0 <= i < avail.len() && avail[i] == c
}

/// The required commands that are not available, in declaration order.
pub open spec fn missing_cmds(avail: Seq<Seq<char>>, cmds: Seq<Seq<char>>) -> Seq<Seq<char>>
    decreases cmds.len(),
{
    if cmds.len() == 0 {
        Seq::empty()
    } else {
        missing_cmds(avail, cmds.drop_last()) + (if cmd_available(avail, cmds.last()) {
            Seq::empty()
        } else {
            seq![cmds.last()]
        })
    }
}

pub(crate) fn cmd_in(available_cmds: &Vec<String>, c: &str) -> (r: bool)
    ensures
        r == cmd_available(available_cmds.deep_view(), c@),
{
    let mut i: usize = 0;
    while i < available_cmds.len()
        invariant
            0 <= i <= available_cmds@.len(),
            available_cmds.deep_view().len() == available_cmds@.len(),
            forall|k: int| 0 <= k < i ==> (#[trigger] available_cmds.deep_view()[k]) != c@,
        decreases available_cmds@.len() - i,
    {
        proof {
            assert(available_cmds.deep_view()[i as int] == available_cmds@[i as int]@);
        }
        if str_eq(available_cmds[i].as_str(), c) {
            return true;
        }
        i = i + 1;
    }
    false
}

/// Whether every command the relation requires is among the available
/// commands.
pub fn are_depend_cmds_available(relation: &RelationData, available_cmds: &Vec<String>) -> (r: bool)
    ensures
        r == (forall|k: int|
            0 <= k < relation@.depend_cmds.len() ==> cmd_available(
                available_cmds.deep_view(),
                #[trigger] relation@.depend_cmds[k],
            )),
{
    let cmds = &relation.depend_cmds;
    let mut i: usize = 0;
    while i < cmds.len()
        invariant
            relation@.depend_cmds == cmds.deep_view(),
            cmds.deep_view().len() == cmds@.len(),
            0 <= i <= cmds@.len(),
            forall|k: int|
                0 <= k < i ==> cmd_available(
                    available_cmds.deep_view(),
                    #[trigger] cmds.deep_view()[k],
                ),
        decreases cmds@.len() - i,
    {
        proof {
            assert(cmds.deep_view()[i as int] == cmds@[i as int]@);
        }
        if !cmd_in(available_cmds, cmds[i].as_str()) {
            return false;
        }
        i = i + 1;
    }
    true
}

/// The required commands that are not available, in declaration order.
pub fn get_missing_depend_cmds(relation: &RelationData, available_cmds: &Vec<String>) -> (r: Vec<
    String,
>)
    ensures
        r.deep_view() == missing_cmds(available_cmds.deep_view(), relation@.depend_cmds),
{
    let cmds = &relation.depend_cmds;
    let ghost cdv = cmds.deep_view();
    let mut missing: Vec<String> = Vec::new();
    let mut i: usize = 0;
    while i < cmds.len()
        invariant
            cdv == cmds.deep_view(),
            cdv.len() == cmds@.len(),
            0 <= i <= cmds@.len(),
            missing.deep_view() == missing_cmds(available_cmds.deep_view(), cdv.take(i as int)),
        decreases cmds@.len() - i,
    {
        proof {
            assert(cdv[i as int] == cmds@[i as int]@);
            assert(cdv.take(i + 1).drop_last() =~= cdv.take(i as int));
            assert(cdv.take(i + 1).last() == cdv[i as int]);
        }
        if !cmd_in(available_cmds, cmds[i].as_str()) {
            missing.push(cmds[i].clone());
            proof {
                assert(missing.deep_view() =~~= missing_cmds(
                    available_cmds.deep_view(),
                    cdv.take(i + 1),
                ));
            }
        } else {
            proof {
                assert(missing.deep_view() =~= missing_cmds(
                    available_cmds.deep_view(),
                    cdv.take(i + 1),
                ));
            }
        }
        i = i + 1;
    }
    proof {
        assert(cdv.take(cdv.len() as int) =~= cdv);
    }
    missing
}

/// Whether the conflict entry `c` matches a *real* installed version of
/// its name.
pub open spec fn conflict_hit(inst: Seq<InstalledPackageView>, c: PackageRangeView) -> bool {
    any_match(real_versions(inst, c.name), c.range)
}

/// Whether some conflict entry in `cs` matches a real installed version.
pub open spec fn some_conflict(inst: Seq<InstalledPackageView>, cs: Seq<PackageRangeView>) -> bool {
    exists|k: int| 0 <= k < cs.len() && conflict_hit(inst, #[trigger] cs[k])
}

/// Whether some conflict entry of the package matches a *real* installed
/// version of the conflicting name: virtual provisions never make a
/// conflict.
pub fn has_conflicts(package: &PackageData, installed_packages: &PackageListData) -> (r: bool)
    ensures
        r == some_conflict(installed_packages@, package@.relation.conflicts),
{
    let (real_packages, _) = build_package_maps(installed_packages);
    let conflicts = &package.relation.conflicts;
    let ghost cdv = conflicts.deep_view();
    let mut i: usize = 0;
    while i < conflicts.len()
        invariant
            cdv == conflicts.deep_view(),
            cdv == package@.relation.conflicts,
            cdv.len() == conflicts@.len(),
            0 <= i <= conflicts@.len(),
            forall|n: Seq<char>|
                table_lookup(real_packages@, n) == real_versions(installed_packages@, n),
            forall|k: int| 0 <= k < i ==> !conflict_hit(installed_packages@, #[trigger] cdv[k]),
        decreases conflicts@.len() - i,
    {
        proof {
            assert(cdv[i as int] == conflicts@[i as int].deep_view());
        }
        let conflict = &conflicts[i];
        if real_packages.any_version_matches(conflict.name.as_str(), &conflict.range) {
            proof {
                assert(conflict_hit(installed_packages@, cdv[i as int]));
                assert(cdv == package@.relation.conflicts);
            }
            return true;
        }
        i = i + 1;
    }
    proof {
        assert(cdv == package@.relation.conflicts);
    }
    false
}

} // verus!
