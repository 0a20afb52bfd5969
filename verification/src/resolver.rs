//! The dependency resolver: a catalog of package records keyed by name,
//! walked depth-first to resolve a target's transitive dependencies.
//!
//! The walk keeps a current-path set of the names on the active stack: a
//! name met twice on one path is a circular dependency.  Each alternative
//! group is settled by its first satisfied member, in declared order; a
//! group with no satisfied member aborts the walk.  A package appearing on
//! several paths is visited once per path: the result is not deduplicated.

use vstd::prelude::*;
use vstd::set_lib::*;
use crate::pkg::{PackageData, PackageDataView, PackageRange, PackageRangeView};
use crate::strutil::str_eq;
use crate::version::{range_matches, Version, VersionRange};
use crate::version::{range_display, VersionView};

verus! {

// ---------------------------------------------------------------------------
// Catalog lookup
// ---------------------------------------------------------------------------

/// Whether the catalog's package names are pairwise distinct.
pub open spec fn names_distinct(cat: Seq<PackageDataView>) -> bool {
    forall|i: int, j: int|
        0 <= i < j < cat.len() ==> (#[trigger] cat[i].about.package.name) != (
        #[trigger] cat[j].about.package.name)
}

/// The record registered under `name`, if any.
pub open spec fn lookup_pkg(cat: Seq<PackageDataView>, name: Seq<char>) -> Option<PackageDataView>
    decreases cat.len(),
{
    if cat.len() == 0 {
        None
    } else if cat[0].about.package.name == name {
        Some(cat[0])
    } else {
        lookup_pkg(cat.drop_first(), name)
    }
}

/// Whether some record bears the name `n`.
pub open spec fn has_name(cat: Seq<PackageDataView>, n: Seq<char>) -> bool {
    exists|k: int| 0 <= k < cat.len() && (#[trigger] cat[k].about.package.name) == n
}

proof fn lemma_pkg_lookup_absent(cat: Seq<PackageDataView>, n: Seq<char>)
    requires
        forall|i: int| 0 <= i < cat.len() ==> (#[trigger] cat[i].about.package.name) != n,
    ensures
        lookup_pkg(cat, n) is None,
    decreases cat.len(),
{
    if cat.len() > 0 {
        assert(forall|i: int|
            0 <= i < cat.drop_first().len() ==> (#[trigger] cat.drop_first()[i].about.package.name)
                != n);
        lemma_pkg_lookup_absent(cat.drop_first(), n);
    }
}

proof fn lemma_pkg_lookup_found(cat: Seq<PackageDataView>, n: Seq<char>, i: int)
    requires
        0 <= i < cat.len(),
        cat[i].about.package.name == n,
        forall|k: int| 0 <= k < i ==> (#[trigger] cat[k].about.package.name) != n,
    ensures
        lookup_pkg(cat, n) == Some(cat[i]),
        has_name(cat, n),
    decreases i,
{
    if i > 0 {
        assert(cat.drop_first()[i - 1] == cat[i]);
        assert(forall|k: int|
            0 <= k < i - 1 ==> (#[trigger] cat.drop_first()[k].about.package.name) != n);
        lemma_pkg_lookup_found(cat.drop_first(), n, i - 1);
    }
}

proof fn lemma_pkg_lookup_update(cat: Seq<PackageDataView>, i: int, p: PackageDataView, n: Seq<char>)
    requires
        0 <= i < cat.len(),
        p.about.package.name == cat[i].about.package.name,
        forall|k: int|
            0 <= k < i ==> (#[trigger] cat[k].about.package.name) != cat[i].about.package.name,
    ensures
        cat[i].about.package.name == n ==> lookup_pkg(cat.update(i, p), n) == Some(p),
        cat[i].about.package.name != n ==> lookup_pkg(cat.update(i, p), n) == lookup_pkg(cat, n),
    decreases i,
{
    let c2 = cat.update(i, p);
    if i == 0 {
        if cat[0].about.package.name != n {
            assert(c2.drop_first() =~= cat.drop_first());
        }
    } else {
        assert(c2.drop_first() =~= cat.drop_first().update(i - 1, p));
        assert(cat.drop_first()[i - 1] == cat[i]);
        assert(forall|k: int|
            0 <= k < i - 1 ==> (#[trigger] cat.drop_first()[k].about.package.name)
                != cat.drop_first()[i - 1].about.package.name);
        lemma_pkg_lookup_update(cat.drop_first(), i - 1, p, n);
    }
}

proof fn lemma_pkg_lookup_append(cat: Seq<PackageDataView>, p: PackageDataView, n: Seq<char>)
    requires
        forall|i: int|
            0 <= i < cat.len() ==> (#[trigger] cat[i].about.package.name) != p.about.package.name,
    ensures
        p.about.package.name == n ==> lookup_pkg(cat.push(p), n) == Some(p),
        p.about.package.name != n ==> lookup_pkg(cat.push(p), n) == lookup_pkg(cat, n),
    decreases cat.len(),
{
    if cat.len() > 0 {
        assert(cat.push(p).drop_first() =~= cat.drop_first().push(p));
        lemma_pkg_lookup_append(cat.drop_first(), p, n);
    } else {
        assert(cat.push(p).drop_first() =~= cat);
    }
}

/// A present lookup names what it found.
proof fn lemma_pkg_lookup_names(cat: Seq<PackageDataView>, n: Seq<char>)
    ensures
        lookup_pkg(cat, n) matches Some(p) ==> p.about.package.name == n && has_name(cat, n),
        lookup_pkg(cat, n) is None ==> !has_name(cat, n),
    decreases cat.len(),
{
    if cat.len() > 0 {
        lemma_pkg_lookup_names(cat.drop_first(), n);
        if cat[0].about.package.name != n {
            assert forall|k: int|
                0 <= k < cat.len() && (#[trigger] cat[k].about.package.name) == n implies has_name(
                cat.drop_first(),
                n,
            ) by {
                assert(cat.drop_first()[k - 1].about.package.name == n);
            }
        }
    }
}

// ---------------------------------------------------------------------------
// Satisfaction against the catalog
// ---------------------------------------------------------------------------

/// Whether the record `p` makes `dep` satisfiable: it bears the referenced
/// name at a matching version, or provides it virtually at one.
pub open spec fn provides_match(p: PackageDataView, dep: PackageRangeView) -> bool {
    ||| (p.about.package.name == dep.name && range_matches(dep.range, p.about.package.version))
    ||| (exists|j: int|
        0 <= j < p.relation.virtuals.len() && (#[trigger] p.relation.virtuals[j]).name == dep.name
            && range_matches(dep.range, p.relation.virtuals[j].version))
}

/// Whether `dep` is satisfied by the catalog: some record bears or
/// virtually provides the referenced name at a version in the range.
pub open spec fn cat_dep_satisfied(cat: Seq<PackageDataView>, dep: PackageRangeView) -> bool {
    exists|k: int| 0 <= k < cat.len() && provides_match(#[trigger] cat[k], dep)
}

/// The first member of the group that the catalog satisfies, in declared
/// order.
pub open spec fn first_satisfied(cat: Seq<PackageDataView>, g: Seq<PackageRangeView>) -> Option<
    PackageRangeView,
>
    decreases g.len(),
{
    if g.len() == 0 {
        None
    } else if cat_dep_satisfied(cat, g[0]) {
        Some(g[0])
    } else {
        first_satisfied(cat, g.drop_first())
    }
}

proof fn lemma_first_satisfied_at(cat: Seq<PackageDataView>, g: Seq<PackageRangeView>, j: int)
    requires
        0 <= j < g.len(),
        cat_dep_satisfied(cat, g[j]),
        forall|k: int| 0 <= k < j ==> !cat_dep_satisfied(cat, #[trigger] g[k]),
    ensures
        first_satisfied(cat, g) == Some(g[j]),
    decreases j,
{
    if j > 0 {
        assert(g.drop_first()[j - 1] == g[j]);
        assert(forall|k: int|
            0 <= k < j - 1 ==> !cat_dep_satisfied(cat, #[trigger] g.drop_first()[k]));
        lemma_first_satisfied_at(cat, g.drop_first(), j - 1);
    }
}

proof fn lemma_first_satisfied_none(cat: Seq<PackageDataView>, g: Seq<PackageRangeView>)
    requires
        forall|k: int| 0 <= k < g.len() ==> !cat_dep_satisfied(cat, #[trigger] g[k]),
    ensures
        first_satisfied(cat, g) is None,
    decreases g.len(),
{
    if g.len() > 0 {
        assert(forall|k: int|
            0 <= k < g.drop_first().len() ==> !cat_dep_satisfied(
                cat,
                #[trigger] g.drop_first()[k],
            ));
        lemma_first_satisfied_none(cat, g.drop_first());
    }
}

// ---------------------------------------------------------------------------
// The depth-first resolution model
// ---------------------------------------------------------------------------

/// Why a resolution fails: a name already on the current path, or a name
/// that no catalog record or satisfied alternative covers.
pub enum ResolveFailure {
    Circular(Seq<char>),
    Missing(Seq<char>),
}

/// How many catalog records bear a name not yet on the current path; the
/// walk's termination measure.
pub open spec fn count_unvisited(cat: Seq<PackageDataView>, path: Set<Seq<char>>) -> nat
    decreases cat.len(),
{
    if cat.len() == 0 {
        0
    } else {
        count_unvisited(cat.drop_last(), path) + (if path.contains(
            cat.last().about.package.name,
        ) {
            0nat
        } else {
            1nat
        })
    }
}

/// Entering a name never raises the measure, and strictly lowers it when
/// the name is in the catalog and not yet on the path.
proof fn lemma_count_insert(cat: Seq<PackageDataView>, path: Set<Seq<char>>, n: Seq<char>)
    ensures
        count_unvisited(cat, path.insert(n)) <= count_unvisited(cat, path),
        has_name(cat, n) && !path.contains(n) ==> count_unvisited(cat, path.insert(n))
            < count_unvisited(cat, path),
    decreases cat.len(),
{
    if cat.len() > 0 {
        lemma_count_insert(cat.drop_last(), path, n);
        if has_name(cat, n) && !path.contains(n) {
            if cat.last().about.package.name == n {
            } else {
                let k = choose|k: int|
                    0 <= k < cat.len() && (#[trigger] cat[k].about.package.name) == n;
                assert(cat.drop_last()[k].about.package.name == n);
                assert(has_name(cat.drop_last(), n));
            }
        }
    }
}

/// The outcome of resolving `name` with the names `path` already on the
/// current path: a cycle when `name` is on the path, a missing dependency
/// when no record bears it, else its groups resolved in order.
pub open spec fn dfs(cat: Seq<PackageDataView>, name: Seq<char>, path: Set<Seq<char>>) -> Result<
    Seq<PackageRangeView>,
    ResolveFailure,
>
    decreases count_unvisited(cat, path), 0int, 0int,
    via dfs_decreases
{
    if path.contains(name) {
        Err(ResolveFailure::Circular(name))
    } else {
        match lookup_pkg(cat, name) {
            None => Err(ResolveFailure::Missing(name)),
            Some(pkg) => dfs_groups(cat, pkg.relation.depend, 0, path.insert(name)),
        }
    }
}

/// The outcome of resolving the groups from position `gi` on: each group's
/// first satisfied member is taken and resolved in turn; a group with no
/// satisfied member fails with its first alternative's name.
pub open spec fn dfs_groups(
    cat: Seq<PackageDataView>,
    groups: Seq<Seq<PackageRangeView>>,
    gi: int,
    path: Set<Seq<char>>,
) -> Result<Seq<PackageRangeView>, ResolveFailure>
    decreases count_unvisited(cat, path), 1int, groups.len() - gi,
{
    if gi < 0 || gi >= groups.len() {
        Ok(Seq::empty())
    } else {
        match first_satisfied(cat, groups[gi]) {
            None => Err(ResolveFailure::Missing(groups[gi][0].name)),
            Some(dep) => match dfs(cat, dep.name, path) {
                Err(e) => Err(e),
                Ok(sub) => match dfs_groups(cat, groups, gi + 1, path) {
                    Err(e) => Err(e),
                    Ok(rest) => Ok(seq![dep] + sub + rest),
                },
            },
        }
    }
}

#[via_fn]
proof fn dfs_decreases(cat: Seq<PackageDataView>, name: Seq<char>, path: Set<Seq<char>>) {
    if !path.contains(name) {
        if lookup_pkg(cat, name) is Some {
            lemma_pkg_lookup_names(cat, name);
            lemma_count_insert(cat, path, name);
        }
    }
}

// ---------------------------------------------------------------------------
// Errors
// ---------------------------------------------------------------------------

/// What can go wrong while resolving or checking a package.
#[derive(Debug)]
pub enum DependencyError {
    /// The named package is already on the current resolution path.
    CircularDependency(String),
    /// The named package is installed at a version its range forbids.
    VersionConflict(String, VersionRange, Version),
    /// No catalog record bears the name, or no alternative of one of its
    /// groups is satisfied.
    MissingDependency(String),
    /// A required external command is absent.
    CommandNotFound(String),
}

/// Whether the error `e` reports the failure `f`.
pub open spec fn err_matches(e: DependencyError, f: ResolveFailure) -> bool {
    match f {
        ResolveFailure::Circular(n) => e matches DependencyError::CircularDependency(s) && s@ == n,
        ResolveFailure::Missing(n) => e matches DependencyError::MissingDependency(s) && s@ == n,
    }
}

/// The display form of an error.
pub open spec fn err_display(e: DependencyError) -> Seq<char> {
    match e {
        DependencyError::CircularDependency(p) => "Circular dependency: "@ + p@,
        DependencyError::VersionConflict(p, r, v) => "Version conflict: "@ + p@ + " ("@
            + range_display(r@) + " vs "@ + v@.literal + ")"@,
        DependencyError::MissingDependency(p) => "Missing dependency: "@ + p@,
        DependencyError::CommandNotFound(c) => "Command not found: "@ + c@,
    }
}

impl DependencyError {
    /// Renders the error kind and the name it concerns.
    pub fn to_string(&self) -> (r: String)
        ensures
            r@ == err_display(*self),
    {
        match self {
            DependencyError::CircularDependency(p) => {
                let mut s = "Circular dependency: ".to_owned();
                s.append(p.as_str());
                s
            },
            DependencyError::VersionConflict(p, range, v) => {
                let mut s = "Version conflict: ".to_owned();
                s.append(p.as_str());
                s.append(" (");
                s.append(range.to_string().as_str());
                s.append(" vs ");
                s.append(v.to_string().as_str());
                s.append(")");
                proof {
                    assert(s@ =~= err_display(*self));
                }
                s
            },
            DependencyError::MissingDependency(p) => {
                let mut s = "Missing dependency: ".to_owned();
                s.append(p.as_str());
                s
            },
            DependencyError::CommandNotFound(c) => {
                let mut s = "Command not found: ".to_owned();
                s.append(c.as_str());
                s
            },
        }
    }
}

// ---------------------------------------------------------------------------
// The resolver
// ---------------------------------------------------------------------------

/// A resolver over a catalog of package records, at most one per name.
#[derive(Debug)]
pub struct DependencyResolver {
    packages: Vec<PackageData>,
}

/// Whether every dependency group of the record has at least one
/// alternative.
pub open spec fn pkg_groups_nonempty(p: PackageDataView) -> bool {
    forall|g: int| 0 <= g < p.relation.depend.len() ==> (#[trigger] p.relation.depend[g]).len() > 0
}

/// The names of the strings in `vs`, as a set.
pub open spec fn name_set(vs: Seq<String>) -> Set<Seq<char>> {
    Set::new(|n: Seq<char>| exists|i: int| 0 <= i < vs.len() && (#[trigger] vs[i])@ == n)
}

impl DependencyResolver {
    /// The catalog this resolver walks.
    pub closed spec fn catalog(&self) -> Seq<PackageDataView> {
        self.packages.deep_view()
    }

    /// A well-formed resolver holds at most one record per name.
    pub open spec fn wf(&self) -> bool {
        names_distinct(self.catalog())
    }

    /// Whether every dependency group of every record has at least one
    /// alternative.  Resolution reports a failed group by its first
    /// alternative, so it asks for this.
    pub open spec fn groups_nonempty(&self) -> bool {
        forall|k: int|
            0 <= k < self.catalog().len() ==> pkg_groups_nonempty(#[trigger] self.catalog()[k])
    }

    /// An empty resolver: no package is known.
    pub fn new() -> (r: DependencyResolver)
        ensures
            r.wf(),
            r.groups_nonempty(),
            r.catalog().len() == 0,
    {
        let r = DependencyResolver { packages: Vec::new() };
        proof {
            assert(r.catalog() =~= Seq::<PackageDataView>::empty());
        }
        r
    }

    /// Registers a package under its own name, replacing any record already
    /// registered under that name and leaving every other name as it was.
    pub fn add_package(&mut self, package: PackageData)
        requires
            old(self).wf(),
        ensures
            final(self).wf(),
            lookup_pkg(final(self).catalog(), package@.about.package.name) == Some(package@),
            forall|n: Seq<char>|
                n != package@.about.package.name ==> lookup_pkg(final(self).catalog(), n)
                    == lookup_pkg(old(self).catalog(), n),
            old(self).groups_nonempty() && pkg_groups_nonempty(package@)
                ==> final(self).groups_nonempty(),
    {
        let ghost c0 = self.catalog();
        let ghost pv = package@;
        let name = package.about.package.name.clone();
        let mut i: usize = 0;
        while i < self.packages.len()
            invariant
                self.catalog() == c0,
                c0 == old(self).catalog(),
                pv == package@,
                name@ == pv.about.package.name,
                names_distinct(c0),
                0 <= i <= self.packages@.len(),
                self.packages@.len() == c0.len(),
                forall|k: int| 0 <= k < i ==> (#[trigger] c0[k].about.package.name) != name@,
            decreases self.packages@.len() - i,
        {
            proof {
                assert(c0[i as int] == self.packages@[i as int].deep_view());
            }
            if str_eq(self.packages[i].about.package.name.as_str(), name.as_str()) {
                proof {
                    lemma_pkg_lookup_found(c0, name@, i as int);
                }
                self.packages.set(i, package);
                proof {
                    assert(self.catalog() =~= c0.update(i as int, pv));
                    assert(lookup_pkg(self.catalog(), pv.about.package.name) == Some(pv)) by {
                        lemma_pkg_lookup_update(c0, i as int, pv, pv.about.package.name);
                    }
                    assert forall|n: Seq<char>| n != pv.about.package.name implies lookup_pkg(
                        self.catalog(),
                        n,
                    ) == lookup_pkg(c0, n) by {
                        lemma_pkg_lookup_update(c0, i as int, pv, n);
                    }
                    assert(pv.about.package.name == c0[i as int].about.package.name);
                    assert forall|a: int, b: int|
                        0 <= a < b < self.catalog().len() implies (
                    #[trigger] self.catalog()[a].about.package.name) != (
                    #[trigger] self.catalog()[b].about.package.name) by {
                        assert(self.catalog()[a].about.package.name == c0[a].about.package.name);
                        assert(self.catalog()[b].about.package.name == c0[b].about.package.name);
                    }
                    if old(self).groups_nonempty() && pkg_groups_nonempty(pv) {
                        assert forall|k: int|
                            0 <= k < self.catalog().len() implies pkg_groups_nonempty(
                            #[trigger] self.catalog()[k],
                        ) by {
                            assert(self.catalog()[k] == c0[k] || self.catalog()[k] == pv);
                        }
                    }
                }
                return ;
            }
            i = i + 1;
        }
        self.packages.push(package);
        proof {
            assert(self.catalog() =~= c0.push(pv));
            assert(lookup_pkg(self.catalog(), pv.about.package.name) == Some(pv)) by {
                lemma_pkg_lookup_append(c0, pv, pv.about.package.name);
            }
            assert forall|n: Seq<char>| n != pv.about.package.name implies lookup_pkg(
                self.catalog(),
                n,
            ) == lookup_pkg(c0, n) by {
                lemma_pkg_lookup_append(c0, pv, n);
            }
            assert forall|a: int, b: int|
                0 <= a < b < self.catalog().len() implies (
            #[trigger] self.catalog()[a].about.package.name) != (
            #[trigger] self.catalog()[b].about.package.name) by {
                if b < c0.len() {
                    assert(self.catalog()[a].about.package.name == c0[a].about.package.name);
                    assert(self.catalog()[b].about.package.name == c0[b].about.package.name);
                } else {
                    assert(self.catalog()[b].about.package.name == name@);
                    assert(self.catalog()[a].about.package.name == c0[a].about.package.name);
                }
            }
            if old(self).groups_nonempty() && pkg_groups_nonempty(pv) {
                assert forall|k: int|
                    0 <= k < self.catalog().len() implies pkg_groups_nonempty(
                    #[trigger] self.catalog()[k],
                ) by {
                    assert(self.catalog()[k] == c0[k] || self.catalog()[k] == pv);
                }
            }
        }
    }

    /// The index of the record bearing `name`, if any.
    fn find_package(&self, name: &str) -> (r: Option<usize>)
        ensures
            match r {
                Some(i) => 0 <= i < self.catalog().len() && lookup_pkg(self.catalog(), name@)
                    == Some(self.catalog()[i as int]),
                None => lookup_pkg(self.catalog(), name@) is None,
            },
    {
        let mut i: usize = 0;
        while i < self.packages.len()
            invariant
                0 <= i <= self.packages@.len(),
                self.packages@.len() == self.catalog().len(),
                forall|k: int| 0 <= k < i ==> (#[trigger] self.catalog()[k].about.package.name) != name@,
            decreases self.packages@.len() - i,
        {
            proof {
                assert(self.catalog()[i as int] == self.packages@[i as int].deep_view());
            }
            if str_eq(self.packages[i].about.package.name.as_str(), name) {
                proof {
                    lemma_pkg_lookup_found(self.catalog(), name@, i as int);
                }
                return Some(i);
            }
            i = i + 1;
        }
        proof {
            lemma_pkg_lookup_absent(self.catalog(), name@);
        }
        None
    }

    /// Whether the catalog satisfies `dep`: some record bears or virtually
    /// provides the referenced name at a version in the range.
    fn can_satisfy_dependency(&self, dep: &PackageRange) -> (r: bool)
        ensures
            r == cat_dep_satisfied(self.catalog(), dep@),
    {
        let ghost cat = self.catalog();
        let mut k: usize = 0;
        while k < self.packages.len()
            invariant
                cat == self.catalog(),
                0 <= k <= self.packages@.len(),
                self.packages@.len() == cat.len(),
                forall|m: int| 0 <= m < k ==> !provides_match(#[trigger] cat[m], dep@),
            decreases self.packages@.len() - k,
        {
            let p = &self.packages[k];
            proof {
                assert(cat[k as int] == self.packages@[k as int].deep_view());
            }
            if str_eq(p.about.package.name.as_str(), dep.name.as_str()) {
                if dep.range.compare(&p.about.package.version) {
                    proof {
                        assert(provides_match(cat[k as int], dep@));
                    }
                    return true;
                }
            }
            let virtuals = &p.relation.virtuals;
            let mut j: usize = 0;
            while j < virtuals.len()
                invariant
                    cat == self.catalog(),
                    0 <= k < cat.len(),
                    cat[k as int] == self.packages@[k as int].deep_view(),
                    virtuals.deep_view() == cat[k as int].relation.virtuals,
                    virtuals@.len() == virtuals.deep_view().len(),
                    0 <= j <= virtuals@.len(),
                    forall|m: int|
                        0 <= m < j ==> !((#[trigger] cat[k as int].relation.virtuals[m]).name
                            == dep@.name && range_matches(
                            dep@.range,
                            cat[k as int].relation.virtuals[m].version,
                        )),
                decreases virtuals@.len() - j,
            {
                proof {
                    assert(cat[k as int].relation.virtuals[j as int] == virtuals@[j as int].deep_view());
                }
                let v = &virtuals[j];
                if str_eq(v.name.as_str(), dep.name.as_str()) {
                    if dep.range.compare(&v.version) {
                        proof {
                            assert(provides_match(cat[k as int], dep@));
                        }
                        return true;
                    }
                }
                j = j + 1;
            }
            proof {
                assert(!provides_match(cat[k as int], dep@));
            }
            k = k + 1;
        }
        false
    }
}

// ---------------------------------------------------------------------------
// Resolution
// ---------------------------------------------------------------------------

/// `r` with `acc` prepended to a successful result.
pub open spec fn with_prefix(
    acc: Seq<PackageRangeView>,
    r: Result<Seq<PackageRangeView>, ResolveFailure>,
) -> Result<Seq<PackageRangeView>, ResolveFailure> {
    match r {
        Ok(rest) => Ok(acc + rest),
        Err(e) => Err(e),
    }
}

proof fn lemma_with_prefix_empty(r: Result<Seq<PackageRangeView>, ResolveFailure>)
    ensures
        with_prefix(Seq::empty(), r) == r,
{
    match r {
        Ok(rest) => {
            assert(Seq::<PackageRangeView>::empty() + rest =~= rest);
        },
        Err(_) => {},
    }
}

proof fn lemma_name_set_push(vs: Seq<String>, s: String)
    ensures
        name_set(vs.push(s)) =~= name_set(vs).insert(s@),
{
    assert forall|n: Seq<char>|
        name_set(vs.push(s)).contains(n) == name_set(vs).insert(s@).contains(n) by {
        if name_set(vs.push(s)).contains(n) {
            let i = choose|i: int| 0 <= i < vs.push(s).len() && (#[trigger] vs.push(s)[i])@ == n;
            if i < vs.len() {
                assert(vs[i]@ == n);
            }
        }
        if name_set(vs).contains(n) {
            let i = choose|i: int| 0 <= i < vs.len() && (#[trigger] vs[i])@ == n;
            assert(vs.push(s)[i]@ == n);
        }
        if n == s@ {
            assert(vs.push(s)[vs.len() as int]@ == n);
        }
    }
}

fn vec_contains_name(vs: &Vec<String>, name: &str) -> (r: bool)
    ensures
        r == name_set(vs@).contains(name@),
{
    let mut i: usize = 0;
    while i < vs.len()
        invariant
            0 <= i <= vs@.len(),
            forall|k: int| 0 <= k < i ==> (#[trigger] vs@[k])@ != name@,
        decreases vs@.len() - i,
    {
        if str_eq(vs[i].as_str(), name) {
            return true;
        }
        i = i + 1;
    }
    false
}

impl DependencyResolver {
    /// Resolves the full transitive dependency closure of `package_name`
    /// per [`dfs`]: the references chosen along the depth-first walk, in
    /// visit order, or the first cycle or missing dependency met.
    pub fn resolve(&self, package_name: &str) -> (r: Result<Vec<PackageRange>, DependencyError>)
        requires
            self.wf(),
            self.groups_nonempty(),
        ensures
            match dfs(self.catalog(), package_name@, Set::empty()) {
                Ok(s) => r matches Ok(v) && v.deep_view() == s,
                Err(f) => r matches Err(e) && err_matches(e, f),
            },
    {
        let mut resolved: Vec<PackageRange> = Vec::new();
        let mut visited: Vec<String> = Vec::new();
        proof {
            assert(name_set(visited@) =~= Set::<Seq<char>>::empty());
            assert(resolved.deep_view() =~= Seq::<PackageRangeView>::empty());
        }
        match self.resolve_recursive(package_name, &mut resolved, &mut visited) {
            Ok(()) => {
                proof {
                    let r0 = dfs(self.catalog(), package_name@, Set::empty());
                    if r0 is Ok {
                        assert(resolved.deep_view() =~= r0->Ok_0);
                    }
                }
                Ok(resolved)
            },
            Err(e) => Err(e),
        }
    }

    /// One step of the depth-first walk: fails on a name already on the
    /// path or absent from the catalog, else resolves each group through
    /// its first satisfied alternative, appending the chosen references to
    /// `resolved`.  On success the path is restored exactly as it was.
    fn resolve_recursive(
        &self,
        package_name: &str,
        resolved: &mut Vec<PackageRange>,
        visited: &mut Vec<String>,
    ) -> (r: Result<(), DependencyError>)
        requires
            self.wf(),
            self.groups_nonempty(),
        ensures
            match dfs(self.catalog(), package_name@, name_set(old(visited)@)) {
                Ok(s) => r is Ok && final(resolved).deep_view() == old(resolved).deep_view() + s
                    && final(visited)@ == old(visited)@,
                Err(f) => r matches Err(e) && err_matches(e, f),
            },
        decreases count_unvisited(self.catalog(), name_set(visited@)),
    {
        let ghost cat = self.catalog();
        let ghost path0 = name_set(visited@);
        let ghost res0 = resolved.deep_view();
        if vec_contains_name(visited, package_name) {
            return Err(DependencyError::CircularDependency(package_name.to_owned()));
        }
        let pkg_idx = match self.find_package(package_name) {
            Some(i) => i,
            None => {
                return Err(DependencyError::MissingDependency(package_name.to_owned()));
            },
        };
        let ghost pkgv = cat[pkg_idx as int];
        let ghost path1 = path0.insert(package_name@);
        let owned_name = package_name.to_owned();
        let ghost pushed = owned_name;
        visited.push(owned_name);
        proof {
            lemma_name_set_push(old(visited)@, pushed);
            assert(name_set(visited@) == path1);
        }
        let groups = &self.packages[pkg_idx].relation.depend;
        let ghost gdv = pkgv.relation.depend;
        proof {
            assert(pkgv == self.packages@[pkg_idx as int].deep_view());
            assert(gdv == groups.deep_view());
            assert(dfs(cat, package_name@, path0) == dfs_groups(cat, gdv, 0, path1));
        }
        let ghost mut acc: Seq<PackageRangeView> = Seq::empty();
        proof {
            lemma_with_prefix_empty(dfs_groups(cat, gdv, 0, path1));
            assert(res0 + acc =~= res0);
        }
        let mut g: usize = 0;
        while g < groups.len()
            invariant
                self.wf(),
                self.groups_nonempty(),
                cat == self.catalog(),
                path0 == name_set(old(visited)@),
                res0 == old(resolved).deep_view(),
                path1 == path0.insert(package_name@),
                !path0.contains(package_name@),
                0 <= pkg_idx < cat.len(),
                pkgv == cat[pkg_idx as int],
                lookup_pkg(cat, package_name@) == Some(pkgv),
                gdv == groups.deep_view(),
                gdv == pkgv.relation.depend,
                gdv.len() == groups@.len(),
                0 <= g <= groups@.len(),
                visited@ == old(visited)@.push(pushed),
                pushed@ == package_name@,
                name_set(visited@) == path1,
                resolved.deep_view() == res0 + acc,
                dfs_groups(cat, gdv, 0, path1) == with_prefix(
                    acc,
                    dfs_groups(cat, gdv, g as int, path1),
                ),
            decreases groups@.len() - g,
        {
            let group = &groups[g];
            proof {
                assert(gdv[g as int] == groups@[g as int].deep_view());
                assert(pkg_groups_nonempty(cat[pkg_idx as int]));
                assert(gdv[g as int].len() > 0);
            }
            let mut j: usize = 0;
            let mut group_resolved = false;
            while j < group.len() && !group_resolved
                invariant
                    self.wf(),
                    self.groups_nonempty(),
                    cat == self.catalog(),
                    path0 == name_set(old(visited)@),
                    res0 == old(resolved).deep_view(),
                    path1 == path0.insert(package_name@),
                    !path0.contains(package_name@),
                    0 <= pkg_idx < cat.len(),
                    pkgv == cat[pkg_idx as int],
                    lookup_pkg(cat, package_name@) == Some(pkgv),
                    gdv == pkgv.relation.depend,
                    0 <= g < gdv.len(),
                    gdv[g as int] == group.deep_view(),
                    gdv[g as int].len() == group@.len(),
                    0 <= j <= group@.len(),
                    visited@ == old(visited)@.push(pushed),
                    pushed@ == package_name@,
                    name_set(visited@) == path1,
                    resolved.deep_view() == res0 + acc,
                    !group_resolved ==> forall|k: int|
                        0 <= k < j ==> !cat_dep_satisfied(cat, #[trigger] gdv[g as int][k]),
                    !group_resolved ==> dfs_groups(cat, gdv, 0, path1) == with_prefix(
                        acc,
                        dfs_groups(cat, gdv, g as int, path1),
                    ),
                    group_resolved ==> dfs_groups(cat, gdv, 0, path1) == with_prefix(
                        acc,
                        dfs_groups(cat, gdv, g + 1, path1),
                    ),
                decreases group@.len() - j,
            {
                proof {
                    assert(gdv[g as int][j as int] == group@[j as int].deep_view());
                }
                let dep = &group[j];
                if self.can_satisfy_dependency(dep) {
                    proof {
                        lemma_first_satisfied_at(cat, gdv[g as int], j as int);
                        assert(first_satisfied(cat, gdv[g as int]) == Some(dep@));
                    }
                    let ghost resolved_pre = resolved.deep_view();
                    resolved.push(dep.clone());
                    let ghost acc1 = acc + seq![dep@];
                    proof {
                        assert(resolved_pre == res0 + acc);
                        assert(resolved_pre.len() == res0.len() + acc.len());
                        assert(resolved@.len() == resolved_pre.len() + 1);
                        assert(resolved@.len() as int == res0.len() + acc1.len());
                        assert forall|k: int|
                            0 <= k < resolved@.len() implies #[trigger] resolved.deep_view()[k] == (
                        res0 + acc1)[k] by {
                            if k < resolved@.len() - 1 {
                                assert(resolved.deep_view()[k] == resolved_pre[k]);
                                assert((res0 + acc1)[k] == (res0 + acc)[k]);
                            } else {
                                assert(resolved.deep_view()[k] == dep@);
                                assert((res0 + acc1)[k] == dep@);
                            }
                        }
                        assert(resolved.deep_view() =~= res0 + acc1);
                        lemma_pkg_lookup_names(cat, package_name@);
                        lemma_count_insert(cat, path0, package_name@);
                        assert(count_unvisited(cat, path1) < count_unvisited(cat, path0));
                    }
                    let rr = self.resolve_recursive(dep.name.as_str(), resolved, visited);
                    match rr {
                        Err(e) => {
                            proof {
                                let sub_r = dfs(cat, dep@.name, path1);
                                assert(sub_r is Err);
                                let f = sub_r->Err_0;
                                assert(dfs_groups(cat, gdv, g as int, path1) == Err::<
                                    Seq<PackageRangeView>,
                                    ResolveFailure,
                                >(f));
                                assert(dfs(cat, package_name@, path0) == Err::<
                                    Seq<PackageRangeView>,
                                    ResolveFailure,
                                >(f));
                                assert(err_matches(e, f));
                            }
                            return Err(e);
                        },
                        Ok(()) => {
                            proof {
                                let sub_r = dfs(cat, dep@.name, path1);
                                assert(sub_r is Ok);
                                let sub = sub_r->Ok_0;
                                let acc_new = acc1 + sub;
                                assert(resolved.deep_view() == (res0 + acc1) + sub);
                                assert((res0 + acc1) + sub =~= res0 + acc_new);
                                assert(dfs_groups(cat, gdv, g as int, path1) == (
                                match dfs_groups(cat, gdv, g + 1, path1) {
                                    Ok(rest) => Ok::<Seq<PackageRangeView>, ResolveFailure>(
                                        seq![dep@] + sub + rest,
                                    ),
                                    Err(e2) => Err(e2),
                                }));
                                match dfs_groups(cat, gdv, g + 1, path1) {
                                    Ok(rest) => {
                                        assert(acc + (seq![dep@] + sub + rest) =~= acc_new + rest);
                                    },
                                    Err(_) => {},
                                }
                                acc = acc_new;
                            }
                            group_resolved = true;
                        },
                    }
                }
                j = j + 1;
            }
            if !group_resolved {
                proof {
                    assert(forall|k: int|
                        0 <= k < gdv[g as int].len() ==> !cat_dep_satisfied(
                            cat,
                            #[trigger] gdv[g as int][k],
                        ));
                    lemma_first_satisfied_none(cat, gdv[g as int]);
                    assert(dfs_groups(cat, gdv, g as int, path1) == Err::<
                        Seq<PackageRangeView>,
                        ResolveFailure,
                    >(ResolveFailure::Missing(gdv[g as int][0].name)));
                    assert(gdv[g as int][0] == group@[0].deep_view());
                }
                return Err(DependencyError::MissingDependency(group[0].name.clone()));
            }
            g = g + 1;
        }
        proof {
            assert(dfs_groups(cat, gdv, g as int, path1) == Ok::<
                Seq<PackageRangeView>,
                ResolveFailure,
            >(Seq::empty()));
            assert(acc + Seq::<PackageRangeView>::empty() =~= acc);
            assert(dfs(cat, package_name@, path0) == Ok::<Seq<PackageRangeView>, ResolveFailure>(
                acc,
            ));
        }
        visited.pop();
        proof {
            assert(visited@ =~= old(visited)@);
        }
        Ok(())
    }
}

// ---------------------------------------------------------------------------
// Conflicts and recommendations
// ---------------------------------------------------------------------------

/// The installed version the conflict entry `c` clashes with, if the
/// catalog registers `c`'s name at a version inside `c`'s range.
pub open spec fn conflict_at(cat: Seq<PackageDataView>, c: PackageRangeView) -> Option<VersionView> {
    match lookup_pkg(cat, c.name) {
        Some(p) => if range_matches(c.range, p.about.package.version) {
            Some(p.about.package.version)
        } else {
            None
        },
        None => None,
    }
}

/// The first conflict entry that clashes, with the clashing version.
pub open spec fn first_conflict(cat: Seq<PackageDataView>, cs: Seq<PackageRangeView>) -> Option<
    (PackageRangeView, VersionView),
>
    decreases cs.len(),
{
    if cs.len() == 0 {
        None
    } else {
        match conflict_at(cat, cs[0]) {
            Some(v) => Some((cs[0], v)),
            None => first_conflict(cat, cs.drop_first()),
        }
    }
}

proof fn lemma_first_conflict_at(cat: Seq<PackageDataView>, cs: Seq<PackageRangeView>, i: int)
    requires
        0 <= i < cs.len(),
        conflict_at(cat, cs[i]) is Some,
        forall|k: int| 0 <= k < i ==> conflict_at(cat, #[trigger] cs[k]) is None,
    ensures
        first_conflict(cat, cs) == Some((cs[i], conflict_at(cat, cs[i])->0)),
    decreases i,
{
    if i > 0 {
        assert(cs.drop_first()[i - 1] == cs[i]);
        assert(forall|k: int|
            0 <= k < i - 1 ==> conflict_at(cat, #[trigger] cs.drop_first()[k]) is None);
        lemma_first_conflict_at(cat, cs.drop_first(), i - 1);
    }
}

proof fn lemma_first_conflict_none(cat: Seq<PackageDataView>, cs: Seq<PackageRangeView>)
    requires
        forall|k: int| 0 <= k < cs.len() ==> conflict_at(cat, #[trigger] cs[k]) is None,
    ensures
        first_conflict(cat, cs) is None,
    decreases cs.len(),
{
    if cs.len() > 0 {
        assert(forall|k: int|
            0 <= k < cs.drop_first().len() ==> conflict_at(
                cat,
                #[trigger] cs.drop_first()[k],
            ) is None);
        lemma_first_conflict_none(cat, cs.drop_first());
    }
}

/// The first satisfied alternative of each group, in group order, for
/// groups that have one; groups with none are silently skipped.
pub open spec fn picks(cat: Seq<PackageDataView>, groups: Seq<Seq<PackageRangeView>>) -> Seq<
    PackageRangeView,
>
    decreases groups.len(),
{
    if groups.len() == 0 {
        Seq::empty()
    } else {
        picks(cat, groups.drop_last()) + (match first_satisfied(cat, groups.last()) {
            Some(d) => seq![d],
            None => Seq::empty(),
        })
    }
}

impl DependencyResolver {
    /// Checks the named package's conflicts against the catalog: reports
    /// the first conflict entry whose name is registered at a version
    /// inside the forbidden range, with that version; errs with a missing
    /// dependency when the package itself is unknown.
    pub fn check_conflicts(&self, package_name: &str) -> (r: Result<(), DependencyError>)
        ensures
            match lookup_pkg(self.catalog(), package_name@) {
                None => r matches Err(e) && e matches DependencyError::MissingDependency(s) && s@
                    == package_name@,
                Some(pkg) => match first_conflict(self.catalog(), pkg.relation.conflicts) {
                    None => r is Ok,
                    Some(cv) => r matches Err(e) && e matches DependencyError::VersionConflict(
                        n,
                        rg,
                        v,
                    ) && n@ == cv.0.name && rg@ == cv.0.range && v@ == cv.1,
                },
            },
    {
        let ghost cat = self.catalog();
        let pkg_idx = match self.find_package(package_name) {
            Some(i) => i,
            None => {
                return Err(DependencyError::MissingDependency(package_name.to_owned()));
            },
        };
        let ghost pkgv = cat[pkg_idx as int];
        let conflicts = &self.packages[pkg_idx].relation.conflicts;
        let ghost cdv = pkgv.relation.conflicts;
        proof {
            assert(pkgv == self.packages@[pkg_idx as int].deep_view());
            assert(cdv == conflicts.deep_view());
        }
        let mut i: usize = 0;
        while i < conflicts.len()
            invariant
                cat == self.catalog(),
                0 <= pkg_idx < cat.len(),
                pkgv == cat[pkg_idx as int],
                lookup_pkg(cat, package_name@) == Some(pkgv),
                cdv == conflicts.deep_view(),
                cdv == pkgv.relation.conflicts,
                cdv.len() == conflicts@.len(),
                0 <= i <= conflicts@.len(),
                forall|k: int| 0 <= k < i ==> conflict_at(cat, #[trigger] cdv[k]) is None,
            decreases conflicts@.len() - i,
        {
            proof {
                assert(cdv[i as int] == conflicts@[i as int].deep_view());
            }
            let conflict = &conflicts[i];
            match self.find_package(conflict.name.as_str()) {
                Some(other_idx) => {
                    let existing = &self.packages[other_idx];
                    proof {
                        assert(cat[other_idx as int] == self.packages@[other_idx as int].deep_view());
                    }
                    if conflict.range.compare(&existing.about.package.version) {
                        proof {
                            assert(conflict_at(cat, cdv[i as int]) == Some(
                                cat[other_idx as int].about.package.version,
                            ));
                            lemma_first_conflict_at(cat, cdv, i as int);
                        }
                        return Err(
                            DependencyError::VersionConflict(
                                conflict.name.clone(),
                                conflict.range.clone(),
                                existing.about.package.version.clone(),
                            ),
                        );
                    }
                },
                None => {},
            }
            proof {
                assert(conflict_at(cat, cdv[i as int]) is None);
            }
            i = i + 1;
        }
        proof {
            lemma_first_conflict_none(cat, cdv);
        }
        Ok(())
    }

    /// The advisory references for the named package: for each group of
    /// its recommendations and then of its suggestions, the first satisfied
    /// alternative, flattened in order; `None` when the package is unknown.
    pub fn get_recommendations(&self, package_name: &str) -> (r: Option<Vec<PackageRange>>)
        ensures
            match lookup_pkg(self.catalog(), package_name@) {
                None => r is None,
                Some(pkg) => r matches Some(v) && v.deep_view() == picks(
                    self.catalog(),
                    pkg.relation.recommends,
                ) + picks(self.catalog(), pkg.relation.suggests),
            },
    {
        let ghost cat = self.catalog();
        let pkg_idx = match self.find_package(package_name) {
            Some(i) => i,
            None => {
                return None;
            },
        };
        let ghost pkgv = cat[pkg_idx as int];
        proof {
            assert(pkgv == self.packages@[pkg_idx as int].deep_view());
        }
        let mut recommendations: Vec<PackageRange> = Vec::new();
        proof {
            assert(recommendations.deep_view() =~= Seq::<PackageRangeView>::empty());
        }
        let recs = &self.packages[pkg_idx].relation.recommends;
        let ghost rdv = pkgv.relation.recommends;
        self.pick_satisfied(recs, Ghost(rdv), &mut recommendations);
        proof {
            assert(Seq::<PackageRangeView>::empty() + picks(cat, rdv) =~= picks(cat, rdv));
        }
        let sugs = &self.packages[pkg_idx].relation.suggests;
        let ghost sdv = pkgv.relation.suggests;
        self.pick_satisfied(sugs, Ghost(sdv), &mut recommendations);
        Some(recommendations)
    }

    /// Appends to `out` the first satisfied alternative of each group that
    /// has one, in group order.
    fn pick_satisfied(
        &self,
        groups: &Vec<Vec<PackageRange>>,
        Ghost(gdv): Ghost<Seq<Seq<PackageRangeView>>>,
        out: &mut Vec<PackageRange>,
    )
        requires
            gdv == groups.deep_view(),
        ensures
            final(out).deep_view() == old(out).deep_view() + picks(self.catalog(), gdv),
    {
        let ghost cat = self.catalog();
        let ghost out0 = out.deep_view();
        let mut g: usize = 0;
        while g < groups.len()
            invariant
                cat == self.catalog(),
                gdv == groups.deep_view(),
                gdv.len() == groups@.len(),
                0 <= g <= groups@.len(),
                out0 == old(out).deep_view(),
                out.deep_view() == out0 + picks(cat, gdv.take(g as int)),
            decreases groups@.len() - g,
        {
            let group = &groups[g];
            proof {
                assert(gdv[g as int] == groups@[g as int].deep_view());
                assert(gdv.take(g + 1).drop_last() =~= gdv.take(g as int));
                assert(gdv.take(g + 1).last() == gdv[g as int]);
            }
            let mut j: usize = 0;
            let mut found = false;
            while j < group.len() && !found
                invariant
                    cat == self.catalog(),
                    0 <= g < gdv.len(),
                    gdv[g as int] == group.deep_view(),
                    gdv[g as int].len() == group@.len(),
                    0 <= j <= group@.len(),
                    out0 == old(out).deep_view(),
                    !found ==> out.deep_view() == out0 + picks(cat, gdv.take(g as int)),
                    !found ==> forall|k: int|
                        0 <= k < j ==> !cat_dep_satisfied(cat, #[trigger] gdv[g as int][k]),
                    found ==> out.deep_view() == out0 + picks(cat, gdv.take(g + 1)),
                decreases group@.len() - j,
            {
                proof {
                    assert(gdv[g as int][j as int] == group@[j as int].deep_view());
                }
                let dep = &group[j];
                if self.can_satisfy_dependency(dep) {
                    proof {
                        lemma_first_satisfied_at(cat, gdv[g as int], j as int);
                    }
                    let ghost out_pre = out.deep_view();
                    out.push(dep.clone());
                    proof {
                        assert(gdv.take(g + 1).drop_last() =~= gdv.take(g as int));
                        assert(gdv.take(g + 1).last() == gdv[g as int]);
                        assert(picks(cat, gdv.take(g + 1)) == picks(cat, gdv.take(g as int))
                            + seq![dep@]);
                        assert(out_pre.len() == out0.len() + picks(cat, gdv.take(g as int)).len());
                        assert(out@.len() == out_pre.len() + 1);
                        assert forall|k: int|
                            0 <= k < out@.len() implies #[trigger] out.deep_view()[k] == (out0
                            + picks(cat, gdv.take(g + 1)))[k] by {
                            if k < out@.len() - 1 {
                                assert(out.deep_view()[k] == out_pre[k]);
                            } else {
                                assert(out.deep_view()[k] == dep@);
                            }
                        }
                        assert(out.deep_view() =~= out0 + picks(cat, gdv.take(g + 1)));
                    }
                    found = true;
                }
                j = j + 1;
            }
            if !found {
                proof {
                    lemma_first_satisfied_none(cat, gdv[g as int]);
                    assert(out0 + picks(cat, gdv.take(g + 1)) =~= out0 + picks(
                        cat,
                        gdv.take(g as int),
                    ));
                }
            }
            g = g + 1;
        }
        proof {
            assert(gdv.take(gdv.len() as int) =~= gdv);
        }
    }
}

fn clone_package_vec(v: &Vec<PackageData>) -> (r: Vec<PackageData>)
    ensures
        r.deep_view() == v.deep_view(),
{
    let mut r: Vec<PackageData> = Vec::new();
    let mut i: usize = 0;
    while i < v.len()
        invariant
            0 <= i <= v.len(),
            r@.len() == i,
            forall|k: int| 0 <= k < i ==> r@[k].deep_view() == v@[k].deep_view(),
        decreases v.len() - i,
    {
        r.push(v[i].clone());
        i = i + 1;
    }
    assert(r.deep_view() =~~= v.deep_view());
    r
}

impl Clone for DependencyResolver {
    /// A clone walks the same catalog.
    fn clone(&self) -> (r: Self)
        ensures
            r.catalog() == self.catalog(),
    {
        DependencyResolver { packages: clone_package_vec(&self.packages) }
    }
}

impl Default for DependencyResolver {
    /// The default resolver knows no package.
    fn default() -> (r: Self)
        ensures
            r.wf(),
            r.groups_nonempty(),
            r.catalog().len() == 0,
    {
        DependencyResolver::new()
    }
}

// ---------------------------------------------------------------------------
// The dependency tree rendering
// ---------------------------------------------------------------------------

/// `n` levels of tree indentation, four spaces each.
pub open spec fn pad(n: nat) -> Seq<char>
    decreases n,
{
    if n == 0 {
        Seq::empty()
    } else {
        pad((n - 1) as nat) + "    "@
    }
}

/// The line marking a name met again on the current path.
pub open spec fn cycle_line(depth: nat, name: Seq<char>) -> Seq<char> {
    pad(depth) + "\u{2514}\u{2500}\u{2500} Circular: "@ + name
}

/// The line naming a visited package and its version.
pub open spec fn pkg_line(depth: nat, name: Seq<char>, version: VersionView) -> Seq<char> {
    (if depth == 0 {
        Seq::empty()
    } else {
        pad(depth) + "\u{251c}\u{2500}\u{2500} "@
    }) + name + " ("@ + version.literal + ")"@
}

/// The line listing one alternative group.
pub open spec fn depends_line(pad1: Seq<char>, g: Seq<PackageRangeView>) -> Seq<char> {
    pad1 + "\u{2514}\u{2500}\u{2500} Depends: ("@ + crate::strutil::join_spec(
        crate::pkg::pr_list(g),
        " | "@,
    ) + ")"@
}

/// The status lines of the required commands, with a header when any.
pub open spec fn cmd_items(pad1: Seq<char>, cmds: Seq<Seq<char>>, avail: Seq<Seq<char>>) -> Seq<
    Seq<char>,
>
    decreases cmds.len(),
{
    if cmds.len() == 0 {
        Seq::empty()
    } else {
        cmd_items(pad1, cmds.drop_last(), avail).push(
            pad1 + "    \u{251c}\u{2500}\u{2500} "@ + cmds.last() + " ["@ + (
            if crate::depend::cmd_available(avail, cmds.last()) {
                "Available"@
            } else {
                "Not Found"@
            }) + "]"@,
        )
    }
}

pub open spec fn cmds_lines(pad1: Seq<char>, cmds: Seq<Seq<char>>, avail: Seq<Seq<char>>) -> Seq<
    Seq<char>,
> {
    if cmds.len() == 0 {
        Seq::empty()
    } else {
        seq![pad1 + "\u{2514}\u{2500}\u{2500} Commands:"@] + cmd_items(pad1, cmds, avail)
    }
}

/// The lines of an advisory block: each group's members joined with ` | `.
pub open spec fn advisory_items(pad1: Seq<char>, groups: Seq<Seq<PackageRangeView>>) -> Seq<
    Seq<char>,
>
    decreases groups.len(),
{
    if groups.len() == 0 {
        Seq::empty()
    } else {
        advisory_items(pad1, groups.drop_last()).push(
            pad1 + "    \u{251c}\u{2500}\u{2500} "@ + crate::strutil::join_spec(
                crate::pkg::pr_list(groups.last()),
                " | "@,
            ),
        )
    }
}

pub open spec fn advisory_lines(
    pad1: Seq<char>,
    title: Seq<char>,
    groups: Seq<Seq<PackageRangeView>>,
) -> Seq<Seq<char>> {
    if groups.len() == 0 {
        Seq::empty()
    } else {
        seq![pad1 + "\u{2514}\u{2500}\u{2500} "@ + title] + advisory_items(pad1, groups)
    }
}

/// The status lines of the conflicts block: each entry marked present when
/// the catalog satisfies it.
pub open spec fn conflict_items(
    cat: Seq<PackageDataView>,
    pad1: Seq<char>,
    cs: Seq<PackageRangeView>,
) -> Seq<Seq<char>>
    decreases cs.len(),
{
    if cs.len() == 0 {
        Seq::empty()
    } else {
        conflict_items(cat, pad1, cs.drop_last()).push(
            pad1 + "    \u{251c}\u{2500}\u{2500} "@ + cs.last().name + " ("@ + range_display(
                cs.last().range,
            ) + ") ["@ + (if cat_dep_satisfied(cat, cs.last()) {
                "Present"@
            } else {
                "Not Present"@
            }) + "]"@,
        )
    }
}

pub open spec fn conflict_lines(
    cat: Seq<PackageDataView>,
    pad1: Seq<char>,
    cs: Seq<PackageRangeView>,
) -> Seq<Seq<char>> {
    if cs.len() == 0 {
        Seq::empty()
    } else {
        seq![pad1 + "\u{2514}\u{2500}\u{2500} Conflicts:"@] + conflict_items(cat, pad1, cs)
    }
}

/// The lines a visited package emits after its groups: commands,
/// recommendations, suggestions, and conflicts.
pub open spec fn tail_blocks(
    cat: Seq<PackageDataView>,
    depth: nat,
    pkg: PackageDataView,
    avail: Seq<Seq<char>>,
) -> Seq<Seq<char>> {
    cmds_lines(pad(depth + 1), pkg.relation.depend_cmds, avail) + advisory_lines(
        pad(depth + 1),
        "Recommends:"@,
        pkg.relation.recommends,
    ) + advisory_lines(pad(depth + 1), "Suggests:"@, pkg.relation.suggests) + conflict_lines(
        cat,
        pad(depth + 1),
        pkg.relation.conflicts,
    )
}

/// The tree lines of a walk entering `name` at `depth`, and the failure
/// that stopped the walk, if one did.  A cycle emits its marker line and
/// stops; a missing record stops silently; otherwise the package's line,
/// each group's line with the subtree of its first satisfied alternative,
/// and the tail blocks.
pub open spec fn display_walk(
    cat: Seq<PackageDataView>,
    name: Seq<char>,
    depth: nat,
    path: Set<Seq<char>>,
    avail: Seq<Seq<char>>,
) -> (Seq<Seq<char>>, Option<ResolveFailure>)
    decreases count_unvisited(cat, path), 0int, 0int,
    via display_walk_decreases
{
    if path.contains(name) {
        (seq![cycle_line(depth, name)], Some(ResolveFailure::Circular(name)))
    } else {
        match lookup_pkg(cat, name) {
            None => (Seq::empty(), Some(ResolveFailure::Missing(name))),
            Some(pkg) => {
                let head = seq![pkg_line(depth, name, pkg.about.package.version)];
                let gr = display_groups(cat, pkg.relation.depend, 0, depth, path.insert(name), avail);
                if gr.1 is Some {
                    (head + gr.0, gr.1)
                } else {
                    (head + gr.0 + tail_blocks(cat, depth, pkg, avail), None)
                }
            },
        }
    }
}

/// The tree lines of the groups from position `gi` on: each group's line,
/// then the subtree of its first satisfied alternative, if any; a failure
/// below stops the walk.
pub open spec fn display_groups(
    cat: Seq<PackageDataView>,
    groups: Seq<Seq<PackageRangeView>>,
    gi: int,
    depth: nat,
    path: Set<Seq<char>>,
    avail: Seq<Seq<char>>,
) -> (Seq<Seq<char>>, Option<ResolveFailure>)
    decreases count_unvisited(cat, path), 1int, groups.len() - gi,
{
    if gi < 0 || gi >= groups.len() {
        (Seq::empty(), None)
    } else {
        let gl = seq![depends_line(pad(depth + 1), groups[gi])];
        match first_satisfied(cat, groups[gi]) {
            None => {
                let rest = display_groups(cat, groups, gi + 1, depth, path, avail);
                (gl + rest.0, rest.1)
            },
            Some(dep) => {
                let sub = display_walk(cat, dep.name, depth + 1, path, avail);
                if sub.1 is Some {
                    (gl + sub.0, sub.1)
                } else {
                    let rest = display_groups(cat, groups, gi + 1, depth, path, avail);
                    (gl + sub.0 + rest.0, rest.1)
                }
            },
        }
    }
}

#[via_fn]
proof fn display_walk_decreases(
    cat: Seq<PackageDataView>,
    name: Seq<char>,
    depth: nat,
    path: Set<Seq<char>>,
    avail: Seq<Seq<char>>,
) {
    if !path.contains(name) {
        if lookup_pkg(cat, name) is Some {
            lemma_pkg_lookup_names(cat, name);
            lemma_count_insert(cat, path, name);
        }
    }
}

/// Appends one rendered line.
fn push_line(lines: &mut Vec<String>, s: String)
    ensures
        final(lines).deep_view() == old(lines).deep_view().push(s@),
{
    let ghost pre = lines.deep_view();
    let ghost sv = s@;
    lines.push(s);
    proof {
        assert(lines@.len() == pre.len() + 1);
        assert forall|k: int|
            0 <= k < lines@.len() implies #[trigger] lines.deep_view()[k] == pre.push(sv)[k] by {
            if k < lines@.len() - 1 {
                assert(lines.deep_view()[k] == pre[k]);
            } else {
                assert(lines.deep_view()[k] == sv);
            }
        }
        assert(lines.deep_view() =~= pre.push(sv));
    }
}

/// `depth` levels of tree indentation.
fn render_pad(depth: usize) -> (r: String)
    ensures
        r@ == pad(depth as nat),
{
    let mut r = String::new();
    let mut i: usize = 0;
    while i < depth
        invariant
            0 <= i <= depth,
            r@ == pad(i as nat),
        decreases depth - i,
    {
        r.append("    ");
        i = i + 1;
    }
    r
}

fn push_cmd_lines(pad1: &String, cmds: &Vec<String>, available_cmds: &Vec<String>, lines: &mut Vec<String>)
    ensures
        final(lines).deep_view() == old(lines).deep_view() + cmds_lines(
            pad1@,
            cmds.deep_view(),
            available_cmds.deep_view(),
        ),
{
    let ghost lines0 = lines.deep_view();
    let ghost cdv = cmds.deep_view();
    let ghost avail = available_cmds.deep_view();
    if cmds.len() == 0 {
        proof {
            assert(lines.deep_view() =~= lines0 + cmds_lines(pad1@, cdv, avail));
        }
        return ;
    }
    let mut hdr = pad1.clone();
    hdr.append("\u{2514}\u{2500}\u{2500} Commands:");
    push_line(lines, hdr);
    let ghost head = lines.deep_view();
    let mut i: usize = 0;
    while i < cmds.len()
        invariant
            cdv == cmds.deep_view(),
            avail == available_cmds.deep_view(),
            cdv.len() == cmds@.len(),
            0 <= i <= cmds@.len(),
            head == lines0.push(pad1@ + "\u{2514}\u{2500}\u{2500} Commands:"@),
            lines.deep_view() == head + cmd_items(pad1@, cdv.take(i as int), avail),
        decreases cmds@.len() - i,
    {
        proof {
            assert(cdv[i as int] == cmds@[i as int]@);
            assert(cdv.take(i + 1).drop_last() =~= cdv.take(i as int));
            assert(cdv.take(i + 1).last() == cdv[i as int]);
        }
        let mut line = pad1.clone();
        line.append("    \u{251c}\u{2500}\u{2500} ");
        line.append(cmds[i].as_str());
        line.append(" [");
        if crate::depend::cmd_in(available_cmds, cmds[i].as_str()) {
            line.append("Available");
        } else {
            line.append("Not Found");
        }
        line.append("]");
        push_line(lines, line);
        proof {
            assert(lines.deep_view() =~= head + cmd_items(pad1@, cdv.take(i + 1), avail));
        }
        i = i + 1;
    }
    proof {
        assert(cdv.take(cdv.len() as int) =~= cdv);
        assert(lines.deep_view() =~= lines0 + cmds_lines(pad1@, cdv, avail));
    }
}

fn push_advisory_lines(pad1: &String, title: &str, groups: &Vec<Vec<PackageRange>>, lines: &mut Vec<String>)
    ensures
        final(lines).deep_view() == old(lines).deep_view() + advisory_lines(
            pad1@,
            title@,
            groups.deep_view(),
        ),
{
    let ghost lines0 = lines.deep_view();
    let ghost gdv = groups.deep_view();
    if groups.len() == 0 {
        proof {
            assert(lines.deep_view() =~= lines0 + advisory_lines(pad1@, title@, gdv));
        }
        return ;
    }
    let mut hdr = pad1.clone();
    hdr.append("\u{2514}\u{2500}\u{2500} ");
    hdr.append(title);
    push_line(lines, hdr);
    let ghost head = lines.deep_view();
    let mut i: usize = 0;
    while i < groups.len()
        invariant
            gdv == groups.deep_view(),
            gdv.len() == groups@.len(),
            0 <= i <= groups@.len(),
            head == lines0.push(pad1@ + "\u{2514}\u{2500}\u{2500} "@ + title@),
            lines.deep_view() == head + advisory_items(pad1@, gdv.take(i as int)),
        decreases groups@.len() - i,
    {
        proof {
            assert(gdv[i as int] == groups@[i as int].deep_view());
            assert(gdv.take(i + 1).drop_last() =~= gdv.take(i as int));
            assert(gdv.take(i + 1).last() == gdv[i as int]);
        }
        let mut line = pad1.clone();
        line.append("    \u{251c}\u{2500}\u{2500} ");
        line.append(crate::pkg::render_alternatives(&groups[i]).as_str());
        push_line(lines, line);
        proof {
            assert(lines.deep_view() =~= head + advisory_items(pad1@, gdv.take(i + 1)));
        }
        i = i + 1;
    }
    proof {
        assert(gdv.take(gdv.len() as int) =~= gdv);
        assert(lines.deep_view() =~= lines0 + advisory_lines(pad1@, title@, gdv));
    }
}

impl DependencyResolver {
    fn push_conflict_lines(&self, pad1: &String, cs: &Vec<PackageRange>, lines: &mut Vec<String>)
        ensures
            final(lines).deep_view() == old(lines).deep_view() + conflict_lines(
                self.catalog(),
                pad1@,
                cs.deep_view(),
            ),
    {
        let ghost cat = self.catalog();
        let ghost lines0 = lines.deep_view();
        let ghost cdv = cs.deep_view();
        if cs.len() == 0 {
            proof {
                assert(lines.deep_view() =~= lines0 + conflict_lines(cat, pad1@, cdv));
            }
            return ;
        }
        let mut hdr = pad1.clone();
        hdr.append("\u{2514}\u{2500}\u{2500} Conflicts:");
        push_line(lines, hdr);
        let ghost head = lines.deep_view();
        let mut i: usize = 0;
        while i < cs.len()
            invariant
                cat == self.catalog(),
                cdv == cs.deep_view(),
                cdv.len() == cs@.len(),
                0 <= i <= cs@.len(),
                head == lines0.push(pad1@ + "\u{2514}\u{2500}\u{2500} Conflicts:"@),
                lines.deep_view() == head + conflict_items(cat, pad1@, cdv.take(i as int)),
            decreases cs@.len() - i,
        {
            proof {
                assert(cdv[i as int] == cs@[i as int].deep_view());
                assert(cdv.take(i + 1).drop_last() =~= cdv.take(i as int));
                assert(cdv.take(i + 1).last() == cdv[i as int]);
            }
            let conflict = &cs[i];
            let mut line = pad1.clone();
            line.append("    \u{251c}\u{2500}\u{2500} ");
            line.append(conflict.name.as_str());
            line.append(" (");
            line.append(conflict.range.to_string().as_str());
            line.append(") [");
            if self.can_satisfy_dependency(conflict) {
                line.append("Present");
            } else {
                line.append("Not Present");
            }
            line.append("]");
            push_line(lines, line);
            proof {
                assert(lines.deep_view() =~= head + conflict_items(cat, pad1@, cdv.take(i + 1)));
            }
            i = i + 1;
        }
        proof {
            assert(cdv.take(cdv.len() as int) =~= cdv);
            assert(lines.deep_view() =~= lines0 + conflict_lines(cat, pad1@, cdv));
        }
    }

    /// Renders the dependency tree of `package_name` into `lines`: a header
    /// line, then the lines of [`display_walk`].  Lines already rendered
    /// stay in place when the walk stops on a cycle or a missing
    /// dependency, and the same failure is returned.
    pub fn display_dependency_tree(
        &self,
        package_name: &str,
        available_cmds: &Vec<String>,
        lines: &mut Vec<String>,
    ) -> (r: Result<(), DependencyError>)
        ensures
            ({
                let m = display_walk(
                    self.catalog(),
                    package_name@,
                    0,
                    Set::empty(),
                    available_cmds.deep_view(),
                );
                &&& final(lines).deep_view() == old(lines).deep_view().push("Dependency Tree:"@)
                    + m.0
                &&& match m.1 {
                    None => r is Ok,
                    Some(f) => r matches Err(e) && err_matches(e, f),
                }
            }),
    {
        push_line(lines, "Dependency Tree:".to_owned());
        let mut visited: Vec<String> = Vec::new();
        proof {
            assert(name_set(visited@) =~= Set::<Seq<char>>::empty());
        }
        self.display_dependency_recursive(package_name, 0, &mut visited, available_cmds, lines)
    }

    /// One step of the tree walk; see [`display_walk`] for what it emits.
    #[verifier::rlimit(100)]
    fn display_dependency_recursive(
        &self,
        package_name: &str,
        depth: usize,
        visited: &mut Vec<String>,
        available_cmds: &Vec<String>,
        lines: &mut Vec<String>,
    ) -> (r: Result<(), DependencyError>)
        requires
            depth <= old(visited)@.len(),
        ensures
            ({
                let m = display_walk(
                    self.catalog(),
                    package_name@,
                    depth as nat,
                    name_set(old(visited)@),
                    available_cmds.deep_view(),
                );
                &&& final(lines).deep_view() == old(lines).deep_view() + m.0
                &&& match m.1 {
                    None => r is Ok && final(visited)@ == old(visited)@,
                    Some(f) => r matches Err(e) && err_matches(e, f),
                }
            }),
        decreases count_unvisited(self.catalog(), name_set(visited@)),
    {
        let ghost cat = self.catalog();
        let ghost path0 = name_set(visited@);
        let ghost avail = available_cmds.deep_view();
        let ghost lines0 = lines.deep_view();
        let pad0 = render_pad(depth);
        if vec_contains_name(visited, package_name) {
            let mut line = pad0;
            line.append("\u{2514}\u{2500}\u{2500} Circular: ");
            line.append(package_name);
            push_line(lines, line);
            proof {
                assert(lines.deep_view() =~= lines0 + seq![
                    cycle_line(depth as nat, package_name@),
                ]);
            }
            return Err(DependencyError::CircularDependency(package_name.to_owned()));
        }
        let pkg_idx = match self.find_package(package_name) {
            Some(i) => i,
            None => {
                proof {
                    assert(lines.deep_view() =~= lines0 + Seq::<Seq<char>>::empty());
                }
                return Err(DependencyError::MissingDependency(package_name.to_owned()));
            },
        };
        let ghost pkgv = cat[pkg_idx as int];
        proof {
            assert(pkgv == self.packages@[pkg_idx as int].deep_view());
        }
        let mut line = if depth == 0 {
            String::new()
        } else {
            let mut l = pad0;
            l.append("\u{251c}\u{2500}\u{2500} ");
            l
        };
        line.append(package_name);
        line.append(" (");
        line.append(self.packages[pkg_idx].about.package.version.to_string().as_str());
        line.append(")");
        push_line(lines, line);
        let ghost head = seq![pkg_line(depth as nat, package_name@, pkgv.about.package.version)];
        proof {
            assert(lines.deep_view() =~= lines0 + head);
        }
        let ghost path1 = path0.insert(package_name@);
        let owned_name = package_name.to_owned();
        let ghost pushed = owned_name;
        visited.push(owned_name);
        proof {
            lemma_name_set_push(old(visited)@, pushed);
            assert(name_set(visited@) == path1);
        }
        let vlen = visited.len();
        proof {
            assert(vlen == old(visited)@.len() + 1);
            assert(depth < vlen);
        }
        let depth1 = depth + 1;
        let mut pad1 = render_pad(depth);
        pad1.append("    ");
        proof {
            assert(pad1@ == pad(depth1 as nat));
        }
        let groups = &self.packages[pkg_idx].relation.depend;
        let ghost gdv = pkgv.relation.depend;
        proof {
            assert(gdv == groups.deep_view());
        }
        let ghost mut lacc: Seq<Seq<char>> = Seq::empty();
        let mut g: usize = 0;
        while g < groups.len()
            invariant
                cat == self.catalog(),
                path0 == name_set(old(visited)@),
                lines0 == old(lines).deep_view(),
                path1 == path0.insert(package_name@),
                !path0.contains(package_name@),
                0 <= pkg_idx < cat.len(),
                pkgv == cat[pkg_idx as int],
                lookup_pkg(cat, package_name@) == Some(pkgv),
                gdv == groups.deep_view(),
                gdv == pkgv.relation.depend,
                gdv.len() == groups@.len(),
                0 <= g <= groups@.len(),
                depth <= old(visited)@.len(),
                depth1 == depth + 1,
                visited@ == old(visited)@.push(pushed),
                pushed@ == package_name@,
                name_set(visited@) == path1,
                avail == available_cmds.deep_view(),
                pad1@ == pad(depth1 as nat),
                head == seq![pkg_line(depth as nat, package_name@, pkgv.about.package.version)],
                lines.deep_view() == lines0 + head + lacc,
                display_groups(cat, gdv, 0, depth as nat, path1, avail) == (
                {
                    let rest = display_groups(cat, gdv, g as int, depth as nat, path1, avail);
                    (lacc + rest.0, rest.1)
                }),
            decreases groups@.len() - g,
        {
            let group = &groups[g];
            proof {
                assert(gdv[g as int] == groups@[g as int].deep_view());
            }
            let mut gline = pad1.clone();
            gline.append("\u{2514}\u{2500}\u{2500} Depends: (");
            gline.append(crate::pkg::render_alternatives(group).as_str());
            gline.append(")");
            push_line(lines, gline);
            let ghost lacc1 = lacc.push(depends_line(pad(depth1 as nat), gdv[g as int]));
            proof {
                assert(lines.deep_view() =~= lines0 + head + lacc1);
            }
            let mut j: usize = 0;
            let mut group_resolved = false;
            while j < group.len() && !group_resolved
                invariant
                    cat == self.catalog(),
                    path0 == name_set(old(visited)@),
                    lines0 == old(lines).deep_view(),
                    path1 == path0.insert(package_name@),
                    !path0.contains(package_name@),
                    0 <= pkg_idx < cat.len(),
                    pkgv == cat[pkg_idx as int],
                    lookup_pkg(cat, package_name@) == Some(pkgv),
                    gdv == pkgv.relation.depend,
                    0 <= g < gdv.len(),
                    gdv[g as int] == group.deep_view(),
                    gdv[g as int].len() == group@.len(),
                    0 <= j <= group@.len(),
                    depth <= old(visited)@.len(),
                    depth1 == depth + 1,
                    visited@ == old(visited)@.push(pushed),
                    pushed@ == package_name@,
                    name_set(visited@) == path1,
                    avail == available_cmds.deep_view(),
                    pad1@ == pad(depth1 as nat),
                    head == seq![pkg_line(depth as nat, package_name@, pkgv.about.package.version)],
                    lacc1 == lacc.push(depends_line(pad(depth1 as nat), gdv[g as int])),
                    !group_resolved ==> lines.deep_view() == lines0 + head + lacc1,
                    !group_resolved ==> forall|k: int|
                        0 <= k < j ==> !cat_dep_satisfied(cat, #[trigger] gdv[g as int][k]),
                    !group_resolved ==> display_groups(cat, gdv, 0, depth as nat, path1, avail)
                        == ({
                        let rest = display_groups(cat, gdv, g as int, depth as nat, path1, avail);
                        (lacc + rest.0, rest.1)
                    }),
                    group_resolved ==> ({
                        let walk_done = display_walk(
                            cat,
                            first_satisfied(cat, gdv[g as int])->0.name,
                            depth1 as nat,
                            path1,
                            avail,
                        );
                        &&& first_satisfied(cat, gdv[g as int]) is Some
                        &&& walk_done.1 is None
                        &&& lines.deep_view() == lines0 + head + lacc1 + walk_done.0
                        &&& display_groups(cat, gdv, 0, depth as nat, path1, avail) == ({
                            let rest = display_groups(
                                cat,
                                gdv,
                                g + 1,
                                depth as nat,
                                path1,
                                avail,
                            );
                            ((lacc1 + walk_done.0) + rest.0, rest.1)
                        })
                    }),
                decreases group@.len() - j,
            {
                proof {
                    assert(gdv[g as int][j as int] == group@[j as int].deep_view());
                }
                let dep = &group[j];
                if self.can_satisfy_dependency(dep) {
                    proof {
                        lemma_first_satisfied_at(cat, gdv[g as int], j as int);
                        assert(first_satisfied(cat, gdv[g as int]) == Some(dep@));
                        lemma_pkg_lookup_names(cat, package_name@);
                        lemma_count_insert(cat, path0, package_name@);
                        assert(count_unvisited(cat, path1) < count_unvisited(cat, path0));
                        assert(depth1 <= visited@.len());
                    }
                    let ghost lines_pre = lines.deep_view();
                    let rr = self.display_dependency_recursive(
                        dep.name.as_str(),
                        depth1,
                        visited,
                        available_cmds,
                        lines,
                    );
                    proof {
                        let sub = display_walk(cat, dep@.name, depth1 as nat, path1, avail);
                        assert(lines.deep_view() == lines_pre + sub.0);
                        assert(lines.deep_view() =~= lines0 + head + (lacc1 + sub.0));
                    }
                    match rr {
                        Err(e) => {
                            proof {
                                let sub = display_walk(cat, dep@.name, depth1 as nat, path1, avail);
                                assert(sub.1 is Some);
                                let gr0 = display_groups(cat, gdv, 0, depth as nat, path1, avail);
                                let grg = display_groups(
                                    cat,
                                    gdv,
                                    g as int,
                                    depth as nat,
                                    path1,
                                    avail,
                                );
                                assert(grg.0 == seq![
                                    depends_line(pad(depth1 as nat), gdv[g as int]),
                                ] + sub.0 && grg.1 == sub.1);
                                assert(gr0.0 =~= lacc1 + sub.0);
                                let m = display_walk(cat, package_name@, depth as nat, path0, avail);
                                assert(m.0 =~= head + (lacc1 + sub.0));
                                assert(m.1 == sub.1);
                            }
                            return Err(e);
                        },
                        Ok(()) => {
                            proof {
                                let sub = display_walk(cat, dep@.name, depth1 as nat, path1, avail);
                                assert(sub.1 is None);
                                assert(visited@ == old(visited)@.push(pushed));
                                let grg = display_groups(
                                    cat,
                                    gdv,
                                    g as int,
                                    depth as nat,
                                    path1,
                                    avail,
                                );
                                let rest = display_groups(
                                    cat,
                                    gdv,
                                    g + 1,
                                    depth as nat,
                                    path1,
                                    avail,
                                );
                                assert(grg.0 == seq![
                                    depends_line(pad(depth1 as nat), gdv[g as int]),
                                ] + sub.0 + rest.0 && grg.1 == rest.1);
                                assert(lacc + grg.0 =~= (lacc1 + sub.0) + rest.0);
                            }
                            group_resolved = true;
                        },
                    }
                }
                j = j + 1;
            }
            proof {
                if group_resolved {
                    let walk_done = display_walk(
                        cat,
                        first_satisfied(cat, gdv[g as int])->0.name,
                        depth1 as nat,
                        path1,
                        avail,
                    );
                    lacc = lacc1 + walk_done.0;
                } else {
                    assert(forall|k: int|
                        0 <= k < gdv[g as int].len() ==> !cat_dep_satisfied(
                            cat,
                            #[trigger] gdv[g as int][k],
                        ));
                    lemma_first_satisfied_none(cat, gdv[g as int]);
                    let grg = display_groups(cat, gdv, g as int, depth as nat, path1, avail);
                    let rest = display_groups(cat, gdv, g + 1, depth as nat, path1, avail);
                    assert(grg.0 == seq![depends_line(pad(depth1 as nat), gdv[g as int])] + rest.0
                        && grg.1 == rest.1);
                    assert(lacc + grg.0 =~= lacc1 + rest.0);
                    lacc = lacc1;
                }
            }
            g = g + 1;
        }
        proof {
            let grg = display_groups(cat, gdv, g as int, depth as nat, path1, avail);
            assert(grg.0 == Seq::<Seq<char>>::empty() && grg.1 is None);
            assert(lacc + Seq::<Seq<char>>::empty() =~= lacc);
            let gr0 = display_groups(cat, gdv, 0, depth as nat, path1, avail);
            assert(gr0.0 == lacc && gr0.1 is None);
        }
        let pkg = &self.packages[pkg_idx];
        push_cmd_lines(&pad1, &pkg.relation.depend_cmds, available_cmds, lines);
        push_advisory_lines(&pad1, "Recommends:", &pkg.relation.recommends, lines);
        push_advisory_lines(&pad1, "Suggests:", &pkg.relation.suggests, lines);
        self.push_conflict_lines(&pad1, &pkg.relation.conflicts, lines);
        proof {
            assert(pkgv.relation.depend_cmds == pkg.relation.depend_cmds.deep_view());
            assert(pkgv.relation.recommends == pkg.relation.recommends.deep_view());
            assert(pkgv.relation.suggests == pkg.relation.suggests.deep_view());
            assert(pkgv.relation.conflicts == pkg.relation.conflicts.deep_view());
            let m = display_walk(cat, package_name@, depth as nat, path0, avail);
            assert(m.1 is None);
            assert(lines.deep_view() =~= lines0 + m.0);
        }
        visited.pop();
        proof {
            assert(visited@ =~= old(visited)@);
        }
        Ok(())
    }
}

} // verus!
