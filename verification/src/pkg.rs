//! Package records: who wrote a package, what it is called, which version
//! it is, and how it relates to other packages (dependencies, commands,
//! suggestions, recommendations, conflicts, and virtual provisions).
//!
//! Every type renders itself to a plain string with a `to_string` method
//! whose output is pinned down by a spec function.

use vstd::prelude::*;
use vstd::string::StringExecFns;
use crate::strutil::{clone_string_vec, join_spec, join_strings};
use crate::version::{range_display, RangeDataView, Version, VersionRange, VersionView};

verus! {

// ---------------------------------------------------------------------------
// The record types and their views
// ---------------------------------------------------------------------------

/// A dependency-style reference: a package name and the version range that
/// satisfies the reference.
#[derive(Debug)]
pub struct PackageRange {
    pub name: String,
    pub range: VersionRange,
}

/// The mathematical content of a [`PackageRange`].
pub struct PackageRangeView {
    pub name: Seq<char>,
    pub range: Option<RangeDataView>,
}

impl View for PackageRange {
    type V = PackageRangeView;

    open spec fn view(&self) -> PackageRangeView {
        PackageRangeView { name: self.name@, range: self.range@ }
    }
}

impl DeepView for PackageRange {
    type V = PackageRangeView;

    open spec fn deep_view(&self) -> PackageRangeView {
        self@
    }
}

/// An exact-version reference: a package name and one version, as used for
/// virtual-package provisions.
#[derive(Debug)]
pub struct PackageVersion {
    pub name: String,
    pub version: Version,
}

/// The mathematical content of a [`PackageVersion`].
pub struct PackageVersionView {
    pub name: Seq<char>,
    pub version: VersionView,
}

impl View for PackageVersion {
    type V = PackageVersionView;

    open spec fn view(&self) -> PackageVersionView {
        PackageVersionView { name: self.name@, version: self.version@ }
    }
}

impl DeepView for PackageVersion {
    type V = PackageVersionView;

    open spec fn deep_view(&self) -> PackageVersionView {
        self@
    }
}

/// The author of a package.
#[derive(Debug)]
pub struct AuthorAboutData {
    pub name: String,
    pub email: String,
}

/// The mathematical content of an [`AuthorAboutData`].
pub struct AuthorAboutView {
    pub name: Seq<char>,
    pub email: Seq<char>,
}

impl View for AuthorAboutData {
    type V = AuthorAboutView;

    open spec fn view(&self) -> AuthorAboutView {
        AuthorAboutView { name: self.name@, email: self.email@ }
    }
}

/// A package's own name and version.
#[derive(Debug)]
pub struct PackageAboutData {
    pub name: String,
    pub version: Version,
}

/// The mathematical content of a [`PackageAboutData`].
pub struct PackageAboutView {
    pub name: Seq<char>,
    pub version: VersionView,
}

impl View for PackageAboutData {
    type V = PackageAboutView;

    open spec fn view(&self) -> PackageAboutView {
        PackageAboutView { name: self.name@, version: self.version@ }
    }
}

/// A package's metadata: its author and its own name and version.
#[derive(Debug)]
pub struct AboutData {
    pub author: AuthorAboutData,
    pub package: PackageAboutData,
}

/// The mathematical content of an [`AboutData`].
pub struct AboutView {
    pub author: AuthorAboutView,
    pub package: PackageAboutView,
}

impl View for AboutData {
    type V = AboutView;

    open spec fn view(&self) -> AboutView {
        AboutView { author: self.author@, package: self.package@ }
    }
}

/// How a package relates to other packages and to external commands.
///
/// `depend`, `suggests` and `recommends` are ordered sequences of
/// alternative groups: satisfying any one member of a group satisfies the
/// group.  `conflicts` lists references that must not be satisfied by an
/// installed package.  `virtuals` lists capability names this package
/// provides under other names.
#[derive(Debug)]
pub struct RelationData {
    pub depend: Vec<Vec<PackageRange>>,
    pub depend_cmds: Vec<String>,
    pub suggests: Vec<Vec<PackageRange>>,
    pub recommends: Vec<Vec<PackageRange>>,
    pub conflicts: Vec<PackageRange>,
    pub virtuals: Vec<PackageVersion>,
    pub provide_cmds: Vec<String>,
}

/// The mathematical content of a [`RelationData`].
pub struct RelationView {
    pub depend: Seq<Seq<PackageRangeView>>,
    pub depend_cmds: Seq<Seq<char>>,
    pub suggests: Seq<Seq<PackageRangeView>>,
    pub recommends: Seq<Seq<PackageRangeView>>,
    pub conflicts: Seq<PackageRangeView>,
    pub virtuals: Seq<PackageVersionView>,
    pub provide_cmds: Seq<Seq<char>>,
}

impl View for RelationData {
    type V = RelationView;

    open spec fn view(&self) -> RelationView {
        RelationView {
            depend: self.depend.deep_view(),
            depend_cmds: self.depend_cmds.deep_view(),
            suggests: self.suggests.deep_view(),
            recommends: self.recommends.deep_view(),
            conflicts: self.conflicts.deep_view(),
            virtuals: self.virtuals.deep_view(),
            provide_cmds: self.provide_cmds.deep_view(),
        }
    }
}

/// One package record: metadata plus relations.
#[derive(Debug)]
pub struct PackageData {
    pub about: AboutData,
    pub relation: RelationData,
}

/// The mathematical content of a [`PackageData`].
pub struct PackageDataView {
    pub about: AboutView,
    pub relation: RelationView,
}

impl View for PackageData {
    type V = PackageDataView;

    open spec fn view(&self) -> PackageDataView {
        PackageDataView { about: self.about@, relation: self.relation@ }
    }
}

impl DeepView for PackageData {
    type V = PackageDataView;

    open spec fn deep_view(&self) -> PackageDataView {
        self@
    }
}

// ---------------------------------------------------------------------------
// Clones
// ---------------------------------------------------------------------------

impl Clone for PackageRange {
    /// A clone has the same view.
    fn clone(&self) -> (r: Self)
        ensures
            r@ == self@,
    {
        PackageRange { name: self.name.clone(), range: self.range.clone() }
    }
}

impl Clone for PackageVersion {
    /// A clone has the same view.
    fn clone(&self) -> (r: Self)
        ensures
            r@ == self@,
    {
        PackageVersion { name: self.name.clone(), version: self.version.clone() }
    }
}

impl Clone for AuthorAboutData {
    /// A clone has the same view.
    fn clone(&self) -> (r: Self)
        ensures
            r@ == self@,
    {
        AuthorAboutData { name: self.name.clone(), email: self.email.clone() }
    }
}

impl Clone for PackageAboutData {
    /// A clone has the same view.
    fn clone(&self) -> (r: Self)
        ensures
            r@ == self@,
    {
        PackageAboutData { name: self.name.clone(), version: self.version.clone() }
    }
}

impl Clone for AboutData {
    /// A clone has the same view.
    fn clone(&self) -> (r: Self)
        ensures
            r@ == self@,
    {
        AboutData { author: self.author.clone(), package: self.package.clone() }
    }
}

/// A copy of a vector of package references, element by element.
pub fn clone_range_vec(v: &Vec<PackageRange>) -> (r: Vec<PackageRange>)
    ensures
        r.deep_view() == v.deep_view(),
{
    let mut r: Vec<PackageRange> = Vec::new();
    let mut i: usize = 0;
    while i < v.len()
        invariant
            0 <= i <= v.len(),
            r@.len() == i,
            forall|k: int| 0 <= k < i ==> r@[k].deep_view() == v@[k].deep_view(),
        decreases v.len() - i,
    {
        r.push(v[i].clone());
        i = i + 1;
    }
    assert(r.deep_view() =~~= v.deep_view());
    r
}

fn clone_group_vec(v: &Vec<Vec<PackageRange>>) -> (r: Vec<Vec<PackageRange>>)
    ensures
        r.deep_view() == v.deep_view(),
{
    let mut r: Vec<Vec<PackageRange>> = Vec::new();
    let mut i: usize = 0;
    while i < v.len()
        invariant
            0 <= i <= v.len(),
            r@.len() == i,
            forall|k: int| 0 <= k < i ==> r@[k].deep_view() == v@[k].deep_view(),
        decreases v.len() - i,
    {
        r.push(clone_range_vec(&v[i]));
        i = i + 1;
    }
    assert(r.deep_view() =~~= v.deep_view());
    r
}

fn clone_version_vec(v: &Vec<PackageVersion>) -> (r: Vec<PackageVersion>)
    ensures
        r.deep_view() == v.deep_view(),
{
    let mut r: Vec<PackageVersion> = Vec::new();
    let mut i: usize = 0;
    while i < v.len()
        invariant
            0 <= i <= v.len(),
            r@.len() == i,
            forall|k: int| 0 <= k < i ==> r@[k].deep_view() == v@[k].deep_view(),
        decreases v.len() - i,
    {
        r.push(v[i].clone());
        i = i + 1;
    }
    assert(r.deep_view() =~~= v.deep_view());
    r
}

impl Clone for RelationData {
    /// A clone has the same view.
    fn clone(&self) -> (r: Self)
        ensures
            r@ == self@,
    {
        let r = RelationData {
            depend: clone_group_vec(&self.depend),
            depend_cmds: clone_string_vec(&self.depend_cmds),
            suggests: clone_group_vec(&self.suggests),
            recommends: clone_group_vec(&self.recommends),
            conflicts: clone_range_vec(&self.conflicts),
            virtuals: clone_version_vec(&self.virtuals),
            provide_cmds: clone_string_vec(&self.provide_cmds),
        };
        proof {
            assert(r.depend_cmds.deep_view() =~= self.depend_cmds.deep_view());
            assert(r.provide_cmds.deep_view() =~= self.provide_cmds.deep_view());
        }
        r
    }
}

impl Clone for PackageData {
    /// A clone has the same view.
    fn clone(&self) -> (r: Self)
        ensures
            r@ == self@,
    {
        PackageData { about: self.about.clone(), relation: self.relation.clone() }
    }
}

// ---------------------------------------------------------------------------
// Defaults
// ---------------------------------------------------------------------------

impl Default for AuthorAboutData {
    /// The default author is anonymous: empty name and empty address.
    fn default() -> (r: Self)
        ensures
            r@.name == Seq::<char>::empty(),
            r@.email == Seq::<char>::empty(),
    {
        AuthorAboutData { name: String::new(), email: String::new() }
    }
}

impl Default for PackageAboutData {
    /// The default package is `default-package` at version `1.0.0`.
    fn default() -> (r: Self)
        ensures
            r@.name == "default-package"@,
            r@.version.literal == "1.0.0"@,
            r.version.wf(),
    {
        PackageAboutData { name: "default-package".to_owned(), version: Version::default() }
    }
}

impl Default for PackageRange {
    /// The default reference names `default-dependency` with the wildcard
    /// range.
    fn default() -> (r: Self)
        ensures
            r@.name == "default-dependency"@,
            r@.range is None,
    {
        PackageRange { name: "default-dependency".to_owned(), range: VersionRange::default() }
    }
}

impl Default for PackageVersion {
    /// The default provision names `default-version` at version `1.0.0`.
    fn default() -> (r: Self)
        ensures
            r@.name == "default-version"@,
            r@.version.literal == "1.0.0"@,
    {
        PackageVersion { name: "default-version".to_owned(), version: Version::default() }
    }
}

impl Default for AboutData {
    /// The default metadata combines the default author and package.
    fn default() -> (r: Self)
        ensures
            r@.package.name == "default-package"@,
            r@.package.version.literal == "1.0.0"@,
            r@.author.name == Seq::<char>::empty(),
            r@.author.email == Seq::<char>::empty(),
    {
        AboutData { author: AuthorAboutData::default(), package: PackageAboutData::default() }
    }
}

impl Default for RelationData {
    /// The default relations are empty in every field.
    fn default() -> (r: Self)
        ensures
            r@.depend.len() == 0,
            r@.depend_cmds.len() == 0,
            r@.suggests.len() == 0,
            r@.recommends.len() == 0,
            r@.conflicts.len() == 0,
            r@.virtuals.len() == 0,
            r@.provide_cmds.len() == 0,
    {
        RelationData {
            depend: Vec::new(),
            depend_cmds: Vec::new(),
            suggests: Vec::new(),
            recommends: Vec::new(),
            conflicts: Vec::new(),
            virtuals: Vec::new(),
            provide_cmds: Vec::new(),
        }
    }
}

impl Default for PackageData {
    /// The default record has the default metadata and empty relations.
    fn default() -> (r: Self)
        ensures
            r@.about.package.name == "default-package"@,
            r@.relation.depend.len() == 0,
            r@.relation.conflicts.len() == 0,
            r@.relation.virtuals.len() == 0,
    {
        PackageData { about: AboutData::default(), relation: RelationData::default() }
    }
}

// ---------------------------------------------------------------------------
// Rendering
// ---------------------------------------------------------------------------

/// The display form of a dependency reference: `name (range)`.
pub open spec fn pr_display(p: PackageRangeView) -> Seq<char> {
    p.name + " ("@ + range_display(p.range) + ")"@
}

/// The display form of an exact-version reference: `name (version)`.
pub open spec fn pv_display(p: PackageVersionView) -> Seq<char> {
    p.name + " ("@ + p.version.literal + ")"@
}

/// The display forms of a list of dependency references, in order.
pub open spec fn pr_list(g: Seq<PackageRangeView>) -> Seq<Seq<char>>
    decreases g.len(),
{
    if g.len() == 0 {
        Seq::empty()
    } else {
        pr_list(g.drop_last()).push(pr_display(g.last()))
    }
}

/// One display line of an alternative group: a single member stands alone,
/// several members are joined with ` | ` inside parentheses.
pub open spec fn group_line(g: Seq<PackageRangeView>) -> Seq<char> {
    if g.len() == 1 {
        "  - "@ + pr_display(g[0]) + "\n"@
    } else {
        "  - ("@ + join_spec(pr_list(g), " | "@) + ")\n"@
    }
}

/// The display lines of a list of alternative groups.
pub open spec fn group_lines(gs: Seq<Seq<PackageRangeView>>) -> Seq<char>
    decreases gs.len(),
{
    if gs.len() == 0 {
        Seq::empty()
    } else {
        group_lines(gs.drop_last()) + group_line(gs.last())
    }
}

/// A titled block of alternative groups; nothing when there is no group.
pub open spec fn groups_block(nl: bool, title: Seq<char>, gs: Seq<Seq<PackageRangeView>>) -> Seq<
    char,
> {
    if gs.len() == 0 {
        Seq::empty()
    } else {
        (if nl {
            "\n"@
        } else {
            Seq::empty()
        }) + title + "\n"@ + group_lines(gs)
    }
}

/// The display lines of a list of plain items.
pub open spec fn item_lines(xs: Seq<Seq<char>>) -> Seq<char>
    decreases xs.len(),
{
    if xs.len() == 0 {
        Seq::empty()
    } else {
        item_lines(xs.drop_last()) + "  - "@ + xs.last() + "\n"@
    }
}

/// A titled block of plain items; nothing when there is no item.
pub open spec fn items_block(title: Seq<char>, xs: Seq<Seq<char>>) -> Seq<char> {
    if xs.len() == 0 {
        Seq::empty()
    } else {
        "\n"@ + title + "\n"@ + item_lines(xs)
    }
}

/// The display lines of a list of dependency references.
pub open spec fn pr_lines(cs: Seq<PackageRangeView>) -> Seq<char>
    decreases cs.len(),
{
    if cs.len() == 0 {
        Seq::empty()
    } else {
        pr_lines(cs.drop_last()) + "  - "@ + pr_display(cs.last()) + "\n"@
    }
}

/// A titled block of dependency references; nothing when the list is empty.
pub open spec fn pr_block(title: Seq<char>, cs: Seq<PackageRangeView>) -> Seq<char> {
    if cs.len() == 0 {
        Seq::empty()
    } else {
        "\n"@ + title + "\n"@ + pr_lines(cs)
    }
}

/// The display lines of a list of exact-version references.
pub open spec fn pv_lines(vs: Seq<PackageVersionView>) -> Seq<char>
    decreases vs.len(),
{
    if vs.len() == 0 {
        Seq::empty()
    } else {
        pv_lines(vs.drop_last()) + "  - "@ + pv_display(vs.last()) + "\n"@
    }
}

/// A titled block of exact-version references; nothing when the list is
/// empty.
pub open spec fn pv_block(title: Seq<char>, vs: Seq<PackageVersionView>) -> Seq<char> {
    if vs.len() == 0 {
        Seq::empty()
    } else {
        "\n"@ + title + "\n"@ + pv_lines(vs)
    }
}

/// The display blocks of a relation record, in their fixed order.  The
/// dependencies block carries a leading blank line exactly when `dep_nl`
/// holds, as it does inside a full package rendering.
pub open spec fn relation_blocks(r: RelationView, dep_nl: bool) -> Seq<char> {
    groups_block(dep_nl, "Dependencies:"@, r.depend) + items_block(
        "Necessary Commands:"@,
        r.depend_cmds,
    ) + groups_block(true, "Suggests:"@, r.suggests) + groups_block(
        true,
        "Recommends:"@,
        r.recommends,
    ) + pr_block("Conflicts:"@, r.conflicts) + pv_block("Virtual Packages:"@, r.virtuals)
        + items_block("Providing Commands:"@, r.provide_cmds)
}

/// The display form of an author: `name <email>`.
pub open spec fn author_display(a: AuthorAboutView) -> Seq<char> {
    a.name + " <"@ + a.email + ">"@
}

/// The display form of a package's own name and version: `name (version)`.
pub open spec fn pkg_about_display(p: PackageAboutView) -> Seq<char> {
    p.name + " ("@ + p.version.literal + ")"@
}

/// The display form of package metadata: author and package lines.
pub open spec fn about_display(a: AboutView) -> Seq<char> {
    "Author: "@ + author_display(a.author) + "\n"@ + "Package: "@ + pkg_about_display(a.package)
        + "\n"@
}

/// The full display form of a package record: the header lines followed by
/// the relation blocks.
pub open spec fn package_display(p: PackageDataView) -> Seq<char> {
    "Package: "@ + p.about.package.name + "\n"@ + "Version: "@ + p.about.package.version.literal
        + "\n"@ + "Author: "@ + author_display(p.about.author) + "\n"@ + relation_blocks(
        p.relation,
        true,
    )
}

impl PackageRange {
    /// Renders this reference as `name (range)`.
    pub fn to_string(&self) -> (r: String)
        ensures
            r@ == pr_display(self@),
    {
        let mut s = self.name.clone();
        s.append(" (");
        s.append(self.range.to_string().as_str());
        s.append(")");
        proof {
            assert(s@ =~= pr_display(self@));
        }
        s
    }
}

impl PackageVersion {
    /// Renders this reference as `name (version)`.
    pub fn to_string(&self) -> (r: String)
        ensures
            r@ == pv_display(self@),
    {
        let mut s = self.name.clone();
        s.append(" (");
        s.append(self.version.to_string().as_str());
        s.append(")");
        proof {
            assert(s@ =~= pv_display(self@));
        }
        s
    }
}

impl AuthorAboutData {
    /// Renders this author as `name <email>`.
    pub fn to_string(&self) -> (r: String)
        ensures
            r@ == author_display(self@),
    {
        let mut s = self.name.clone();
        s.append(" <");
        s.append(self.email.as_str());
        s.append(">");
        proof {
            assert(s@ =~= author_display(self@));
        }
        s
    }
}

impl PackageAboutData {
    /// Renders this package as `name (version)`.
    pub fn to_string(&self) -> (r: String)
        ensures
            r@ == pkg_about_display(self@),
    {
        let mut s = self.name.clone();
        s.append(" (");
        s.append(self.version.to_string().as_str());
        s.append(")");
        proof {
            assert(s@ =~= pkg_about_display(self@));
        }
        s
    }
}

impl AboutData {
    /// Renders this metadata as its author and package lines.
    pub fn to_string(&self) -> (r: String)
        ensures
            r@ == about_display(self@),
    {
        let mut s = "Author: ".to_owned();
        s.append(self.author.to_string().as_str());
        s.append("\n");
        s.append("Package: ");
        s.append(self.package.to_string().as_str());
        s.append("\n");
        proof {
            assert(s@ =~= about_display(self@));
        }
        s
    }
}

fn render_group_line(g: &Vec<PackageRange>) -> (r: String)
    ensures
        r@ == group_line(g.deep_view()),
{
    if g.len() == 1 {
        let mut s = "  - ".to_owned();
        s.append(g[0].to_string().as_str());
        s.append("\n");
        proof {
            assert(g.deep_view()[0] == g@[0].deep_view());
            assert(s@ =~= group_line(g.deep_view()));
        }
        s
    } else {
        let mut s = "  - (".to_owned();
        s.append(render_alternatives(g).as_str());
        s.append(")\n");
        proof {
            assert(s@ =~= group_line(g.deep_view()));
        }
        s
    }
}

/// Renders the members of an alternative group joined with ` | `.
pub fn render_alternatives(g: &Vec<PackageRange>) -> (r: String)
    ensures
        r@ == join_spec(pr_list(g.deep_view()), " | "@),
{
    let mut parts: Vec<String> = Vec::new();
    let mut i: usize = 0;
    while i < g.len()
        invariant
            0 <= i <= g.len(),
            parts.deep_view() == pr_list(g.deep_view().take(i as int)),
        decreases g.len() - i,
    {
        proof {
            let gdv = g.deep_view();
            assert(gdv.take(i + 1).drop_last() =~= gdv.take(i as int));
            assert(gdv.take(i + 1).last() == gdv[i as int]);
            assert(gdv[i as int] == g@[i as int].deep_view());
        }
        parts.push(g[i].to_string());
        proof {
            assert(parts.deep_view() =~~= pr_list(g.deep_view().take(i + 1)));
        }
        i = i + 1;
    }
    proof {
        assert(g.deep_view().take(g.deep_view().len() as int) =~= g.deep_view());
    }
    join_strings(&parts, " | ")
}

fn render_groups_block(nl: bool, title: &str, gs: &Vec<Vec<PackageRange>>) -> (r: String)
    ensures
        r@ == groups_block(nl, title@, gs.deep_view()),
{
    if gs.len() == 0 {
        let e = String::new();
        proof {
            assert(e@ =~= groups_block(nl, title@, gs.deep_view()));
        }
        return e;
    }
    let mut s = String::new();
    if nl {
        s.append("\n");
    }
    s.append(title);
    s.append("\n");
    let ghost head = s@;
    let mut i: usize = 0;
    while i < gs.len()
        invariant
            0 <= i <= gs.len(),
            s@ == head + group_lines(gs.deep_view().take(i as int)),
        decreases gs.len() - i,
    {
        proof {
            let gdv = gs.deep_view();
            assert(gdv.take(i + 1).drop_last() =~= gdv.take(i as int));
            assert(gdv.take(i + 1).last() == gdv[i as int]);
            assert(gdv[i as int] == gs@[i as int].deep_view());
        }
        s.append(render_group_line(&gs[i]).as_str());
        proof {
            assert(s@ =~= head + group_lines(gs.deep_view().take(i + 1)));
        }
        i = i + 1;
    }
    proof {
        assert(gs.deep_view().take(gs.deep_view().len() as int) =~= gs.deep_view());
        assert(s@ =~= groups_block(nl, title@, gs.deep_view()));
    }
    s
}

fn render_items_block(title: &str, xs: &Vec<String>) -> (r: String)
    ensures
        r@ == items_block(title@, xs.deep_view()),
{
    if xs.len() == 0 {
        let e = String::new();
        proof {
            assert(e@ =~= items_block(title@, xs.deep_view()));
        }
        return e;
    }
    let mut s = "\n".to_owned();
    s.append(title);
    s.append("\n");
    let ghost head = s@;
    let mut i: usize = 0;
    while i < xs.len()
        invariant
            0 <= i <= xs.len(),
            s@ == head + item_lines(xs.deep_view().take(i as int)),
        decreases xs.len() - i,
    {
        proof {
            let xdv = xs.deep_view();
            assert(xdv.take(i + 1).drop_last() =~= xdv.take(i as int));
            assert(xdv.take(i + 1).last() == xdv[i as int]);
            assert(xdv[i as int] == xs@[i as int]@);
        }
        s.append("  - ");
        s.append(xs[i].as_str());
        s.append("\n");
        proof {
            assert(s@ =~= head + item_lines(xs.deep_view().take(i + 1)));
        }
        i = i + 1;
    }
    proof {
        assert(xs.deep_view().take(xs.deep_view().len() as int) =~= xs.deep_view());
        assert(s@ =~= items_block(title@, xs.deep_view()));
    }
    s
}

fn render_pr_block(title: &str, cs: &Vec<PackageRange>) -> (r: String)
    ensures
        r@ == pr_block(title@, cs.deep_view()),
{
    if cs.len() == 0 {
        let e = String::new();
        proof {
            assert(e@ =~= pr_block(title@, cs.deep_view()));
        }
        return e;
    }
    let mut s = "\n".to_owned();
    s.append(title);
    s.append("\n");
    let ghost head = s@;
    let mut i: usize = 0;
    while i < cs.len()
        invariant
            0 <= i <= cs.len(),
            s@ == head + pr_lines(cs.deep_view().take(i as int)),
        decreases cs.len() - i,
    {
        proof {
            let cdv = cs.deep_view();
            assert(cdv.take(i + 1).drop_last() =~= cdv.take(i as int));
            assert(cdv.take(i + 1).last() == cdv[i as int]);
            assert(cdv[i as int] == cs@[i as int].deep_view());
        }
        s.append("  - ");
        s.append(cs[i].to_string().as_str());
        s.append("\n");
        proof {
            assert(s@ =~= head + pr_lines(cs.deep_view().take(i + 1)));
        }
        i = i + 1;
    }
    proof {
        assert(cs.deep_view().take(cs.deep_view().len() as int) =~= cs.deep_view());
        assert(s@ =~= pr_block(title@, cs.deep_view()));
    }
    s
}

fn render_pv_block(title: &str, vs: &Vec<PackageVersion>) -> (r: String)
    ensures
        r@ == pv_block(title@, vs.deep_view()),
{
    if vs.len() == 0 {
        let e = String::new();
        proof {
            assert(e@ =~= pv_block(title@, vs.deep_view()));
        }
        return e;
    }
    let mut s = "\n".to_owned();
    s.append(title);
    s.append("\n");
    let ghost head = s@;
    let mut i: usize = 0;
    while i < vs.len()
        invariant
            0 <= i <= vs.len(),
            s@ == head + pv_lines(vs.deep_view().take(i as int)),
        decreases vs.len() - i,
    {
        proof {
            let vdv = vs.deep_view();
            assert(vdv.take(i + 1).drop_last() =~= vdv.take(i as int));
            assert(vdv.take(i + 1).last() == vdv[i as int]);
            assert(vdv[i as int] == vs@[i as int].deep_view());
        }
        s.append("  - ");
        s.append(vs[i].to_string().as_str());
        s.append("\n");
        proof {
            assert(s@ =~= head + pv_lines(vs.deep_view().take(i + 1)));
        }
        i = i + 1;
    }
    proof {
        assert(vs.deep_view().take(vs.deep_view().len() as int) =~= vs.deep_view());
        assert(s@ =~= pv_block(title@, vs.deep_view()));
    }
    s
}

fn render_relation(rel: &RelationData, dep_nl: bool) -> (r: String)
    ensures
        r@ == relation_blocks(rel@, dep_nl),
{
    let mut s = render_groups_block(dep_nl, "Dependencies:", &rel.depend);
    s.append(render_items_block("Necessary Commands:", &rel.depend_cmds).as_str());
    s.append(render_groups_block(true, "Suggests:", &rel.suggests).as_str());
    s.append(render_groups_block(true, "Recommends:", &rel.recommends).as_str());
    s.append(render_pr_block("Conflicts:", &rel.conflicts).as_str());
    s.append(render_pv_block("Virtual Packages:", &rel.virtuals).as_str());
    s.append(render_items_block("Providing Commands:", &rel.provide_cmds).as_str());
    proof {
        assert(s@ =~= relation_blocks(rel@, dep_nl));
    }
    s
}

impl RelationData {
    /// Renders the relation blocks: dependencies, necessary commands,
    /// suggests, recommends, conflicts, virtual packages, and provided
    /// commands, skipping empty blocks.
    pub fn to_string(&self) -> (r: String)
        ensures
            r@ == relation_blocks(self@, false),
    {
        render_relation(self, false)
    }
}

impl PackageData {
    /// Renders the whole record: package, version and author header lines,
    /// then the relation blocks.
    pub fn to_string(&self) -> (r: String)
        ensures
            r@ == package_display(self@),
    {
        let mut s = "Package: ".to_owned();
        s.append(self.about.package.name.as_str());
        s.append("\n");
        s.append("Version: ");
        s.append(self.about.package.version.to_string().as_str());
        s.append("\n");
        s.append("Author: ");
        s.append(self.about.author.to_string().as_str());
        s.append("\n");
        s.append(render_relation(&self.relation, true).as_str());
        proof {
            assert(s@ =~= package_display(self@));
        }
        s
    }
}

impl RelationData {
    /// Whether every relation field is empty.
    pub fn is_empty(&self) -> (r: bool)
        ensures
            r == (self@.depend.len() == 0 && self@.depend_cmds.len() == 0 && self@.suggests.len()
                == 0 && self@.recommends.len() == 0 && self@.conflicts.len() == 0
                && self@.virtuals.len() == 0 && self@.provide_cmds.len() == 0),
    {
        self.depend.len() == 0 && self.depend_cmds.len() == 0 && self.suggests.len() == 0
            && self.recommends.len() == 0 && self.conflicts.len() == 0 && self.virtuals.len() == 0
            && self.provide_cmds.len() == 0
    }
}

} // verus!
