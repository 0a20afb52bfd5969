//! The list of installed packages a satisfaction query runs against.

use vstd::prelude::*;
use crate::pkg::{PackageData, PackageDataView};

verus! {

/// One installed package: its record and whether it was installed
/// automatically as a dependency.
#[derive(Debug)]
pub struct InstalledPackageData {
    pub info: PackageData,
    pub is_auto_installed: bool,
}

/// The mathematical content of an [`InstalledPackageData`].
pub struct InstalledPackageView {
    pub info: PackageDataView,
    pub is_auto_installed: bool,
}

impl View for InstalledPackageData {
    type V = InstalledPackageView;

    open spec fn view(&self) -> InstalledPackageView {
        InstalledPackageView { info: self.info@, is_auto_installed: self.is_auto_installed }
    }
}

impl DeepView for InstalledPackageData {
    type V = InstalledPackageView;

    open spec fn deep_view(&self) -> InstalledPackageView {
        self@
    }
}

impl Clone for InstalledPackageData {
    /// A clone has the same view.
    fn clone(&self) -> (r: Self)
        ensures
            r@ == self@,
    {
        InstalledPackageData { info: self.info.clone(), is_auto_installed: self.is_auto_installed }
    }
}

impl Default for InstalledPackageData {
    /// The default entry is a manually installed default record.
    fn default() -> (r: Self)
        ensures
            r@.is_auto_installed == false,
            r@.info.relation.virtuals.len() == 0,
    {
        InstalledPackageData { info: PackageData::default(), is_auto_installed: false }
    }
}

/// The installed packages known to the system, in list order.
#[derive(Debug)]
pub struct PackageListData {
    pub installed_packages: Vec<InstalledPackageData>,
}

impl View for PackageListData {
    type V = Seq<InstalledPackageView>;

    open spec fn view(&self) -> Seq<InstalledPackageView> {
        self.installed_packages.deep_view()
    }
}

impl Default for PackageListData {
    /// The default list holds no packages.
    fn default() -> (r: Self)
        ensures
            r@.len() == 0,
    {
        let r = PackageListData { installed_packages: Vec::new() };
        proof {
            assert(r@ =~= Seq::<InstalledPackageView>::empty());
        }
        r
    }
}

} // verus!
