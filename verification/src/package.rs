//! The two record types held by the search store.

use vstd::prelude::*;

verus! {

/// One package of the archive.
///
/// `source` is the archive component the record was loaded from; the other
/// fields come from the package's stanza.
#[derive(Clone, Debug, PartialEq, Eq)]
pub struct Package {
    pub name: String,
    pub version: String,
    pub source: String,
    pub description: String,
}

/// Mathematical model of a [`Package`]: its four texts as character sequences.
pub struct PackageView {
    pub name: Seq<char>,
    pub version: Seq<char>,
    pub source: Seq<char>,
    pub description: Seq<char>,
}

impl View for Package {
    type V = PackageView;

    open spec fn view(&self) -> PackageView {
        PackageView {
            name: self.name@,
            version: self.version@,
            source: self.source@,
            description: self.description@,
        }
    }
}

impl PackageView {
    /// The record whose four texts are all empty.
    pub open spec fn empty() -> PackageView {
        PackageView {
            name: Seq::empty(),
            version: Seq::empty(),
            source: Seq::empty(),
            description: Seq::empty(),
        }
    }
}

/// One file of a package: the name of the file and the package that installs
/// it. A file that several packages install has one record for each.
#[derive(Clone, Debug, PartialEq, Eq)]
pub struct PackageFile {
    pub filename: String,
    pub package: String,
}

/// Mathematical model of a [`PackageFile`].
pub struct PackageFileView {
    pub filename: Seq<char>,
    pub package: Seq<char>,
}

impl View for PackageFile {
    type V = PackageFileView;

    open spec fn view(&self) -> PackageFileView {
        PackageFileView { filename: self.filename@, package: self.package@ }
    }
}

/// The models of a list of files, in order.
pub open spec fn file_views(list: Seq<PackageFile>) -> Seq<PackageFileView> {
    list.map_values(|f: PackageFile| f@)
}

/// The models of a list of packages, in order.
pub open spec fn package_views(list: Seq<Package>) -> Seq<PackageView> {
    list.map_values(|p: Package| p@)
}

impl Package {
    /// A record with every field empty.
    pub fn empty() -> (p: Package)
        ensures
            p@ == PackageView::empty(),
    {
        Package {
            name: String::new(),
            version: String::new(),
            source: String::new(),
            description: String::new(),
        }
    }
}

} // verus!
