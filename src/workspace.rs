use vstd::prelude::*;

verus! {

/// A package as the ordering and release logic sees it.
pub struct PackageView {
    pub name: Seq<char>,
    pub version: Seq<char>,
    pub path: Seq<char>,
    pub dependencies: Seq<Seq<char>>,
    pub publish: bool,
}

/// A member package of a workspace.
#[derive(Clone, Debug)]
pub struct CargoPackage {
    /// The package's name, unique within its workspace.
    pub name: String,
    /// The package's version, compared only for equality.
    pub version: String,
    /// Where the package lives; handed to the release operation untouched.
    pub path: String,
    /// The names of the packages this one requires.
    pub dependencies: Vec<String>,
    /// Whether the package is a candidate for release at all.
    pub publish: bool,
}

/// The views of a sequence of strings.
pub open spec fn strings_view(v: Seq<String>) -> Seq<Seq<char>> {
    v.map_values(|s: String| s@)
}

/// The views of a sequence of packages.
pub open spec fn packages_view(v: Seq<CargoPackage>) -> Seq<PackageView> {
    v.map_values(|p: CargoPackage| p@)
}

impl View for CargoPackage {
    type V = PackageView;

    open spec fn view(&self) -> PackageView {
        PackageView {
            name: self.name@,
            version: self.version@,
            path: self.path@,
            dependencies: strings_view(self.dependencies@),
            publish: self.publish,
        }
    }
}

/// A copy of a list of strings.
pub fn copy_strings(v: &Vec<String>) -> (r: Vec<String>)
    ensures
        strings_view(r@) == strings_view(v@),
{
    let mut r: Vec<String> = Vec::new();
    for i in 0..v.len()
        invariant
            r@ == v@.take(i as int),
    {
        r.push(v[i].clone());
        assert(r@ =~= v@.take(i + 1));
    }
    assert(v@.take(v.len() as int) =~= v@);
    r
}

impl CargoPackage {
    /// A copy of this package.
    pub fn copy(&self) -> (r: CargoPackage)
        ensures
            r@ == self@,
    {
        CargoPackage {
            name: self.name.clone(),
            version: self.version.clone(),
            path: self.path.clone(),
            dependencies: copy_strings(&self.dependencies),
            publish: self.publish,
        }
    }
}

/// No two packages share a name.
pub open spec fn names_unique(pkgs: Seq<PackageView>) -> bool {
    forall|i: int, j: int|
        0 <= i < pkgs.len() && 0 <= j < pkgs.len() && i != j ==> pkgs[i].name != pkgs[j].name
}

/// Whether some package carries the name.
pub open spec fn has_name(pkgs: Seq<PackageView>, name: Seq<char>) -> bool {
    exists|i: int| 0 <= i < pkgs.len() && pkgs[i].name == name
}

/// The position of the package with the given name, if there is one.
pub open spec fn name_index(pkgs: Seq<PackageView>, name: Seq<char>) -> Option<int> {
    if has_name(pkgs, name) {
        Some(choose|i: int| 0 <= i < pkgs.len() && pkgs[i].name == name)
    } else {
        None
    }
}

/// Among uniquely named packages, `name_index` finds exactly the package with that name.
pub proof fn lemma_name_index(pkgs: Seq<PackageView>, i: int)
    requires
        names_unique(pkgs),
        0 <= i < pkgs.len(),
    ensures
        name_index(pkgs, pkgs[i].name) == Some(i),
{
    assert(has_name(pkgs, pkgs[i].name));
}

/// A workspace: a root and its member packages, keyed by name.
#[derive(Clone, Debug)]
pub struct CargoWorkspace {
    /// The workspace's root location.
    pub root: String,
    /// The member locations that were found.
    pub members: Vec<String>,
    /// The member packages, each name at most once.
    pub packages: Vec<CargoPackage>,
}

impl CargoWorkspace {
    /// The views of the member packages.
    pub open spec fn packages_view(&self) -> Seq<PackageView> {
        packages_view(self.packages@)
    }

    /// Package names are unique.
    pub open spec fn wf(&self) -> bool {
        names_unique(self.packages_view())
    }

    /// A workspace without packages.
    pub fn new(root: String, members: Vec<String>) -> (r: CargoWorkspace)
        ensures
            r.root == root,
            r.members == members,
            r.packages@.len() == 0,
            r.wf(),
    {
        CargoWorkspace { root, members, packages: Vec::new() }
    }

    /// Whether no two packages share a name.
    pub fn has_unique_names(&self) -> (r: bool)
        ensures
            r == self.wf(),
    {
        let ghost pkgs = self.packages_view();
        let n = self.packages.len();
        for i in 0..n
            invariant
                n == self.packages@.len(),
                pkgs == self.packages_view(),
                forall|a: int, b: int| 0 <= a < i && 0 <= b < i && a != b ==> pkgs[a].name != pkgs[b].name,
        {
            for j in 0..i
                invariant
                    n == self.packages@.len(),
                    i < n,
                    pkgs == self.packages_view(),
                    forall|a: int, b: int|
                        0 <= a < i && 0 <= b < i && a != b ==> pkgs[a].name != pkgs[b].name,
                    forall|b: int| 0 <= b < j ==> pkgs[i as int].name != pkgs[b].name,
            {
                if self.packages[i].name.eq(&self.packages[j].name) {
                    assert(!names_unique(pkgs)) by {
                        assert(pkgs[i as int].name == pkgs[j as int].name);
                    }
                    return false;
                }
            }
        }
        true
    }

    /// The position of the package with the given name.
    pub fn find_package(&self, name: &String) -> (r: Option<usize>)
        requires
            self.wf(),
        ensures
            r == (match name_index(self.packages_view(), name@) {
                Some(i) => Some(i as usize),
                None => None::<usize>,
            }),
            r matches Some(i) ==> i < self.packages@.len() && self.packages_view()[i as int].name
                == name@,
    {
        let ghost pkgs = self.packages_view();
        for i in 0..self.packages.len()
            invariant
                pkgs == self.packages_view(),
                names_unique(pkgs),
                forall|k: int| 0 <= k < i ==> pkgs[k].name != name@,
        {
            if self.packages[i].name.eq(name) {
                proof {
                    lemma_name_index(pkgs, i as int);
                }
                return Some(i);
            }
        }
        assert(!has_name(pkgs, name@));
        None
    }

    /// Adds a package, replacing the one of the same name if there is one.
    pub fn insert_package(&mut self, package: CargoPackage)
        requires
            old(self).wf(),
        ensures
            final(self).wf(),
            final(self).root == old(self).root,
            final(self).members == old(self).members,
            final(self).packages_view() == (match name_index(old(self).packages_view(), package@.name) {
                Some(i) => old(self).packages_view().update(i, package@),
                None => old(self).packages_view().push(package@),
            }),
    {
        let ghost pkgs = self.packages_view();
        let ghost pv = package@;
        match self.find_package(&package.name) {
            Some(i) => {
                self.packages.set(i, package);
                assert(self.packages_view() =~= pkgs.update(i as int, pv));
            },
            None => {
                self.packages.push(package);
                assert(self.packages_view() =~= pkgs.push(pv));
                assert(forall|k: int| 0 <= k < pkgs.len() ==> pkgs[k].name != pv.name);
            },
        }
    }
}

} // verus!
