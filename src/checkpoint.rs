//! The record of which package versions a release session has completed.
use vstd::prelude::*;
use crate::text::{lemma_release_token_versions, make_release_token, release_token};
use crate::workspace::{packages_view, strings_view, CargoPackage, PackageView};

verus! {

/// What a checkpoint records.
pub struct CheckpointView {
    pub workspace_root: Seq<char>,
    pub released: Set<Seq<char>>,
    pub timestamp: int,
}

/// The release state of one workspace's session: the tokens (`name@version`) of the
/// package versions that are done.
#[derive(Clone, Debug)]
pub struct PublishCheckpoint {
    /// The workspace root, as given (canonicalised by the caller), that identifies the session.
    pub workspace_root: String,
    /// The tokens of the released package versions; order and repetition carry no meaning.
    pub published_packages: Vec<String>,
    /// When the checkpoint last changed, in milliseconds since the Unix epoch.
    pub timestamp: i64,
}

/// The set of strings in a list.
pub open spec fn string_set(v: Seq<String>) -> Set<Seq<char>> {
    Set::new(|t: Seq<char>| strings_view(v).contains(t))
}

impl View for PublishCheckpoint {
    type V = CheckpointView;

    open spec fn view(&self) -> CheckpointView {
        CheckpointView {
            workspace_root: self.workspace_root@,
            released: string_set(self.published_packages@),
            timestamp: self.timestamp as int,
        }
    }
}

/// Whether the package's version is recorded as released.
pub open spec fn is_released(released: Set<Seq<char>>, p: PackageView) -> bool {
    released.contains(release_token(p.name, p.version))
}

/// The packages whose versions are not recorded as released, in their order.
pub open spec fn unreleased(released: Set<Seq<char>>, s: Seq<PackageView>) -> Seq<PackageView>
    decreases s.len(),
{
    if s.len() == 0 {
        Seq::empty()
    } else if is_released(released, s.last()) {
        unreleased(released, s.drop_last())
    } else {
        unreleased(released, s.drop_last()).push(s.last())
    }
}

/// Relies on chrono's `Utc::now` and `DateTime::timestamp_millis`: the current time in
/// milliseconds since the Unix epoch. Nothing is promised of the value.
#[verifier::external_body]
fn now_millis() -> i64 {
    chrono::Utc::now().timestamp_millis()
}

proof fn lemma_string_set_push(v: Seq<String>, x: String)
    ensures
        string_set(v.push(x)) == string_set(v).insert(x@),
{
    let w = v.push(x);
    assert forall|t: Seq<char>| string_set(w).contains(t) <==> string_set(v).insert(x@).contains(t) by {
        if strings_view(w).contains(t) {
            let k = choose|k: int| 0 <= k < strings_view(w).len() && strings_view(w)[k] == t;
            if k < v.len() {
                assert(strings_view(v)[k] == t);
            }
        }
        if strings_view(v).contains(t) {
            let k = choose|k: int| 0 <= k < strings_view(v).len() && strings_view(v)[k] == t;
            assert(strings_view(w)[k] == t);
        }
        if t == x@ {
            assert(strings_view(w)[v.len() as int] == t);
        }
    }
    assert(string_set(w) =~= string_set(v).insert(x@));
}

impl PublishCheckpoint {
    /// A checkpoint for the workspace with nothing released, stamped with the current time.
    pub fn new(workspace_root: String) -> (r: PublishCheckpoint)
        ensures
            r@.workspace_root == workspace_root@,
            r@.released == Set::<Seq<char>>::empty(),
    {
        let r = PublishCheckpoint {
            workspace_root,
            published_packages: Vec::new(),
            timestamp: now_millis(),
        };
        assert(r@.released =~= Set::<Seq<char>>::empty());
        r
    }

    /// Whether the token is recorded.
    fn has_token(&self, token: &String) -> (r: bool)
        ensures
            r == self@.released.contains(token@),
    {
        let ghost tv = strings_view(self.published_packages@);
        for i in 0..self.published_packages.len()
            invariant
                tv == strings_view(self.published_packages@),
                forall|k: int| 0 <= k < i ==> tv[k] != token@,
        {
            if self.published_packages[i].eq(token) {
                assert(tv[i as int] == token@);
                return true;
            }
        }
        assert(!tv.contains(token@));
        false
    }

    /// Records the package version as released and stamps the current time. Recording
    /// a version twice changes nothing more than recording it once.
    pub fn mark_published(&mut self, package_name: String, package_version: String)
        ensures
            final(self)@.workspace_root == old(self)@.workspace_root,
            final(self)@.released == old(self)@.released.insert(
                release_token(package_name@, package_version@),
            ),
    {
        let token = make_release_token(package_name.as_str(), package_version.as_str());
        if !self.has_token(&token) {
            let ghost before = self.published_packages@;
            self.published_packages.push(token);
            proof {
                lemma_string_set_push(before, token);
            }
        } else {
            assert(old(self)@.released.insert(token@) =~= old(self)@.released);
        }
        self.timestamp = now_millis();
    }

    /// Whether exactly this version of the package is recorded as released.
    pub fn is_published(&self, package_name: &str, package_version: &str) -> (r: bool)
        ensures
            r == self@.released.contains(release_token(package_name@, package_version@)),
    {
        let token = make_release_token(package_name, package_version);
        self.has_token(&token)
    }

    /// The packages whose versions are not yet recorded, in their order.
    pub fn unpublished_packages(&self, packages: &Vec<CargoPackage>) -> (r: Vec<CargoPackage>)
        ensures
            packages_view(r@) == unreleased(self@.released, packages_view(packages@)),
    {
        let ghost s = packages_view(packages@);
        let mut r: Vec<CargoPackage> = Vec::new();
        for i in 0..packages.len()
            invariant
                s == packages_view(packages@),
                packages_view(r@) == unreleased(self@.released, s.take(i as int)),
        {
            assert(s.take(i + 1).drop_last() =~= s.take(i as int));
            assert(s.take(i + 1).last() == packages@[i as int]@);
            if !self.is_published(packages[i].name.as_str(), packages[i].version.as_str()) {
                let p = packages[i].copy();
                let ghost before = r@;
                r.push(p);
                assert(packages_view(r@) =~= packages_view(before).push(p@));
            }
        }
        assert(s.take(packages.len() as int) =~= s);
        r
    }
}

/// Recording one version of a package leaves every other version of it unreleased, if
/// it was unreleased before.
pub proof fn lemma_other_version_unreleased(
    released: Set<Seq<char>>,
    name: Seq<char>,
    v1: Seq<char>,
    v2: Seq<char>,
)
    requires
        v1 != v2,
        !released.contains(release_token(name, v1)),
    ensures
        !released.insert(release_token(name, v2)).contains(release_token(name, v1)),
{
    lemma_release_token_versions(name, v1, v2);
}

} // verus!
