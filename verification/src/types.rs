use vstd::prelude::*;

use crate::version::{SemVer, SemVerModel, parse_version_chars, parsed_version, ver_precedes};
use crate::chars::chars_vec;

verus! {

/// One downloadable build of the modification.
pub struct ReleaseVersion {
    pub version: String,
    pub download: String,
}

/// The mathematical shape of a downloadable build.
pub struct ReleaseVersionModel {
    pub version: Seq<char>,
    pub download: Seq<char>,
}

impl View for ReleaseVersion {
    type V = ReleaseVersionModel;

    open spec fn view(&self) -> ReleaseVersionModel {
        ReleaseVersionModel { version: self.version@, download: self.download@ }
    }
}

impl DeepView for ReleaseVersion {
    type V = ReleaseVersionModel;

    open spec fn deep_view(&self) -> ReleaseVersionModel {
        self.view()
    }
}

/// One release channel and the builds it carries.
pub struct Release {
    pub id: String,
    pub name: String,
    pub github_url: Option<String>,
    pub versions: Vec<ReleaseVersion>,
}

/// The mathematical shape of a release channel.
pub struct ReleaseModel {
    pub id: Seq<char>,
    pub name: Seq<char>,
    pub github_url: Option<Seq<char>>,
    pub versions: Seq<ReleaseVersionModel>,
}

impl View for Release {
    type V = ReleaseModel;

    open spec fn view(&self) -> ReleaseModel {
        ReleaseModel {
            id: self.id@,
            name: self.name@,
            github_url: match self.github_url {
                Some(ref u) => Some(u@),
                None => None,
            },
            versions: self.versions.deep_view(),
        }
    }
}

impl DeepView for Release {
    type V = ReleaseModel;

    open spec fn deep_view(&self) -> ReleaseModel {
        self.view()
    }
}

/// Where a release catalog entry comes from.
pub enum ReleaseSourceType {
    Github,
    Direct,
}

/// One entry of the remote release catalog.
pub struct ReleaseSource {
    pub id: Option<String>,
    pub url: String,
    pub source_type: ReleaseSourceType,
}

/// The first index whose release carries the given channel name.
pub open spec fn is_first_named(rs: Seq<ReleaseModel>, n: Seq<char>, i: int) -> bool {
    &&& 0 <= i < rs.len()
    &&& rs[i].name == n
    &&& forall|j: int| 0 <= j < i ==> (#[trigger] rs[j].name) != n
}

/// Some release carries the given channel name.
pub open spec fn has_named(rs: Seq<ReleaseModel>, n: Seq<char>) -> bool {
    exists|i: int| 0 <= i < rs.len() && (#[trigger] rs[i].name) == n
}

/// The first release whose channel name equals `name`.
pub fn find_release(releases: &Vec<Release>, name: &str) -> (r: Option<usize>)
    ensures
        match r {
            Some(i) => is_first_named(releases.deep_view(), name@, i as int),
            None => !has_named(releases.deep_view(), name@),
        },
{
    let wanted = name.to_owned();
    let mut i: usize = 0;
    while i < releases.len()
        invariant
            i <= releases@.len(),
            wanted@ == name@,
            forall|j: int| 0 <= j < i ==> (#[trigger] releases.deep_view()[j].name) != name@,
        decreases releases@.len() - i,
    {
        if releases[i].name == wanted {
            proof {
                assert(releases.deep_view()[i as int].name == name@);
            }
            return Some(i);
        }
        proof {
            assert(releases.deep_view()[i as int].name != name@);
        }
        i = i + 1;
    }
    None
}

/// The release channel an installation uses: the requested channel where
/// one was named, else the most stable channel present, in the order
/// stable, beta, alpha.
pub fn select_release(releases: &Vec<Release>, requested: &Option<String>) -> (r: Option<usize>)
    ensures
        match requested {
            Some(v) => match r {
                Some(i) => is_first_named(releases.deep_view(), v@, i as int),
                None => !has_named(releases.deep_view(), v@),
            },
            None => match r {
                Some(i) => {
                    ||| is_first_named(releases.deep_view(), "stable"@, i as int)
                    ||| (!has_named(releases.deep_view(), "stable"@) && is_first_named(
                        releases.deep_view(),
                        "beta"@,
                        i as int,
                    ))
                    ||| (!has_named(releases.deep_view(), "stable"@) && !has_named(
                        releases.deep_view(),
                        "beta"@,
                    ) && is_first_named(releases.deep_view(), "alpha"@, i as int))
                },
                None => !has_named(releases.deep_view(), "stable"@) && !has_named(
                    releases.deep_view(),
                    "beta"@,
                ) && !has_named(releases.deep_view(), "alpha"@),
            },
        },
{
    match requested {
        Some(v) => find_release(releases, v.as_str()),
        None => {
            match find_release(releases, "stable") {
                Some(i) => Some(i),
                None => {
                    match find_release(releases, "beta") {
                        Some(i) => Some(i),
                        None => find_release(releases, "alpha"),
                    }
                },
            }
        },
    }
}

/// The version a string stands for when versions are ranked: an
/// unparsable string ranks as the zero version.
pub open spec fn eff_version(s: Seq<char>) -> SemVerModel {
    match parsed_version(s) {
        Some(v) => v,
        None => SemVerModel { major: 0, minor: 0, patch: 0, pre: Seq::empty() },
    }
}

proof fn lemma_eff_precedes_trans(a: SemVerModel, b: SemVerModel, c: SemVerModel)
    requires
        ver_precedes(a, b) || (!ver_precedes(b, a) && !ver_precedes(a, b)),
        ver_precedes(b, c),
    ensures
        !ver_precedes(c, a),
{
}

/// The build with the highest version by numeric precedence; among
/// builds no other exceeds, the last one listed.
pub fn pick_latest_version(versions: &Vec<ReleaseVersion>) -> (r: Option<usize>)
    ensures
        match r {
            Some(i) => 0 <= i < versions@.len() && forall|j: int|
                0 <= j < versions@.len() ==> !ver_precedes(
                    eff_version(versions.deep_view()[i as int].version),
                    eff_version(#[trigger] versions.deep_view()[j].version),
                ),
            None => versions@.len() == 0,
        },
{
    if versions.len() == 0 {
        return None;
    }
    let mut best: usize = 0;
    let mut best_ver: SemVer = effective_version_of(&versions[0]);
    let mut i: usize = 1;
    while i < versions.len()
        invariant
            1 <= i <= versions@.len(),
            best < i,
            best_ver@ == eff_version(versions.deep_view()[best as int].version),
            forall|j: int|
                0 <= j < i ==> !ver_precedes(
                    best_ver@,
                    eff_version(#[trigger] versions.deep_view()[j].version),
                ),
        decreases versions@.len() - i,
    {
        let cur = effective_version_of(&versions[i]);
        if !cur.precedes(&best_ver) {
            proof {
                assert forall|j: int| 0 <= j < i + 1 implies !ver_precedes(
                    cur@,
                    eff_version(#[trigger] versions.deep_view()[j].version),
                ) by {
                    if j < i {
                        let vj = eff_version(versions.deep_view()[j].version);
                        if ver_precedes(cur@, vj) {
                            if ver_precedes(best_ver@, cur@) {
                                crate::types::lemma_eff_precedes_trans(best_ver@, cur@, vj);
                            } else {
                                crate::types::lemma_eff_precedes_trans(best_ver@, cur@, vj);
                            }
                        }
                    }
                }
            }
            best = i;
            best_ver = cur;
        } else {
            proof {
                assert(!ver_precedes(
                    best_ver@,
                    eff_version(versions.deep_view()[i as int].version),
                ));
            }
        }
        i = i + 1;
    }
    Some(best)
}

/// Rank a build's version string, unparsable strings as the zero
/// version.
fn effective_version_of(v: &ReleaseVersion) -> (r: SemVer)
    ensures
        r@ == eff_version(v@.version),
{
    let vchars = chars_vec(v.version.as_str());
    match parse_version_chars(&vchars) {
        Some(sv) => sv,
        None => SemVer { major: 0, minor: 0, patch: 0, pre: String::new() },
    }
}

} // verus!
