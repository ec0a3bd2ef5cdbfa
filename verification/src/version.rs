use vstd::prelude::*;

verus! {

/// A parsed semantic version: the numeric triple and the raw pre-release
/// text (empty when the version is a plain release).
pub struct SemVer {
    pub major: u64,
    pub minor: u64,
    pub patch: u64,
    pub pre: String,
}

/// The mathematical shape of a parsed version.
pub struct SemVerModel {
    pub major: nat,
    pub minor: nat,
    pub patch: nat,
    pub pre: Seq<char>,
}

impl View for SemVer {
    type V = SemVerModel;

    open spec fn view(&self) -> SemVerModel {
        SemVerModel {
            major: self.major as nat,
            minor: self.minor as nat,
            patch: self.patch as nat,
            pre: self.pre@,
        }
    }
}

impl Clone for SemVer {
    fn clone(&self) -> (r: Self)
        ensures
            r@ == self@,
    {
        SemVer {
            major: self.major,
            minor: self.minor,
            patch: self.patch,
            pre: self.pre.clone(),
        }
    }
}

/// What `semver::Version::parse` makes of a piece of text: `None` where it
/// refuses the text, otherwise the parsed version.
pub uninterp spec fn parsed_version(s: Seq<char>) -> Option<SemVerModel>;

/// Relies on semver::Version::parse: accepts or rejects a version string
/// and, on success, yields its numeric major/minor/patch parts and its
/// pre-release text, all a function of the input text alone.
#[verifier::external_body]
pub(crate) fn parse_version_chars(s: &Vec<char>) -> (r: Option<SemVer>)
    ensures
        match r {
            Some(v) => parsed_version(s@) == Some(v@),
            None => parsed_version(s@) is None,
        },
{
    let text: String = s.iter().collect();
    match semver::Version::parse(&text) {
        Ok(v) => Some(
            SemVer {
                major: v.major,
                minor: v.minor,
                patch: v.patch,
                pre: v.pre.as_str().to_owned(),
            },
        ),
        Err(_) => None,
    }
}

/// Strict "earlier than" on versions: numeric comparison of
/// major.minor.patch; with an equal triple, a pre-release precedes the
/// plain release.  Two pre-releases with an equal triple are not ordered.
pub open spec fn ver_precedes(a: SemVerModel, b: SemVerModel) -> bool {
    ||| a.major < b.major
    ||| (a.major == b.major && a.minor < b.minor)
    ||| (a.major == b.major && a.minor == b.minor && a.patch < b.patch)
    ||| (a.major == b.major && a.minor == b.minor && a.patch == b.patch && a.pre.len() > 0
        && b.pre.len() == 0)
}

impl SemVer {
    /// Does `self` strictly precede `other`?
    pub fn precedes(&self, other: &SemVer) -> (r: bool)
        ensures
            r == ver_precedes(self@, other@),
    {
        if self.major != other.major {
            self.major < other.major
        } else if self.minor != other.minor {
            self.minor < other.minor
        } else if self.patch != other.patch {
            self.patch < other.patch
        } else {
            !self.pre.as_str().is_empty() && other.pre.as_str().is_empty()
        }
    }
}

/// The version carried by a directory name of the form `app-<version>`.
pub open spec fn app_dir_version(name: Seq<char>) -> Option<SemVerModel> {
    if name.len() >= 4 && name.take(4) == seq!['a', 'p', 'p', '-'] {
        parsed_version(name.skip(4))
    } else {
        None
    }
}

/// Parse the version out of a directory name of the form `app-<version>`.
pub fn parse_app_dir_version(name: &Vec<char>) -> (r: Option<SemVer>)
    ensures
        match r {
            Some(v) => app_dir_version(name@) == Some(v@),
            None => app_dir_version(name@) is None,
        },
{
    if name.len() < 4 {
        return None;
    }
    if !(name[0] == 'a' && name[1] == 'p' && name[2] == 'p' && name[3] == '-') {
        proof {
            assert(name@.take(4) != seq!['a', 'p', 'p', '-']) by {
                if name@.take(4) == seq!['a', 'p', 'p', '-'] {
                    assert(name@[0] == 'a' && name@[1] == 'p' && name@[2] == 'p' && name@[3]
                        == '-');
                }
            }
        }
        return None;
    }
    let mut suffix: Vec<char> = Vec::new();
    let mut i: usize = 4;
    while i < name.len()
        invariant
            4 <= i <= name@.len(),
            suffix@ =~= name@.subrange(4, i as int),
        decreases name@.len() - i,
    {
        suffix.push(name[i]);
        i = i + 1;
        proof {
            assert(suffix@ =~= name@.subrange(4, i as int));
        }
    }
    proof {
        assert(suffix@ =~= name@.skip(4));
        assert(name@.take(4) =~= seq!['a', 'p', 'p', '-']);
    }
    parse_version_chars(&suffix)
}

} // verus!
