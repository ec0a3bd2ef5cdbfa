use vstd::prelude::*;

use crate::chars::chars_vec;
use crate::version::{SemVer, parse_version_chars, parsed_version, ver_precedes};

verus! {

/// A newer installer build that can be fetched.
pub struct UpdateInfo {
    pub version: String,
    pub download_url: String,
}

/// What applying an installer update reports back.
pub struct UpdateApplyResult {
    pub message: String,
    pub should_exit: bool,
}

/// The version this installer build carries.
pub fn current_installer_version() -> (r: String)
    ensures
        r@ == "0.1.0"@,
{
    "0.1.0".to_owned()
}

/// A release tag with its leading `v` markers removed.
pub open spec fn strip_v(s: Seq<char>) -> Seq<char>
    decreases s.len(),
{
    if s.len() > 0 && s[0] == 'v' {
        strip_v(s.drop_first())
    } else {
        s
    }
}

/// The version a release tag names, leading `v` markers ignored.
pub open spec fn tag_version(s: Seq<char>) -> Option<crate::version::SemVerModel> {
    parsed_version(strip_v(s))
}

/// Parse a release tag into its version, leading `v` markers ignored.
pub fn parse_tag_version(tag: &str) -> (r: Option<SemVer>)
    ensures
        match r {
            Some(v) => tag_version(tag@) == Some(v@),
            None => tag_version(tag@) is None,
        },
{
    let v = chars_vec(tag);
    proof {
        assert(v@.skip(0) =~= v@);
    }
    let mut lo: usize = 0;
    while lo < v.len() && v[lo] == 'v'
        invariant
            lo <= v@.len(),
            strip_v(v@) == strip_v(v@.skip(lo as int)),
        decreases v@.len() - lo,
    {
        proof {
            assert(v@.skip(lo as int).drop_first() =~= v@.skip(lo + 1));
        }
        lo = lo + 1;
    }
    let mut rest: Vec<char> = Vec::new();
    let mut i: usize = lo;
    while i < v.len()
        invariant
            lo <= i <= v@.len(),
            rest@ =~= v@.subrange(lo as int, i as int),
        decreases v@.len() - i,
    {
        rest.push(v[i]);
        i = i + 1;
        proof {
            assert(rest@ =~= v@.subrange(lo as int, i as int));
        }
    }
    proof {
        assert(rest@ =~= v@.skip(lo as int));
        assert(strip_v(v@.skip(lo as int)) =~= v@.skip(lo as int));
    }
    parse_version_chars(&rest)
}

/// Is the release the tag names strictly newer than the running build,
/// by numeric precedence?  Unparsable tags never count as newer.
pub fn update_available(current_version: &str, tag: &str) -> (r: bool)
    ensures
        r == match (tag_version(current_version@), tag_version(tag@)) {
            (Some(c), Some(l)) => ver_precedes(c, l),
            _ => false,
        },
{
    let current = match parse_tag_version(current_version) {
        Some(c) => c,
        None => {
            return false;
        },
    };
    let latest = match parse_tag_version(tag) {
        Some(l) => l,
        None => {
            return false;
        },
    };
    current.precedes(&latest)
}

} // verus!
