//! What the server says of itself.

use vstd::prelude::*;
use vstd::string::*;

verus! {

/// How many characters of a commit hash the version shows.
pub const SHORT_SHA_LEN: usize = 7;

/// The build and the backend of a running server.
#[derive(Debug)]
pub struct Info {
    pub version: String,
    pub rustc: String,
    pub build_date: String,
    pub backend: String,
}

/// The first characters of a commit hash, seven at most.
pub open spec fn short(sha: Seq<char>) -> Seq<char> {
    if sha.len() <= 7 {
        sha
    } else {
        sha.take(7)
    }
}

/// The version that a build shows: the package's version, a hyphen and the
/// short hash of the compiler's commit.
pub open spec fn build_version(package: Seq<char>, sha: Seq<char>) -> Seq<char> {
    package + "-"@ + short(sha)
}

/// The first seven characters of `sha`, or all of it where it has fewer.
pub fn short_sha(sha: &str) -> (head: String)
    ensures
        head@ == short(sha@),
{
    let len = sha.unicode_len();
    if len <= SHORT_SHA_LEN {
        sha.to_owned()
    } else {
        let head = sha.substring_char(0, SHORT_SHA_LEN);
        proof {
            assert(sha@.subrange(0, 7) =~= sha@.take(7));
        }
        head.to_owned()
    }
}

impl Info {
    /// The info of a build, its backend not yet named.
    pub fn new(package_version: &str, commit_hash: &str, rustc: &str, build_date: &str) -> (info:
        Self)
        ensures
            info.version@ == build_version(package_version@, commit_hash@),
            info.rustc@ == rustc@,
            info.build_date@ == build_date@,
            info.backend@ == Seq::<char>::empty(),
    {
        let mut version = package_version.to_owned();
        version.append("-");
        let sha = short_sha(commit_hash);
        version.append(sha.as_str());
        Info {
            version,
            rustc: rustc.to_owned(),
            build_date: build_date.to_owned(),
            backend: String::new(),
        }
    }
}

} // verus!
