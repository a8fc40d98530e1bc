//! A search engine's cluster logic, verified.

use vstd::prelude::*;

pub mod api;
pub mod breaker;
pub mod cluster;
pub mod console;
pub mod json;
pub mod laws;
pub mod list;
pub mod number;
pub mod pattern;
pub mod size;
pub mod text;
pub mod time;

verus! {

/// The version of OpenSearch this engine speaks.
pub const OPENSEARCH_VERSION: &'static str = "3.9.0";

/// This project's own version.
pub const VERSION: &'static str = "0.1.0";

/// What a build says it was built from: what it was told, else the commit, with
/// a mark when there are changes that are not in the commit, else that it is
/// unknown.
pub open spec fn built_from(told: Option<Seq<char>>, commit: Option<Seq<char>>, dirty: bool) -> Seq<
    char,
> {
    if told is Some && told->0.len() > 0 {
        told->0
    } else {
        match commit {
            Some(said) => {
                let sha = text::trimmed(said);
                if sha.len() == 0 {
                    "unknown"@
                } else if dirty {
                    sha + "-dirty"@
                } else {
                    sha
                }
            },
            None => "unknown"@,
        }
    }
}

/// What a build says it was built from, out of what it was told and what the
/// version control printed as its commit.
pub fn build_hash(told: &Option<String>, commit: &Option<String>, dirty: bool) -> (r: String)
    ensures
        r@ == built_from(told.deep_view(), commit.deep_view(), dirty),
{
    if let Some(t) = told {
        if !t.as_str().is_empty() {
            return t.clone();
        }
    }
    match commit {
        Some(said) => {
            let sha = text::trim(said.as_str());
            if sha.as_str().is_empty() {
                "unknown".to_owned()
            } else if dirty {
                sha.concat("-dirty")
            } else {
                sha
            }
        },
        None => "unknown".to_owned(),
    }
}

} // verus!
