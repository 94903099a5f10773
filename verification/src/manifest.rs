//! The site manifest: the documentation pages, the source files each one
//! documents, and the freshness status of each page.
use vstd::prelude::*;
use crate::text::{chars_of, decimal, decimal_of, owned, push_all, str_eq, string_of};

verus! {

/// The manifest of a documentation site.
pub struct Manifest {
    pub version: u32,
    pub source_repo: SourceRepo,
    pub exclude_patterns: Vec<String>,
    pub pages: Vec<Page>,
}

/// Where the documented source repository lives.
pub struct SourceRepo {
    pub path: String,
    pub remote: Option<String>,
    pub default_branch: String,
}

/// One documentation page.
pub struct Page {
    pub route: String,
    pub file: Option<String>,
    pub title: String,
    pub tags: Vec<String>,
    pub sources: Vec<Source>,
    pub related: Vec<String>,
    pub verified_at: Option<VerifiedAt>,
    pub status: Status,
    pub concepts: Vec<String>,
}

/// A source file that a page documents.
pub struct Source {
    pub path: String,
    pub sections: Vec<String>,
}

/// The source revision at which a page was last verified.
pub struct VerifiedAt {
    pub sha: String,
    pub timestamp: String,
}

/// The freshness status of a page.
#[derive(PartialEq, Eq, Structural, Clone, Copy, Debug)]
pub enum Status {
    Current,
    Stale,
    Outdated,
    Unverified,
    Missing,
}

/// The name of a status, as the manifest and the reports write it.
pub open spec fn status_name(s: Status) -> Seq<char> {
    match s {
        Status::Current => "current"@,
        Status::Stale => "stale"@,
        Status::Outdated => "outdated"@,
        Status::Unverified => "unverified"@,
        Status::Missing => "missing"@,
    }
}

impl Status {
    /// The name of the status.
    pub fn to_string(&self) -> (r: String)
        ensures
            r@ == status_name(*self),
    {
        match self {
            Status::Current => owned("current"),
            Status::Stale => owned("stale"),
            Status::Outdated => owned("outdated"),
            Status::Unverified => owned("unverified"),
            Status::Missing => owned("missing"),
        }
    }

    /// The status of a page that nobody has verified yet.
    pub fn default() -> (r: Status)
        ensures
            r == Status::Unverified,
    {
        Status::Unverified
    }
}

/// The paths of the sources of a page.
pub open spec fn source_paths(sources: Seq<Source>) -> Seq<Seq<char>> {
    sources.map_values(|s: Source| s.path@)
}

/// The index of the first page with the given route.
pub open spec fn first_page_with_route(pages: Seq<Page>, route: Seq<char>, i: int) -> bool {
    &&& 0 <= i < pages.len()
    &&& pages[i].route@ == route
    &&& forall|j: int| 0 <= j < i ==> pages[j].route@ != route
}

/// The error text for a manifest of an unsupported format version.
pub open spec fn version_error(version: u32) -> Seq<char> {
    "unsupported manifest version: "@ + decimal(version as nat)
}

impl Manifest {
    /// The index of the first page with the given route.
    pub fn find_page(&self, route: &str) -> (r: Option<usize>)
        ensures
            r matches Some(i) ==> first_page_with_route(self.pages@, route@, i as int),
            r is None ==> forall|j: int|
                0 <= j < self.pages@.len() ==> self.pages@[j].route@ != route@,
    {
        let mut i: usize = 0;
        while i < self.pages.len()
            invariant
                i <= self.pages.len(),
                forall|j: int| 0 <= j < i ==> self.pages@[j].route@ != route@,
            decreases self.pages.len() - i,
        {
            if str_eq(self.pages[i].route.as_str(), route) {
                return Some(i);
            }
            i = i + 1;
        }
        None
    }

    /// The manifest itself when its format version is the supported one (1),
    /// else the error that names the version found.
    pub fn validate_version(self) -> (r: Result<Manifest, String>)
        ensures
            self.version == 1 ==> r == Ok::<Manifest, String>(self),
            self.version != 1 ==> (r matches Err(e) && e@ == version_error(self.version)),
    {
        if self.version == 1 {
            Ok(self)
        } else {
            let mut msg = chars_of("unsupported manifest version: ");
            let n = decimal_of(self.version as usize);
            push_all(&mut msg, &n);
            Err(string_of(&msg))
        }
    }
}

/// The error for a source repository path that does not resolve.
pub open spec fn repo_not_found_error(path: Seq<char>, dir: Seq<char>) -> Seq<char> {
    "source repo not found at '"@ + path + "' (resolved from manifest dir '"@ + dir
        + "'). Clone it or update source_repo.path in the manifest."@
}

/// The error for a source repository path that is not a git repository.
pub open spec fn not_git_repo_error(path: Seq<char>) -> Seq<char> {
    "'"@ + path + "' exists but is not a git repository (no .git directory)"@
}

impl Manifest {
    /// The source repository of the manifest: `resolved` is its path joined
    /// to the manifest's directory `manifest_dir` and made canonical (`None`
    /// when that failed), `is_git_repo` whether it holds a `.git` directory.
    pub fn resolve_source_repo(
        &self,
        manifest_dir: &str,
        resolved: Option<&str>,
        is_git_repo: bool,
    ) -> (r: Result<String, String>)
        ensures
            match resolved {
                None => r matches Err(e) && e@ == repo_not_found_error(
                    self.source_repo.path@,
                    manifest_dir@,
                ),
                Some(p) => if is_git_repo {
                    r matches Ok(q) && q@ == p@
                } else {
                    r matches Err(e) && e@ == not_git_repo_error(p@)
                },
            },
    {
        match resolved {
            None => {
                let mut v = chars_of("source repo not found at '");
                crate::text::push_str(&mut v, self.source_repo.path.as_str());
                crate::text::push_str(&mut v, "' (resolved from manifest dir '");
                crate::text::push_str(&mut v, manifest_dir);
                crate::text::push_str(
                    &mut v,
                    "'). Clone it or update source_repo.path in the manifest.",
                );
                Err(string_of(&v))
            },
            Some(p) => {
                if is_git_repo {
                    Ok(owned(p))
                } else {
                    let mut v = chars_of("'");
                    crate::text::push_str(&mut v, p);
                    crate::text::push_str(
                        &mut v,
                        "' exists but is not a git repository (no .git directory)",
                    );
                    Err(string_of(&v))
                }
            },
        }
    }
}

/// The default branch of a source repository when the manifest names none.
pub fn default_branch() -> (r: String)
    ensures
        r@ == "main"@,
{
    owned("main")
}

} // verus!
