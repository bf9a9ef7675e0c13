use vstd::prelude::*;

use crate::text::{contains_substr, has_substr};

verus! {

/// Which hosting service a remote URL points at, decided by a substring
/// match on the URL.
#[derive(Clone, Copy, PartialEq, Eq, Structural, Debug)]
pub enum HostKind {
    Primary,
    Other,
}

/// A repository's remote annotation: its URL and the hosting service the
/// URL was classified as.
#[derive(Clone, Debug)]
pub struct RemoteInfo {
    pub url: String,
    pub host_kind: HostKind,
}

/// A directory recognized as a version-control repository, with the URL of
/// its "origin" remote when one is configured.
#[derive(Clone, Debug)]
pub struct Repo {
    pub remote: Option<RemoteInfo>,
}

/// A scanned directory: a repository when the version-control library
/// recognizes it as one, a plain directory otherwise.
#[derive(Clone, Debug)]
pub struct Project {
    pub repo: Option<Repo>,
}

/// The substring that marks a URL as pointing at the well-known hosting
/// service.
pub open spec fn primary_host() -> Seq<char> {
    "github.com"@
}

/// The hosting-service class of a URL: `Primary` exactly when the URL
/// contains the well-known host as a substring.
pub open spec fn host_kind_of(url: Seq<char>) -> HostKind {
    if has_substr(url, primary_host()) {
        HostKind::Primary
    } else {
        HostKind::Other
    }
}

/// A remote annotation is well-formed when its class matches its URL.
pub open spec fn remote_info_wf(r: RemoteInfo) -> bool {
    r.host_kind == host_kind_of(r.url@)
}

pub open spec fn repository_wf(r: Repo) -> bool {
    match r.remote {
        Some(info) => remote_info_wf(info),
        None => true,
    }
}

pub open spec fn project_wf(p: Project) -> bool {
    match p.repo {
        Some(r) => repository_wf(r),
        None => true,
    }
}

#[verifier::external_type_specification]
#[verifier::external_body]
pub struct ExGitRepository(git2::Repository);

#[verifier::external_type_specification]
#[verifier::external_body]
pub struct ExGitRemote<'a>(git2::Remote<'a>);

/// Relies on git2::Repository::open: opens an already-existing repository
/// at `path`, and fails when the path is not one (or cannot be read).
#[verifier::external_body]
fn git_open(path: &str) -> (r: Option<git2::Repository>) {
    git2::Repository::open(path).ok()
}

/// Relies on git2::Repository::find_remote: looks up the remote with the
/// given name, and fails when the repository has none of that name.
#[verifier::external_body]
fn git_find_remote<'a>(repo: &'a git2::Repository, name: &str) -> (r: Option<git2::Remote<'a>>) {
    repo.find_remote(name).ok()
}

/// Relies on git2::Remote::url: hands back the remote's URL when it is
/// valid UTF-8, and an empty string when the remote has no URL set.
#[verifier::external_body]
fn git_remote_url(remote: &git2::Remote<'_>) -> (r: Option<String>) {
    remote.url().ok().map(|u| u.to_string())
}

/// Builds the remote annotation for a URL, classifying the hosting service
/// by substring match.
pub fn classify_remote(url: String) -> (r: RemoteInfo)
    ensures
        r.url == url,
        r.host_kind == host_kind_of(url@),
{
    let primary = contains_substr(url.as_str(), "github.com");
    RemoteInfo {
        url,
        host_kind: if primary {
            HostKind::Primary
        } else {
            HostKind::Other
        },
    }
}

impl Repo {
    /// Opens the directory at `path` as a version-control repository and
    /// reads the URL of its "origin" remote. `None` when the path is not a
    /// repository; a repository without annotation when the remote or its
    /// URL is missing.
    pub fn open(path: &str) -> (r: Option<Repo>)
        ensures
            match r {
                Some(rep) => repository_wf(rep),
                None => true,
            },
    {
        let repo = match git_open(path) {
            Some(repo) => repo,
            None => {
                return None;
            },
        };
        let remote = match git_find_remote(&repo, "origin") {
            Some(remote) => remote,
            None => {
                return Some(Repo { remote: None });
            },
        };
        let url = match git_remote_url(&remote) {
            Some(url) => url,
            None => {
                return Some(Repo { remote: None });
            },
        };
        // The underlying library reports a remote with no configured URL as
        // an empty string; such a remote carries no annotation.
        if url.as_str().unicode_len() == 0 {
            return Some(Repo { remote: None });
        }
        Some(Repo { remote: Some(classify_remote(url)) })
    }
}

impl Project {
    /// Classifies the directory at `path`: a repository when it opens as
    /// one, a plain directory otherwise. Always produces a classification.
    pub fn open(path: &str) -> (r: Option<Project>)
        ensures
            match r {
                Some(p) => project_wf(p),
                None => false,
            },
    {
        Some(Project { repo: Repo::open(path) })
    }
}

} // verus!
