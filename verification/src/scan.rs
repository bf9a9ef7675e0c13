use vstd::prelude::*;

use crate::project::{project_wf, Project};

verus! {

/// One directory found under the scan root: its base name and the full
/// path it is reached by.
#[derive(Clone, Debug)]
pub struct DirEntryInfo {
    pub name: String,
    pub path: String,
}

/// A scanned subdirectory together with its classification.
#[derive(Clone, Debug)]
pub struct ProjectEntry {
    pub name: String,
    pub project: Project,
}

/// The entry was classified as a repository.
pub open spec fn is_repo(e: ProjectEntry) -> bool {
    e.project.repo is Some
}

/// The predicate that keeps repository entries, as a value, so that every
/// contract names the same function.
pub open spec fn repo_pred() -> spec_fn(ProjectEntry) -> bool {
    |e: ProjectEntry| is_repo(e)
}

pub open spec fn entry_wf(e: ProjectEntry) -> bool {
    project_wf(e.project)
}

/// `c` classifies the listed directories: one entry per directory, same
/// names in the same order, each classification well-formed.
pub open spec fn classifies(c: Seq<ProjectEntry>, entries: Seq<DirEntryInfo>) -> bool {
    &&& c.len() == entries.len()
    &&& forall|i: int| 0 <= i < c.len() ==> (#[trigger] c[i]).name == entries[i].name
    &&& forall|i: int| 0 <= i < c.len() ==> entry_wf(#[trigger] c[i])
}

/// Classifies every listed directory, in order.
fn classify_all(entries: &Vec<DirEntryInfo>) -> (r: Vec<ProjectEntry>)
    ensures
        classifies(r@, entries@),
{
    let mut r: Vec<ProjectEntry> = Vec::new();
    let mut i: usize = 0;
    while i < entries.len()
        invariant
            i <= entries@.len(),
            r@.len() == i,
            forall|k: int| 0 <= k < i ==> (#[trigger] r@[k]).name == entries@[k].name,
            forall|k: int| 0 <= k < i ==> entry_wf(#[trigger] r@[k]),
        decreases entries@.len() - i,
    {
        let e = &entries[i];
        let project = match Project::open(e.path.as_str()) {
            Some(p) => p,
            None => vstd::pervasive::unreached(),
        };
        let name = e.name.clone();
        r.push(ProjectEntry { name, project });
        i = i + 1;
    }
    r
}

/// Keeps exactly the repository entries, in order.
pub fn filter_repos(entries: Vec<ProjectEntry>) -> (r: Vec<ProjectEntry>)
    ensures
        r@ == entries@.filter(repo_pred()),
{
    let ghost orig = entries@;
    let mut src = entries;
    let mut r: Vec<ProjectEntry> = Vec::new();
    let ghost mut done: Seq<ProjectEntry> = Seq::empty();
    proof {
        reveal(Seq::filter);
        assert(orig =~= done + src@);
        assert(r@ =~= done.filter(repo_pred()));
    }
    while src.len() > 0
        invariant
            orig == done + src@,
            r@ == done.filter(repo_pred()),
        decreases src@.len(),
    {
        let e = src.remove(0);
        let ghost ge = e;
        let keep = e.project.repo.is_some();
        proof {
            reveal(Seq::filter);
            assert(done.push(ge).drop_last() =~= done);
            assert(done.push(ge).last() == ge);
        }
        if keep {
            r.push(e);
        }
        proof {
            done = done.push(ge);
            assert(orig =~= done + src@);
        }
    }
    proof {
        assert(orig =~= done);
    }
    r
}

/// Law: a property of every element survives filtering.
proof fn lemma_filter_preserves_all<A>(s: Seq<A>, q: spec_fn(A) -> bool, p: spec_fn(A) -> bool)
    requires
        forall|i: int| 0 <= i < s.len() ==> p(#[trigger] s[i]),
    ensures
        forall|i: int| 0 <= i < s.filter(q).len() ==> p(#[trigger] s.filter(q)[i]),
    decreases s.len(),
{
    reveal(Seq::filter);
    if s.len() > 0 {
        assert(forall|i: int| 0 <= i < s.drop_last().len() ==> p(#[trigger] s.drop_last()[i]));
        lemma_filter_preserves_all(s.drop_last(), q, p);
        let rest = s.drop_last().filter(q);
        if q(s.last()) {
            assert(s.filter(q) == rest.push(s.last()));
            assert forall|i: int| 0 <= i < s.filter(q).len() implies p(
                #[trigger] s.filter(q)[i],
            ) by {
                if i < rest.len() {
                    assert(s.filter(q)[i] == rest[i]);
                } else {
                    assert(s.filter(q)[i] == s.last());
                }
            }
        } else {
            assert(s.filter(q) == rest);
        }
    }
}

/// The classifications that one run keeps: all of them, or, when only
/// repositories are asked for, those classified as one.
pub open spec fn kept_entries(c: Seq<ProjectEntry>, git_only: bool) -> Seq<ProjectEntry> {
    if git_only {
        c.filter(repo_pred())
    } else {
        c
    }
}

/// The entry's name is the name of one of the listed directories.
pub open spec fn name_listed(e: ProjectEntry, entries: Seq<DirEntryInfo>) -> bool {
    exists|j: int| 0 <= j < entries.len() && e.name == entries[j].name
}

/// Classifies the listed directories and, when `git_only` is set, drops
/// the entries that are not repositories.
pub fn scan(entries: Vec<DirEntryInfo>, git_only: bool) -> (r: Vec<ProjectEntry>)
    ensures
        exists|c: Seq<ProjectEntry>|
            #[trigger] classifies(c, entries@) && r@ == kept_entries(c, git_only),
        forall|i: int| 0 <= i < r@.len() ==> entry_wf(#[trigger] r@[i]),
        git_only ==> forall|i: int| 0 <= i < r@.len() ==> is_repo(#[trigger] r@[i]),
        !git_only ==> r@.len() == entries@.len() && forall|i: int|
            0 <= i < r@.len() ==> (#[trigger] r@[i]).name == entries@[i].name,
        forall|i: int| 0 <= i < r@.len() ==> name_listed(#[trigger] r@[i], entries@),
{
    let classified = classify_all(&entries);
    let ghost c = classified@;
    proof {
        assert forall|i: int| 0 <= i < c.len() implies name_listed(#[trigger] c[i], entries@) by {
            assert(0 <= i < entries@.len() && c[i].name == entries@[i].name);
        }
    }
    if git_only {
        let r = filter_repos(classified);
        proof {
            broadcast use vstd::seq_lib::group_filter_ensures;

            lemma_filter_preserves_all(c, repo_pred(), |e: ProjectEntry| entry_wf(e));
            lemma_filter_preserves_all(
                c,
                repo_pred(),
                |e: ProjectEntry| name_listed(e, entries@),
            );
            assert(forall|i: int| 0 <= i < r@.len() ==> is_repo(#[trigger] r@[i])) by {
                assert(forall|i: int|
                    0 <= i < c.filter(repo_pred()).len() ==> repo_pred()(
                        #[trigger] c.filter(repo_pred())[i],
                    ));
            }
            assert(r@ == kept_entries(c, git_only));
        }
        r
    } else {
        proof {
            assert(classified@ == kept_entries(c, git_only));
        }
        classified
    }
}

} // verus!
