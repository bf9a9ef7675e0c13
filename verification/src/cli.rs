use vstd::prelude::*;

use crate::render::{lines_render, names_fit, render, sort_of, Line};
use crate::scan::{classifies, kept_entries, name_listed, scan, DirEntryInfo, ProjectEntry};

verus! {

/// One run's options: the root to scan, whether to print remote URLs, and
/// whether to list repositories only.
pub struct Cli {
    pub path: String,
    pub remote: bool,
    pub git_only: bool,
}

/// Every listed name, with its two trailing blanks, fits the machine's
/// word.
pub open spec fn listed_names_fit(entries: Seq<DirEntryInfo>) -> bool {
    forall|i: int| 0 <= i < entries.len() ==> (#[trigger] entries[i]).name@.len() + 2 <= usize::MAX
}

impl Default for Cli {
    /// The defaults: scan the current directory, show no remote URLs, list
    /// every directory.
    fn default() -> (c: Cli)
        ensures
            c.path@ == "."@,
            !c.remote,
            !c.git_only,
    {
        Cli { path: String::from_str("."), remote: false, git_only: false }
    }
}

impl Cli {
    /// One run over the listed directories: classifies each, keeps only
    /// repositories when the options say so, sorts by name and renders one
    /// line per kept entry.
    pub fn run(&self, entries: Vec<DirEntryInfo>) -> (lines: Vec<Line>)
        requires
            listed_names_fit(entries@),
        ensures
            exists|c: Seq<ProjectEntry>, s: Seq<ProjectEntry>|
                {
                    &&& #[trigger] classifies(c, entries@)
                    &&& #[trigger] sort_of(s, kept_entries(c, self.git_only))
                    &&& lines_render(lines@, s, self.remote)
                },
    {
        let ghost dirs = entries@;
        let scanned = scan(entries, self.git_only);
        proof {
            assert forall|i: int| 0 <= i < scanned@.len() implies (#[trigger] scanned@[i]).name@.len()
                + 2 <= usize::MAX by {
                assert(name_listed(scanned@[i], dirs));
                let j = choose|j: int| 0 <= j < dirs.len() && scanned@[i].name == dirs[j].name;
                assert(dirs[j].name@.len() + 2 <= usize::MAX);
            }
            assert(names_fit(scanned@));
        }
        render(scanned, self.remote)
    }
}

} // verus!
