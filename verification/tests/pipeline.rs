use lsproj::cli::Cli;
use lsproj::project::{classify_remote, Project, Repo};
use lsproj::render::{name_width, render, render_line, sort_entries, Line, TextColor};
use lsproj::scan::{filter_repos, scan, DirEntryInfo, ProjectEntry};

fn full_text(line: &Line) -> String {
    let mut s = String::new();
    for seg in line.segments.iter() {
        s.push_str(&seg.text);
    }
    s
}

fn plain(name: &str) -> ProjectEntry {
    ProjectEntry { name: name.to_string(), project: Project { repo: None } }
}

fn repo_no_remote(name: &str) -> ProjectEntry {
    ProjectEntry { name: name.to_string(), project: Project { repo: Some(Repo { remote: None }) } }
}

fn repo_with_remote(name: &str, url: &str) -> ProjectEntry {
    ProjectEntry {
        name: name.to_string(),
        project: Project { repo: Some(Repo { remote: Some(classify_remote(url.to_string())) }) },
    }
}

#[test]
fn three_entries_with_remotes() {
    let entries = vec![
        plain("alpha"),
        repo_no_remote("beta"),
        repo_with_remote("gamma", "https://github.com/x/y"),
    ];
    let lines = render(entries, true);
    assert_eq!(lines.len(), 3);
    assert_eq!(full_text(&lines[0]), "\u{f024b} alpha  ");
    assert_eq!(full_text(&lines[1]), "\u{f02a2} beta   ");
    assert_eq!(full_text(&lines[2]), "\u{f02a2} gamma  \u{f02a4} https://github.com/x/y");
    assert_eq!(lines[0].segments.len(), 1);
    assert_eq!(lines[1].segments.len(), 1);
    assert_eq!(lines[2].segments.len(), 2);
    assert!(matches!(lines[0].segments[0].color, TextColor::Blue));
    assert!(matches!(lines[1].segments[0].color, TextColor::Red));
    assert!(matches!(lines[2].segments[0].color, TextColor::Red));
    assert!(matches!(lines[2].segments[1].color, TextColor::Blue));
}

#[test]
fn remotes_hidden_when_not_asked() {
    let entries = vec![
        plain("alpha"),
        repo_with_remote("gamma", "https://github.com/x/y"),
    ];
    let lines = render(entries, false);
    assert_eq!(lines.len(), 2);
    for line in lines.iter() {
        assert_eq!(line.segments.len(), 1);
        assert!(!full_text(line).contains("https://github.com/x/y"));
    }
}

#[test]
fn output_is_sorted_by_name() {
    let entries = vec![plain("pear"), plain("apple"), plain("banana"), plain("Cherry")];
    let lines = render(entries, false);
    let texts: Vec<String> = lines.iter().map(full_text).collect();
    assert!(texts[0].contains("Cherry"));
    assert!(texts[1].contains("apple"));
    assert!(texts[2].contains("banana"));
    assert!(texts[3].contains("pear"));
}

#[test]
fn names_align_to_common_width() {
    let entries = vec![plain("a"), plain("longest-name"), repo_no_remote("mid")];
    let lines = render(entries, true);
    // every line is the icon and a blank, then a name field of
    // max(name length) + 2 characters
    let width = "longest-name".chars().count() + 2;
    for line in lines.iter() {
        assert_eq!(full_text(line).chars().count(), 2 + width);
    }
}

#[test]
fn empty_listing_renders_no_lines() {
    let lines = render(Vec::new(), true);
    assert_eq!(lines.len(), 0);
}

#[test]
fn sort_entries_orders_and_keeps_all() {
    let mut v = vec![plain("b"), plain("a"), plain("c"), plain("a")];
    sort_entries(&mut v);
    let names: Vec<&str> = v.iter().map(|e| e.name.as_str()).collect();
    assert_eq!(names, vec!["a", "a", "b", "c"]);
}

#[test]
fn name_width_is_two_more_than_longest() {
    let v = vec![plain("be"), plain("alpha")];
    assert_eq!(name_width(&v), 7);
    let empty: Vec<ProjectEntry> = Vec::new();
    assert_eq!(name_width(&empty), 0);
}

#[test]
fn render_line_pads_short_width() {
    // a name longer than the field is not truncated
    let e = plain("longname");
    let l = render_line(&e, 3, false);
    assert_eq!(full_text(&l), "\u{f024b} longname");
}

#[test]
fn scan_on_unreadable_paths_classifies_as_plain() {
    let entries = vec![
        DirEntryInfo { name: "alpha".to_string(), path: "/nonexistent_zz/alpha".to_string() },
        DirEntryInfo { name: "beta".to_string(), path: "/nonexistent_zz/beta".to_string() },
    ];
    let r = scan(entries, false);
    assert_eq!(r.len(), 2);
    assert_eq!(r[0].name, "alpha");
    assert_eq!(r[1].name, "beta");
    assert!(r[0].project.repo.is_none());
    assert!(r[1].project.repo.is_none());
}

#[test]
fn git_only_scan_drops_plain_directories() {
    let entries = vec![
        DirEntryInfo { name: "alpha".to_string(), path: "/nonexistent_zz/alpha".to_string() },
        DirEntryInfo { name: "beta".to_string(), path: "/nonexistent_zz/beta".to_string() },
    ];
    let r = scan(entries, true);
    assert_eq!(r.len(), 0);
}

#[test]
fn filtering_keeps_only_repositories() {
    let entries = vec![
        plain("alpha"),
        repo_no_remote("beta"),
        repo_with_remote("gamma", "https://github.com/x/y"),
    ];
    let kept = filter_repos(entries);
    let names: Vec<&str> = kept.iter().map(|e| e.name.as_str()).collect();
    assert_eq!(names, vec!["beta", "gamma"]);
}

#[test]
fn project_open_always_classifies() {
    let p = Project::open("/nonexistent_zz/alpha").unwrap();
    assert!(p.repo.is_none());
    let r = Repo::open("/nonexistent_zz/alpha");
    assert!(r.is_none());
}

#[test]
fn cli_defaults() {
    let c = Cli::default();
    assert_eq!(c.path, ".");
    assert!(!c.remote);
    assert!(!c.git_only);
}

#[test]
fn empty_root_gives_empty_run() {
    let c = Cli { path: ".".to_string(), remote: true, git_only: false };
    let lines = c.run(Vec::new());
    assert_eq!(lines.len(), 0);
}

#[test]
fn run_twice_renders_identically() {
    let c = Cli { path: ".".to_string(), remote: true, git_only: false };
    let entries1 = vec![
        DirEntryInfo { name: "beta".to_string(), path: "/nonexistent_zz/beta".to_string() },
        DirEntryInfo { name: "alpha".to_string(), path: "/nonexistent_zz/alpha".to_string() },
    ];
    let entries2 = vec![
        DirEntryInfo { name: "beta".to_string(), path: "/nonexistent_zz/beta".to_string() },
        DirEntryInfo { name: "alpha".to_string(), path: "/nonexistent_zz/alpha".to_string() },
    ];
    let first: Vec<String> = c.run(entries1).iter().map(full_text).collect();
    let second: Vec<String> = c.run(entries2).iter().map(full_text).collect();
    assert_eq!(first, second);
}
