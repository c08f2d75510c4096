use versio::commands::{early_info, EarlyInfo};
use versio::config::{ConfigError, ConfigFile, Project};
use versio::errors::Error;
use versio::glob::glob_match;
use versio::history::{commit_kind, CommitInfo, FullPr};
use versio::last_commits::{find_last_commits, LastCommitBuilder};
use versio::mono::Mono;
use versio::plan::{ChangeLog, LoggedCommit, LoggedPr};
use versio::size::Size;
use versio::slicer::SliceBook;
use versio::vcs::{combine_vcs, VcsLevel, VcsRange};
use versio::versions::Version;

fn chars(s: &str) -> Vec<char> {
    s.chars().collect()
}

fn project(id: u32, name: &str, covers: &[&str], excludes: &[&str]) -> Project {
    Project {
        id,
        name: name.to_string(),
        covers: covers.iter().map(|s| s.to_string()).collect(),
        excludes: excludes.iter().map(|s| s.to_string()).collect(),
        depends: Vec::new(),
        tag_prefix: None,
        sizes: Vec::new(),
    }
}

#[test]
fn globs_match_paths() {
    assert!(glob_match(&chars("src/**"), &chars("src/a/b.rs")));
    assert!(!glob_match(&chars("src/*"), &chars("src/a/b.rs")));
    assert!(glob_match(&chars("src/*.rs"), &chars("src/b.rs")));
    assert!(glob_match(&chars("src/?.rs"), &chars("src/b.rs")));
    assert!(!glob_match(&chars("src/?.rs"), &chars("src/bb.rs")));
    assert!(!glob_match(&chars("src/**"), &chars("lib/a.rs")));
    assert!(glob_match(&chars("**"), &chars("")));
}

#[test]
fn covers_respects_excludes() {
    let p = project(1, "p", &["src/**"], &["src/gen/**"]);
    assert!(p.does_cover("src/a.rs"));
    assert!(!p.does_cover("src/gen/a.rs"));
    assert!(!p.does_cover("docs/a.md"));
}

#[test]
fn commit_kinds() {
    assert_eq!(commit_kind("fix: typo"), "fix");
    assert_eq!(commit_kind("feat(core): thing"), "feat");
    assert_eq!(commit_kind("  docs  : spaced"), "docs");
    assert_eq!(commit_kind("no marker here"), "-");
    assert_eq!(commit_kind(": empty"), "");
    let c = CommitInfo::new("o".to_string(), "chore(x): y".to_string(), vec![]);
    assert_eq!(c.kind, "chore");
}

#[test]
fn sizes_come_from_project_then_file_then_wildcard() {
    let mut p = project(1, "p", &["**"], &[]);
    p.sizes = vec![("fix".to_string(), Size::Minor)];
    let global = vec![("fix".to_string(), Size::Patch), ("docs".to_string(), Size::Empty), ("*".to_string(), Size::Major)];
    assert_eq!(p.size(&global, &"fix".to_string()), Size::Minor);
    assert_eq!(p.size(&global, &"docs".to_string()), Size::Empty);
    assert_eq!(p.size(&global, &"other".to_string()), Size::Major);
    assert_eq!(p.size(&Vec::new(), &"other".to_string()), Size::NoChange);
}

#[test]
fn duplicate_ids_are_rejected() {
    let r = ConfigFile::new(vec![project(1, "a", &[], &[]), project(1, "b", &[], &[])], Vec::new(), "t".to_string());
    assert_eq!(r.err(), Some(ConfigError::DuplicateProject(1)));
}

#[test]
fn dependency_cycles_are_rejected() {
    let mut a = project(1, "a", &[], &[]);
    let mut b = project(2, "b", &[], &[]);
    a.depends = vec![2];
    b.depends = vec![1];
    let r = ConfigFile::new(vec![a, b], Vec::new(), "t".to_string());
    assert_eq!(r.err(), Some(ConfigError::CyclicDependency));
    let mut c = project(3, "c", &[], &[]);
    c.depends = vec![3];
    assert_eq!(ConfigFile::new(vec![c], Vec::new(), "t".to_string()).err(), Some(ConfigError::CyclicDependency));
    let mut d = project(4, "d", &[], &[]);
    d.depends = vec![5, 9];
    let e = project(5, "e", &[], &[]);
    let ok = ConfigFile::new(vec![d, e], Vec::new(), "t".to_string()).unwrap();
    assert!(ok.is_acyclic());
}

#[test]
fn default_marker_tag() {
    let c = ConfigFile::with_default_tag(vec![], vec![]).unwrap();
    assert_eq!(c.prev_tag(), "versio-prev");
}

#[test]
fn names_resolve_uniquely() {
    let c = ConfigFile::with_default_tag(
        vec![project(1, "a", &[], &[]), project(2, "b", &[], &[]), project(3, "b", &[], &[])],
        vec![],
    )
    .unwrap();
    assert_eq!(c.find_unique("a"), Ok(1));
    assert_eq!(c.find_unique("b"), Err(ConfigError::AmbiguousName));
    assert_eq!(c.find_unique("z"), Err(ConfigError::UnknownProject));
    assert_eq!(c.index_of(3), Some(2));
    assert!(c.get_project(4).is_none());
}

#[test]
fn size_lattice() {
    assert_eq!(Size::Patch.larger(Size::Minor), Size::Minor);
    assert_eq!(Size::Major.larger(Size::NoChange), Size::Major);
    assert!(Size::NoChange.is_below(&Size::Empty));
    assert!(!Size::Minor.is_below(&Size::Patch));
}

#[test]
fn versions_parse_and_grow() {
    assert_eq!(Version::parse("1.2.3").unwrap(), Version { major: 1, minor: 2, patch: 3 });
    assert_eq!(Version::parse("1.2"), Err(Error::BadSemver));
    assert_eq!(Version::parse("1.2.x"), Err(Error::BadSemver));
    assert_eq!(Version::parse("1..3"), Err(Error::BadSemver));
    assert_eq!(Version::parse("18446744073709551616.0.0"), Err(Error::BadSemver));
    assert_eq!(Size::Major.apply("1.2.3").unwrap(), "2.0.0");
    assert_eq!(Size::Minor.apply("1.2.3").unwrap(), "1.3.0");
    assert_eq!(Size::Patch.apply("1.2.3").unwrap(), "1.2.4");
    assert_eq!(Size::Empty.apply("1.2.3").unwrap(), "1.2.3");
    assert_eq!(Size::Patch.apply("0.0.18446744073709551615"), Err(Error::BadSemver));
    assert_eq!(Size::less_than("1.2.3", "1.10.0"), Ok(true));
    assert_eq!(Size::less_than("2.0.0", "1.3.0"), Ok(false));
    assert_eq!(Size::less_than("1.3.0", "1.3.0"), Ok(false));
    assert_eq!(Size::less_than("a", "1.3.0"), Err(Error::BadSemver));
    assert_eq!(Version { major: 10, minor: 0, patch: 7 }.text(), "10.0.7");
}

#[test]
fn vcs_levels_combine() {
    let r = combine_vcs(None, VcsLevel::NoVcs, VcsLevel::Smart, VcsLevel::Local, VcsLevel::Smart, VcsLevel::Remote);
    assert_eq!(r, Ok(VcsRange::new(VcsLevel::Local, VcsLevel::Remote)));
    let r = combine_vcs(None, VcsLevel::NoVcs, VcsLevel::Smart, VcsLevel::Local, VcsLevel::Smart, VcsLevel::NoVcs);
    assert_eq!(r, Err(Error::VcsUnavailable));
    let user = Some(VcsRange::new(VcsLevel::NoVcs, VcsLevel::Local));
    let r = combine_vcs(user, VcsLevel::NoVcs, VcsLevel::Smart, VcsLevel::NoVcs, VcsLevel::Smart, VcsLevel::Smart);
    assert_eq!(r.unwrap().max(), VcsLevel::Local);
}

#[test]
fn last_commit_first_writer_wins() {
    let cfg = || ConfigFile::with_default_tag(vec![project(1, "a", &["a/**"], &[]), project(2, "b", &["b/**"], &[])], vec![]).unwrap();
    let mut b = LastCommitBuilder::create(cfg());
    assert!(b.start_line_file("a/x").is_err());
    let newest = CommitInfo::new("n".to_string(), "fix: n".to_string(), vec!["a/x".to_string()]);
    let older = CommitInfo::new("o".to_string(), "fix: o".to_string(), vec!["a/y".to_string(), "b/y".to_string()]);
    for c in [&newest, &older] {
        b.start_line_commit(c, cfg()).unwrap();
        for f in c.files() {
            b.start_line_file(f).unwrap();
            b.finish_line_file().unwrap();
        }
        b.finish_line_commit().unwrap();
    }
    assert_eq!(b.build(), vec![(1, "n".to_string()), (2, "o".to_string())]);

    let mut book = SliceBook::new();
    book.insert("n".to_string(), cfg());
    book.insert("o".to_string(), cfg());
    let found = find_last_commits(cfg(), &vec![newest, older], &book).unwrap();
    assert_eq!(found, vec![(1, "n".to_string()), (2, "o".to_string())]);
}

#[test]
fn keyed_files_skip_guesses_and_excludes() {
    let cfg = ConfigFile::with_default_tag(vec![project(1, "a", &["**"], &[])], vec![]).unwrap();
    let mut mono = Mono::open(cfg, &vec![], &SliceBook::new(), vec![], &vec![]).unwrap();
    let c1 = CommitInfo::new("1".to_string(), "fix: a".to_string(), vec!["x".to_string(), "y".to_string()]);
    let c2 = CommitInfo::new("2".to_string(), "feat: b".to_string(), vec!["z".to_string()]);
    let c3 = CommitInfo::new("3".to_string(), "docs: c".to_string(), vec!["w".to_string()]);
    let pr = FullPr {
        number: 1,
        base_oid: "b".to_string(),
        head_oid: Some("h".to_string()),
        closed_at: 0,
        commits: vec![c1, c2],
        excludes: vec!["2".to_string()],
        best_guess: false,
    };
    let guess = FullPr {
        number: 2,
        base_oid: "b".to_string(),
        head_oid: None,
        closed_at: 0,
        commits: vec![c3],
        excludes: vec![],
        best_guess: true,
    };
    let keys = mono.keyed_files(&vec![pr, guess]);
    assert_eq!(keys, vec![("fix".to_string(), "x".to_string()), ("fix".to_string(), "y".to_string())]);
    assert!(mono.commit().pending.is_empty());
}

#[test]
fn early_facts() {
    let cfg = ConfigFile::with_default_tag(vec![project(1, "a", &[], &[]), project(2, "b", &[], &[])], vec![]).unwrap();
    let info = early_info(&cfg, "/repo".to_string());
    assert_eq!(info.project_count(), 2);
    assert_eq!(info.working_dir(), "/repo");
    let other = EarlyInfo::new(0, "/x".to_string());
    assert_eq!(other.project_count(), 0);
}

#[test]
fn change_log_basics() {
    let mut log = ChangeLog::empty();
    assert!(log.is_empty());
    let mut pr = LoggedPr::empty(4, 99);
    pr.commits.push(LoggedCommit::new("o".to_string(), "m".to_string(), Size::Patch));
    assert_eq!(pr.commits()[0].size(), Size::Patch);
    assert!(!pr.commits()[0].applies());
    assert!(!pr.commits()[0].duplicate());
    log.add_entry(pr, Size::Patch);
    assert_eq!(log.entries().len(), 1);
    assert_eq!(log.entries()[0].0.closed_at(), 99);
}

#[test]
fn size_names_round_trip() {
    for s in [Size::NoChange, Size::Empty, Size::Patch, Size::Minor, Size::Major] {
        assert_eq!(Size::named(s.name()), Some(s));
    }
    assert_eq!(Size::Minor.name(), "minor");
    assert_eq!(Size::named("huge"), None);
}

#[test]
fn vcs_ranges_parse() {
    assert_eq!(VcsRange::parse("local..smart"), Ok(VcsRange::new(VcsLevel::Local, VcsLevel::Smart)));
    assert_eq!(VcsRange::parse("remote"), Ok(VcsRange::new(VcsLevel::Remote, VcsLevel::Remote)));
    assert_eq!(VcsRange::parse("none..x"), Err(Error::UnknownVcsLevel));
    assert_eq!(VcsRange::parse(""), Err(Error::UnknownVcsLevel));
    assert_eq!(VcsLevel::Smart.name_string(), "smart");
}
