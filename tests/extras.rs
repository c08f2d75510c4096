use versio::analyze::{analyze, AnnotatedMark};
use versio::commands::select_project;
use versio::config::{ConfigError, ConfigFile, Project};
use versio::errors::Error;
use versio::history::{delta_paths, Delta};
use versio::mono::Mono;
use versio::slicer::SliceBook;
use versio::tags::{find_old_tags, sort_latest_first, TagRef};
use versio::vcs::{branch_of_ref, merge_step, MergeStep};

fn tag(name: &str, oid: &str, time: i64) -> TagRef {
    TagRef { name: name.to_string(), oid: oid.to_string(), time }
}

fn walk(oids: &[&str]) -> Vec<String> {
    oids.iter().map(|s| s.to_string()).collect()
}

#[test]
fn old_tags_index_the_nearest_earlier_tag() {
    // Newest first: h3 has no tag, h2 has two, h1 has none, h0 has one.
    let w = walk(&["h3", "h2", "h1", "h0"]);
    let tags = vec![tag("v1.0.0", "h0", 10), tag("v1.1.0", "h2", 20), tag("v1.1.1", "h2", 30)];
    let old = find_old_tags(vec!["".to_string()], vec![tags], &w);
    let p = &old.by_prefix[0];
    assert_eq!(p.tags, vec!["v1.1.1".to_string(), "v1.1.0".to_string(), "v1.0.0".to_string()]);
    assert_eq!(
        p.not_after,
        vec![("h3".to_string(), 0), ("h2".to_string(), 0), ("h1".to_string(), 2), ("h0".to_string(), 2)]
    );
    assert_eq!(old.latest(&"".to_string(), &"h1".to_string()), Some(&"v1.0.0".to_string()));
    assert_eq!(old.latest(&"".to_string(), &"h3".to_string()), Some(&"v1.1.1".to_string()));
    assert_eq!(old.latest(&"x".to_string(), &"h3".to_string()), None);
}

#[test]
fn old_tags_leave_commits_before_any_tag_unanchored() {
    let w = walk(&["h2", "h1", "h0"]);
    let old = find_old_tags(vec!["lib".to_string()], vec![vec![tag("lib-v0.1.0", "h1", 5)]], &w);
    assert_eq!(old.by_prefix[0].not_after, vec![("h2".to_string(), 0), ("h1".to_string(), 0)]);
    assert_eq!(old.latest(&"lib".to_string(), &"h0".to_string()), None);
}

#[test]
fn tags_sort_latest_first_and_keep_ties() {
    let sorted = sort_latest_first(vec![tag("a", "o", 1), tag("b", "o", 3), tag("c", "o", 1)]);
    let names: Vec<String> = sorted.iter().map(|t| t.name.clone()).collect();
    assert_eq!(names, vec!["b".to_string(), "a".to_string(), "c".to_string()]);
}

fn mark(id: u32, name: &str, value: &str) -> AnnotatedMark {
    AnnotatedMark { id, name: name.to_string(), value: value.to_string() }
}

#[test]
fn analysis_finds_removed_added_and_changed() {
    let prev = vec![mark(1, "a", "1.0.0"), mark(2, "b", "2.0.0"), mark(3, "c", "3.0.0")];
    let curt = vec![mark(2, "bee", "2.0.0"), mark(3, "c", "3.1.0"), mark(4, "d", "0.1.0")];
    let a = analyze(&prev, &curt);
    assert_eq!(a.older.len(), 1);
    assert_eq!(a.older[0].id, 1);
    assert_eq!(a.newer.len(), 1);
    assert_eq!(a.newer[0].id, 4);
    assert_eq!(a.changes.len(), 2);
    assert_eq!(a.changes[0].name, Some(("b".to_string(), "bee".to_string())));
    assert_eq!(a.changes[0].value, None);
    assert_eq!(a.changes[1].name, None);
    assert_eq!(a.changes[1].value, Some(("3.0.0".to_string(), "3.1.0".to_string())));
}

#[test]
fn deltas_give_old_then_new_path() {
    let d = |o: Option<&str>, n: Option<&str>| Delta { old_path: o.map(|s| s.to_string()), new_path: n.map(|s| s.to_string()) };
    let paths = delta_paths(&vec![d(Some("a"), Some("a")), d(Some("old/x"), Some("new/x")), d(None, Some("added")), d(Some("gone"), None)]);
    assert_eq!(paths, walk(&["a", "old/x", "new/x", "added", "gone"]));
}

#[test]
fn branches_come_from_heads_refs() {
    assert_eq!(branch_of_ref("refs/heads/main"), Ok("main".to_string()));
    assert_eq!(branch_of_ref("refs/heads/feature/x"), Ok("feature/x".to_string()));
    assert_eq!(branch_of_ref("refs/tags/v1"), Err(Error::NotOnBranch));
    assert_eq!(branch_of_ref("HEAD"), Err(Error::NotOnBranch));
}

#[test]
fn merges_only_fast_forward() {
    assert_eq!(merge_step(true, true, false), Ok(MergeStep::FastForward));
    assert_eq!(merge_step(true, false, true), Err(Error::NotFastForward));
    assert_eq!(merge_step(true, false, false), Ok(MergeStep::UpToDate));
    assert_eq!(merge_step(false, true, false), Err(Error::NotClean));
}

fn project(id: u32, name: &str) -> Project {
    Project {
        id,
        name: name.to_string(),
        covers: vec![],
        excludes: vec![],
        depends: vec![],
        tag_prefix: None,
        sizes: vec![],
    }
}

#[test]
fn commands_select_their_project() {
    let one = ConfigFile::with_default_tag(vec![project(5, "solo")], vec![]).unwrap();
    assert_eq!(select_project(&one, None, None), Ok(5));
    assert_eq!(select_project(&one, Some(5), None), Ok(5));
    assert_eq!(select_project(&one, Some(6), None), Err(Error::Config(ConfigError::UnknownProject)));
    let two = ConfigFile::with_default_tag(vec![project(1, "a"), project(2, "b")], vec![]).unwrap();
    assert_eq!(select_project(&two, None, None), Err(Error::Config(ConfigError::NoSoloProject)));
    assert_eq!(select_project(&two, None, Some("b")), Ok(2));
    assert_eq!(select_project(&two, None, Some("c")), Err(Error::Config(ConfigError::UnknownProject)));
}

#[test]
fn mono_indexes_old_tags_by_prefix() {
    let mut p = project(1, "lib");
    p.tag_prefix = Some("lib".to_string());
    let cfg = ConfigFile::with_default_tag(vec![p, project(2, "app")], vec![]).unwrap();
    assert_eq!(cfg.tag_prefixes(), vec!["lib".to_string()]);
    let w = walk(&["h1", "h0"]);
    let mono = Mono::open(cfg, &vec![], &SliceBook::new(), vec![vec![tag("lib-v1.0.0", "h0", 1)]], &w).unwrap();
    assert_eq!(mono.old_tags.latest(&"lib".to_string(), &"h1".to_string()), Some(&"lib-v1.0.0".to_string()));
}

fn info(oid: &str, summary: &str) -> versio::history::CommitInfo {
    versio::history::CommitInfo::new(oid.to_string(), summary.to_string(), vec![format!("src/{}", oid)])
}

#[test]
fn merges_become_groups_and_loose_commits_group_zero() {
    let merges = vec![
        versio::history::MergeCommit {
            summary: "Merge pull request #10 from a/b".to_string(),
            base_oid: "m0".to_string(),
            head_oid: "x".to_string(),
            closed_at: 100,
            members: vec![info("x", "feat: x")],
        },
        versio::history::MergeCommit {
            summary: "Merge branch 'other'".to_string(),
            base_oid: "m1".to_string(),
            head_oid: "y".to_string(),
            closed_at: 200,
            members: vec![info("y", "fix: y"), info("x", "feat: x")],
        },
    ];
    let all = vec![(info("m2", "Merge"), 200), (info("y", "fix: y"), 150), (info("x", "feat: x"), 90), (info("z", "docs: z"), 50), (info("w", "chore: w"), 70)];
    let groups = versio::history::group_changes(merges, all, "base".to_string(), "head".to_string());
    assert_eq!(groups.len(), 3);
    assert_eq!(groups[0].number, 10);
    assert!(groups[0].excludes.is_empty());
    assert_eq!(groups[1].number, u32::MAX - 1);
    assert_eq!(groups[1].excludes, vec!["x".to_string()]);
    assert_eq!(groups[1].head_oid, Some("y".to_string()));
    let zero = &groups[2];
    assert_eq!(zero.number, 0);
    assert_eq!(zero.closed_at, 200);
    let oids: Vec<&str> = zero.commits.iter().map(|c| c.oid.as_str()).collect();
    assert_eq!(oids, vec!["m2", "z", "w"]);
    assert_eq!(versio::history::pr_number("Merge pull request #42 from x"), Some(42));
    assert_eq!(versio::history::pr_number("Merge pull request #"), None);
    assert_eq!(versio::history::pr_number("Merge pull request #99999999999"), None);
}
