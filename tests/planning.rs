use versio::config::{ConfigError, ConfigFile, Project};
use versio::errors::Error;
use versio::history::{CommitInfo, FullPr};
use versio::mono::Mono;
use versio::plan::{Phase, Plan, PlanBuilder};
use versio::planning::build_plan;
use versio::size::Size;
use versio::slicer::{PlanError, SliceBook, Slicer};
use versio::versions::{plan_release, Release};

fn strings(v: &[&str]) -> Vec<String> {
    v.iter().map(|s| s.to_string()).collect()
}

fn project(id: u32, name: &str, covers: &[&str], depends: &[u32]) -> Project {
    Project {
        id,
        name: name.to_string(),
        covers: strings(covers),
        excludes: Vec::new(),
        depends: depends.to_vec(),
        tag_prefix: None,
        sizes: Vec::new(),
    }
}

fn sizes() -> Vec<(String, Size)> {
    vec![
        ("fix".to_string(), Size::Patch),
        ("feat".to_string(), Size::Minor),
        ("break".to_string(), Size::Major),
        ("chore".to_string(), Size::Empty),
    ]
}

fn config(projects: Vec<Project>) -> ConfigFile {
    ConfigFile::with_default_tag(projects, sizes()).unwrap()
}

fn commit(oid: &str, summary: &str, files: &[&str]) -> CommitInfo {
    CommitInfo::new(oid.to_string(), summary.to_string(), strings(files))
}

fn group(number: u32, closed_at: i64, commits: Vec<CommitInfo>) -> FullPr {
    FullPr {
        number,
        base_oid: "base".to_string(),
        head_oid: Some(format!("head{}", number)),
        closed_at,
        commits,
        excludes: Vec::new(),
        best_guess: false,
    }
}

fn book_for(oids: &[&str], make: impl Fn() -> ConfigFile) -> SliceBook {
    let mut book = SliceBook::new();
    for o in oids {
        book.insert(o.to_string(), make());
    }
    book
}

fn plan_of(current: ConfigFile, prs: &Vec<FullPr>, book: &SliceBook) -> Plan {
    let (r, _) = build_plan(current, prs, book);
    r.unwrap()
}

fn single_p() -> ConfigFile {
    config(vec![project(1, "p", &["src/**"], &[])])
}

#[test]
fn single_project_patch() {
    let prs = vec![group(0, 10, vec![commit("c1", "fix: typo", &["src/a.rs"])])];
    let book = book_for(&["c1"], single_p);
    let plan = plan_of(single_p(), &prs, &book);
    assert_eq!(plan.incrs().len(), 1);
    let incr = &plan.incrs()[0];
    assert_eq!(incr.id, 1);
    assert_eq!(incr.size, Size::Patch);
    let entries = incr.change_log.entries();
    assert_eq!(entries.len(), 1);
    assert_eq!(entries[0].0.number(), 0);
    assert_eq!(entries[0].0.commits().len(), 1);
    assert_eq!(entries[0].1, Size::Patch);
    assert!(entries[0].0.commits()[0].included());
    assert_eq!(entries[0].0.commits()[0].oid(), "c1");
    assert_eq!(entries[0].0.commits()[0].message(), "fix: typo");
    assert!(plan.ineffective().is_empty());
}

fn lib_app() -> ConfigFile {
    config(vec![project(1, "lib", &["lib/**"], &[]), project(2, "app", &["app/**"], &[1])])
}

#[test]
fn dependency_lift() {
    let prs = vec![group(0, 10, vec![commit("c1", "feat: x", &["lib/x.rs"])])];
    let book = book_for(&["c1"], lib_app);
    let plan = plan_of(lib_app(), &prs, &book);
    assert_eq!(plan.incrs()[0].size, Size::Minor);
    assert_eq!(plan.incrs()[1].size, Size::Minor);
    assert!(plan.incrs()[1].change_log.is_empty());
    assert_eq!(plan.incrs()[0].change_log.entries().len(), 1);
}

#[test]
fn dependency_lift_through_a_chain() {
    let chain = || {
        config(vec![
            project(3, "bin", &["bin/**"], &[2]),
            project(2, "mid", &["mid/**"], &[1]),
            project(1, "base", &["base/**"], &[]),
        ])
    };
    let prs = vec![group(0, 10, vec![commit("c1", "break: api", &["base/x"]), commit("c2", "fix: y", &["bin/y"])])];
    let book = book_for(&["c1", "c2"], chain);
    let plan = plan_of(chain(), &prs, &book);
    assert_eq!(plan.incrs()[2].size, Size::Major);
    assert_eq!(plan.incrs()[1].size, Size::Major);
    assert_eq!(plan.incrs()[0].size, Size::Major);
}

#[test]
fn dependency_lift_never_lowers() {
    let prs = vec![group(0, 10, vec![commit("c1", "fix: x", &["lib/x.rs"]), commit("c2", "break: y", &["app/y.rs"])])];
    let book = book_for(&["c1", "c2"], lib_app);
    let plan = plan_of(lib_app(), &prs, &book);
    assert_eq!(plan.incrs()[0].size, Size::Patch);
    assert_eq!(plan.incrs()[1].size, Size::Major);
}

#[test]
fn dedup_across_prs() {
    let x = || commit("x", "feat: shared", &["src/x.rs"]);
    // The later-closed group comes first, to show that ordering is by closing time.
    let prs = vec![
        group(11, 200, vec![x(), commit("y", "fix: other", &["src/y.rs"])]),
        group(10, 100, vec![x()]),
    ];
    let book = book_for(&["x", "y"], single_p);
    let plan = plan_of(single_p(), &prs, &book);
    let entries = plan.incrs()[0].change_log.entries();
    assert_eq!(entries.len(), 2);
    assert_eq!(entries[0].0.number(), 10);
    assert_eq!(entries[1].0.number(), 11);
    assert!(entries[0].0.commits()[0].included());
    assert_eq!(entries[0].1, Size::Minor);
    let dup = &entries[1].0.commits()[0];
    assert_eq!(dup.oid(), "x");
    assert!(dup.duplicate());
    assert!(!dup.included());
    assert_eq!(entries[1].1, Size::Patch);
    assert_eq!(plan.incrs()[0].size, Size::Minor);
}

#[test]
fn entries_ordered_by_closing_time() {
    let prs = vec![
        group(3, 300, vec![commit("a", "fix: a", &["src/a"])]),
        group(1, 100, vec![commit("b", "fix: b", &["src/b"])]),
        group(2, 200, vec![commit("c", "fix: c", &["src/c"])]),
        group(4, 200, vec![commit("d", "fix: d", &["src/d"])]),
    ];
    let book = book_for(&["a", "b", "c", "d"], single_p);
    let plan = plan_of(single_p(), &prs, &book);
    let numbers: Vec<u32> = plan.incrs()[0].change_log.entries().iter().map(|e| e.0.number()).collect();
    assert_eq!(numbers, vec![1, 2, 4, 3]);
}

#[test]
fn ineffective_pr() {
    let prs = vec![group(12, 10, vec![commit("d1", "fix: docs", &["docs/readme.md"])])];
    let book = book_for(&["d1"], single_p);
    let plan = plan_of(single_p(), &prs, &book);
    assert_eq!(plan.incrs()[0].size, Size::NoChange);
    assert!(plan.incrs()[0].change_log.is_empty());
    assert_eq!(plan.ineffective().len(), 1);
    assert_eq!(plan.ineffective()[0].number(), 12);
    assert_eq!(plan.ineffective()[0].closed_at(), 10);
}

#[test]
fn human_already_bumped() {
    let r = plan_release(Size::Minor, Some("1.2.0"), "2.0.0").unwrap();
    assert_eq!(r, Release::Forward("1.3.0".to_string()));
}

#[test]
fn release_changes_when_behind() {
    let r = plan_release(Size::Minor, Some("1.2.0"), "1.2.0").unwrap();
    assert_eq!(r, Release::Change("1.3.0".to_string()));
    assert_eq!(plan_release(Size::Empty, Some("1.2.0"), "1.2.0").unwrap(), Release::NoChange);
    assert_eq!(plan_release(Size::Patch, None, "0.1.0").unwrap(), Release::New);
    assert_eq!(plan_release(Size::Patch, Some("x"), "0.1.0"), Err(Error::BadSemver));
}

#[test]
fn historical_rename() {
    let old_cfg = || config(vec![project(1, "p", &["old/**"], &[])]);
    let new_cfg = || config(vec![project(1, "p", &["new/**"], &[])]);
    let prs = vec![
        group(1, 10, vec![commit("c1", "fix: old", &["old/x"])]),
        group(3, 30, vec![commit("c3", "feat: new", &["new/x"])]),
    ];
    let mut book = SliceBook::new();
    book.insert("c1".to_string(), old_cfg());
    book.insert("c3".to_string(), new_cfg());
    let plan = plan_of(new_cfg(), &prs, &book);
    let entries = plan.incrs()[0].change_log.entries();
    assert_eq!(entries.len(), 2);
    assert!(entries[0].0.commits()[0].applies());
    assert!(entries[1].0.commits()[0].applies());
    assert_eq!(plan.incrs()[0].size, Size::Minor);
}

#[test]
fn attribution_follows_the_slice_not_the_current_config() {
    // Under the current configuration the project covers `src/**`, but when the commit was
    // made it covered only `lib/**`.
    let then = || config(vec![project(1, "p", &["lib/**"], &[])]);
    let prs = vec![group(5, 10, vec![commit("c1", "fix: a", &["src/a.rs"])])];
    let mut book = SliceBook::new();
    book.insert("c1".to_string(), then());
    let plan = plan_of(single_p(), &prs, &book);
    assert_eq!(plan.incrs()[0].size, Size::NoChange);
    assert_eq!(plan.ineffective().len(), 1);
}

#[test]
fn replanning_gives_the_same_plan() {
    let prs = vec![
        group(2, 20, vec![commit("a", "feat: a", &["lib/a"]), commit("b", "fix: b", &["app/b"])]),
        group(1, 10, vec![commit("c", "chore: c", &["docs/c"])]),
    ];
    let book = book_for(&["a", "b", "c"], lib_app);
    let first = plan_of(lib_app(), &prs, &book);
    let second = plan_of(lib_app(), &prs, &book);
    assert_eq!(first.incrs().len(), second.incrs().len());
    for (a, b) in first.incrs().iter().zip(second.incrs().iter()) {
        assert_eq!(a.id, b.id);
        assert_eq!(a.size, b.size);
        let na: Vec<(u32, Size)> = a.change_log.entries().iter().map(|e| (e.0.number(), e.1)).collect();
        let nb: Vec<(u32, Size)> = b.change_log.entries().iter().map(|e| (e.0.number(), e.1)).collect();
        assert_eq!(na, nb);
    }
    assert_eq!(first.ineffective().len(), second.ineffective().len());
}

#[test]
fn excluded_commits_do_not_count() {
    let mut pr = group(7, 10, vec![commit("c1", "break: a", &["src/a"]), commit("c2", "fix: b", &["src/b"])]);
    pr.excludes = vec!["c1".to_string()];
    let book = book_for(&["c2"], single_p);
    let plan = plan_of(single_p(), &vec![pr], &book);
    assert_eq!(plan.incrs()[0].size, Size::Patch);
    assert_eq!(plan.incrs()[0].change_log.entries()[0].0.commits().len(), 1);
}

#[test]
fn missing_slice_fails() {
    let prs = vec![group(0, 10, vec![commit("c1", "fix: typo", &["src/a.rs"])])];
    let book = SliceBook::new();
    let (r, back) = build_plan(single_p(), &prs, &book);
    assert!(matches!(r, Err(PlanError::NotSliced)));
    assert_eq!(back.projects().len(), 1);
}

#[test]
fn empty_kind_counts_as_relevant() {
    let prs = vec![group(0, 10, vec![commit("c1", "chore: tidy", &["src/a.rs"])])];
    let book = book_for(&["c1"], single_p);
    let plan = plan_of(single_p(), &prs, &book);
    assert_eq!(plan.incrs()[0].size, Size::Empty);
    assert!(plan.ineffective().is_empty());
}

#[test]
fn builder_protocol_is_enforced() {
    let mut b = PlanBuilder::create(single_p());
    assert_eq!(b.start_file("src/a"), Err(PlanError::PlanProtocol));
    assert_eq!(b.finish_pr(), Err(PlanError::PlanProtocol));
    assert_eq!(b.finish_commit(), Err(PlanError::PlanProtocol));
    let c = commit("c1", "fix: a", &["src/a"]);
    assert_eq!(b.start_commit(&c, single_p()), Err(PlanError::PlanProtocol));
    let pr = group(1, 5, vec![]);
    assert_eq!(b.start_pr(&pr), Ok(()));
    assert_eq!(b.start_pr(&pr), Err(PlanError::PlanProtocol));
    assert_eq!(b.phase, Phase::InPr);
    assert_eq!(b.start_commit(&c, single_p()), Ok(()));
    assert_eq!(b.start_file("src/a"), Ok(()));
    assert!(b.on_pr_sizes[0].commits[0].applies());
    assert_eq!(b.finish_file(), Ok(()));
    assert_eq!(b.finish_commit(), Ok(()));
    assert_eq!(b.finish_pr(), Ok(()));
    b.handle_deps();
    b.sort_and_dedup();
    let plan = b.build();
    assert_eq!(plan.incrs()[0].size, Size::Patch);
}

#[test]
fn slicer_yields_the_configuration_sliced_to() {
    let mut s = Slicer::init();
    assert!(matches!(s.file(), Err(PlanError::NotSliced)));
    assert!(s.slice().is_none());
    s.slice_to("c9".to_string(), lib_app());
    assert_eq!(s.file().unwrap().projects().len(), 2);
    assert_eq!(s.slice().unwrap(), "c9");
}

#[test]
fn mono_builds_plans_and_stages_writes() {
    let lines = vec![commit("c2", "feat: a", &["app/a"]), commit("c1", "fix: l", &["lib/l"])];
    let book = book_for(&["c1", "c2"], lib_app);
    let mut mono = Mono::open(lib_app(), &lines, &book, vec![], &vec![]).unwrap();
    assert_eq!(mono.last_commits, vec![(1, "c1".to_string()), (2, "c2".to_string())]);
    let prs = vec![group(0, 1, lines)];
    let plan = mono.build_plan(&prs, &book).unwrap();
    assert_eq!(plan.incrs()[1].size, Size::Minor);
    assert_eq!(mono.get_named_project("app").unwrap().id, 2);
    assert_eq!(mono.get_project(9).err(), Some(Error::Config(ConfigError::UnknownProject)));
    assert_eq!(mono.set_by_name("lib", "1.0.1"), Ok(()));
    assert_eq!(mono.forward_by_id(2, "2.0.0"), Ok(()));
    assert_eq!(mono.set_by_id(7, "1.0.0"), Err(Error::Config(ConfigError::UnknownProject)));
    let staged = mono.commit();
    assert_eq!(staged.pending.len(), 2);
    assert!(mono.writer().pending.is_empty());
    assert_eq!(mono.reader().projects().len(), 2);
    assert_eq!(mono.projects().len(), 2);
}

#[test]
fn mono_open_needs_every_slice() {
    let lines = vec![commit("c1", "fix: l", &["lib/l"])];
    let book = SliceBook::new();
    assert!(matches!(Mono::open(lib_app(), &lines, &book, vec![], &vec![]), Err(Error::Plan(PlanError::NotSliced))));
}
