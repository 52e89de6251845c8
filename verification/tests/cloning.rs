use git_sprout::sprout::checkout::Planned;
use git_sprout::sprout::checkout::Record;
use git_sprout::sprout::differences;
use git_sprout::sprout::materialise::Materialise;
use git_sprout::sprout::materialise::Plan;
use git_sprout::sprout::materialise::Stage as Cloning;
use git_sprout::sprout::populate;
use git_sprout::sprout::populate::Place;
use git_sprout::sprout::populate::Populate;
use git_sprout::sprout::populate::Settings;
use git_sprout::sprout::populate::Stage;
use git_sprout::verify::AttributeFiles;
use git_sprout::verify::Stat;
use git_sprout::verify::Time;

fn bytes(text: &str) -> Vec<u8> {
    text.as_bytes().to_vec()
}

fn words(text: &str) -> Vec<Vec<u8>> {
    text.split(' ').map(bytes).collect()
}

fn oid(byte: u8) -> gix_hash::ObjectId {
    gix_hash::ObjectId::from_hex(format!("{:02x}", byte).repeat(20).as_bytes()).unwrap()
}

fn planned(path: &str) -> Planned {
    Planned { path: bytes(path), mode: 0o100644, oid: oid(1), mtime: Time { secs: 1, nsecs: 2 } }
}

fn all_planned(paths: &str) -> Vec<Planned> {
    paths.split_whitespace().map(planned).collect()
}

fn stat(size: u32) -> Stat {
    let time = Time { secs: 1, nsecs: 2 };
    Stat { mtime: time, ctime: time, dev: 0, ino: 0, uid: 0, gid: 0, size }
}

fn record(path: &str, size: u32) -> Record {
    Record { path: bytes(path), mode: 0o100644, oid: oid(1), stat: stat(size) }
}

fn plan() -> Plan {
    Plan {
        directories: words("d e"),
        files: all_planned("f g"),
        directories_created: words("d"),
        materialised: all_planned("d/x e/y f g"),
    }
}

fn settings() -> Settings {
    Settings { autocrlf: None, eol: Some(bytes("lf")), symlinks: None, attributes: None }
}

/// A run that reached the choice of a source.
fn choosing() -> Populate {
    Populate::begin()
        .head(Some(bytes("abc")))
        .format(Some(b"sha1"))
        .index(Some(bytes("/wt/index")))
        .version(2, 2)
        .split(None, Some(b"false"))
}

/// A run that met every condition for cloning.
fn prepared() -> Populate {
    choosing()
        .source(Some(bytes("/repo")))
        .conversion(&settings(), &settings())
        .target_tree(true)
        .source_head(Some(bytes("def")))
        .source_tree(true)
        .source_index_path(Some(bytes("/repo/index")))
        .source_index(true)
}

/// A run that is about to clone these paths.
fn ready(considered: usize, paths: &str) -> Populate {
    let mut run = prepared();
    run.stage = Stage::Clone { considered, paths: all_planned(paths) };
    run
}

fn refused(run: Populate) -> String {
    assert!(matches!(run.stage, Stage::Finished));
    assert_eq!(run.report.reasons.len(), 1);
    assert_eq!(run.report.cloned, 0);
    run.report.reasons[0].clone()
}

#[test]
fn an_undisturbed_plan_is_cloned_in_order() {
    let run = Materialise::begin(plan());
    assert_eq!(run.stage, Cloning::PollDirectory { at: 0 });
    let run = run.polled(false);
    assert_eq!(run.stage, Cloning::CloneDirectory { at: 0 });
    assert_eq!(run.subject_in(b"/repo", false), Some(bytes("/repo/d")));
    assert_eq!(run.subject_in(b"C:\\repo", true), Some(bytes("C:\\repo\\d")));
    let run = run.cloned(None).polled(false).cloned(None);
    assert_eq!(run.stage, Cloning::PollFile { at: 0 });
    let run = run.polled(false);
    assert_eq!(run.subject(), Some(b"f".as_slice()));
    let run = run.cloned(None).polled(false).cloned(None);
    assert_eq!(run.stage, Cloning::SetMode { at: 0 });
    assert_eq!(run.subject(), Some(b"d".as_slice()));
    let run = run.mode_set();
    assert_eq!(run.stage, Cloning::Conform { at: 0 });
    let run = run.conformed(Some(stat(1))).conformed(None);
    let run = run.conformed(Some(stat(3))).conformed(Some(stat(4)));
    assert_eq!(run.stage, Cloning::Finished);
    assert_eq!(run.subject(), None);
    assert_eq!(run.demotion, None);
    assert_eq!(run.records, vec![record("d/x", 1), record("f", 3), record("g", 4)]);
}

#[test]
fn a_failed_directory_abandons_the_rest() {
    let run = Materialise::begin(plan()).polled(false).cloned(None);
    let run = run.polled(false).cloned(Some("no space"));
    assert_eq!(run.stage, Cloning::RemoveDirectory { at: 1 });
    assert_eq!(run.subject_in(b"/wt", false), Some(bytes("/wt/e")));
    let run = run.removed();
    assert_eq!(run.stage, Cloning::Conform { at: 0 });
    let run = run.conformed(Some(stat(1))).conformed(None).conformed(None).conformed(None);
    assert_eq!(run.stage, Cloning::Finished);
    assert_eq!(run.demotion.as_deref(), Some("cloning a directory failed: no space"));
    assert_eq!(run.records, vec![record("d/x", 1)]);
}

#[test]
fn a_failed_file_abandons_the_rest() {
    let files = Plan { directories: vec![], ..plan() };
    let run = Materialise::begin(files).polled(false).cloned(Some("gone"));
    assert_eq!(run.stage, Cloning::RemoveFile { at: 0 });
    assert_eq!(run.demotion.as_deref(), Some("cloning a file failed: gone"));
    assert_eq!(run.removed().stage, Cloning::Conform { at: 0 });
}

#[test]
fn an_interrupt_abandons_the_rest() {
    let run = Materialise::begin(plan()).polled(true);
    assert_eq!(run.demotion.as_deref(), Some("interrupted"));
    assert_eq!(run.stage, Cloning::Conform { at: 0 });
    let files = Plan { directories: vec![], ..plan() };
    let run = Materialise::begin(files).polled(false).cloned(None).polled(true);
    assert_eq!(run.demotion.as_deref(), Some("interrupted"));
    assert_eq!(run.stage, Cloning::Conform { at: 0 });
}

#[test]
fn an_empty_plan_is_finished_at_once() {
    let empty = Plan {
        directories: vec![],
        files: vec![],
        directories_created: vec![],
        materialised: vec![],
    };
    let run = Materialise::begin(empty);
    assert_eq!(run.stage, Cloning::Finished);
    assert_eq!(run.records, vec![]);
}

#[test]
fn git_is_asked_about_named_paths_up_to_a_limit() {
    assert_eq!(differences::changed_args(&[]), None);
    assert_eq!(
        differences::changed_args(&words("a b")),
        Some(words("diff-files -z --name-only -- a b"))
    );
    let many: Vec<Vec<u8>> = (0..1000).map(|i| bytes(&format!("{i}"))).collect();
    assert_eq!(differences::changed_args(&many).unwrap().len(), 1004);
    let more: Vec<Vec<u8>> = (0..1001).map(|i| bytes(&format!("{i}"))).collect();
    assert_eq!(
        differences::changed_args(&more),
        Some(words("diff-files -z --name-only --"))
    );
}

#[test]
fn changed_paths_are_what_git_reports() {
    let asked = words("a b");
    assert_eq!(differences::changed_paths(&asked, Some(b"b\0c\0b\0")), words("b c"));
    assert_eq!(differences::changed_paths(&asked, Some(b"")), Vec::<Vec<u8>>::new());
    assert_eq!(differences::changed_paths(&asked, None), asked);
    assert_eq!(differences::changed_paths(&[], None), Vec::<Vec<u8>>::new());
    assert_eq!(differences::changed_paths(&[], Some(b"x\0")), Vec::<Vec<u8>>::new());
}

#[test]
fn unchanged_racy_paths_join_the_others_in_order() {
    let settled = differences::settle(&all_planned("b d"), &all_planned("c a e"), &words("e x"));
    assert_eq!(settled, all_planned("a b c d"));
}

#[test]
fn converted_paths_are_dropped() {
    let kept = |reported: Option<&[Option<bool>]>| {
        differences::drop_converted_paths(all_planned("a b c d"), reported)
    };
    let answers = [Some(false), Some(true), None];
    assert_eq!(kept(Some(&answers)), all_planned("a"));
    assert_eq!(kept(None), vec![]);
    assert_eq!(differences::attribute_input(&all_planned("a bc")), b"a\0bc\0".to_vec());
    assert_eq!(
        differences::attribute_args(&words("text eol")),
        words("check-attr -z --stdin text eol")
    );
}

#[test]
fn every_condition_for_cloning_has_its_reason() {
    assert_eq!(refused(Populate::begin().head(None)), "the new worktree has no HEAD");
    let head = || Populate::begin().head(Some(bytes("abc")));
    assert_eq!(refused(head().format(Some(b"md5"))), "unknown object format");
    assert_eq!(refused(head().format(None)), "unknown object format");
    let format = || head().format(Some(b"sha256"));
    assert!(format().ground.sha256);
    assert_eq!(refused(format().index(None)), "could not locate the new worktree's index");
    let index = || format().index(Some(bytes("/i")));
    assert_eq!(refused(index().version(4, 2)), "the repository writes index version 4");
    let version = || index().version(2, 2);
    assert_eq!(refused(version().split(Some(b"1"), None)), "the repository splits the index");
    assert_eq!(
        refused(version().split(Some(b"0"), Some(b"true"))),
        "the repository splits the index"
    );
    assert_eq!(refused(choosing().source(None)), "no usable source checkout");
    let source = || choosing().source(Some(bytes("/repo")));
    assert_eq!(source().report.source, Some(bytes("/repo")));
    let trees = || source().conversion(&settings(), &settings());
    assert_eq!(refused(trees().target_tree(false)), "could not read the target tree");
    let target = || trees().target_tree(true);
    assert_eq!(refused(target().source_head(None)), "the source checkout has no HEAD");
    let head = || target().source_head(Some(bytes("def")));
    assert_eq!(refused(head().source_tree(false)), "could not read the source tree");
    let tree = || head().source_tree(true);
    assert_eq!(refused(tree().source_index_path(None)), "could not locate the source index");
    let path = || tree().source_index_path(Some(bytes("/x")));
    assert_eq!(refused(path().source_index(false)), "could not read the source index");
    assert!(matches!(path().source_index(true).stage, Stage::Attributes));
}

#[test]
fn worktrees_that_convert_differently_are_told_apart() {
    let mismatch = |other: &Settings| populate::conversion_mismatch(&settings(), other);
    assert_eq!(mismatch(&settings()), None);
    let mut other = settings();
    other.attributes = Some(vec![]);
    assert_eq!(
        mismatch(&other).as_deref(),
        Some("the worktrees have different attributes files")
    );
    other.symlinks = Some(bytes("false"));
    assert_eq!(
        mismatch(&other).as_deref(),
        Some("core.symlinks differs between the worktrees")
    );
    other.eol = Some(bytes("crlf"));
    assert_eq!(mismatch(&other).as_deref(), Some("core.eol differs between the worktrees"));
    other.autocrlf = Some(bytes("true"));
    assert_eq!(
        mismatch(&other).as_deref(),
        Some("core.autocrlf differs between the worktrees")
    );
    let run = choosing().source(Some(bytes("/repo"))).conversion(&settings(), &other);
    assert_eq!(refused(run), "core.autocrlf differs between the worktrees");
}

#[test]
fn each_stage_asks_its_question_in_its_place() {
    let none: [Vec<u8>; 0] = [];
    let start = Populate::begin();
    assert_eq!(
        start.args(&none, false),
        Some((Place::Destination, words("rev-parse HEAD")))
    );
    let run = start.head(Some(bytes("abc")));
    assert_eq!(
        run.args(&none, false),
        Some((Place::Destination, words("rev-parse --show-object-format")))
    );
    let run = run.format(Some(b"sha1"));
    assert_eq!(
        run.args(&none, false),
        Some((
            Place::Destination,
            words("rev-parse --path-format=absolute --git-path index")
        ))
    );
    let run = choosing().source(Some(bytes("/repo"))).conversion(&settings(), &settings());
    assert_eq!(
        run.args(&none, false),
        Some((Place::Destination, words("ls-tree -r -t -z abc")))
    );
    let run = run.target_tree(true);
    assert_eq!(run.args(&none, false), Some((Place::Source, words("rev-parse HEAD"))));
    let run = run.source_head(Some(bytes("def")));
    assert_eq!(run.args(&none, false), Some((Place::Source, words("ls-tree -r -t -z def"))));
    let run = run.source_tree(true);
    assert_eq!(
        run.args(&none, false),
        Some((Place::Source, words("rev-parse --path-format=absolute --git-path index")))
    );
    let run = run.source_index_path(Some(bytes("/x"))).source_index(true);
    assert_eq!(run.args(&none, false), None);
    let run = run.attributes(AttributeFiles::new(), AttributeFiles::new(), words("a"));
    assert_eq!(
        run.args(&none, false),
        Some((Place::Source, words("diff-files -z --name-only -- a")))
    );
    let run = run.dirty(Some(b"")).collided(&[]).verified(2, vec![], all_planned("r"));
    assert_eq!(
        run.args(&none, false),
        Some((Place::Source, words("diff-files -z --name-only -- r")))
    );
    let run = run.racy(Some(b""));
    assert_eq!(
        run.args(&words("text"), false),
        Some((Place::Source, words("check-attr -z --stdin text")))
    );
    let run = run.converted(Some(&[Some(false)])).cloned(0, vec![record("r", 1)], None);
    assert_eq!(run.args(&none, true), None);
    let run = run.written(true);
    assert_eq!(run.args(&none, false), None);
    assert_eq!(
        run.args(&none, true),
        Some((Place::Destination, words("update-index --really-refresh")))
    );
    assert_eq!(
        populate::attributes_args(),
        words("rev-parse --path-format=absolute --git-path info/attributes")
    );
}

#[test]
fn doubtful_attributes_poison_their_directories() {
    let target = AttributeFiles::new().with(bytes("a/.gitattributes"), oid(1));
    let source = AttributeFiles::new()
        .with(bytes("a/.gitattributes"), oid(2))
        .with(bytes("b/.gitattributes"), oid(3));
    let suspect = words("c/.gitattributes");
    let run = prepared().attributes(target, source, suspect).dirty(None);
    let run = run.collided(&words("z/ a/"));
    match run.stage {
        Stage::Verify { poisoned } => assert_eq!(poisoned, words("a/ b/ c/ z/ a/")),
        other => panic!("expected paths to be judged, got {other:?}"),
    }
}

#[test]
fn only_trusted_paths_are_cloned() {
    let run = prepared()
        .attributes(AttributeFiles::new(), AttributeFiles::new(), vec![])
        .dirty(None)
        .collided(&[])
        .verified(5, all_planned("b d"), all_planned("a c"))
        .racy(Some(b"c\0"))
        .converted(Some(&[Some(false), Some(true), Some(false)]));
    match run.stage {
        Stage::Clone { considered, paths } => {
            assert_eq!(considered, 5);
            assert_eq!(paths, all_planned("a d"));
        }
        other => panic!("expected paths to clone, got {other:?}"),
    }
}

#[test]
fn the_report_accounts_for_every_path() {
    let run = ready(5, "a b").cloned(3, vec![record("a", 1), record("b", 2)], None);
    assert_eq!(run.report.cloned_directories, 3);
    assert_eq!(run.report.cloned, 2);
    assert_eq!(run.report.skipped, 3);
    assert_eq!(run.report.checked_out_by_git, 3);
    assert_eq!(run.report.reasons, Vec::<String>::new());
    assert!(matches!(run.stage, Stage::WriteIndex { .. }));
    let run = ready(1, "a").cloned(0, vec![record("a", 1), record("b", 2)], None);
    assert_eq!(run.report.skipped, 0);
}

#[test]
fn a_demoted_run_keeps_what_landed() {
    let run = ready(5, "a b").cloned(3, vec![record("a", 1)], Some("interrupted".to_string()));
    assert_eq!(run.report.cloned_directories, 0);
    assert_eq!(run.report.cloned, 1);
    assert_eq!(run.report.reasons, vec!["interrupted".to_string()]);
    assert!(matches!(run.stage, Stage::WriteIndex { .. }));
}

#[test]
fn a_run_without_clones_says_so_and_writes_no_index() {
    let run = ready(5, "").cloned(0, vec![], None);
    assert!(matches!(run.stage, Stage::Finished));
    assert_eq!(
        run.report.reasons,
        vec!["nothing in the target tree could be cloned".to_string()]
    );
    let run = ready(5, "a").cloned(0, vec![], Some("interrupted".to_string()));
    assert_eq!(run.report.reasons, vec!["interrupted".to_string()]);
}

#[test]
fn an_index_that_could_not_be_written_is_noted() {
    let landed = || ready(1, "a").cloned(0, vec![record("a", 1)], None);
    let run = landed().written(false);
    assert_eq!(run.report.reasons, vec!["could not write the scratch index".to_string()]);
    assert!(matches!(run.stage, Stage::Finished));
    let run = landed().written(true).refreshed(false);
    assert_eq!(
        run.report.reasons,
        vec!["could not refresh the Windows scratch index".to_string()]
    );
    let run = landed().written(true).refreshed(true);
    assert_eq!(run.report.reasons, Vec::<String>::new());
    assert!(matches!(run.stage, Stage::Finished));
}
