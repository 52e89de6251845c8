use git_sprout::paths;
use git_sprout::sprout::add;
use git_sprout::sprout::add::working_directory;
use git_sprout::sprout::add::Effect;
use git_sprout::sprout::add::Note;
use git_sprout::sprout::checkout::checkout_mode;
use git_sprout::sprout::checkout::copying;
use git_sprout::sprout::checkout::directory_mode;
use git_sprout::sprout::checkout::Conform;
use git_sprout::sprout::checkout::Copying;
use git_sprout::sprout::finish;
use git_sprout::sprout::finish::Finish;
use git_sprout::sprout::finish::Ran;
use git_sprout::sprout::text;
use git_sprout::source::Worktree;
use git_sprout::verify::Stat;
use git_sprout::verify::Time;
use git_sprout::verify::Timestamp;

fn bytes(text: &str) -> Vec<u8> {
    text.as_bytes().to_vec()
}

fn words(text: &str) -> Vec<Vec<u8>> {
    text.split(' ').map(bytes).collect()
}

fn worktree(path: &str) -> Worktree {
    Worktree { path: bytes(path), head: None, bare: false, prunable: false }
}

fn stat(mtime: u32) -> Stat {
    Stat {
        mtime: Time { secs: mtime, nsecs: 7 },
        ctime: Time { secs: 1, nsecs: 0 },
        dev: 0,
        ino: 0,
        uid: 0,
        gid: 0,
        size: 0,
    }
}

#[test]
fn permissions_come_from_the_tree_and_the_umask() {
    assert_eq!(checkout_mode(0o100644, 0o022), 0o644);
    assert_eq!(checkout_mode(0o100755, 0o022), 0o755);
    assert_eq!(checkout_mode(0o100644, 0o077), 0o600);
    assert_eq!(checkout_mode(0o100755, 0o077), 0o700);
    assert_eq!(checkout_mode(0o100644, 0o000), 0o666);
    assert_eq!(directory_mode(0o022), 0o755);
}

#[test]
fn applies_every_dash_c_in_order() {
    for windows in [false, true] {
        let root = if windows { "C:\\repo" } else { "/repo" };
        let globals = ["-C", root, "-c", "x=y", "-C", "sub"]
            .iter()
            .map(|token| bytes(token))
            .collect::<Vec<_>>();
        assert_eq!(
            working_directory(bytes("elsewhere"), &globals, windows),
            paths::join(root.as_bytes(), b"sub", windows)
        );
    }
    let globals = words("-C C:\\repo -c x=y -C sub");
    assert_eq!(working_directory(bytes("D:\\here"), &globals, true), bytes("C:\\repo\\sub"));
    let globals = words("-C /repo -c x=y -C sub");
    assert_eq!(working_directory(bytes("/here"), &globals, false), bytes("/repo/sub"));
}

#[test]
fn the_value_of_another_option_is_no_directory() {
    for option in ["--namespace", "-c", "--git-dir", "--work-tree"] {
        let globals = words(&format!("{option} -C -C /repo"));
        assert_eq!(working_directory(bytes("/here"), &globals, false), bytes("/repo"));
    }
    let globals = words("--bare --git-dir=x -C a --no-pager -C b");
    assert_eq!(working_directory(bytes("/here"), &globals, false), bytes("/here/a/b"));
}

#[test]
fn windows_paths_are_read_with_their_prefixes() {
    assert!(paths::same_path(b"C:\\repo", b"c:/repo/", true));
    assert!(!paths::same_path(b"C:\\repo", b"C:/repo", false));
    assert!(!paths::same_path(b"C:\\repo", b"D:\\repo", true));
    assert!(!paths::same_path(b"C:repo", b"C:\\repo", true));
    assert!(paths::same_path(b"\\\\server\\share", b"//server/share/", true));
    assert!(!paths::same_path(b"\\\\server\\share", b"\\server\\share", true));
    assert!(paths::is_rooted(b"C:\\", true));
    assert!(!paths::is_rooted(b"C:", true));
    assert!(paths::is_rooted(b"\\\\server\\share", true));
    assert_eq!(paths::join(b"C:\\a", b"b", true), bytes("C:\\a\\b"));
    assert_eq!(paths::join(b"C:\\a/", b"b", true), bytes("C:\\a/b"));
    assert_eq!(paths::join(b"C:", b"b", true), bytes("C:b"));
    assert_eq!(paths::join(b"C:\\a", b"\\b", true), bytes("C:\\b"));
    assert_eq!(paths::join(b"C:\\a", b"D:b", true), bytes("D:b"));
    assert_eq!(paths::join(b"\\\\s\\d\\a", b"/b", true), bytes("\\\\s\\d/b"));
    assert_eq!(paths::join(b"/a", b"C:\\b", false), bytes("/a/C:\\b"));
}

#[test]
fn a_relative_dash_c_starts_where_the_command_runs() {
    assert_eq!(working_directory(bytes("/here"), &words("-C a -C b/"), false), bytes("/here/a/b/"));
    assert_eq!(working_directory(bytes("/here"), &words("-C a -C"), false), bytes("/here/a"));
    assert_eq!(working_directory(bytes("/here"), &words("-c -C"), false), bytes("/here"));
    assert_eq!(working_directory(bytes("."), &[], false), bytes("."));
}

#[test]
fn paths_are_compared_by_their_parts() {
    assert!(paths::same_path(b"/a//b/./c/", b"/a/b/c", false));
    assert!(!paths::same_path(b"/a/b", b"a/b", false));
    assert!(!paths::same_path(b"a/../b", b"b", false));
    assert!(!paths::same_path(b"./a", b"a", false));
    assert!(paths::is_rooted(b"/x", false));
    assert!(!paths::is_rooted(b"", false));
    assert_eq!(paths::join(b"/a", b"b", false), bytes("/a/b"));
    assert_eq!(paths::join(b"/a/", b"b", false), bytes("/a/b"));
    assert_eq!(paths::join(b"/a", b"/b", false), bytes("/b"));
    assert_eq!(paths::join(b"", b"b", false), bytes("b"));
}

#[test]
fn verbatim_paths_take_little_for_anything_but_a_name() {
    let same = |a: &str, b: &str| paths::same_path(a.as_bytes(), b.as_bytes(), true);
    assert!(same("\\\\?\\C:\\a", "\\\\?\\c:\\a\\"));
    assert!(!same("\\\\?\\C:\\a", "C:\\a"));
    assert!(!same("\\\\?\\C:\\a\\b", "\\\\?\\C:\\a/b"));
    assert!(!same("\\\\?\\C:\\a", "\\\\?\\C:\\.\\a"));
    assert!(!same("\\\\?\\C:", "\\\\?\\C:\\"));
    assert!(same("\\\\?\\UNC\\s\\d\\a", "\\\\?\\UNC\\s\\d\\\\a"));
    assert!(!same("\\\\?\\UNC\\s\\d", "\\\\s\\d"));
    assert!(!same("\\\\?\\name\\a", "\\\\?\\Name\\a"));
    assert!(same("\\\\.\\COM42", "//./COM42/"));
    assert!(same("C:.\\a", "C:a"));
    assert!(!same(".\\a", "a"));
    let joined = |a: &str, b: &str| paths::join(a.as_bytes(), b.as_bytes(), true);
    assert_eq!(joined("\\\\?\\C:\\a", "..\\b/./c"), bytes("\\\\?\\C:\\b\\c"));
    assert_eq!(joined("\\\\?\\C:\\a/b", "c"), bytes("\\\\?\\C:\\a/b\\c"));
    assert_eq!(joined("\\\\?\\C:\\a", "/b"), bytes("\\\\?\\C:\\b"));
    assert_eq!(joined("\\\\?\\C:\\", ".."), bytes("\\\\?\\C:\\"));
    assert_eq!(joined("\\\\?\\C:\\.", ".."), bytes("\\\\?\\C:\\."));
    assert_eq!(joined("\\\\?\\C:", "b"), bytes("\\\\?\\C:\\b"));
    assert_eq!(joined("\\\\?\\C:\\a", ""), bytes("\\\\?\\C:\\a\\"));
    assert_eq!(joined("\\\\?\\UNC\\s\\d", "x"), bytes("\\\\?\\UNC\\s\\d\\x"));
    assert_eq!(joined("\\\\?\\C:\\a", "D:b"), bytes("D:b"));
    assert_eq!(joined("C:\\a", "\\\\?\\D:\\b"), bytes("\\\\?\\D:\\b"));
}

#[test]
fn only_a_symlink_on_both_sides_is_linked() {
    assert_eq!(copying(0o120000, true), Copying::Link);
    assert_eq!(copying(0o120000, false), Copying::File);
    assert_eq!(copying(0o100644, true), Copying::File);
}

#[test]
fn a_clone_gets_its_permissions_before_its_time() {
    let mtime = Time { secs: 9, nsecs: 7 };
    let first = Conform::begin(0o100755, 0o022);
    assert_eq!(first, Conform::SetMode { mode: 0o755 });
    let second = first.mode_set();
    assert_eq!(second, Conform::Inspect);
    let third = second.inspected(mtime, Some(stat(8)));
    assert_eq!(third, Conform::SetTimes { time: Timestamp { seconds: 9, nanoseconds: 7 } });
    let fourth = third.times_set(true);
    assert_eq!(fourth, Conform::Reinspect);
    assert_eq!(fourth.reinspected(Some(stat(9))), Conform::Done { stat: Some(stat(9)) });
    assert_eq!(fourth.reinspected(None), Conform::Done { stat: None });
    assert_eq!(third.times_set(false), Conform::Done { stat: None });
}

#[test]
fn a_clone_with_the_right_time_is_left_alone() {
    let mtime = Time { secs: 9, nsecs: 7 };
    assert_eq!(Conform::begin(0o120000, 0o022), Conform::Inspect);
    let kept = Conform::Inspect.inspected(mtime, Some(stat(9)));
    assert_eq!(kept, Conform::Done { stat: Some(stat(9)) });
    assert_eq!(Conform::Inspect.inspected(mtime, None), Conform::Done { stat: None });
    let finer = Time { secs: 9, nsecs: 8 };
    assert!(matches!(
        Conform::Inspect.inspected(finer, Some(stat(9))),
        Conform::SetTimes { .. }
    ));
}

#[test]
fn exit_codes_outside_of_a_byte_become_one() {
    assert_eq!(finish::exit_code(Some(0)), 0);
    assert_eq!(finish::exit_code(Some(255)), 255);
    assert_eq!(finish::exit_code(Some(256)), 1);
    assert_eq!(finish::exit_code(Some(-1)), 1);
    assert_eq!(finish::exit_code(None), 1);
}

#[test]
fn the_null_id_is_as_long_as_the_format_says() {
    assert_eq!(finish::null_oid(Some(b"sha256")), vec![b'0'; 64]);
    assert_eq!(finish::null_oid(Some(b"sha1")), vec![b'0'; 40]);
    assert_eq!(finish::null_oid(None), vec![b'0'; 40]);
}

#[test]
fn a_reset_is_followed_by_the_hook() {
    let step = Finish::begin();
    assert_eq!(step.args(true), Some(words("reset -q --hard")));
    assert_eq!(step.args(false), Some(words("reset --hard")));
    let step = step.reset(Ran::Exited(Some(0)));
    assert_eq!(step.args(false), Some(words("rev-parse HEAD")));
    let step = step.head(Some(bytes("abc")));
    assert_eq!(step.args(false), Some(words("rev-parse --show-object-format")));
    let step = step.format(Some(b"sha1"));
    let zeros = "0".repeat(40);
    assert_eq!(
        step.args(false),
        Some(words(&format!("hook run --ignore-missing post-checkout -- {zeros} abc 1")))
    );
    let step = step.hook(Ran::Exited(Some(3)));
    assert_eq!(step.args(false), None);
    assert_eq!(step, Finish::Exit { code: 3, complain: false });
}

#[test]
fn a_failed_reset_runs_no_hook() {
    let exit = |code, complain| Finish::Exit { code, complain };
    assert_eq!(Finish::begin().reset(Ran::Exited(Some(128))), exit(128, false));
    assert_eq!(Finish::begin().reset(Ran::Exited(None)), exit(1, false));
    assert_eq!(Finish::begin().reset(Ran::NotRun), exit(1, true));
    assert_eq!(Finish::Head.head(None), exit(0, false));
    let hook = || Finish::Hook { head: bytes("a"), null: bytes("0") };
    assert_eq!(hook().hook(Ran::NotRun), exit(0, false));
    assert_eq!(hook().hook(Ran::Exited(None)), exit(1, false));
}

#[test]
fn numbers_are_written_in_decimal() {
    assert_eq!(text::decimal_text(0), "0");
    assert_eq!(text::decimal_text(10), "10");
    assert_eq!(text::decimal_text(9876543210), "9876543210");
    assert_eq!(text::decimal_text(u64::MAX), u64::MAX.to_string());
    assert_eq!(
        text::diagnostic_counts("verified", 12, 0, 345),
        "git-sprout-diagnostic: stage=verified considered=12 accepted=0 auxiliary=345"
    );
}

#[test]
fn a_repository_without_a_commit_is_left_to_git() {
    let turn = add::Stage::begin().head_verified(false);
    assert_eq!(turn.effects, vec![Effect::FallBack { note: Note::NoCommit }, Effect::Emit]);
    assert_eq!(turn.stage, add::Stage::Delegate);
    assert_eq!(Note::NoCommit.text(), "the repository has no commit on HEAD");
}

#[test]
fn a_request_goes_from_verification_to_its_end() {
    let before = || vec![worktree("/repo")];
    let turn = add::Stage::begin().head_verified(true);
    assert_eq!(turn.effects, vec![]);
    let turn = turn.stage.listed_before(before());
    let turn = turn.stage.created(Ran::Exited(Some(0)));
    assert_eq!(turn.stage, add::Stage::ListAfter { before: before() });
    let turn = turn.stage.listed_after(&[worktree("/repo/"), worktree("/wt")], false);
    assert_eq!(turn.effects, vec![Effect::Defer]);
    let turn = turn.stage.repaired(true);
    assert_eq!(
        turn.stage,
        add::Stage::Populate { before: before(), destination: bytes("/wt") }
    );
    let turn = turn.stage.populated(true);
    assert_eq!(turn.effects, vec![Effect::Emit]);
    assert_eq!(turn.stage, add::Stage::Finish { destination: bytes("/wt") });
    let turn = turn.stage.finished(7);
    assert_eq!(turn.effects, vec![Effect::Honour]);
    assert_eq!(turn.stage, add::Stage::Exit { code: 7 });
}

#[test]
fn a_worktree_that_was_not_created_ends_the_request() {
    let create = || add::Stage::Create { before: vec![] };
    let turn = create().created(Ran::NotRun);
    assert_eq!(turn.effects, vec![Effect::Complain]);
    assert_eq!(turn.stage, add::Stage::Exit { code: 1 });
    let turn = create().created(Ran::Exited(Some(128)));
    assert_eq!(turn.effects, vec![Effect::FallBack { note: Note::AddFailed }, Effect::Emit]);
    assert_eq!(turn.stage, add::Stage::Exit { code: 128 });
    assert_eq!(Note::AddFailed.text(), "git worktree add failed");
}

#[test]
fn the_requested_path_is_the_fallback() {
    let listed = add::Stage::ListAfter { before: vec![worktree("/repo")] };
    let turn = listed.listed_after(&[worktree("/repo")], false);
    assert_eq!(turn.effects, vec![]);
    let asked = || add::Stage::Requested { before: vec![worktree("/repo")] };
    assert_eq!(turn.stage, asked());
    let turn = asked().requested(Some(bytes("/wt")));
    assert_eq!(turn.effects, vec![Effect::Defer]);
    assert_eq!(
        turn.stage,
        add::Stage::Repair { before: vec![worktree("/repo")], destination: bytes("/wt") }
    );
    let turn = asked().requested(None);
    assert_eq!(
        turn.effects,
        vec![
            Effect::Defer,
            Effect::FallBack { note: Note::NotLocated },
            Effect::Emit,
            Effect::Honour,
        ]
    );
    assert_eq!(turn.stage, add::Stage::Exit { code: 0 });
    assert_eq!(Note::NotLocated.text(), "the new worktree could not be located");
}

#[test]
fn a_worktree_is_finished_though_it_could_not_be_filled() {
    let finish = add::Stage::Finish { destination: bytes("/wt") };
    let repair = add::Stage::Repair { before: vec![], destination: bytes("/wt") };
    let turn = repair.repaired(false);
    assert_eq!(turn.effects, vec![Effect::FallBack { note: Note::LinksDisagree }, Effect::Emit]);
    assert_eq!(turn.stage, finish);
    let populate = add::Stage::Populate { before: vec![], destination: bytes("/wt") };
    let turn = populate.populated(false);
    assert_eq!(turn.effects, vec![Effect::FallBack { note: Note::CloneFailed }, Effect::Emit]);
    assert_eq!(turn.stage, finish);
    assert_eq!(
        Note::LinksDisagree.text(),
        "could not reconcile the new worktree's path links"
    );
    assert_eq!(Note::CloneFailed.text(), "the clone phase failed");
}

#[test]
fn git_is_asked_in_its_own_words() {
    assert_eq!(add::verify_head_args(), words("rev-parse --verify --quiet HEAD"));
    assert_eq!(add::list_args(), words("worktree list --porcelain"));
    assert_eq!(add::repair_args(b"/wt", true), Some(words("worktree repair /wt")));
    assert_eq!(add::repair_args(b"/wt", false), None);
    assert_eq!(add::worktrees(Some(b"worktree /a\n")), vec![worktree("/a")]);
    assert_eq!(add::worktrees(None), vec![]);
    assert_eq!(add::locate(&[], &[], false), None);
    let (before, after) = ([worktree("C:\\repo")], [worktree("c:/repo"), worktree("c:/wt")]);
    assert_eq!(add::locate(&before, &after, true), Some(bytes("c:/wt")));
}
