use git_sprout::source::candidates;
use git_sprout::source::choose_source;
use git_sprout::source::current_checkout;
use git_sprout::source::diff_args;
use git_sprout::source::differing_paths;
use git_sprout::source::drive_spelling;
use git_sprout::source::in_preference_order;
use git_sprout::source::include_current_checkout;
use git_sprout::source::msys_drive_path;
use git_sprout::source::native_worktree_path;
use git_sprout::source::parse_list;
use git_sprout::source::toplevel_args;
use git_sprout::source::Canonical;
use git_sprout::source::Observed;
use git_sprout::source::Worktree;

fn bytes(text: &str) -> Vec<u8> {
    text.as_bytes().to_vec()
}

fn worktree(path: &str) -> Worktree {
    Worktree { path: bytes(path), head: Some("abc".to_string()), bare: false, prunable: false }
}

fn observed(modified: i128) -> Observed {
    Observed { modified: Some(modified), directory: true, device: Some(1) }
}

#[test]
fn reads_the_porcelain_listing() {
    let output = b"worktree /repo\nHEAD abc\nbranch refs/heads/main\n\n\
                   worktree /repo/wt\nHEAD def\ndetached\n\n\
                   worktree /repo/gone\nHEAD 123\nprunable gitdir file points to non-existent location\n\n\
                   worktree /repo/bare\nbare\n\n"
        .as_slice();
    let worktrees = parse_list(output);
    assert_eq!(worktrees.len(), 4);
    assert_eq!(worktrees[0].path, bytes("/repo"));
    assert_eq!(worktrees[0].head.as_deref(), Some("abc"));
    assert!(!worktrees[0].bare);
    assert!(worktrees[2].prunable);
    assert!(worktrees[3].bare);
}

#[test]
fn converts_msys_drive_paths_without_mistaking_named_roots_for_drives() {
    assert_eq!(
        msys_drive_path(b"/w/stackie/repo"),
        Some(bytes("W:/stackie/repo"))
    );
    assert_eq!(
        msys_drive_path(b"/C/Users/worker"),
        Some(bytes("C:/Users/worker"))
    );
    assert_eq!(msys_drive_path(b"/stackie/repo"), None);
    assert_eq!(msys_drive_path(b"relative/repo"), None);
}

#[test]
fn prefers_the_current_checkout_then_the_main_one() {
    let worktrees = vec![
        Worktree {
            path: bytes("/repo"),
            head: None,
            bare: false,
            prunable: false,
        },
        Worktree {
            path: bytes("/repo/a"),
            head: None,
            bare: false,
            prunable: false,
        },
        Worktree {
            path: bytes("/repo/b"),
            head: None,
            bare: false,
            prunable: false,
        },
    ];
    let ordered = in_preference_order(&worktrees, Some(b"/repo/b".as_slice()), &[None, None, None], false);
    assert_eq!(ordered[0].path, bytes("/repo/b"));
    assert_eq!(ordered[1].path, bytes("/repo"));
    assert_eq!(ordered[2].path, bytes("/repo/a"));
}

#[test]
fn includes_an_absorbed_submodule_checkout_missing_from_gits_list() {
    let listed = vec![Worktree {
        path: bytes("/repo/.git/modules/sub"),
        head: Some("abc".into()),
        bare: false,
        prunable: false,
    }];
    let current = Worktree {
        path: bytes("/repo/sub"),
        head: Some("abc".into()),
        bare: false,
        prunable: false,
    };

    let candidates = include_current_checkout(&listed, Some(current), false);
    let ordered = in_preference_order(&candidates, Some(b"/repo/sub".as_slice()), &[None, None], false);

    assert_eq!(ordered[0].path, bytes("/repo/sub"));
    assert_eq!(ordered[1].path, bytes("/repo/.git/modules/sub"));
}

#[test]
fn a_listed_checkout_is_not_included_twice() {
    let listed = vec![worktree("/repo"), worktree("/repo/a")];
    let same = include_current_checkout(&listed, Some(worktree("/repo/a/")), false);
    assert_eq!(same, listed);
    let drives = vec![worktree("C:\\repo")];
    let current = Some(worktree("c:/repo"));
    assert_eq!(include_current_checkout(&drives, current.clone(), true).len(), 1);
    assert_eq!(include_current_checkout(&drives, current, false).len(), 2);
    assert_eq!(include_current_checkout(&listed, None, false), listed);
}

#[test]
fn descriptions_end_at_an_empty_line_or_the_next_worktree() {
    let worktrees = parse_list(b"HEAD lost\nworktree /a\nworktree /b\nprunable\n\nbare\nworktree /c");
    let paths: Vec<Vec<u8>> = worktrees.iter().map(|worktree| worktree.path.clone()).collect();
    assert_eq!(paths, vec![bytes("/a"), bytes("/b"), bytes("/c")]);
    assert!(worktrees[1].prunable);
    assert!(!worktrees[1].bare);
    assert!(!worktrees[2].bare);
    assert_eq!(parse_list(b""), vec![]);
}

#[test]
fn a_head_that_is_no_text_is_no_head() {
    let worktrees = parse_list(b"worktree /a\xff\nHEAD \xff\n\nworktree /b\nHEAD caf\xc3\xa9\n");
    assert_eq!(worktrees[0].path, b"/a\xff".to_vec());
    assert_eq!(worktrees[0].head, None);
    assert_eq!(worktrees[1].head.as_deref(), Some("caf\u{e9}"));
}

#[test]
fn a_printed_listing_reads_back() {
    let mut bare = worktree("/repo.git");
    bare.head = None;
    bare.bare = true;
    let mut gone = worktree("/gone");
    gone.prunable = true;
    let all = vec![bare, worktree("/repo/x y"), gone];
    let text = b"worktree /repo.git\nbare\n\nworktree /repo/x y\nHEAD abc\n\nworktree /gone\nHEAD abc\nprunable\n\n";
    assert_eq!(parse_list(text), all);
}

#[test]
fn a_drive_alone_is_a_drive_path() {
    assert_eq!(msys_drive_path(b"/c"), Some(bytes("C:")));
    assert_eq!(msys_drive_path(b"/c/"), Some(bytes("C:/")));
    assert_eq!(msys_drive_path(b"/1/x"), None);
    assert_eq!(msys_drive_path(b"/"), None);
    assert_eq!(msys_drive_path(b"/c/\xff"), None);
    assert_eq!(drive_spelling(bytes("/c/x")), bytes("C:/x"));
    assert_eq!(drive_spelling(bytes("x")), bytes("x"));
}

#[test]
fn native_paths_are_canonical_on_windows_only() {
    let canonical = |path: &str| Some(Canonical { path: bytes(path), text: bytes(path) });
    assert_eq!(native_worktree_path(bytes("/c/x"), None, false), bytes("/c/x"));
    assert_eq!(native_worktree_path(bytes("/c/x"), None, true), bytes("C:/x"));
    assert_eq!(
        native_worktree_path(bytes("/c/x"), canonical("\\\\?\\C:\\x"), true),
        bytes("C:\\x")
    );
    assert_eq!(
        native_worktree_path(bytes("/c/x"), canonical("D:\\y"), true),
        bytes("D:\\y")
    );
}

#[test]
fn the_rest_goes_by_time_of_modification() {
    let worktrees =
        vec![worktree("/m"), worktree("/a"), worktree("/b"), worktree("/c"), worktree("/d")];
    let modified = [Some(0), Some(5), None, Some(9), Some(5)];
    let ordered = in_preference_order(&worktrees, None, &modified, false);
    let paths: Vec<Vec<u8>> = ordered.iter().map(|worktree| worktree.path.clone()).collect();
    assert_eq!(
        paths,
        vec![bytes("/m"), bytes("/c"), bytes("/d"), bytes("/a"), bytes("/b")]
    );
}

#[test]
fn only_checkouts_that_can_serve_are_candidates() {
    let mut bare = worktree("/bare");
    bare.bare = true;
    let mut gone = worktree("/gone");
    gone.prunable = true;
    let worktrees = vec![
        bare,
        gone,
        worktree("/new"),
        worktree("/missing"),
        worktree("/elsewhere"),
        worktree("/unknown"),
        worktree("/ok"),
    ];
    let mut seen = vec![observed(0); 7];
    seen[3].directory = false;
    seen[4].device = Some(2);
    seen[5].device = None;
    assert_eq!(candidates(&worktrees, &seen, None, b"/new/.", Some(1), false), vec![6, 5]);
    assert_eq!(candidates(&worktrees, &seen, None, b"/new", None, false), vec![6, 5, 4]);
}

#[test]
fn no_more_than_five_candidates_are_scored() {
    let worktrees: Vec<Worktree> = (0..8).map(|i| worktree(&format!("/w{i}"))).collect();
    let seen: Vec<Observed> = (0..8).map(|i| observed(i)).collect();
    assert_eq!(candidates(&worktrees, &seen, None, b"/new", Some(1), false), vec![0, 7, 6, 5, 4]);
}

#[test]
fn the_closest_candidate_is_chosen_and_preference_breaks_ties() {
    let worktrees = vec![worktree("/m"), worktree("/a"), worktree("/b")];
    let seen = vec![observed(0), observed(1), observed(2)];
    let diff = |n: usize| Some(vec![0u8; n]);
    let choose = |diffs: &[Option<Vec<u8>>], current: Option<&[u8]>| {
        choose_source(&worktrees, &seen, current, b"/new", Some(1), diffs, false)
    };
    assert_eq!(choose(&[diff(3), diff(2), diff(4)], None), Some(bytes("/a")));
    assert_eq!(choose(&[diff(2), diff(2), diff(2)], None), Some(bytes("/m")));
    assert_eq!(choose(&[diff(2), diff(2), diff(2)], Some(b"/a")), Some(bytes("/a")));
    assert_eq!(choose(&[None, None, diff(9)], None), Some(bytes("/b")));
    assert_eq!(choose(&[None, None, None], None), Some(bytes("/m")));
    let none = choose_source(&worktrees[..1], &seen[..1], None, b"/m", Some(1), &[diff(0)], false);
    assert_eq!(none, None);
}

#[test]
fn differing_paths_are_counted_by_their_ends() {
    assert_eq!(differing_paths(&worktree("/a"), Some(b"x\0y\0")), 2);
    assert_eq!(differing_paths(&worktree("/a"), Some(b"")), 0);
    assert_eq!(differing_paths(&worktree("/a"), None), usize::MAX);
    let mut headless = worktree("/a");
    headless.head = None;
    assert_eq!(differing_paths(&headless, Some(b"x\0")), usize::MAX);
}

#[test]
fn the_current_checkout_needs_a_top_and_a_commit() {
    assert_eq!(current_checkout(Some(b"/a"), Some("abc".to_string())), Some(worktree("/a")));
    assert_eq!(current_checkout(None, Some("abc".to_string())), None);
    assert_eq!(current_checkout(Some(b"/a"), None), None);
}

#[test]
fn git_is_asked_about_tops_and_differences() {
    assert_eq!(
        toplevel_args(),
        vec![bytes("rev-parse"), bytes("--path-format=absolute"), bytes("--show-toplevel")]
    );
    assert_eq!(
        diff_args(&worktree("/a"), b"def"),
        Some(vec![
            bytes("diff-tree"),
            bytes("-r"),
            bytes("-z"),
            bytes("--name-only"),
            bytes("abc"),
            bytes("def"),
        ])
    );
    let mut headless = worktree("/a");
    headless.head = None;
    assert_eq!(diff_args(&headless, b"def"), None);
}
