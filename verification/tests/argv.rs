use git_sprout::argv::parse;
use git_sprout::argv::split_assignment;
use git_sprout::argv::AddCommand;
use git_sprout::argv::Invocation;

fn argv(tokens: &[&str]) -> Vec<Vec<u8>> {
    tokens.iter().map(|token| token.as_bytes().to_vec()).collect()
}

fn strings(tokens: &[Vec<u8>]) -> Vec<String> {
    tokens
        .iter()
        .map(|token| String::from_utf8_lossy(token).into_owned())
        .collect()
}

fn add_of(tokens: &[&str]) -> AddCommand {
    match parse(&argv(tokens)) {
        Invocation::Add(add) => *add,
        other => panic!("expected an add invocation, got {other:?}"),
    }
}

fn delegation_reason(tokens: &[&str]) -> &'static str {
    match parse(&argv(tokens)) {
        Invocation::Delegate { reason, .. } => reason,
        other => panic!("expected a delegation, got {other:?}"),
    }
}

#[test]
fn takes_the_path_and_commit_ish() {
    let add = add_of(&["add", "../wt", "v1.0"]);
    assert_eq!(add.path, b"../wt".to_vec());
    assert_eq!(add.commit_ish, Some(b"v1.0".to_vec()));
    assert!(add.checkout);
    assert!(!add.quiet);
}

#[test]
fn keeps_git_options_in_the_passthrough() {
    let add = add_of(&["add", "-b", "feature", "../wt"]);
    assert_eq!(strings(&add.passthrough), ["-b", "feature", "../wt"]);
    assert_eq!(
        strings(&add.git_args()),
        ["worktree", "add", "-b", "feature", "../wt"]
    );
}

#[test]
fn removes_its_own_flag_from_the_passthrough() {
    let add = add_of(&["add", "--no-cow", "../wt"]);
    assert!(add.no_cow);
    assert_eq!(strings(&add.passthrough), ["../wt"]);

    let add = add_of(&["add", "--isolated-metadata", "--detach", "../wt", "HEAD"]);
    assert!(add.isolated_metadata);
    assert!(add.detach);
    assert_eq!(strings(&add.passthrough), ["--detach", "../wt", "HEAD"]);
}

#[test]
fn understands_bundled_and_sticky_short_options() {
    let add = add_of(&["add", "-fq", "-bfeature", "../wt"]);
    assert!(add.quiet);
    assert_eq!(strings(&add.passthrough), ["-fq", "-bfeature", "../wt"]);
}

#[test]
fn understands_a_long_option_with_an_attached_value() {
    let add = add_of(&["add", "--lock", "--reason=busy", "../wt"]);
    assert_eq!(
        strings(&add.passthrough),
        ["--lock", "--reason=busy", "../wt"]
    );
}

#[test]
fn understands_a_long_option_with_a_separate_value() {
    let add = add_of(&["add", "--lock", "--reason", "busy", "../wt"]);
    assert_eq!(
        strings(&add.passthrough),
        ["--lock", "--reason", "busy", "../wt"]
    );
}

#[test]
fn records_no_checkout_and_orphan() {
    assert!(!add_of(&["add", "--no-checkout", "../wt"]).checkout);
    assert!(add_of(&["add", "--orphan", "../wt"]).orphan);
}

#[test]
fn a_later_checkout_flag_wins() {
    assert!(add_of(&["add", "--no-checkout", "--checkout", "../wt"]).checkout);
    assert!(!add_of(&["add", "--checkout", "--no-checkout", "../wt"]).checkout);
}

#[test]
fn inserts_no_checkout_before_a_double_dash() {
    let add = add_of(&["add", "--", "../wt"]);
    assert_eq!(
        strings(&add.worktree_add_args_no_checkout()),
        ["worktree", "add", "--no-checkout", "--", "../wt"]
    );
}

#[test]
fn appends_no_checkout_when_there_is_no_double_dash() {
    let add = add_of(&["add", "-b", "feature", "../wt"]);
    assert_eq!(
        strings(&add.worktree_add_args_no_checkout()),
        ["worktree", "add", "-b", "feature", "../wt", "--no-checkout"]
    );
}

#[test]
fn carries_git_global_options_ahead_of_the_subcommand() {
    let add = add_of(&["-C", "/repo", "-c", "core.bare=false", "add", "../wt"]);
    assert_eq!(
        strings(&add.git_args()),
        [
            "-C",
            "/repo",
            "-c",
            "core.bare=false",
            "worktree",
            "add",
            "../wt"
        ]
    );
}

#[test]
fn an_unknown_option_is_a_delegation_not_an_error() {
    assert_eq!(
        delegation_reason(&["add", "--tomorrows-flag", "../wt"]),
        "unrecognised `git worktree add` option"
    );
    assert_eq!(
        delegation_reason(&["add", "-Z", "../wt"]),
        "unrecognised `git worktree add` option"
    );
    assert_eq!(
        delegation_reason(&["--tomorrows-global", "add", "../wt"]),
        "unrecognised git global option"
    );
}

#[test]
fn an_abbreviated_option_is_a_delegation() {
    assert_eq!(
        delegation_reason(&["add", "--deta", "../wt"]),
        "unrecognised `git worktree add` option"
    );
}

#[test]
fn a_delegation_reproduces_the_original_argv() {
    match parse(&argv(&["add", "--tomorrows-flag", "../wt"])) {
        Invocation::Delegate { git_args, .. } => assert_eq!(
            strings(&git_args),
            ["worktree", "add", "--tomorrows-flag", "../wt"]
        ),
        other => panic!("expected a delegation, got {other:?}"),
    }
}

#[test]
fn other_subcommands_go_straight_to_git() {
    assert_eq!(
        delegation_reason(&["list"]),
        "not a `worktree add` invocation"
    );
}

#[test]
fn a_missing_or_extra_path_is_a_delegation() {
    assert_eq!(delegation_reason(&["add"]), "no worktree path given");
    assert_eq!(
        delegation_reason(&["add", "a", "b", "c"]),
        "more positional arguments than `git worktree add` takes"
    );
}

#[test]
fn reports_its_version() {
    assert_eq!(parse(&argv(&["--version"])), Invocation::Version);
}

#[test]
fn the_short_version_flag_counts_only_alone() {
    assert_eq!(parse(&argv(&["-V"])), Invocation::Version);
    assert_eq!(
        delegation_reason(&["-V", "add"]),
        "unrecognised git global option"
    );
}

#[test]
fn an_empty_command_line_goes_to_git() {
    assert_eq!(delegation_reason(&[]), "not a `worktree add` invocation");
}

#[test]
fn an_option_without_its_value_is_a_delegation() {
    assert_eq!(
        delegation_reason(&["add", "../wt", "--reason"]),
        "long option is missing its value"
    );
    assert_eq!(
        delegation_reason(&["add", "../wt", "-b"]),
        "short option is missing its value"
    );
    assert_eq!(delegation_reason(&["-C"]), "unrecognised git global option");
}

#[test]
fn a_later_option_overrides_an_earlier_one() {
    assert!(!add_of(&["add", "--quiet", "--no-quiet", "../wt"]).quiet);
    assert!(!add_of(&["add", "--detach", "--no-detach", "../wt"]).detach);
    assert!(!add_of(&["add", "--orphan", "--no-orphan", "../wt"]).orphan);
    assert!(add_of(&["add", "--no-quiet", "-q", "../wt"]).quiet);
    assert!(add_of(&["add", "--no-detach", "-d", "../wt"]).detach);
}

#[test]
fn options_after_a_double_dash_are_positional() {
    let add = add_of(&["add", "-q", "--", "--no-checkout", "-b"]);
    assert_eq!(add.double_dash, Some(1));
    assert_eq!(add.path, b"--no-checkout".to_vec());
    assert_eq!(add.commit_ish, Some(b"-b".to_vec()));
    assert!(add.checkout);
    assert_eq!(
        strings(&add.worktree_add_args_no_checkout()),
        ["worktree", "add", "-q", "--no-checkout", "--", "--no-checkout", "-b"]
    );
}

#[test]
fn an_argument_that_is_no_text_is_positional() {
    let add = match parse(&[b"add".to_vec(), vec![b'-', b'-', 0xff]]) {
        Invocation::Add(add) => *add,
        other => panic!("expected an add invocation, got {other:?}"),
    };
    assert_eq!(add.path, vec![b'-', b'-', 0xff]);
    assert_eq!(
        match parse(&[vec![b'-', 0xff], b"add".to_vec()]) {
            Invocation::Delegate { reason, .. } => reason,
            other => panic!("expected a delegation, got {other:?}"),
        },
        "not a `worktree add` invocation"
    );
}

#[test]
fn reproduced_arguments_parse_to_the_same_request() {
    let tokens = [
        "-c", "a=b", "--git-dir=x", "add", "-fb", "name", "--no-cow", "--lock", "--", "../wt",
    ];
    let add = add_of(&tokens);
    assert!(add.no_cow);
    let mut again = add.globals.clone();
    again.push(b"add".to_vec());
    again.extend(add.passthrough.iter().cloned());
    match parse(&again) {
        Invocation::Add(same) => {
            assert!(!same.no_cow);
            assert_eq!(same.passthrough, add.passthrough);
            assert_eq!(same.globals, add.globals);
            assert_eq!(same.path, add.path);
            assert_eq!(same.double_dash, add.double_dash);
        }
        other => panic!("expected an add invocation, got {other:?}"),
    }
}

#[test]
fn the_inserted_flag_turns_only_the_checkout_off() {
    let add = add_of(&["add", "--checkout", "-q", "../wt", "v1"]);
    let args = add.worktree_add_args_no_checkout();
    match parse(&args[1..]) {
        Invocation::Add(bare) => {
            assert!(!bare.checkout);
            assert!(bare.quiet);
            assert_eq!(bare.path, add.path);
            assert_eq!(bare.commit_ish, add.commit_ish);
        }
        other => panic!("expected an add invocation, got {other:?}"),
    }
}

#[test]
fn an_assignment_splits_at_its_first_equals_sign() {
    assert_eq!(
        split_assignment(b"--reason=a=b"),
        Some((b"--reason".as_slice(), b"a=b".as_slice()))
    );
    assert_eq!(
        split_assignment(b"--="),
        Some((b"--".as_slice(), b"".as_slice()))
    );
    assert_eq!(split_assignment(b"--reason"), None);
    assert_eq!(split_assignment(b"-c=d"), None);
}
