use git_sprout::argv::parse;
use git_sprout::argv::AddCommand;
use git_sprout::argv::Invocation;
use git_sprout::decline;
use git_sprout::depends_on_head;
use git_sprout::head_is_unborn;
use git_sprout::route;
use git_sprout::Route;

fn words(text: &str) -> Vec<Vec<u8>> {
    text.split(' ').map(|word| word.as_bytes().to_vec()).collect()
}

fn add_of(text: &str) -> AddCommand {
    match parse(&words(text)) {
        Invocation::Add(add) => *add,
        other => panic!("expected an add invocation, got {other:?}"),
    }
}

#[test]
fn an_ordinary_request_is_accelerated() {
    let add = add_of("add ../wt");
    assert_eq!(decline(&add, None, Some(b"abc")), None);
    assert_eq!(decline(&add, Some(b"0"), None), None);
    match route(parse(&words("add ../wt")), None, Some(b"abc")) {
        Route::Accelerate(same) => assert_eq!(*same, add),
        other => panic!("expected an acceleration, got {other:?}"),
    }
}

#[test]
fn reasons_to_decline_come_in_order() {
    let all = "add --no-cow --no-checkout --orphan ../wt";
    assert_eq!(decline(&add_of(all), Some(b"1"), Some(b"")), Some("--no-cow"));
    let most = "add --no-checkout --orphan ../wt";
    assert_eq!(decline(&add_of(most), Some(b"1"), Some(b"")), Some("SPROUT_DISABLE=1"));
    assert_eq!(decline(&add_of(most), None, Some(b"")), Some("--no-checkout"));
    assert_eq!(decline(&add_of("add --orphan ../wt"), None, Some(b"")), Some("--orphan"));
    assert_eq!(decline(&add_of("add ../wt"), None, Some(b"")), Some("no commits yet"));
}

#[test]
fn a_named_commit_makes_head_irrelevant() {
    assert!(head_is_unborn(&add_of("add ../wt"), Some(b"")));
    assert!(!head_is_unborn(&add_of("add ../wt v1"), Some(b"")));
    assert!(!head_is_unborn(&add_of("add ../wt"), Some(b"abc")));
    assert!(!head_is_unborn(&add_of("add ../wt"), None));
    assert!(depends_on_head(&add_of("add ../wt"), None));
    assert!(!depends_on_head(&add_of("add ../wt v1"), None));
    assert!(!depends_on_head(&add_of("add ../wt"), Some(b"1")));
    assert!(!depends_on_head(&add_of("add --no-cow ../wt"), None));
}

#[test]
fn a_declined_request_reaches_git_without_its_own_flags() {
    match route(parse(&words("-C /repo add --no-cow -q ../wt")), None, None) {
        Route::Delegate { git_args, reason } => {
            assert_eq!(git_args, words("-C /repo worktree add -q ../wt"));
            assert_eq!(reason, "--no-cow");
        }
        other => panic!("expected a delegation, got {other:?}"),
    }
}

#[test]
fn other_command_lines_reach_git_as_they_are() {
    match route(parse(&words("list --porcelain")), None, None) {
        Route::Delegate { git_args, reason } => {
            assert_eq!(git_args, words("worktree list --porcelain"));
            assert_eq!(reason, "not a `worktree add` invocation");
        }
        other => panic!("expected a delegation, got {other:?}"),
    }
    assert_eq!(route(parse(&words("-V")), Some(b"1"), None), Route::Version);
}

#[test]
fn isolation_goes_before_any_reason_to_decline() {
    let line = "add --isolated-metadata --no-cow ../wt";
    match route(parse(&words(line)), Some(b"1"), Some(b"")) {
        Route::Isolate(add) => assert!(add.isolated_metadata),
        other => panic!("expected an isolation, got {other:?}"),
    }
}
