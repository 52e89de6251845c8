//! The decisions behind an accelerated `git worktree add`.
//!
//! Git creates the worktree and finishes it; in between, whatever an existing checkout can
//! supply is cloned. This crate holds every decision along the way as plain functions over
//! plain values: bytes for arguments and paths, booleans and numbers for what was observed.

use vstd::prelude::*;
use vstd::string::*;

pub mod argv;
pub mod bytes;
pub mod paths;
pub mod source;
pub mod sprout;
pub mod tree;
pub mod verify;

use argv::Add;
use argv::AddCommand;
use argv::Invocation;
use argv::Request;

verus! {

/// Whether the tool is switched off by the value of `SPROUT_DISABLE`.
pub open spec fn disabled(value: Option<Seq<u8>>) -> bool {
    value == Some("1".spec_bytes())
}

/// Whether the repository has no commit for `HEAD` to name, as far as that matters: git was
/// asked to verify `HEAD` and answered with nothing. A request that names its commit does
/// not depend on `HEAD`.
pub open spec fn unborn(add: Add, head: Option<Seq<u8>>) -> bool {
    add.commit_ish is None && head == Some(Seq::<u8>::empty())
}

/// Why a request cannot be accelerated, if the request itself or the environment says so.
pub open spec fn ruled_out(add: Add, disable: Option<Seq<u8>>) -> Option<Seq<char>> {
    if add.no_cow {
        Some("--no-cow"@)
    } else if disabled(disable) {
        Some("SPROUT_DISABLE=1"@)
    } else if !add.checkout {
        Some("--no-checkout"@)
    } else if add.orphan {
        Some("--orphan"@)
    } else {
        None
    }
}

/// Why a request cannot be accelerated, if it cannot be.
pub open spec fn declined(
    add: Add,
    disable: Option<Seq<u8>>,
    head: Option<Seq<u8>>,
) -> Option<Seq<char>> {
    match ruled_out(add, disable) {
        Some(reason) => Some(reason),
        None => if unborn(add, head) {
            Some("no commits yet"@)
        } else {
            None
        },
    }
}

/// The characters of an optional text.
pub open spec fn wording(text: Option<&str>) -> Option<Seq<char>> {
    match text {
        Some(text) => Some(text@),
        None => None,
    }
}

/// Why this request cannot be accelerated, if the request itself or the environment says so.
fn rule_out(add: &AddCommand, disable: Option<&[u8]>) -> (r: Option<&'static str>)
    ensures
        wording(r) == ruled_out(add@, bytes::slice_of(disable)),
{
    if add.no_cow {
        return Some("--no-cow");
    }
    let disabled = match disable {
        Some(value) => bytes::is_word(value, "1"),
        None => false,
    };
    if disabled {
        return Some("SPROUT_DISABLE=1");
    }
    if !add.checkout {
        return Some("--no-checkout");
    }
    if add.orphan {
        return Some("--orphan");
    }
    None
}

/// True when the repository has no commit for `HEAD` to name, given git's answer to being
/// asked to verify it, where it could be asked.
///
/// Git infers `--orphan` for itself in that situation, without the flag ever appearing on
/// the command line, and then refuses to combine its own inference with the `--no-checkout`
/// that creating the worktree relies on.
pub fn head_is_unborn(add: &AddCommand, head: Option<&[u8]>) -> (r: bool)
    ensures
        r == unborn(add@, bytes::slice_of(head)),
{
    add.commit_ish.is_none() && match head {
        Some(output) => {
            assert(output@.len() == 0 ==> output@ =~= Seq::<u8>::empty());
            output.len() == 0
        },
        None => false,
    }
}

/// Whether it depends on `HEAD` if this request can be accelerated.
pub fn depends_on_head(add: &AddCommand, disable: Option<&[u8]>) -> (r: bool)
    ensures
        r == (ruled_out(add@, bytes::slice_of(disable)) is None && add@.commit_ish is None),
        !r ==> forall|a: Option<Seq<u8>>, b: Option<Seq<u8>>|
            #[trigger] declined(add@, bytes::slice_of(disable), a) == #[trigger] declined(
                add@,
                bytes::slice_of(disable),
                b,
            ),
{
    rule_out(add, disable).is_none() && add.commit_ish.is_none()
}

/// Why this request cannot be accelerated, if it cannot be.
pub fn decline(add: &AddCommand, disable: Option<&[u8]>, head: Option<&[u8]>) -> (r: Option<
    &'static str,
>)
    ensures
        wording(r) == declined(add@, bytes::slice_of(disable), bytes::slice_of(head)),
{
    match rule_out(add, disable) {
        Some(reason) => Some(reason),
        None => if head_is_unborn(add, head) {
            Some("no commits yet")
        } else {
            None
        },
    }
}

/// What is to be done about a command line.
#[derive(Debug, PartialEq, Eq)]
pub enum Route {
    /// Report the tool's own version.
    Version,
    /// Note the reason, report it, and run `git` with these arguments in the tool's place.
    Delegate { git_args: Vec<Vec<u8>>, reason: &'static str },
    /// Create a standalone checkout with private writable git metadata.
    Isolate(Box<AddCommand>),
    /// Create the worktree, cloning what can be cloned.
    Accelerate(Box<AddCommand>),
}

/// The content of a [`Route`].
pub enum Course {
    Version,
    Delegate { git_args: Seq<Seq<u8>>, reason: Seq<char> },
    Isolate(Add),
    Accelerate(Add),
}

impl View for Route {
    type V = Course;

    open spec fn view(&self) -> Course {
        match self {
            Route::Version => Course::Version,
            Route::Delegate { git_args, reason } => Course::Delegate {
                git_args: bytes::views(git_args@),
                reason: reason@,
            },
            Route::Isolate(add) => Course::Isolate(add@),
            Route::Accelerate(add) => Course::Accelerate(add@),
        }
    }
}

/// What is to be done about a request, given the value of `SPROUT_DISABLE` and git's answer
/// about `HEAD`.
pub open spec fn course(
    request: Request,
    disable: Option<Seq<u8>>,
    head: Option<Seq<u8>>,
) -> Course {
    match request {
        Request::Version => Course::Version,
        Request::Delegate { git_args, reason } => Course::Delegate { git_args, reason },
        Request::Add(add) => if add.isolated_metadata {
            Course::Isolate(add)
        } else {
            match declined(add, disable, head) {
                Some(reason) => Course::Delegate { git_args: add.git_args(), reason },
                None => Course::Accelerate(add),
            }
        },
    }
}

/// What is to be done about a command line, given the value of `SPROUT_DISABLE` and git's
/// answer about `HEAD`.
pub fn route(invocation: Invocation, disable: Option<&[u8]>, head: Option<&[u8]>) -> (r: Route)
    ensures
        r@ == course(invocation@, bytes::slice_of(disable), bytes::slice_of(head)),
{
    match invocation {
        Invocation::Version => Route::Version,
        Invocation::Delegate { git_args, reason } => Route::Delegate { git_args, reason },
        Invocation::Add(add) => {
            if add.isolated_metadata {
                return Route::Isolate(add);
            }
            match decline(&add, disable, head) {
                Some(reason) => Route::Delegate { git_args: add.git_args(), reason },
                None => Route::Accelerate(add),
            }
        },
    }
}

/// Whatever is not accelerated reaches git as it was asked for: a command line that was not
/// understood behind the name of the subcommand, word by word, and one that was understood
/// as arguments that read as the same request, save for the flags that are not git's.
pub proof fn a_delegated_request_reaches_git(
    args: Seq<Seq<u8>>,
    disable: Option<Seq<u8>>,
    head: Option<Seq<u8>>,
)
    ensures
        course(argv::request(args), disable, head) matches Course::Delegate { git_args, .. } ==> {
            ||| git_args == seq!["worktree".spec_bytes()] + args
            ||| argv::request(args) matches Request::Add(add) && git_args == add.globals + (seq![
                "worktree".spec_bytes(),
            ] + (seq!["add".spec_bytes()] + add.passthrough)) && argv::request(
                add.globals + (seq!["add".spec_bytes()] + add.passthrough),
            ) == Request::Add(add.without_own_flags())
        },
{
    argv::git_args_reproduce_the_request(args);
    argv::delegation_reproduces_the_arguments(args);
}

/// A request is declined for the first of these that holds: the flag against cloning, the
/// switch in the environment, nothing to check out, a branch without commits, a repository
/// without any. Otherwise it is not, and a request that names its commit does not need `HEAD`.
pub proof fn a_request_is_declined_for_the_first_reason(
    add: Add,
    disable: Option<Seq<u8>>,
    head: Option<Seq<u8>>,
)
    ensures
        ({
            let told = declined(add, disable, head);
            let off = disable == Some("1".spec_bytes());
            let empty = add.commit_ish is None && head is Some && head->Some_0.len() == 0;
            &&& add.no_cow ==> told == Some("--no-cow"@)
            &&& !add.no_cow && off ==> told == Some("SPROUT_DISABLE=1"@)
            &&& !add.no_cow && !off && !add.checkout ==> told == Some("--no-checkout"@)
            &&& !add.no_cow && !off && add.checkout && add.orphan ==> told == Some("--orphan"@)
            &&& !add.no_cow && !off && add.checkout && !add.orphan ==> (told == if empty {
                Some("no commits yet"@)
            } else {
                None
            })
            &&& ruled_out(add, disable) is None <==> !add.no_cow && !off && add.checkout
                && !add.orphan
        }),
{
    if head is Some && head->Some_0.len() == 0 {
        assert(head->Some_0 =~= Seq::<u8>::empty());
    }
}

/// A command line that was not understood, and a request for the version, take their course
/// whatever the environment says. A request with metadata of its own is isolated, one that is
/// declined goes to git with the reason, and any other is accelerated as it was made.
pub proof fn every_request_takes_its_course(
    add: Add,
    args: Seq<Seq<u8>>,
    why: Seq<char>,
    disable: Option<Seq<u8>>,
    head: Option<Seq<u8>>,
)
    ensures
        course(Request::Version, disable, head) == Course::Version,
        course(Request::Delegate { git_args: args, reason: why }, disable, head)
            == (Course::Delegate { git_args: args, reason: why }),
        add.isolated_metadata ==> course(Request::Add(add), disable, head) == Course::Isolate(add),
        !add.isolated_metadata ==> match declined(add, disable, head) {
            Some(reason) => course(Request::Add(add), disable, head) == (Course::Delegate {
                git_args: add.globals + seq!["worktree".spec_bytes(), "add".spec_bytes()]
                    + add.passthrough,
                reason,
            }),
            None => course(Request::Add(add), disable, head) == Course::Accelerate(add),
        },
{
}

/// The contents of a route are all that it holds.
pub proof fn contents_leave_nothing_out(route: Route)
    ensures
        route is Version <==> route@ is Version,
        route matches Route::Delegate { git_args, reason } ==> route@ == (Course::Delegate {
            git_args: bytes::views(git_args@),
            reason: reason@,
        }),
        route matches Route::Isolate(add) ==> route@ == Course::Isolate(add@),
        route matches Route::Accelerate(add) ==> route@ == Course::Accelerate(add@),
        wording(None) is None,
{
}

} // verus!
