//! The last phase: git writes whatever is missing and the real index, then the checkout hook
//! fires.

use vstd::prelude::*;
use vstd::string::*;

use crate::bytes;

verus! {

/// What came of a git command that talks to the user directly.
#[derive(Debug, Clone, Copy, PartialEq, Eq, Structural)]
pub enum Ran {
    /// It ran; the exit code is missing where a signal ended it.
    Exited(Option<i32>),
    /// It could not be run.
    NotRun,
}

impl Ran {
    /// Whether the command succeeded.
    pub open spec fn success(self) -> bool {
        self == Ran::Exited(Some(0))
    }
}

/// The code to exit with for a process that ended with this one. Without a code, or with one
/// that a process cannot return, that is 1.
pub open spec fn exit_status(code: Option<i32>) -> u8 {
    match code {
        Some(code) if 0 <= code <= 255 => code as u8,
        _ => 1,
    }
}

/// The code to exit with for a process that ended with this one.
pub fn exit_code(code: Option<i32>) -> (r: u8)
    ensures
        r == exit_status(code),
{
    match code {
        Some(code) => if 0 <= code && code <= 255 {
            code as u8
        } else {
            1
        },
        None => 1,
    }
}

/// How many digits an object id has in this format.
pub open spec fn id_length(format: Option<Seq<u8>>) -> nat {
    if format == Some("sha256".spec_bytes()) {
        64
    } else {
        40
    }
}

/// `0`
pub const ZERO: u8 = 0x30;

/// The all-zero object id in this format.
pub open spec fn null(format: Option<Seq<u8>>) -> Seq<u8> {
    Seq::new(id_length(format), |i: int| ZERO)
}

/// The all-zero object id at the repository's hash length.
pub fn null_oid(format: Option<&[u8]>) -> (r: Vec<u8>)
    ensures
        r@ == null(bytes::slice_of(format)),
{
    let sha256 = match format {
        Some(name) => bytes::is_word(name, "sha256"),
        None => false,
    };
    let length: usize = if sha256 {
        64
    } else {
        40
    };
    let mut id: Vec<u8> = Vec::new();
    while id.len() < length
        invariant
            id.len() <= length,
            forall|i: int| 0 <= i < id@.len() ==> id@[i] == ZERO,
        decreases length - id.len(),
    {
        id.push(ZERO);
    }
    assert(id@ =~= null(bytes::slice_of(format)));
    id
}

/// What is left to do to finish a worktree.
#[derive(Debug, PartialEq, Eq)]
pub enum Finish {
    /// Run git to write the files that are missing and the index.
    Reset,
    /// Ask git for the commit that is checked out.
    Head,
    /// Ask git for the object format.
    Format { head: Vec<u8> },
    /// Run the checkout hook.
    Hook { head: Vec<u8>, null: Vec<u8> },
    /// Exit. With `complain`, say first that git could not be run.
    Exit { code: u8, complain: bool },
}

/// The content of a [`Finish`].
pub enum Finishing {
    Reset,
    Head,
    Format { head: Seq<u8> },
    Hook { head: Seq<u8>, null: Seq<u8> },
    Exit { code: u8, complain: bool },
}

impl View for Finish {
    type V = Finishing;

    open spec fn view(&self) -> Finishing {
        match self {
            Finish::Reset => Finishing::Reset,
            Finish::Head => Finishing::Head,
            Finish::Format { head } => Finishing::Format { head: head@ },
            Finish::Hook { head, null } => Finishing::Hook { head: head@, null: null@ },
            Finish::Exit { code, complain } => Finishing::Exit { code: *code, complain: *complain },
        }
    }
}

/// What `git worktree add` itself does at this point, down to the reflog entry, the
/// `ORIG_HEAD` it leaves and the "HEAD is now at" line.
pub open spec fn reset_command(quiet: bool) -> Seq<Seq<u8>> {
    if quiet {
        seq!["reset".spec_bytes(), "-q".spec_bytes(), "--hard".spec_bytes()]
    } else {
        seq!["reset".spec_bytes(), "--hard".spec_bytes()]
    }
}

/// Asks for the commit that is checked out.
pub open spec fn head_command() -> Seq<Seq<u8>> {
    seq!["rev-parse".spec_bytes(), "HEAD".spec_bytes()]
}

/// Asks for the object format.
pub open spec fn format_command() -> Seq<Seq<u8>> {
    seq!["rev-parse".spec_bytes(), "--show-object-format".spec_bytes()]
}

/// Runs the checkout hook, if there is one, for a checkout from nothing.
pub open spec fn hook_command(null: Seq<u8>, head: Seq<u8>) -> Seq<Seq<u8>> {
    seq![
        "hook".spec_bytes(),
        "run".spec_bytes(),
        "--ignore-missing".spec_bytes(),
        "post-checkout".spec_bytes(),
        "--".spec_bytes(),
        null,
        head,
        "1".spec_bytes(),
    ]
}

impl Finishing {
    /// The git command to run next, if one is.
    pub open spec fn command(self, quiet: bool) -> Option<Seq<Seq<u8>>> {
        match self {
            Finishing::Reset => Some(reset_command(quiet)),
            Finishing::Head => Some(head_command()),
            Finishing::Format { .. } => Some(format_command()),
            Finishing::Hook { head, null } => Some(hook_command(null, head)),
            Finishing::Exit { .. } => None,
        }
    }
}

/// The arguments that ask for the commit that is checked out.
pub fn head_args() -> (args: Vec<Vec<u8>>)
    ensures
        bytes::views(args@) == head_command(),
{
    let args = vec![bytes::word("rev-parse"), bytes::word("HEAD")];
    assert(bytes::views(args@) =~= head_command());
    args
}

/// The arguments that ask for the object format.
pub fn format_args() -> (args: Vec<Vec<u8>>)
    ensures
        bytes::views(args@) == format_command(),
{
    let args = vec![bytes::word("rev-parse"), bytes::word("--show-object-format")];
    assert(bytes::views(args@) =~= format_command());
    args
}

impl Finish {
    /// Nothing is finished yet.
    pub fn begin() -> (r: Finish)
        ensures
            r@ == Finishing::Reset,
    {
        Finish::Reset
    }

    /// The arguments of the git command to run next in the new worktree, if one is.
    pub fn args(&self, quiet: bool) -> (args: Option<Vec<Vec<u8>>>)
        ensures
            match args {
                Some(args) => self@.command(quiet) == Some(bytes::views(args@)),
                None => self@.command(quiet) is None,
            },
    {
        match self {
            Finish::Reset => {
                let args = if quiet {
                    vec![bytes::word("reset"), bytes::word("-q"), bytes::word("--hard")]
                } else {
                    vec![bytes::word("reset"), bytes::word("--hard")]
                };
                assert(bytes::views(args@) =~= reset_command(quiet));
                Some(args)
            },
            Finish::Head => Some(head_args()),
            Finish::Format { .. } => Some(format_args()),
            Finish::Hook { head, null } => {
                let mut args = vec![
                    bytes::word("hook"),
                    bytes::word("run"),
                    bytes::word("--ignore-missing"),
                    bytes::word("post-checkout"),
                    bytes::word("--"),
                ];
                args.push(bytes::copy(null.as_slice()));
                args.push(bytes::copy(head.as_slice()));
                args.push(bytes::word("1"));
                assert(bytes::views(args@) =~= hook_command(null@, head@));
                Some(args)
            },
            Finish::Exit { .. } => None,
        }
    }

    /// The reset came to an end.
    pub fn reset(self, ran: Ran) -> (r: Finish)
        requires
            self is Reset,
        ensures
            r@ == after_reset(ran),
    {
        match ran {
            Ran::NotRun => Finish::Exit { code: 1, complain: true },
            Ran::Exited(code) => {
                let success = match code {
                    Some(code) => code == 0,
                    None => false,
                };
                if success {
                    Finish::Head
                } else {
                    Finish::Exit { code: exit_code(code), complain: false }
                }
            },
        }
    }

    /// Git named the commit that is checked out, or did not.
    pub fn head(self, line: Option<Vec<u8>>) -> (r: Finish)
        requires
            self is Head,
        ensures
            r@ == after_head(bytes::view_of(line)),
    {
        match line {
            Some(head) => Finish::Format { head },
            None => Finish::Exit { code: 0, complain: false },
        }
    }

    /// Git named the object format, or did not.
    pub fn format(self, line: Option<&[u8]>) -> (r: Finish)
        requires
            self is Format,
        ensures
            r@ == after_format(self@->Format_head, bytes::slice_of(line)),
    {
        match self {
            Finish::Format { head } => Finish::Hook { head, null: null_oid(line) },
            other => other,
        }
    }

    /// The hook came to an end.
    pub fn hook(self, ran: Ran) -> (r: Finish)
        requires
            self is Hook,
        ensures
            r@ == after_hook(ran),
    {
        match ran {
            Ran::NotRun => Finish::Exit { code: 0, complain: false },
            Ran::Exited(code) => Finish::Exit { code: exit_code(code), complain: false },
        }
    }
}

/// Only a worktree that was reset is finished further.
pub open spec fn after_reset(ran: Ran) -> Finishing {
    match ran {
        Ran::NotRun => Finishing::Exit { code: 1, complain: true },
        Ran::Exited(code) => if ran.success() {
            Finishing::Head
        } else {
            Finishing::Exit { code: exit_status(code), complain: false }
        },
    }
}

/// Without a commit there is nothing to tell the hook.
pub open spec fn after_head(line: Option<Seq<u8>>) -> Finishing {
    match line {
        Some(head) => Finishing::Format { head },
        None => Finishing::Exit { code: 0, complain: false },
    }
}

/// The hook is told that the checkout came from nothing.
pub open spec fn after_format(head: Seq<u8>, line: Option<Seq<u8>>) -> Finishing {
    Finishing::Hook { head, null: null(line) }
}

/// The hook's own exit code is the one to exit with.
pub open spec fn after_hook(ran: Ran) -> Finishing {
    match ran {
        Ran::NotRun => Finishing::Exit { code: 0, complain: false },
        Ran::Exited(code) => Finishing::Exit { code: exit_status(code), complain: false },
    }
}

/// Everything that can come back while a worktree is finished.
pub struct Answers {
    pub reset: Ran,
    pub head: Option<Seq<u8>>,
    pub format: Option<Seq<u8>>,
    pub hook: Ran,
}

/// The next state when these are the answers.
pub open spec fn step(state: Finishing, answers: Answers) -> Finishing {
    match state {
        Finishing::Reset => after_reset(answers.reset),
        Finishing::Head => after_head(answers.head),
        Finishing::Format { head } => after_format(head, answers.format),
        Finishing::Hook { .. } => after_hook(answers.hook),
        Finishing::Exit { .. } => state,
    }
}

/// The commands that are run from a state on, in at most so many steps, and the state that
/// is reached.
pub open spec fn run(state: Finishing, quiet: bool, answers: Answers, steps: nat) -> (
    Seq<Seq<Seq<u8>>>,
    Finishing,
)
    decreases steps,
{
    match state.command(quiet) {
        Some(command) if steps > 0 => {
            let (more, last) = run(step(state, answers), quiet, answers, (steps - 1) as nat);
            (seq![command] + more, last)
        },
        _ => (Seq::empty(), state),
    }
}

/// What finishing a worktree amounts to: the reset first; after a successful one, and for a
/// known commit, the checkout hook once.
pub open spec fn commands(quiet: bool, answers: Answers) -> Seq<Seq<Seq<u8>>> {
    if !answers.reset.success() {
        seq![reset_command(quiet)]
    } else {
        match answers.head {
            None => seq![reset_command(quiet), head_command()],
            Some(head) => seq![
                reset_command(quiet),
                head_command(),
                format_command(),
                hook_command(null(answers.format), head),
            ],
        }
    }
}

/// The exit code of a finished worktree: that of the reset if it failed, that of the hook if
/// it ran, and success otherwise.
pub open spec fn code(answers: Answers) -> u8 {
    match answers.reset {
        Ran::NotRun => 1,
        Ran::Exited(code) => if !answers.reset.success() {
            exit_status(code)
        } else if answers.head is None {
            0
        } else {
            match answers.hook {
                Ran::NotRun => 0,
                Ran::Exited(code) => exit_status(code),
            }
        },
    }
}

/// Finishing a worktree runs exactly the commands it should, in their order, and ends with
/// the exit code it should. The hook fires once, and only after a successful reset.
pub proof fn finishing_runs_its_commands(quiet: bool, answers: Answers)
    ensures
        run(Finishing::Reset, quiet, answers, 4) == (
            commands(quiet, answers),
            Finishing::Exit { code: code(answers), complain: answers.reset is NotRun },
        ),
{
    reveal_with_fuel(run, 5);
    assert(run(Finishing::Reset, quiet, answers, 4).0 =~= commands(quiet, answers));
}

/// An exit code that a process can return is kept; anything else becomes 1.
pub proof fn exit_codes_are_kept_where_they_fit(code: i32)
    ensures
        0 <= code <= 255 ==> exit_status(Some(code)) as int == code as int,
        code < 0 || code > 255 ==> exit_status(Some(code)) == 1,
        exit_status(None) == 1,
{
}

/// The null id is all zeros, 64 of them where the format is SHA-256 and 40 otherwise.
pub proof fn the_null_id_is_all_zeros(format: Option<Seq<u8>>, i: int)
    ensures
        format == Some("sha256".spec_bytes()) ==> null(format).len() == 64,
        format != Some("sha256".spec_bytes()) ==> null(format).len() == 40,
        0 <= i < null(format).len() ==> null(format)[i] == 0x30,
{
}

/// Only the exit code 0 is a success.
pub proof fn only_zero_is_a_success(code: i32)
    ensures
        Ran::Exited(Some(code)).success() <==> code == 0,
        !Ran::Exited(None).success(),
        !Ran::NotRun.success(),
{
}

/// A failed reset is the last command, and its code the one to exit with.
pub proof fn a_failed_reset_ends_it(quiet: bool, answers: Answers)
    requires
        answers.reset != Ran::Exited(Some(0)),
    ensures
        ({
            let (done, last) = run(Finishing::Reset, quiet, answers, 4);
            &&& done.len() == 1
            &&& done[0].len() == if quiet {
                3int
            } else {
                2int
            }
            &&& done[0][0] == "reset".spec_bytes()
            &&& done[0].last() == "--hard".spec_bytes()
            &&& quiet ==> done[0][1] == "-q".spec_bytes()
            &&& (answers.reset matches Ran::Exited(Some(code)) ==> last == (Finishing::Exit {
                code: if 0 <= code <= 255 {
                    code as u8
                } else {
                    1
                },
                complain: false,
            }))
            &&& answers.reset == Ran::Exited(None) ==> last == (Finishing::Exit {
                code: 1,
                complain: false,
            })
            &&& answers.reset == Ran::NotRun ==> last == (Finishing::Exit {
                code: 1,
                complain: true,
            })
        }),
{
    reveal_with_fuel(run, 5);
}

/// After a successful reset the hook is told, once and last, that the checkout went from the
/// null id to the commit, and its code is the one to exit with. Without a commit, or a hook
/// that could be run, the worktree is finished all the same.
pub proof fn a_reset_worktree_tells_its_hook(quiet: bool, answers: Answers)
    requires
        answers.reset == Ran::Exited(Some(0)),
    ensures
        ({
            let (done, last) = run(Finishing::Reset, quiet, answers, 4);
            let ends = |code: u8| last == (Finishing::Exit { code, complain: false });
            &&& answers.head is None ==> done.len() == 2 && ends(0)
            &&& (answers.head matches Some(head) ==> {
                let zeros: nat = if answers.format == Some("sha256".spec_bytes()) {
                    64
                } else {
                    40
                };
                &&& done.len() == 4
                &&& done[1] == seq!["rev-parse".spec_bytes(), "HEAD".spec_bytes()]
                &&& done[2] == seq![
                    "rev-parse".spec_bytes(),
                    "--show-object-format".spec_bytes(),
                ]
                &&& done[3] == seq![
                    "hook".spec_bytes(),
                    "run".spec_bytes(),
                    "--ignore-missing".spec_bytes(),
                    "post-checkout".spec_bytes(),
                    "--".spec_bytes(),
                    Seq::new(zeros, |i: int| 0x30u8),
                    head,
                    "1".spec_bytes(),
                ]
                &&& answers.hook == Ran::NotRun ==> ends(0)
                &&& answers.hook == Ran::Exited(None) ==> ends(1)
                &&& (answers.hook matches Ran::Exited(Some(code)) ==> ends(
                    if 0 <= code <= 255 {
                        code as u8
                    } else {
                        1
                    },
                ))
            })
        }),
{
    reveal_with_fuel(run, 5);
    let (done, last) = run(Finishing::Reset, quiet, answers, 4);
    if let Some(head) = answers.head {
        let zeros: nat = if answers.format == Some("sha256".spec_bytes()) {
            64
        } else {
            40
        };
        assert(null(answers.format) =~= Seq::new(zeros, |i: int| 0x30u8));
        assert(done.len() == 4);
    }
}

/// The content of a state is all that it holds.
pub proof fn contents_leave_nothing_out(head: Vec<u8>, null: Vec<u8>, code: u8, complain: bool)
    ensures
        (Finish::Format { head })@ == (Finishing::Format { head: head@ }),
        (Finish::Hook { head, null })@ == (Finishing::Hook { head: head@, null: null@ }),
        (Finish::Exit { code, complain })@ == (Finishing::Exit { code, complain }),
        Finish::Reset@ == Finishing::Reset,
        Finish::Head@ == Finishing::Head,
{
}

} // verus!
