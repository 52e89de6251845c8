//! Creates the worktree, cloning what it can and letting git finish the job.

use vstd::prelude::*;
use vstd::string::*;

use crate::argv;
use crate::bytes;
use crate::paths;
use crate::source;
use crate::source::Checkout;
use crate::source::Worktree;
use crate::sprout::finish;
use crate::sprout::finish::Ran;

verus! {

/// Asks whether `HEAD` names a commit.
pub open spec fn verify_head_command() -> Seq<Seq<u8>> {
    seq![
        "rev-parse".spec_bytes(),
        "--verify".spec_bytes(),
        "--quiet".spec_bytes(),
        "HEAD".spec_bytes(),
    ]
}

/// The arguments that ask whether `HEAD` names a commit.
pub fn verify_head_args() -> (args: Vec<Vec<u8>>)
    ensures
        bytes::views(args@) == verify_head_command(),
{
    let args = vec![
        bytes::word("rev-parse"),
        bytes::word("--verify"),
        bytes::word("--quiet"),
        bytes::word("HEAD"),
    ];
    assert(bytes::views(args@) =~= verify_head_command());
    args
}

/// Asks for the repository's worktrees.
pub open spec fn list_command() -> Seq<Seq<u8>> {
    seq!["worktree".spec_bytes(), "list".spec_bytes(), "--porcelain".spec_bytes()]
}

/// The arguments that ask for the repository's worktrees.
pub fn list_args() -> (args: Vec<Vec<u8>>)
    ensures
        bytes::views(args@) == list_command(),
{
    let args = vec![bytes::word("worktree"), bytes::word("list"), bytes::word("--porcelain")];
    assert(bytes::views(args@) =~= list_command());
    args
}

/// Makes the links between a worktree and its repository agree.
pub open spec fn repair_command(destination: Seq<u8>) -> Seq<Seq<u8>> {
    seq!["worktree".spec_bytes(), "repair".spec_bytes(), destination]
}

/// The arguments that reconcile the links of the new worktree, where that is called for.
/// The destination is the worktree's path as git spells it.
///
/// Git for Windows lists the physical drive spelling while the new worktree's `.git` file
/// can retain the logical MSYS spelling; `git worktree repair` is git's supported way to
/// make those links agree.
pub fn repair_args(destination: &[u8], windows: bool) -> (args: Option<Vec<Vec<u8>>>)
    ensures
        args is Some <==> windows,
        args matches Some(args) ==> bytes::views(args@) == repair_command(destination@),
{
    if !windows {
        return None;
    }
    let args = vec![bytes::word("worktree"), bytes::word("repair"), bytes::copy(destination)];
    assert(bytes::views(args@) =~= repair_command(destination@));
    Some(args)
}

/// The worktrees that git lists; none where it could not be asked.
pub fn worktrees(output: Option<&[u8]>) -> (r: Vec<Worktree>)
    ensures
        source::checkouts(r@) == match output {
            Some(output) => source::listed(bytes::split_on(output@, source::NEWLINE), None),
            None => Seq::empty(),
        },
{
    match output {
        Some(output) => source::parse_list(output),
        None => {
            let none: Vec<Worktree> = Vec::new();
            assert(source::checkouts(none@) =~= Seq::<Checkout>::empty());
            none
        },
    }
}

/// Whether one of the worktrees is at this path.
pub open spec fn known(worktrees: Seq<Checkout>, path: Seq<u8>, windows: bool) -> bool {
    exists|i: int|
        0 <= i < worktrees.len() && paths::parts((#[trigger] worktrees[i]).path, windows)
            == paths::parts(path, windows)
}

/// The path of the first worktree that was not there before.
pub open spec fn added(
    before: Seq<Checkout>,
    after: Seq<Checkout>,
    windows: bool,
) -> Option<Seq<u8>>
    decreases after.len(),
{
    if after.len() == 0 {
        None
    } else if !known(before, after[0].path, windows) {
        Some(after[0].path)
    } else {
        added(before, after.skip(1), windows)
    }
}

/// Whether one of the worktrees is at this path.
fn is_known(worktrees: &[Worktree], path: &[u8], windows: bool) -> (r: bool)
    ensures
        r == known(source::checkouts(worktrees@), path@, windows),
{
    let ghost all = source::checkouts(worktrees@);
    let mut i: usize = 0;
    while i < worktrees.len()
        invariant
            i <= worktrees.len(),
            all == source::checkouts(worktrees@),
            forall|j: int|
                0 <= j < i ==> paths::parts((#[trigger] all[j]).path, windows) != paths::parts(
                    path@,
                    windows,
                ),
        decreases worktrees.len() - i,
    {
        if paths::same_path(worktrees[i].path.as_slice(), path, windows) {
            assert(paths::parts(all[i as int].path, windows) == paths::parts(path@, windows));
            return true;
        }
        i = i + 1;
    }
    false
}

/// Finds the worktree that was just created: the first in the listing that was not there
/// before. This needs no guessing about how a relative path resolved.
pub fn locate(before: &[Worktree], after: &[Worktree], windows: bool) -> (r: Option<Vec<u8>>)
    ensures
        bytes::view_of(r) == added(source::checkouts(before@), source::checkouts(after@), windows),
{
    let ghost old_ones = source::checkouts(before@);
    let ghost all = source::checkouts(after@);
    let mut i: usize = 0;
    assert(all.skip(0) =~= all);
    while i < after.len()
        invariant
            i <= after.len(),
            old_ones == source::checkouts(before@),
            all == source::checkouts(after@),
            added(old_ones, all, windows) == added(old_ones, all.skip(i as int), windows),
        decreases after.len() - i,
    {
        assert(all.skip(i as int)[0] == after@[i as int]@);
        assert(all.skip(i as int).skip(1) =~= all.skip(i + 1));
        if !is_known(before, after[i].path.as_slice(), windows) {
            return Some(bytes::copy(after[i].path.as_slice()));
        }
        i = i + 1;
    }
    None
}

/// The directory that git resolves relative paths against, after applying every `-C` among
/// its global options. What follows another option that takes a value is that value.
pub open spec fn directory_after(start: Seq<u8>, globals: Seq<Seq<u8>>, windows: bool) -> Seq<u8>
    decreases globals.len(),
{
    if globals.len() == 0 {
        start
    } else if !argv::global_with_value(globals[0]) {
        directory_after(start, globals.skip(1), windows)
    } else if globals.len() == 1 {
        start
    } else if globals[0] == "-C".spec_bytes() {
        directory_after(paths::joined(start, globals[1], windows), globals.skip(2), windows)
    } else {
        directory_after(start, globals.skip(2), windows)
    }
}

/// The directory that git resolves relative paths against, after applying every `-C` among
/// its global options.
pub fn working_directory(start: Vec<u8>, globals: &[Vec<u8>], windows: bool) -> (r: Vec<u8>)
    ensures
        r@ == directory_after(start@, bytes::views(globals@), windows),
{
    let ghost all = bytes::views(globals@);
    let ghost whole = directory_after(start@, all, windows);
    let mut directory = start;
    let mut i: usize = 0;
    assert(all.skip(0) =~= all);
    while i < globals.len()
        invariant
            i <= globals.len(),
            all == bytes::views(globals@),
            whole == directory_after(start@, all, windows),
            whole == directory_after(directory@, all.skip(i as int), windows),
        decreases globals.len() - i,
    {
        let ghost rest = all.skip(i as int);
        let option = globals[i].as_slice();
        assert(rest[0] == option@);
        assert(rest.skip(1) =~= all.skip(i + 1));
        i = i + 1;
        if argv::is_global_with_value(option) {
            if i >= globals.len() {
                return directory;
            }
            assert(rest[1] == globals@[i as int]@);
            assert(rest.skip(2) =~= all.skip(i + 1));
            if bytes::is_word(option, "-C") {
                directory = paths::join(directory.as_slice(), globals[i].as_slice(), windows);
            }
            i = i + 1;
        }
    }
    directory
}

/// A `-C` with an absolute path makes whatever came before it irrelevant.
pub proof fn an_absolute_directory_starts_over(
    start: Seq<u8>,
    path: Seq<u8>,
    more: Seq<Seq<u8>>,
    windows: bool,
)
    requires
        paths::absolute(path, windows),
    ensures
        directory_after(start, seq!["-C".spec_bytes(), path] + more, windows) == directory_after(
            path,
            more,
            windows,
        ),
{
    let globals = seq!["-C".spec_bytes(), path] + more;
    assert(globals[0] == "-C".spec_bytes());
    assert(globals[1] == path);
    assert(globals.skip(2) =~= more);
    paths::an_absolute_path_is_seen_alike(start, path, windows);
}

/// The value of another option is no directory option, whatever it looks like.
pub proof fn a_value_is_no_directory_option(
    start: Seq<u8>,
    option: Seq<u8>,
    value: Seq<u8>,
    more: Seq<Seq<u8>>,
    windows: bool,
)
    requires
        argv::global_with_value(option),
        option != "-C".spec_bytes(),
    ensures
        directory_after(start, seq![option, value] + more, windows) == directory_after(
            start,
            more,
            windows,
        ),
{
    let globals = seq![option, value] + more;
    assert(globals[0] == option);
    assert(globals.skip(2) =~= more);
}

/// Why the worktree, or a part of it, is left to git.
#[derive(Debug, Clone, Copy, PartialEq, Eq, Structural)]
pub enum Note {
    NoCommit,
    AddFailed,
    LinksDisagree,
    CloneFailed,
    NotLocated,
}

impl Note {
    /// The wording of the note.
    pub open spec fn wording(self) -> Seq<char> {
        match self {
            Note::NoCommit => "the repository has no commit on HEAD"@,
            Note::AddFailed => "git worktree add failed"@,
            Note::LinksDisagree => "could not reconcile the new worktree's path links"@,
            Note::CloneFailed => "the clone phase failed"@,
            Note::NotLocated => "the new worktree could not be located"@,
        }
    }

    /// The wording of the note.
    pub fn text(self) -> (r: &'static str)
        ensures
            r@ == self.wording(),
    {
        match self {
            Note::NoCommit => "the repository has no commit on HEAD",
            Note::AddFailed => "git worktree add failed",
            Note::LinksDisagree => "could not reconcile the new worktree's path links",
            Note::CloneFailed => "the clone phase failed",
            Note::NotLocated => "the new worktree could not be located",
        }
    }
}

/// Something to do on the way to the next stage.
#[derive(Debug, Clone, Copy, PartialEq, Eq, Structural)]
pub enum Effect {
    /// Note why something is left to git.
    FallBack { note: Note },
    /// Report what was done and noted.
    Emit,
    /// Hold interrupts back from here on.
    Defer,
    /// Act on an interrupt that was held back.
    Honour,
    /// Say that git could not be run.
    Complain,
}

/// What comes next.
#[derive(Debug, PartialEq, Eq)]
pub enum Stage {
    /// Ask git whether `HEAD` names a commit.
    VerifyHead,
    /// Leave the whole request to git, and exit as it does.
    Delegate,
    /// Ask git for the worktrees there are.
    ListBefore,
    /// Run git to create the worktree without files.
    Create { before: Vec<Worktree> },
    /// Ask git for the worktrees once more.
    ListAfter { before: Vec<Worktree> },
    /// Find out whether there is a worktree at the path the user asked for.
    Requested { before: Vec<Worktree> },
    /// Reconcile the links of the new worktree.
    Repair { before: Vec<Worktree>, destination: Vec<u8> },
    /// Clone what can be cloned.
    Populate { before: Vec<Worktree>, destination: Vec<u8> },
    /// Let git finish the new worktree.
    Finish { destination: Vec<u8> },
    /// Exit.
    Exit { code: u8 },
}

/// The content of a [`Stage`].
pub enum Doing {
    VerifyHead,
    Delegate,
    ListBefore,
    Create { before: Seq<Checkout> },
    ListAfter { before: Seq<Checkout> },
    Requested { before: Seq<Checkout> },
    Repair { before: Seq<Checkout>, destination: Seq<u8> },
    Populate { before: Seq<Checkout>, destination: Seq<u8> },
    Finish { destination: Seq<u8> },
    Exit { code: u8 },
}

impl View for Stage {
    type V = Doing;

    open spec fn view(&self) -> Doing {
        match self {
            Stage::VerifyHead => Doing::VerifyHead,
            Stage::Delegate => Doing::Delegate,
            Stage::ListBefore => Doing::ListBefore,
            Stage::Create { before } => Doing::Create { before: source::checkouts(before@) },
            Stage::ListAfter { before } => Doing::ListAfter { before: source::checkouts(before@) },
            Stage::Requested { before } => Doing::Requested { before: source::checkouts(before@) },
            Stage::Repair { before, destination } => Doing::Repair {
                before: source::checkouts(before@),
                destination: destination@,
            },
            Stage::Populate { before, destination } => Doing::Populate {
                before: source::checkouts(before@),
                destination: destination@,
            },
            Stage::Finish { destination } => Doing::Finish { destination: destination@ },
            Stage::Exit { code } => Doing::Exit { code: *code },
        }
    }
}

/// What to do on the way, in order, and what comes next.
#[derive(Debug, PartialEq, Eq)]
pub struct Turn {
    pub effects: Vec<Effect>,
    pub stage: Stage,
}

/// The content of a [`Turn`].
pub struct Turned {
    pub effects: Seq<Effect>,
    pub stage: Doing,
}

impl View for Turn {
    type V = Turned;

    open spec fn view(&self) -> Turned {
        Turned { effects: self.effects@, stage: self.stage@ }
    }
}

impl Doing {
    /// Git infers `--orphan` for itself when the repository has no commit to branch from, and
    /// then rejects the `--no-checkout` that creating the worktree would add. A request
    /// without a commit on `HEAD` therefore goes to git untouched.
    pub open spec fn head_verified(commit: bool) -> Turned {
        if commit {
            Turned { effects: Seq::empty(), stage: Doing::ListBefore }
        } else {
            Turned {
                effects: seq![Effect::FallBack { note: Note::NoCommit }, Effect::Emit],
                stage: Doing::Delegate,
            }
        }
    }

    /// Without a worktree there is nothing to fill.
    pub open spec fn created(before: Seq<Checkout>, ran: Ran) -> Turned {
        match ran {
            Ran::NotRun => Turned {
                effects: seq![Effect::Complain],
                stage: Doing::Exit { code: 1 },
            },
            Ran::Exited(code) => if ran.success() {
                Turned { effects: Seq::empty(), stage: Doing::ListAfter { before } }
            } else {
                Turned {
                    effects: seq![Effect::FallBack { note: Note::AddFailed }, Effect::Emit],
                    stage: Doing::Exit { code: finish::exit_status(code) },
                }
            },
        }
    }

    /// The path that the user asked for is the fallback where the listing shows nothing new.
    pub open spec fn listed_after(
        before: Seq<Checkout>,
        after: Seq<Checkout>,
        windows: bool,
    ) -> Turned {
        match added(before, after, windows) {
            Some(destination) => Turned {
                effects: seq![Effect::Defer],
                stage: Doing::Repair { before, destination },
            },
            None => Turned { effects: Seq::empty(), stage: Doing::Requested { before } },
        }
    }

    /// From here on the worktree exists but holds no files, so every remaining step is best
    /// effort and git must finish the worktree whatever happens.
    pub open spec fn requested(before: Seq<Checkout>, found: Option<Seq<u8>>) -> Turned {
        match found {
            Some(destination) => Turned {
                effects: seq![Effect::Defer],
                stage: Doing::Repair { before, destination },
            },
            None => Turned {
                effects: seq![
                    Effect::Defer,
                    Effect::FallBack { note: Note::NotLocated },
                    Effect::Emit,
                    Effect::Honour,
                ],
                stage: Doing::Exit { code: 0 },
            },
        }
    }

    /// Nothing is cloned into a worktree whose links do not agree.
    pub open spec fn repaired(
        before: Seq<Checkout>,
        destination: Seq<u8>,
        success: bool,
    ) -> Turned {
        if success {
            Turned { effects: Seq::empty(), stage: Doing::Populate { before, destination } }
        } else {
            Turned {
                effects: seq![Effect::FallBack { note: Note::LinksDisagree }, Effect::Emit],
                stage: Doing::Finish { destination },
            }
        }
    }

    /// The worktree is finished even where cloning broke down.
    pub open spec fn populated(destination: Seq<u8>, success: bool) -> Turned {
        Turned {
            effects: if success {
                seq![Effect::Emit]
            } else {
                seq![Effect::FallBack { note: Note::CloneFailed }, Effect::Emit]
            },
            stage: Doing::Finish { destination },
        }
    }

    /// An interrupt that was held back is acted on once the worktree is finished.
    pub open spec fn finished(code: u8) -> Turned {
        Turned { effects: seq![Effect::Honour], stage: Doing::Exit { code } }
    }
}

impl Stage {
    /// Nothing was asked or done yet.
    pub fn begin() -> (r: Stage)
        ensures
            r@ == Doing::VerifyHead,
    {
        Stage::VerifyHead
    }

    /// It is known whether `HEAD` names a commit.
    pub fn head_verified(self, commit: bool) -> (r: Turn)
        requires
            self is VerifyHead,
        ensures
            r@ == Doing::head_verified(commit),
    {
        if commit {
            Turn { effects: Vec::new(), stage: Stage::ListBefore }
        } else {
            let effects = vec![Effect::FallBack { note: Note::NoCommit }, Effect::Emit];
            assert(effects@ =~= Doing::head_verified(commit).effects);
            Turn { effects, stage: Stage::Delegate }
        }
    }

    /// Git listed these worktrees.
    pub fn listed_before(self, before: Vec<Worktree>) -> (r: Turn)
        requires
            self is ListBefore,
        ensures
            r@ == (Turned {
                effects: Seq::empty(),
                stage: Doing::Create { before: source::checkouts(before@) },
            }),
    {
        Turn { effects: Vec::new(), stage: Stage::Create { before } }
    }

    /// The command that creates the worktree came to an end.
    pub fn created(self, ran: Ran) -> (r: Turn)
        requires
            self is Create,
        ensures
            r@ == Doing::created(self@->Create_before, ran),
    {
        match ran {
            Ran::NotRun => {
                let effects = vec![Effect::Complain];
                assert(effects@ =~= seq![Effect::Complain]);
                Turn { effects, stage: Stage::Exit { code: 1 } }
            },
            Ran::Exited(code) => {
                let success = match code {
                    Some(code) => code == 0,
                    None => false,
                };
                if success {
                    let stage = match self {
                        Stage::Create { before } => Stage::ListAfter { before },
                        other => other,
                    };
                    Turn { effects: Vec::new(), stage }
                } else {
                    let effects = vec![Effect::FallBack { note: Note::AddFailed }, Effect::Emit];
                    assert(effects@ =~= Doing::created(self@->Create_before, ran).effects);
                    Turn { effects, stage: Stage::Exit { code: finish::exit_code(code) } }
                }
            },
        }
    }

    /// Git listed these worktrees after the command that creates one.
    pub fn listed_after(self, after: &[Worktree], windows: bool) -> (r: Turn)
        requires
            self is ListAfter,
        ensures
            r@ == Doing::listed_after(self@->ListAfter_before, source::checkouts(after@), windows),
    {
        match self {
            Stage::ListAfter { before } => {
                match locate(before.as_slice(), after, windows) {
                    Some(destination) => {
                        let effects = vec![Effect::Defer];
                        assert(effects@ =~= seq![Effect::Defer]);
                        Turn { effects, stage: Stage::Repair { before, destination } }
                    },
                    None => Turn { effects: Vec::new(), stage: Stage::Requested { before } },
                }
            },
            other => Turn { effects: Vec::new(), stage: other },
        }
    }

    /// There is a worktree at the path the user asked for, or there is none.
    pub fn requested(self, found: Option<Vec<u8>>) -> (r: Turn)
        requires
            self is Requested,
        ensures
            r@ == Doing::requested(self@->Requested_before, bytes::view_of(found)),
    {
        match (self, found) {
            (Stage::Requested { before }, Some(destination)) => {
                let effects = vec![Effect::Defer];
                assert(effects@ =~= seq![Effect::Defer]);
                Turn { effects, stage: Stage::Repair { before, destination } }
            },
            _ => {
                let effects = vec![
                    Effect::Defer,
                    Effect::FallBack { note: Note::NotLocated },
                    Effect::Emit,
                    Effect::Honour,
                ];
                assert(effects@ =~= Doing::requested(Seq::empty(), None).effects);
                Turn { effects, stage: Stage::Exit { code: 0 } }
            },
        }
    }

    /// The links of the new worktree agree, or they could not be reconciled.
    pub fn repaired(self, success: bool) -> (r: Turn)
        requires
            self is Repair,
        ensures
            r@ == Doing::repaired(self@->Repair_before, self@->Repair_destination, success),
    {
        match self {
            Stage::Repair { before, destination } => {
                if success {
                    Turn { effects: Vec::new(), stage: Stage::Populate { before, destination } }
                } else {
                    let effects = vec![
                        Effect::FallBack { note: Note::LinksDisagree },
                        Effect::Emit,
                    ];
                    assert(effects@ =~= Doing::repaired(
                        self@->Repair_before,
                        self@->Repair_destination,
                        success,
                    ).effects);
                    Turn { effects, stage: Stage::Finish { destination } }
                }
            },
            other => Turn { effects: Vec::new(), stage: other },
        }
    }

    /// Cloning is over; without `success` it broke down.
    pub fn populated(self, success: bool) -> (r: Turn)
        requires
            self is Populate,
        ensures
            r@ == Doing::populated(self@->Populate_destination, success),
    {
        let effects = if success {
            vec![Effect::Emit]
        } else {
            vec![Effect::FallBack { note: Note::CloneFailed }, Effect::Emit]
        };
        assert(effects@ =~= Doing::populated(self@->Populate_destination, success).effects);
        let stage = match self {
            Stage::Populate { before: _, destination } => Stage::Finish { destination },
            other => other,
        };
        Turn { effects, stage }
    }

    /// Git finished the new worktree with this code.
    pub fn finished(self, code: u8) -> (r: Turn)
        requires
            self is Finish,
        ensures
            r@ == Doing::finished(code),
    {
        let effects = vec![Effect::Honour];
        assert(effects@ =~= seq![Effect::Honour]);
        Turn { effects, stage: Stage::Exit { code } }
    }
}

/// Everything that can come back on the way.
pub struct Answers {
    /// Paths are read as on Windows.
    pub windows: bool,
    /// `HEAD` names a commit.
    pub commit: bool,
    pub before: Seq<Checkout>,
    pub created: Ran,
    pub after: Seq<Checkout>,
    /// The path the user asked for, if there is a worktree at it.
    pub requested: Option<Seq<u8>>,
    pub repaired: bool,
    /// Cloning did not break down.
    pub populated: bool,
    /// The code with which git finished the worktree.
    pub finished: u8,
}

/// What happens along the way.
pub enum Event {
    /// What a stage asks for is done.
    Did(Doing),
    /// An effect is carried out.
    Took(Effect),
}

/// The turn that these answers give at a stage.
pub open spec fn step(stage: Doing, answers: Answers) -> Turned {
    match stage {
        Doing::VerifyHead => Doing::head_verified(answers.commit),
        Doing::ListBefore => Turned {
            effects: Seq::empty(),
            stage: Doing::Create { before: answers.before },
        },
        Doing::Create { before } => Doing::created(before, answers.created),
        Doing::ListAfter { before } => Doing::listed_after(before, answers.after, answers.windows),
        Doing::Requested { before } => Doing::requested(before, answers.requested),
        Doing::Repair { before, destination } => Doing::repaired(
            before,
            destination,
            answers.repaired,
        ),
        Doing::Populate { before, destination } => Doing::populated(destination, answers.populated),
        Doing::Finish { .. } => Doing::finished(answers.finished),
        Doing::Delegate | Doing::Exit { .. } => Turned { effects: Seq::empty(), stage },
    }
}

/// Effects as events.
pub open spec fn taken(effects: Seq<Effect>) -> Seq<Event> {
    Seq::new(effects.len(), |i: int| Event::Took(effects[i]))
}

/// What happens from a stage on, in at most so many steps.
pub open spec fn run(stage: Doing, answers: Answers, steps: nat) -> Seq<Event>
    decreases steps,
{
    if stage is Delegate || stage is Exit || steps == 0 {
        seq![Event::Did(stage)]
    } else {
        let turn = step(stage, answers);
        seq![Event::Did(stage)] + taken(turn.effects) + run(
            turn.stage,
            answers,
            (steps - 1) as nat,
        )
    }
}

/// Where the new worktree turns out to be, if anywhere: what the listing shows as new, or
/// else the path that was asked for.
pub open spec fn location(answers: Answers) -> Option<Seq<u8>> {
    match added(answers.before, answers.after, answers.windows) {
        Some(destination) => Some(destination),
        None => answers.requested,
    }
}

/// What happens to a worktree that was located, up to the point where git finishes it.
pub open spec fn filling(answers: Answers, destination: Seq<u8>) -> Seq<Event> {
    let before = answers.before;
    seq![Event::Took(Effect::Defer), Event::Did(Doing::Repair { before, destination })]
        + if !answers.repaired {
        seq![Event::Took(Effect::FallBack { note: Note::LinksDisagree })]
    } else if !answers.populated {
        seq![
            Event::Did(Doing::Populate { before, destination }),
            Event::Took(Effect::FallBack { note: Note::CloneFailed }),
        ]
    } else {
        seq![Event::Did(Doing::Populate { before, destination })]
    }
}

/// How a located worktree ends: what was done is reported, git finishes the worktree, and
/// only then is an interrupt acted on.
pub open spec fn ending(answers: Answers, destination: Seq<u8>) -> Seq<Event> {
    seq![
        Event::Took(Effect::Emit),
        Event::Did(Doing::Finish { destination }),
        Event::Took(Effect::Honour),
        Event::Did(Doing::Exit { code: answers.finished }),
    ]
}

/// The questions that lead to a location.
pub open spec fn locating(answers: Answers) -> Seq<Event> {
    let before = answers.before;
    if added(before, answers.after, answers.windows) is Some {
        seq![Event::Did(Doing::ListAfter { before })]
    } else {
        seq![Event::Did(Doing::ListAfter { before }), Event::Did(Doing::Requested { before })]
    }
}

/// What happens after the command that creates the worktree.
pub open spec fn after_creation(answers: Answers) -> Seq<Event> {
    match answers.created {
        Ran::NotRun => seq![
            Event::Took(Effect::Complain),
            Event::Did(Doing::Exit { code: 1 }),
        ],
        Ran::Exited(code) => if !answers.created.success() {
            seq![
                Event::Took(Effect::FallBack { note: Note::AddFailed }),
                Event::Took(Effect::Emit),
                Event::Did(Doing::Exit { code: finish::exit_status(code) }),
            ]
        } else {
            match location(answers) {
                Some(destination) => locating(answers) + filling(answers, destination) + ending(
                    answers,
                    destination,
                ),
                None => locating(answers) + seq![
                    Event::Took(Effect::Defer),
                    Event::Took(Effect::FallBack { note: Note::NotLocated }),
                    Event::Took(Effect::Emit),
                    Event::Took(Effect::Honour),
                    Event::Did(Doing::Exit { code: 0 }),
                ],
            }
        },
    }
}

/// What a request amounts to, from its first question to its end.
pub open spec fn script(answers: Answers) -> Seq<Event> {
    if !answers.commit {
        seq![
            Event::Did(Doing::VerifyHead),
            Event::Took(Effect::FallBack { note: Note::NoCommit }),
            Event::Took(Effect::Emit),
            Event::Did(Doing::Delegate),
        ]
    } else {
        seq![
            Event::Did(Doing::VerifyHead),
            Event::Did(Doing::ListBefore),
            Event::Did(Doing::Create { before: answers.before }),
        ] + after_creation(answers)
    }
}

proof fn lemma_filling(answers: Answers, destination: Seq<u8>)
    ensures
        seq![Event::Took(Effect::Defer)] + run(
            Doing::Repair { before: answers.before, destination },
            answers,
            3,
        ) == filling(answers, destination) + ending(answers, destination),
{
    reveal_with_fuel(run, 5);
    assert(seq![Event::Took(Effect::Defer)] + run(
        Doing::Repair { before: answers.before, destination },
        answers,
        3,
    ) =~= filling(answers, destination) + ending(answers, destination));
}

proof fn lemma_more_steps(stage: Doing, answers: Answers, steps: nat)
    requires
        stage is Repair && steps >= 3 || stage is Populate && steps >= 2 || stage is Finish && steps
            >= 1 || stage is Exit,
    ensures
        run(stage, answers, steps) == run(stage, answers, (steps + 1) as nat),
    decreases steps,
{
    if !(stage is Exit) {
        lemma_more_steps(step(stage, answers).stage, answers, (steps - 1) as nat);
    }
}

proof fn lemma_after_creation(answers: Answers)
    requires
        answers.created.success(),
    ensures
        run(Doing::ListAfter { before: answers.before }, answers, 5) == after_creation(answers),
{
    let before = answers.before;
    let stage = Doing::ListAfter { before };
    match added(before, answers.after, answers.windows) {
        Some(destination) => {
            let repair = Doing::Repair { before, destination };
            lemma_filling(answers, destination);
            lemma_more_steps(repair, answers, 3);
            assert(run(stage, answers, 5) =~= locating(answers) + (seq![
                Event::Took(Effect::Defer),
            ] + run(repair, answers, 4)));
            assert(run(stage, answers, 5) =~= after_creation(answers));
        },
        None => {
            match answers.requested {
                Some(destination) => {
                    let repair = Doing::Repair { before, destination };
                    lemma_filling(answers, destination);
                    reveal_with_fuel(run, 3);
                    assert(run(stage, answers, 5) =~= locating(answers) + (seq![
                        Event::Took(Effect::Defer),
                    ] + run(repair, answers, 3)));
                    assert(run(stage, answers, 5) =~= after_creation(answers));
                },
                None => {
                    reveal_with_fuel(run, 4);
                    assert(run(stage, answers, 5) =~= after_creation(answers));
                },
            }
        },
    }
}

/// A request does exactly what it amounts to, in that order.
pub proof fn adding_follows_its_script(answers: Answers)
    ensures
        run(Doing::VerifyHead, answers, 8) == script(answers),
{
    let start = run(Doing::VerifyHead, answers, 8);
    if !answers.commit {
        reveal_with_fuel(run, 3);
        assert(start =~= script(answers));
    } else {
        let create = Doing::Create { before: answers.before };
        let first = seq![Event::Did(Doing::VerifyHead), Event::Did(Doing::ListBefore)];
        reveal_with_fuel(run, 2);
        assert(run(Doing::ListBefore, answers, 7) =~= seq![Event::Did(Doing::ListBefore)] + run(
            create,
            answers,
            6,
        ));
        assert(start =~= first + run(create, answers, 6));
        if answers.created.success() {
            lemma_after_creation(answers);
        }
        assert(run(create, answers, 6) =~= seq![Event::Did(create)] + after_creation(answers));
        assert(start =~= script(answers));
    }
}

/// A worktree that git created and that could be located is finished by git exactly as asked,
/// whatever happened in between; interrupts are held back before it is touched and acted on
/// only after it is finished; and the request exits as git finished it.
pub proof fn a_created_worktree_is_always_finished(answers: Answers, destination: Seq<u8>)
    requires
        answers.commit,
        answers.created.success(),
        location(answers) == Some(destination),
    ensures
        ({
            let events = run(Doing::VerifyHead, answers, 8);
            let n = events.len();
            &&& n >= 4
            &&& events[n - 4] == Event::Took(Effect::Emit)
            &&& events[n - 3] == Event::Did(Doing::Finish { destination })
            &&& events[n - 2] == Event::Took(Effect::Honour)
            &&& events[n - 1] == Event::Did(Doing::Exit { code: answers.finished })
            &&& events.contains(Event::Took(Effect::Defer))
            &&& forall|i: int|
                0 <= i < n - 2 ==> #[trigger] events[i] != Event::Took(Effect::Honour)
        }),
{
    adding_follows_its_script(answers);
    let events = script(answers);
    let first = seq![
        Event::Did(Doing::VerifyHead),
        Event::Did(Doing::ListBefore),
        Event::Did(Doing::Create { before: answers.before }),
    ] + locating(answers);
    assert(events =~= first + filling(answers, destination) + ending(answers, destination));
    assert(events[first.len() as int] == Event::Took(Effect::Defer));
}

/// What is located is new: the first worktree in the listing that was not there before, and
/// none exactly when all were.
pub proof fn the_located_worktree_is_new(
    before: Seq<Checkout>,
    after: Seq<Checkout>,
    windows: bool,
)
    ensures
        (added(before, after, windows) matches Some(path) ==> {
            &&& forall|i: int|
                0 <= i < before.len() ==> paths::parts((#[trigger] before[i]).path, windows)
                    != paths::parts(path, windows)
            &&& exists|i: int|
                0 <= i < after.len() && (#[trigger] after[i]).path == path && forall|j: int|
                    0 <= j < i ==> #[trigger] known(before, after[j].path, windows)
        }),
        added(before, after, windows) is None <==> forall|i: int|
            0 <= i < after.len() ==> #[trigger] known(before, after[i].path, windows),
    decreases after.len(),
{
    if after.len() > 0 {
        let rest = after.skip(1);
        the_located_worktree_is_new(before, rest, windows);
        assert forall|i: int| 1 <= i < after.len() implies after[i] == #[trigger] rest[i - 1] by {}
        if known(before, after[0].path, windows) {
            if let Some(path) = added(before, after, windows) {
                let i = choose|i: int|
                    0 <= i < rest.len() && (#[trigger] rest[i]).path == path && forall|j: int|
                        0 <= j < i ==> #[trigger] known(before, rest[j].path, windows);
                assert(after[i + 1].path == path);
                assert forall|j: int| 0 <= j < i + 1 implies #[trigger] known(
                    before,
                    after[j].path,
                    windows,
                ) by {
                    if j > 0 {
                        assert(after[j] == rest[j - 1]);
                        assert(known(before, rest[j - 1].path, windows));
                    }
                }
            } else {
                assert forall|i: int| 0 <= i < after.len() implies #[trigger] known(
                    before,
                    after[i].path,
                    windows,
                ) by {
                    if i > 0 {
                        assert(after[i] == rest[i - 1]);
                        assert(known(before, rest[i - 1].path, windows));
                    }
                }
            }
        } else {
            assert(after[0].path == added(before, after, windows)->Some_0);
        }
    }
}

/// A worktree is known exactly when one is listed at its path.
pub proof fn a_listed_path_is_known(
    worktrees: Seq<Checkout>,
    path: Seq<u8>,
    i: int,
    windows: bool,
)
    ensures
        0 <= i < worktrees.len() && paths::parts(worktrees[i].path, windows) == paths::parts(
            path,
            windows,
        ) ==> known(worktrees, path, windows),
        (forall|j: int|
            0 <= j < worktrees.len() ==> paths::parts((#[trigger] worktrees[j]).path, windows)
                != paths::parts(path, windows)) ==> !known(worktrees, path, windows),
{
}

/// A worktree whose path was not listed before is located, wherever in the listing it stands
/// among those that were.
pub proof fn a_new_worktree_is_located_among_the_old(
    before: Seq<Checkout>,
    earlier: Seq<Checkout>,
    new: Checkout,
    later: Seq<Checkout>,
    windows: bool,
)
    requires
        forall|j: int|
            0 <= j < earlier.len() ==> #[trigger] known(before, earlier[j].path, windows),
        !known(before, new.path, windows),
    ensures
        added(before, earlier + seq![new] + later, windows) == Some(new.path),
    decreases earlier.len(),
{
    let after = earlier + seq![new] + later;
    if earlier.len() > 0 {
        let rest = earlier.skip(1);
        assert(after[0] == earlier[0]);
        assert(known(before, earlier[0].path, windows));
        assert(after.skip(1) =~= rest + seq![new] + later);
        assert forall|j: int| 0 <= j < rest.len() implies #[trigger] known(
            before,
            rest[j].path,
            windows,
        ) by {
            assert(rest[j] == earlier[j + 1]);
            assert(known(before, earlier[j + 1].path, windows));
        }
        a_new_worktree_is_located_among_the_old(before, rest, new, later, windows);
    } else {
        assert(after[0] == new);
    }
}

/// A `-C` moves on from where the options before it lead, and other options lead nowhere.
pub proof fn each_directory_option_moves_on(
    start: Seq<u8>,
    path: Seq<u8>,
    option: Seq<u8>,
    more: Seq<Seq<u8>>,
    windows: bool,
)
    ensures
        directory_after(start, Seq::empty(), windows) == start,
        directory_after(start, seq!["-C".spec_bytes(), path] + more, windows) == directory_after(
            paths::joined(start, path, windows),
            more,
            windows,
        ),
        option != "-C".spec_bytes() && option != "-c".spec_bytes() && option
            != "--git-dir".spec_bytes() && option != "--work-tree".spec_bytes() && option
            != "--namespace".spec_bytes() ==> directory_after(start, seq![option] + more, windows)
            == directory_after(start, more, windows),
        directory_after(start, seq!["-c".spec_bytes(), path] + more, windows) == directory_after(
            start,
            more,
            windows,
        ),
{
    let globals = seq!["-C".spec_bytes(), path] + more;
    assert(globals[0] == "-C".spec_bytes());
    assert(globals[1] == path);
    assert(globals.skip(2) =~= more);
    let single = seq![option] + more;
    assert(single[0] == option);
    assert(single.skip(1) =~= more);
    let setting = seq!["-c".spec_bytes(), path] + more;
    assert(setting[0] == "-c".spec_bytes());
    assert(setting.skip(2) =~= more);
    reveal_strlit("-C");
    reveal_strlit("-c");
    assert(is_ascii("-C"));
    assert(is_ascii("-c"));
    assert("-C".spec_bytes()[1] == 0x43);
    assert("-c".spec_bytes()[1] == 0x63);
}

/// A request without a commit on `HEAD` is noted, reported and left to git; nothing else is
/// done.
pub proof fn without_a_commit_git_does_it_all(answers: Answers)
    requires
        !answers.commit,
    ensures
        run(Doing::VerifyHead, answers, 8) == seq![
            Event::Did(Doing::VerifyHead),
            Event::Took(Effect::FallBack { note: Note::NoCommit }),
            Event::Took(Effect::Emit),
            Event::Did(Doing::Delegate),
        ],
{
    adding_follows_its_script(answers);
}

/// A worktree that git did not create ends the request with git's own code, or with 1 and a
/// complaint where git could not be run. Nothing is looked for, deferred or finished.
pub proof fn without_a_worktree_nothing_is_done(answers: Answers)
    requires
        answers.commit,
        answers.created != Ran::Exited(Some(0)),
    ensures
        ({
            let events = run(Doing::VerifyHead, answers, 8);
            let start = seq![
                Event::Did(Doing::VerifyHead),
                Event::Did(Doing::ListBefore),
                Event::Did(Doing::Create { before: answers.before }),
            ];
            &&& answers.created == Ran::NotRun ==> events == start + seq![
                Event::Took(Effect::Complain),
                Event::Did(Doing::Exit { code: 1 }),
            ]
            &&& (answers.created matches Ran::Exited(code) ==> events == start + seq![
                Event::Took(Effect::FallBack { note: Note::AddFailed }),
                Event::Took(Effect::Emit),
                Event::Did(
                    Doing::Exit {
                        code: match code {
                            Some(c) if 0 <= c <= 255 => c as u8,
                            _ => 1,
                        },
                    },
                ),
            ])
        }),
{
    adding_follows_its_script(answers);
}

/// A worktree that git created and listed is repaired, filled if its links agree, reported
/// and finished, with interrupts held back from before the first of these until after the
/// last. What goes wrong on the way is noted and ends nothing early.
pub proof fn a_listed_worktree_is_filled_and_finished(answers: Answers, destination: Seq<u8>)
    requires
        answers.commit,
        answers.created == Ran::Exited(Some(0)),
        added(answers.before, answers.after, answers.windows) == Some(destination),
    ensures
        ({
            let before = answers.before;
            run(Doing::VerifyHead, answers, 8) == seq![
                Event::Did(Doing::VerifyHead),
                Event::Did(Doing::ListBefore),
                Event::Did(Doing::Create { before }),
                Event::Did(Doing::ListAfter { before }),
                Event::Took(Effect::Defer),
                Event::Did(Doing::Repair { before, destination }),
            ] + (if !answers.repaired {
                seq![Event::Took(Effect::FallBack { note: Note::LinksDisagree })]
            } else if answers.populated {
                seq![Event::Did(Doing::Populate { before, destination })]
            } else {
                seq![
                    Event::Did(Doing::Populate { before, destination }),
                    Event::Took(Effect::FallBack { note: Note::CloneFailed }),
                ]
            }) + seq![
                Event::Took(Effect::Emit),
                Event::Did(Doing::Finish { destination }),
                Event::Took(Effect::Honour),
                Event::Did(Doing::Exit { code: answers.finished }),
            ]
        }),
{
    adding_follows_its_script(answers);
    let before = answers.before;
    let middle = if !answers.repaired {
        seq![Event::Took(Effect::FallBack { note: Note::LinksDisagree })]
    } else if answers.populated {
        seq![Event::Did(Doing::Populate { before, destination })]
    } else {
        seq![
            Event::Did(Doing::Populate { before, destination }),
            Event::Took(Effect::FallBack { note: Note::CloneFailed }),
        ]
    };
    assert(script(answers) =~= seq![
        Event::Did(Doing::VerifyHead),
        Event::Did(Doing::ListBefore),
        Event::Did(Doing::Create { before }),
        Event::Did(Doing::ListAfter { before }),
        Event::Took(Effect::Defer),
        Event::Did(Doing::Repair { before, destination }),
    ] + middle + seq![
        Event::Took(Effect::Emit),
        Event::Did(Doing::Finish { destination }),
        Event::Took(Effect::Honour),
        Event::Did(Doing::Exit { code: answers.finished }),
    ]);
}

/// Where the listing shows nothing new, the path that was asked for is taken if there is a
/// worktree at it. Without one the request still succeeds, with a note that the worktree
/// could not be located.
pub proof fn an_unlisted_worktree_is_looked_for_where_asked(answers: Answers)
    requires
        answers.commit,
        answers.created == Ran::Exited(Some(0)),
        added(answers.before, answers.after, answers.windows) is None,
    ensures
        ({
            let before = answers.before;
            let events = run(Doing::VerifyHead, answers, 8);
            let start = seq![
                Event::Did(Doing::VerifyHead),
                Event::Did(Doing::ListBefore),
                Event::Did(Doing::Create { before }),
                Event::Did(Doing::ListAfter { before }),
                Event::Did(Doing::Requested { before }),
            ];
            &&& answers.requested is None ==> events == start + seq![
                Event::Took(Effect::Defer),
                Event::Took(Effect::FallBack { note: Note::NotLocated }),
                Event::Took(Effect::Emit),
                Event::Took(Effect::Honour),
                Event::Did(Doing::Exit { code: 0 }),
            ]
            &&& (answers.requested matches Some(destination) ==> {
                &&& events.take(7) == start + seq![
                    Event::Took(Effect::Defer),
                    Event::Did(Doing::Repair { before, destination }),
                ]
                &&& events.skip(events.len() - 4) == seq![
                    Event::Took(Effect::Emit),
                    Event::Did(Doing::Finish { destination }),
                    Event::Took(Effect::Honour),
                    Event::Did(Doing::Exit { code: answers.finished }),
                ]
                &&& answers.repaired ==> events[7] == Event::Did(
                    Doing::Populate { before, destination },
                )
                &&& answers.repaired && answers.populated ==> events.len() == 12
                &&& answers.repaired && !answers.populated ==> events.len() == 13 && events[8]
                    == Event::Took(Effect::FallBack { note: Note::CloneFailed })
                &&& !answers.repaired ==> events.len() == 12 && events[7] == Event::Took(
                    Effect::FallBack { note: Note::LinksDisagree },
                )
            })
        }),
{
    adding_follows_its_script(answers);
    let before = answers.before;
    let events = script(answers);
    let start = seq![
        Event::Did(Doing::VerifyHead),
        Event::Did(Doing::ListBefore),
        Event::Did(Doing::Create { before }),
        Event::Did(Doing::ListAfter { before }),
        Event::Did(Doing::Requested { before }),
    ];
    match answers.requested {
        None => {
            assert(events =~= start + seq![
                Event::Took(Effect::Defer),
                Event::Took(Effect::FallBack { note: Note::NotLocated }),
                Event::Took(Effect::Emit),
                Event::Took(Effect::Honour),
                Event::Did(Doing::Exit { code: 0 }),
            ]);
        },
        Some(destination) => {
            assert(events =~= start + filling(answers, destination) + ending(
                answers,
                destination,
            ));
            assert(events.take(7) =~= start + seq![
                Event::Took(Effect::Defer),
                Event::Did(Doing::Repair { before, destination }),
            ]);
            assert(events.skip(events.len() - 4) =~= ending(answers, destination));
        },
    }
}

/// The content of a turn is all that it holds.
pub proof fn contents_leave_nothing_out(
    turn: Turn,
    before: Vec<Worktree>,
    destination: Vec<u8>,
    code: u8,
)
    ensures
        turn@.effects == turn.effects@,
        turn@.stage == turn.stage@,
        (Stage::Create { before })@ == (Doing::Create { before: source::checkouts(before@) }),
        (Stage::ListAfter { before })@ == (Doing::ListAfter {
            before: source::checkouts(before@),
        }),
        (Stage::Requested { before })@ == (Doing::Requested {
            before: source::checkouts(before@),
        }),
        (Stage::Repair { before, destination })@ == (Doing::Repair {
            before: source::checkouts(before@),
            destination: destination@,
        }),
        (Stage::Populate { before, destination })@ == (Doing::Populate {
            before: source::checkouts(before@),
            destination: destination@,
        }),
        (Stage::Finish { destination })@ == (Doing::Finish { destination: destination@ }),
        (Stage::Exit { code })@ == (Doing::Exit { code }),
        Stage::Delegate@ == Doing::Delegate,
        Stage::VerifyHead@ == Doing::VerifyHead,
        Stage::ListBefore@ == Doing::ListBefore,
        source::checkouts(before@).len() == before@.len(),
        forall|i: int|
            0 <= i < before@.len() ==> #[trigger] source::checkouts(before@)[i] == before@[i]@,
{
}

/// A global option with a value of its own, other than `-C`, leads nowhere, and neither does
/// its value.
pub proof fn other_values_lead_nowhere(
    start: Seq<u8>,
    option: Seq<u8>,
    value: Seq<u8>,
    more: Seq<Seq<u8>>,
    windows: bool,
)
    requires
        option == "-c".spec_bytes() || option == "--git-dir".spec_bytes() || option
            == "--work-tree".spec_bytes() || option == "--namespace".spec_bytes(),
    ensures
        directory_after(start, seq![option, value] + more, windows) == directory_after(
            start,
            more,
            windows,
        ),
{
    let globals = seq![option, value] + more;
    assert(globals[0] == option);
    assert(globals.skip(2) =~= more);
    assert(option != "-C".spec_bytes()) by {
        reveal_strlit("-C");
        reveal_strlit("-c");
        reveal_strlit("--git-dir");
        reveal_strlit("--work-tree");
        reveal_strlit("--namespace");
        assert(is_ascii("-C"));
        assert(is_ascii("-c"));
        assert(is_ascii("--git-dir"));
        assert(is_ascii("--work-tree"));
        assert(is_ascii("--namespace"));
        assert("-C".spec_bytes()[1] == 0x43);
        assert("-c".spec_bytes()[1] == 0x63);
    }
}

/// Every note says what happened.
pub proof fn every_note_says_what_happened(note: Note)
    ensures
        note.wording() == match note {
            Note::NoCommit => "the repository has no commit on HEAD"@,
            Note::AddFailed => "git worktree add failed"@,
            Note::LinksDisagree => "could not reconcile the new worktree's path links"@,
            Note::CloneFailed => "the clone phase failed"@,
            Note::NotLocated => "the new worktree could not be located"@,
        },
{
}

/// Whatever worktree is repaired is the one that is named, and it is named last.
pub proof fn the_named_worktree_is_repaired(destination: Seq<u8>)
    ensures
        repair_command(destination) == seq!["worktree".spec_bytes(), "repair".spec_bytes()].push(
            destination,
        ),
        verify_head_command() == seq![
            "rev-parse".spec_bytes(),
            "--verify".spec_bytes(),
            "--quiet".spec_bytes(),
            "HEAD".spec_bytes(),
        ],
        list_command() == seq![
            "worktree".spec_bytes(),
            "list".spec_bytes(),
            "--porcelain".spec_bytes(),
        ],
{
    assert(repair_command(destination) =~= seq!["worktree".spec_bytes(), "repair".spec_bytes()]
        .push(destination));
}

} // verus!
