//! Parses the `git worktree add` command line and git's own global options.
//!
//! Anything that is not fully understood becomes a delegation to git, never an error.
//! Arguments are byte strings; one that is not text is a positional argument.

use vstd::prelude::*;
use vstd::slice::slice_subrange;
use vstd::slice::slice_to_vec;
use vstd::string::*;
use vstd::utf8::*;

use crate::bytes;

verus! {

/// `=`
pub const EQUALS: u8 = 0x3d;

/// `-`
pub const DASH: u8 = 0x2d;

/// `f`, short for `--force`.
pub const FORCE: u8 = 0x66;

/// `d`, short for `--detach`.
pub const DETACH: u8 = 0x64;

/// `q`, short for `--quiet`.
pub const QUIET: u8 = 0x71;

/// `b`, which names a new branch.
pub const BRANCH: u8 = 0x62;

/// `B`, which names a branch to create or reset.
pub const RESET_BRANCH: u8 = 0x42;

/// Git's global options that take a separate value argument.
pub open spec fn global_with_value(token: Seq<u8>) -> bool {
    ||| token == "-C".spec_bytes()
    ||| token == "-c".spec_bytes()
    ||| token == "--git-dir".spec_bytes()
    ||| token == "--work-tree".spec_bytes()
    ||| token == "--namespace".spec_bytes()
}

/// Git's global options that stand alone.
pub open spec fn global_standalone(token: Seq<u8>) -> bool {
    ||| token == "-p".spec_bytes()
    ||| token == "--paginate".spec_bytes()
    ||| token == "-P".spec_bytes()
    ||| token == "--no-pager".spec_bytes()
    ||| token == "--bare".spec_bytes()
    ||| token == "--no-replace-objects".spec_bytes()
    ||| token == "--literal-pathspecs".spec_bytes()
    ||| token == "--glob-pathspecs".spec_bytes()
    ||| token == "--noglob-pathspecs".spec_bytes()
    ||| token == "--icase-pathspecs".spec_bytes()
    ||| token == "--no-optional-locks".spec_bytes()
}

/// `git worktree add` long options that stand alone.
pub open spec fn add_standalone(token: Seq<u8>) -> bool {
    ||| token == "--force".spec_bytes()
    ||| token == "--no-force".spec_bytes()
    ||| token == "--detach".spec_bytes()
    ||| token == "--no-detach".spec_bytes()
    ||| token == "--checkout".spec_bytes()
    ||| token == "--no-checkout".spec_bytes()
    ||| token == "--orphan".spec_bytes()
    ||| token == "--no-orphan".spec_bytes()
    ||| token == "--lock".spec_bytes()
    ||| token == "--no-lock".spec_bytes()
    ||| token == "--no-reason".spec_bytes()
    ||| token == "--quiet".spec_bytes()
    ||| token == "--no-quiet".spec_bytes()
    ||| token == "--track".spec_bytes()
    ||| token == "--no-track".spec_bytes()
    ||| token == "--guess-remote".spec_bytes()
    ||| token == "--no-guess-remote".spec_bytes()
    ||| token == "--relative-paths".spec_bytes()
    ||| token == "--no-relative-paths".spec_bytes()
}

/// `git worktree add` long options that take a value.
pub open spec fn add_with_value(token: Seq<u8>) -> bool {
    token == "--reason".spec_bytes()
}

/// The two halves of `--name=value`, the name with its dashes.
pub open spec fn assignment(token: Seq<u8>) -> Option<(Seq<u8>, Seq<u8>)> {
    let k = bytes::first_index(token, EQUALS);
    if "--".spec_bytes().is_prefix_of(token) && k < token.len() {
        Some((token.take(k), token.skip(k + 1)))
    } else {
        None
    }
}

/// How many of the leading arguments are git's global options and their values; `None`
/// when an option among them is not one that is known, or lacks its value.
pub open spec fn globals_length(args: Seq<Seq<u8>>) -> Option<nat>
    decreases args.len(),
{
    if args.len() == 0 || !valid_utf8(args[0]) || args[0].len() == 0 || args[0][0] != DASH {
        Some(0)
    } else if global_standalone(args[0]) {
        longer(globals_length(args.skip(1)), 1)
    } else if global_with_value(args[0]) {
        if args.len() < 2 {
            None
        } else {
            longer(globals_length(args.skip(2)), 2)
        }
    } else if assignment(args[0]) matches Some((name, _)) && global_with_value(name) {
        longer(globals_length(args.skip(1)), 1)
    } else {
        None
    }
}

/// A length with `more` added, where there is one.
pub open spec fn longer(length: Option<nat>, more: nat) -> Option<nat> {
    match length {
        Some(n) => Some(n + more),
        None => None,
    }
}

/// What one argument of `git worktree add` is.
pub enum Word {
    /// `--no-cow`.
    NoCow,
    /// `--isolated-metadata`.
    IsolatedMetadata,
    /// `--`.
    DoubleDash,
    /// A path or a commit-ish.
    Positional,
    /// One or more of git's options, with what they say about the settings that matter
    /// here, and whether the next argument is the value of the last of them.
    Options {
        takes_next: bool,
        detach: Option<bool>,
        quiet: Option<bool>,
        checkout: Option<bool>,
        orphan: Option<bool>,
    },
    /// An option that is not known.
    Unknown,
}

/// How many flags without a value a bundle of short options starts with.
pub open spec fn short_flags(bundle: Seq<u8>) -> int
    decreases bundle.len(),
{
    if bundle.len() > 0 && (bundle[0] == FORCE || bundle[0] == DETACH || bundle[0] == QUIET) {
        1 + short_flags(bundle.skip(1))
    } else {
        0
    }
}

/// Where the first option that takes a value stands in a bundle of short options, or the
/// length of the bundle.
pub open spec fn short_value_at(bundle: Seq<u8>) -> int {
    let lower = bytes::first_index(bundle, BRANCH);
    let upper = bytes::first_index(bundle, RESET_BRANCH);
    if lower < upper {
        lower
    } else {
        upper
    }
}

/// What a bundle of short options is: any number of `f`, `d` and `q`, and after them at
/// most one `b` or `B`, whose value is the rest of the bundle or, if that is empty, the
/// next argument. `-d` is short for `--detach` and `-q` for `--quiet`.
pub open spec fn short_options(bundle: Seq<u8>) -> Word {
    let end = short_value_at(bundle);
    let switches = bundle.take(end);
    if forall|i: int|
        0 <= i < end ==> (bundle[i] == FORCE || bundle[i] == DETACH || bundle[i] == QUIET) {
        Word::Options {
            takes_next: end < bundle.len() && end + 1 == bundle.len(),
            detach: if switches.contains(DETACH) {
                Some(true)
            } else {
                None
            },
            quiet: if switches.contains(QUIET) {
                Some(true)
            } else {
                None
            },
            checkout: None,
            orphan: None,
        }
    } else {
        Word::Unknown
    }
}

/// What a long option does to one setting: `--name` turns it on, `--no-name` off.
pub open spec fn switch(token: Seq<u8>, on: Seq<u8>, off: Seq<u8>) -> Option<bool> {
    if token == on {
        Some(true)
    } else if token == off {
        Some(false)
    } else {
        None
    }
}

/// What a long option is.
pub open spec fn long_option(token: Seq<u8>) -> Word {
    if add_standalone(token) {
        Word::Options {
            takes_next: false,
            detach: switch(token, "--detach".spec_bytes(), "--no-detach".spec_bytes()),
            quiet: switch(token, "--quiet".spec_bytes(), "--no-quiet".spec_bytes()),
            checkout: switch(token, "--checkout".spec_bytes(), "--no-checkout".spec_bytes()),
            orphan: switch(token, "--orphan".spec_bytes(), "--no-orphan".spec_bytes()),
        }
    } else if add_with_value(token) || (assignment(token) matches Some((name, _))
        && add_with_value(name)) {
        Word::Options {
            takes_next: add_with_value(token),
            detach: None,
            quiet: None,
            checkout: None,
            orphan: None,
        }
    } else {
        Word::Unknown
    }
}

/// What an argument before any `--` is.
pub open spec fn word_of(arg: Seq<u8>) -> Word {
    if !valid_utf8(arg) {
        Word::Positional
    } else if arg == "--".spec_bytes() {
        Word::DoubleDash
    } else if arg == "--no-cow".spec_bytes() {
        Word::NoCow
    } else if arg == "--isolated-metadata".spec_bytes() {
        Word::IsolatedMetadata
    } else if "--".spec_bytes().is_prefix_of(arg) {
        long_option(arg)
    } else if arg.len() > 1 && arg[0] == DASH {
        short_options(arg.skip(1))
    } else {
        Word::Positional
    }
}

/// Whether the argument after this one is its value.
pub open spec fn takes_next(arg: Seq<u8>) -> bool {
    word_of(arg) matches Word::Options { takes_next, .. } && takes_next
}

/// What the arguments seen so far amount to.
pub struct Gathered {
    pub passthrough: Seq<Seq<u8>>,
    pub double_dash: Option<nat>,
    pub positionals: Seq<Seq<u8>>,
    pub quiet: bool,
    pub checkout: bool,
    pub orphan: bool,
    pub no_cow: bool,
    pub isolated_metadata: bool,
    pub detach: bool,
}

/// A setting after a word that may or may not speak of it.
pub open spec fn after(setting: bool, word: Option<bool>) -> bool {
    match word {
        Some(value) => value,
        None => setting,
    }
}

impl Gathered {
    /// Before the first argument.
    pub open spec fn nothing() -> Gathered {
        Gathered {
            passthrough: Seq::empty(),
            double_dash: None,
            positionals: Seq::empty(),
            quiet: false,
            checkout: true,
            orphan: false,
            no_cow: false,
            isolated_metadata: false,
            detach: false,
        }
    }

    /// After a positional argument.
    pub open spec fn with_positional(self, arg: Seq<u8>) -> Gathered {
        Gathered {
            passthrough: self.passthrough.push(arg),
            positionals: self.positionals.push(arg),
            ..self
        }
    }

    /// After `--`.
    pub open spec fn with_double_dash(self, arg: Seq<u8>) -> Gathered {
        Gathered {
            passthrough: self.passthrough.push(arg),
            double_dash: Some(self.passthrough.len()),
            ..self
        }
    }

    /// The same after those of a bundle's flags that stand before the first that is none or
    /// takes a value.
    pub open spec fn with_short_flags(self, bundle: Seq<u8>) -> Gathered {
        let flags = bundle.take(short_flags(bundle));
        Gathered {
            quiet: self.quiet || flags.contains(QUIET),
            detach: self.detach || flags.contains(DETACH),
            ..self
        }
    }

    /// The same after an argument that is refused: of a bundle of short options the leading
    /// flags are taken in, of a long option nothing is.
    pub open spec fn with_refused(self, arg: Seq<u8>) -> Gathered {
        if "--".spec_bytes().is_prefix_of(arg) {
            self
        } else {
            self.with_short_flags(arg.skip(1))
        }
    }

    /// After options of git's that were spelled as `args`.
    pub open spec fn with_options(self, args: Seq<Seq<u8>>, word: Word) -> Gathered {
        match word {
            Word::Options { takes_next, detach, quiet, checkout, orphan } => Gathered {
                passthrough: self.passthrough + args,
                detach: after(self.detach, detach),
                quiet: after(self.quiet, quiet),
                checkout: after(self.checkout, checkout),
                orphan: after(self.orphan, orphan),
                ..self
            },
            _ => self,
        }
    }
}

/// Takes the options that `arg` spells, with their value from the front of `rest` where
/// they need one.
pub open spec fn take_options(
    arg: Seq<u8>,
    rest: Seq<Seq<u8>>,
    so_far: Gathered,
) -> Result<Gathered, Seq<char>> {
    if word_of(arg) is Options {
        if !takes_next(arg) {
            Ok(so_far.with_options(seq![arg], word_of(arg)))
        } else if rest.len() > 0 {
            Ok(so_far.with_options(seq![arg, rest[0]], word_of(arg)))
        } else if "--".spec_bytes().is_prefix_of(arg) {
            Err("long option is missing its value"@)
        } else {
            Err("short option is missing its value"@)
        }
    } else {
        Err("unrecognised `git worktree add` option"@)
    }
}

/// Takes the first argument, with its value if it has a separate one, and tells how many
/// arguments that was.
pub open spec fn gather_one(args: Seq<Seq<u8>>, so_far: Gathered) -> Result<
    (Gathered, int),
    Seq<char>,
> {
    if so_far.double_dash is Some {
        Ok((so_far.with_positional(args[0]), 1))
    } else {
        match word_of(args[0]) {
            Word::NoCow => Ok((Gathered { no_cow: true, ..so_far }, 1)),
            Word::IsolatedMetadata => Ok((Gathered { isolated_metadata: true, ..so_far }, 1)),
            Word::DoubleDash => Ok((so_far.with_double_dash(args[0]), 1)),
            Word::Positional => Ok((so_far.with_positional(args[0]), 1)),
            _ => match take_options(args[0], args.skip(1), so_far) {
                Ok(next) => Ok(
                    (
                        next,
                        if takes_next(args[0]) {
                            2
                        } else {
                            1
                        },
                    ),
                ),
                Err(reason) => Err(reason),
            },
        }
    }
}

/// Goes through the arguments of `git worktree add` from left to right.
pub open spec fn gather(args: Seq<Seq<u8>>, so_far: Gathered) -> Result<Gathered, Seq<char>>
    decreases args.len(),
{
    if args.len() == 0 {
        Ok(so_far)
    } else {
        match gather_one(args, so_far) {
            Ok((next, taken)) => gather(args.skip(taken), next),
            Err(reason) => Err(reason),
        }
    }
}

/// The content of an [`AddCommand`].
pub struct Add {
    pub globals: Seq<Seq<u8>>,
    pub passthrough: Seq<Seq<u8>>,
    pub double_dash: Option<nat>,
    pub path: Seq<u8>,
    pub commit_ish: Option<Seq<u8>>,
    pub quiet: bool,
    pub checkout: bool,
    pub orphan: bool,
    pub no_cow: bool,
    pub isolated_metadata: bool,
    pub detach: bool,
}

/// The request that the gathered arguments make, if they name a path and at most one
/// commit-ish.
pub open spec fn complete(globals: Seq<Seq<u8>>, gathered: Gathered) -> Result<Add, Seq<char>> {
    if gathered.positionals.len() == 0 {
        Err("no worktree path given"@)
    } else if gathered.positionals.len() > 2 {
        Err("more positional arguments than `git worktree add` takes"@)
    } else {
        Ok(
            Add {
                globals,
                passthrough: gathered.passthrough,
                double_dash: gathered.double_dash,
                path: gathered.positionals[0],
                commit_ish: if gathered.positionals.len() == 2 {
                    Some(gathered.positionals[1])
                } else {
                    None
                },
                quiet: gathered.quiet,
                checkout: gathered.checkout,
                orphan: gathered.orphan,
                no_cow: gathered.no_cow,
                isolated_metadata: gathered.isolated_metadata,
                detach: gathered.detach,
            },
        )
    }
}

/// The request that the arguments after `add` make.
pub open spec fn add_request(globals: Seq<Seq<u8>>, args: Seq<Seq<u8>>) -> Result<Add, Seq<char>> {
    match gather(args, Gathered::nothing()) {
        Ok(gathered) => complete(globals, gathered),
        Err(reason) => Err(reason),
    }
}

/// The content of an [`Invocation`].
pub enum Request {
    Add(Add),
    Delegate { git_args: Seq<Seq<u8>>, reason: Seq<char> },
    Version,
}

/// Hands the arguments to `git worktree` as they are.
pub open spec fn delegation(args: Seq<Seq<u8>>, reason: Seq<char>) -> Request {
    Request::Delegate { git_args: seq!["worktree".spec_bytes()] + args, reason }
}

/// What the command line asks for.
pub open spec fn request(args: Seq<Seq<u8>>) -> Request {
    if args.len() == 1 && (args[0] == "--version".spec_bytes() || args[0] == "-V".spec_bytes()) {
        Request::Version
    } else {
        match globals_length(args) {
            None => delegation(args, "unrecognised git global option"@),
            Some(n) => if n < args.len() && args[n as int] == "add".spec_bytes() {
                match add_request(args.take(n as int), args.skip(n as int + 1)) {
                    Ok(add) => Request::Add(add),
                    Err(reason) => delegation(args, reason),
                }
            } else {
                delegation(args, "not a `worktree add` invocation"@)
            },
        }
    }
}

/// A `git worktree add` invocation parsed well enough to consider accelerating.
#[derive(Debug, Clone, PartialEq, Eq)]
pub struct AddCommand {
    /// Git's global options, in order, to place before the `worktree` subcommand.
    pub globals: Vec<Vec<u8>>,
    /// The arguments for `git worktree add`, with sprout's own flags removed.
    pub passthrough: Vec<Vec<u8>>,
    /// Position of `--` within `passthrough`, if the user wrote one.
    pub double_dash: Option<usize>,
    /// The destination worktree path.
    pub path: Vec<u8>,
    /// The commit-ish to check out, when the user named one.
    pub commit_ish: Option<Vec<u8>>,
    pub quiet: bool,
    /// False when `--no-checkout` was given.
    pub checkout: bool,
    pub orphan: bool,
    /// True when the user asked for the plain `git worktree add` path.
    pub no_cow: bool,
    /// Create a standalone checkout with private writable Git metadata.
    pub isolated_metadata: bool,
    /// True when `--detach` is in effect.
    pub detach: bool,
}

/// An optional position as a number.
pub open spec fn position(index: Option<usize>) -> Option<nat> {
    match index {
        Some(i) => Some(i as nat),
        None => None,
    }
}

impl View for AddCommand {
    type V = Add;

    open spec fn view(&self) -> Add {
        Add {
            globals: bytes::views(self.globals@),
            passthrough: bytes::views(self.passthrough@),
            double_dash: position(self.double_dash),
            path: self.path@,
            commit_ish: bytes::view_of(self.commit_ish),
            quiet: self.quiet,
            checkout: self.checkout,
            orphan: self.orphan,
            no_cow: self.no_cow,
            isolated_metadata: self.isolated_metadata,
            detach: self.detach,
        }
    }
}

impl Add {
    /// A recorded `--` is where it is said to be.
    pub open spec fn well_formed(self) -> bool {
        self.double_dash matches Some(i) ==> i < self.passthrough.len() && self.passthrough[i as int]
            == "--".spec_bytes()
    }

    /// The argument list that reproduces this request through `git` itself.
    pub open spec fn git_args(self) -> Seq<Seq<u8>> {
        self.globals + seq!["worktree".spec_bytes(), "add".spec_bytes()] + self.passthrough
    }

    /// Where `--no-checkout` goes: before a `--`, or at the end.
    pub open spec fn insert_at(self) -> int {
        match self.double_dash {
            Some(i) => i as int,
            None => self.passthrough.len() as int,
        }
    }

    /// The subcommand arguments that create the worktree without files.
    pub open spec fn no_checkout_args(self) -> Seq<Seq<u8>> {
        seq!["worktree".spec_bytes(), "add".spec_bytes()] + self.passthrough.insert(
            self.insert_at(),
            "--no-checkout".spec_bytes(),
        )
    }
}

impl AddCommand {
    /// The argument list that reproduces this request through `git` itself.
    pub fn git_args(&self) -> (args: Vec<Vec<u8>>)
        ensures
            bytes::views(args@) == self@.git_args(),
    {
        let mut args = bytes::copy_all(self.globals.as_slice());
        let ghost globals = bytes::views(args@);
        args.push(bytes::word("worktree"));
        args.push(bytes::word("add"));
        assert(bytes::views(args@) =~= globals + seq!["worktree".spec_bytes(), "add".spec_bytes()]);
        bytes::append_all(&mut args, self.passthrough.as_slice());
        args
    }

    /// The subcommand arguments for the step that creates the worktree without files.
    /// The globals are left out; whoever runs git puts them in front.
    pub fn worktree_add_args_no_checkout(&self) -> (args: Vec<Vec<u8>>)
        requires
            self.double_dash matches Some(i) ==> i <= self.passthrough.len(),
        ensures
            bytes::views(args@) == self@.no_checkout_args(),
    {
        let mut args: Vec<Vec<u8>> = Vec::new();
        args.push(bytes::word("worktree"));
        args.push(bytes::word("add"));
        let ghost start = seq!["worktree".spec_bytes(), "add".spec_bytes()];
        assert(bytes::views(args@) =~= start);
        let insert_at: usize = match self.double_dash {
            Some(i) => i,
            None => self.passthrough.len(),
        };
        let passthrough = self.passthrough.as_slice();
        bytes::append_all(&mut args, slice_subrange(passthrough, 0, insert_at));
        let ghost first = bytes::views(args@);
        args.push(bytes::word("--no-checkout"));
        assert(bytes::views(args@) =~= first.push("--no-checkout".spec_bytes()));
        bytes::append_all(&mut args, slice_subrange(passthrough, insert_at, passthrough.len()));
        assert(bytes::views(args@) =~= self@.no_checkout_args());
        args
    }
}

/// What the command line asks the tool to do.
#[derive(Debug, Clone, PartialEq, Eq)]
pub enum Invocation {
    /// Understood; acceleration may be attempted.
    Add(Box<AddCommand>),
    /// Not understood. Run `git` with these arguments and exit with its status.
    Delegate { git_args: Vec<Vec<u8>>, reason: &'static str },
    /// Report the tool's own version.
    Version,
}

impl View for Invocation {
    type V = Request;

    open spec fn view(&self) -> Request {
        match self {
            Invocation::Add(add) => Request::Add(add@),
            Invocation::Delegate { git_args, reason } => Request::Delegate {
                git_args: bytes::views(git_args@),
                reason: reason@,
            },
            Invocation::Version => Request::Version,
        }
    }
}

pub(crate) fn is_global_with_value(token: &[u8]) -> (r: bool)
    ensures
        r == global_with_value(token@),
{
    bytes::is_word(token, "-C") || bytes::is_word(token, "-c") || bytes::is_word(token, "--git-dir")
        || bytes::is_word(token, "--work-tree") || bytes::is_word(token, "--namespace")
}

fn is_global_standalone(token: &[u8]) -> (r: bool)
    ensures
        r == global_standalone(token@),
{
    bytes::is_word(token, "-p") || bytes::is_word(token, "--paginate") || bytes::is_word(token, "-P")
        || bytes::is_word(token, "--no-pager") || bytes::is_word(token, "--bare") || bytes::is_word(
        token,
        "--no-replace-objects",
    ) || bytes::is_word(token, "--literal-pathspecs") || bytes::is_word(token, "--glob-pathspecs")
        || bytes::is_word(token, "--noglob-pathspecs") || bytes::is_word(token, "--icase-pathspecs")
        || bytes::is_word(token, "--no-optional-locks")
}

fn is_add_standalone(token: &[u8]) -> (r: bool)
    ensures
        r == add_standalone(token@),
{
    bytes::is_word(token, "--force") || bytes::is_word(token, "--no-force") || bytes::is_word(
        token,
        "--detach",
    ) || bytes::is_word(token, "--no-detach") || bytes::is_word(token, "--checkout")
        || bytes::is_word(token, "--no-checkout") || bytes::is_word(token, "--orphan")
        || bytes::is_word(token, "--no-orphan") || bytes::is_word(token, "--lock") || bytes::is_word(
        token,
        "--no-lock",
    ) || bytes::is_word(token, "--no-reason") || bytes::is_word(token, "--quiet")
        || bytes::is_word(token, "--no-quiet") || bytes::is_word(token, "--track")
        || bytes::is_word(token, "--no-track") || bytes::is_word(token, "--guess-remote")
        || bytes::is_word(token, "--no-guess-remote") || bytes::is_word(token, "--relative-paths")
        || bytes::is_word(token, "--no-relative-paths")
}

fn is_add_with_value(token: &[u8]) -> (r: bool)
    ensures
        r == add_with_value(token@),
{
    bytes::is_word(token, "--reason")
}

fn delegate(args: &[Vec<u8>], reason: &'static str) -> (r: Invocation)
    ensures
        r@ == delegation(bytes::views(args@), reason@),
{
    let mut git_args: Vec<Vec<u8>> = Vec::new();
    git_args.push(bytes::word("worktree"));
    assert(bytes::views(git_args@) =~= seq!["worktree".spec_bytes()]);
    bytes::append_all(&mut git_args, args);
    Invocation::Delegate { git_args, reason }
}

/// Splits `--name=value` into its two halves.
pub fn split_assignment(token: &[u8]) -> (r: Option<(&[u8], &[u8])>)
    ensures
        match r {
            Some((name, value)) => assignment(token@) == Some((name@, value@)),
            None => assignment(token@) is None,
        },
{
    let k = bytes::position_of(token, EQUALS);
    proof {
        bytes::lemma_first_index(token@, EQUALS);
    }
    if bytes::begins_with(token, "--".as_bytes()) && k < token.len() {
        let name = slice_subrange(token, 0, k);
        let value = slice_subrange(token, k + 1, token.len());
        assert(name@ =~= token@.take(k as int));
        assert(value@ =~= token@.skip(k + 1));
        Some((name, value))
    } else {
        None
    }
}

/// How many of the leading arguments are git's global options and their values.
fn take_globals(args: &[Vec<u8>]) -> (r: Option<usize>)
    ensures
        position(r) == globals_length(bytes::views(args@)),
        r matches Some(n) ==> n <= args.len(),
{
    let mut taken: usize = 0;
    let ghost all = bytes::views(args@);
    assert(all.skip(0) =~= all);
    assert(longer(globals_length(all), 0) == globals_length(all));
    while taken < args.len()
        invariant
            taken <= args.len(),
            all == bytes::views(args@),
            globals_length(all) == longer(globals_length(all.skip(taken as int)), taken as nat),
        decreases args.len() - taken,
    {
        let token = args[taken].as_slice();
        let ghost rest = all.skip(taken as int);
        assert(rest[0] == token@);
        if bytes::as_text(token).is_none() {
            return Some(taken);
        }
        if token.len() == 0 || token[0] != DASH {
            return Some(taken);
        }
        if is_global_standalone(token) {
            assert(rest.skip(1) =~= all.skip(taken + 1));
            taken = taken + 1;
        } else if is_global_with_value(token) {
            if args.len() - taken < 2 {
                return None;
            }
            assert(rest.skip(2) =~= all.skip(taken + 2));
            taken = taken + 2;
        } else {
            let known = match split_assignment(token) {
                Some((name, _)) => is_global_with_value(name),
                None => false,
            };
            if !known {
                return None;
            }
            assert(rest.skip(1) =~= all.skip(taken + 1));
            taken = taken + 1;
        }
    }
    Some(taken)
}

/// The state built up while walking the `add` arguments.
struct AddParse {
    passthrough: Vec<Vec<u8>>,
    double_dash: Option<usize>,
    positionals: Vec<Vec<u8>>,
    quiet: bool,
    checkout: bool,
    orphan: bool,
    no_cow: bool,
    isolated_metadata: bool,
    detach: bool,
}

impl View for AddParse {
    type V = Gathered;

    closed spec fn view(&self) -> Gathered {
        Gathered {
            passthrough: bytes::views(self.passthrough@),
            double_dash: position(self.double_dash),
            positionals: bytes::views(self.positionals@),
            quiet: self.quiet,
            checkout: self.checkout,
            orphan: self.orphan,
            no_cow: self.no_cow,
            isolated_metadata: self.isolated_metadata,
            detach: self.detach,
        }
    }
}

/// Records a positional argument.
fn take_positional(state: &mut AddParse, arg: &[u8])
    ensures
        final(state)@ == old(state)@.with_positional(arg@),
{
    let ghost passthrough = state.passthrough@;
    let ghost positionals = state.positionals@;
    state.positionals.push(slice_to_vec(arg));
    state.passthrough.push(slice_to_vec(arg));
    proof {
        bytes::lemma_views_push(passthrough, state.passthrough@.last());
        bytes::lemma_views_push(positionals, state.positionals@.last());
    }
}

/// Passes the options spelled by `arg` through, with the value that follows them if they
/// take the next argument.
fn pass_options(state: &mut AddParse, arg: &[u8], value: Option<&[u8]>)
    ensures
        final(state)@ == (Gathered {
            passthrough: old(state)@.passthrough + match value {
                Some(value) => seq![arg@, value@],
                None => seq![arg@],
            },
            ..old(state)@
        }),
{
    let ghost passthrough = bytes::views(state.passthrough@);
    state.passthrough.push(slice_to_vec(arg));
    assert(bytes::views(state.passthrough@) =~= passthrough + seq![arg@]);
    if let Some(value) = value {
        state.passthrough.push(slice_to_vec(value));
        assert(bytes::views(state.passthrough@) =~= passthrough + seq![arg@, value@]);
    }
}

fn parse_long(state: &mut AddParse, token: &[u8], args: &[Vec<u8>], index: &mut usize) -> (r: Result<
    (),
    &'static str,
>)
    requires
        *old(index) <= args.len(),
        "--".spec_bytes().is_prefix_of(token@),
        word_of(token@) == long_option(token@),
    ensures
        match take_options(token@, bytes::views(args@).skip(*old(index) as int), old(state)@) {
            Ok(next) => r is Ok && final(state)@ == next && *final(index) == *old(index) + (
            if takes_next(token@) {
                1int
            } else {
                0int
            }) && *final(index) <= args.len(),
            Err(reason) => r matches Err(e) && e@ == reason && final(state)@ == old(state)@
                && *final(index) == *old(index),
        },
{
    if is_add_standalone(token) {
        if bytes::is_word(token, "--detach") {
            state.detach = true;
        } else if bytes::is_word(token, "--no-detach") {
            state.detach = false;
        }
        if bytes::is_word(token, "--quiet") {
            state.quiet = true;
        } else if bytes::is_word(token, "--no-quiet") {
            state.quiet = false;
        }
        if bytes::is_word(token, "--checkout") {
            state.checkout = true;
        } else if bytes::is_word(token, "--no-checkout") {
            state.checkout = false;
        }
        if bytes::is_word(token, "--orphan") {
            state.orphan = true;
        } else if bytes::is_word(token, "--no-orphan") {
            state.orphan = false;
        }
        pass_options(state, token, None);
        return Ok(());
    }
    if is_add_with_value(token) {
        if *index >= args.len() {
            return Err("long option is missing its value");
        }
        let value = args[*index].as_slice();
        assert(bytes::views(args@).skip(*index as int)[0] == value@);
        *index = *index + 1;
        pass_options(state, token, Some(value));
        return Ok(());
    }
    if let Some((name, _)) = split_assignment(token) {
        if is_add_with_value(name) {
            pass_options(state, token, None);
            return Ok(());
        }
    }
    Err("unrecognised `git worktree add` option")
}

fn parse_shorts(
    state: &mut AddParse,
    token: &[u8],
    args: &[Vec<u8>],
    index: &mut usize,
) -> (r: Result<(), &'static str>)
    requires
        *old(index) <= args.len(),
        token.len() > 1,
        !"--".spec_bytes().is_prefix_of(token@),
        word_of(token@) == short_options(token@.skip(1)),
    ensures
        match take_options(token@, bytes::views(args@).skip(*old(index) as int), old(state)@) {
            Ok(next) => r is Ok && final(state)@ == next && *final(index) == *old(index) + (
            if takes_next(token@) {
                1int
            } else {
                0int
            }) && *final(index) <= args.len(),
            Err(reason) => r matches Err(e) && e@ == reason && final(state)@
                == old(state)@.with_short_flags(token@.skip(1)) && *final(index) == *old(index),
        },
{
    let ghost bundle = token@.skip(1);
    let ghost start = *state;
    let mut at: usize = 1;
    proof {
        bytes::lemma_first_index(bundle, BRANCH);
        bytes::lemma_first_index(bundle, RESET_BRANCH);
    }
    while at < token.len()
        invariant
            bundle == token@.skip(1),
            1 <= at <= token.len(),
            *index == *old(index),
            *index <= args.len(),
            *old(state) == start,
            word_of(token@) == short_options(bundle),
            !"--".spec_bytes().is_prefix_of(token@),
            at - 1 <= short_value_at(bundle) <= bundle.len(),
            forall|i: int| 0 <= i < bytes::first_index(bundle, BRANCH) ==> bundle[i] != BRANCH,
            forall|i: int|
                0 <= i < bytes::first_index(bundle, RESET_BRANCH) ==> bundle[i] != RESET_BRANCH,
            bytes::first_index(bundle, BRANCH) < bundle.len()
                ==> bundle[bytes::first_index(bundle, BRANCH)] == BRANCH,
            bytes::first_index(bundle, RESET_BRANCH) < bundle.len()
                ==> bundle[bytes::first_index(bundle, RESET_BRANCH)] == RESET_BRANCH,
            forall|i: int|
                0 <= i < at - 1 ==> (bundle[i] == FORCE || bundle[i] == DETACH || bundle[i]
                    == QUIET),
            state@ == (Gathered {
                quiet: start@.quiet || bundle.take(at - 1).contains(QUIET),
                detach: start@.detach || bundle.take(at - 1).contains(DETACH),
                ..start@
            }),
        decreases token.len() - at,
    {
        let flag = token[at];
        assert(bundle[at - 1] == flag);
        let ghost done = bundle.take(at - 1);
        assert(bundle.take(at as int) =~= done.push(flag));
        if flag == BRANCH || flag == RESET_BRANCH {
            assert(short_value_at(bundle) == at - 1);
            if at + 1 == token.len() {
                if *index >= args.len() {
                    proof {
                        lemma_short_flags(bundle, at - 1);
                    }
                    return Err("short option is missing its value");
                }
                let value = args[*index].as_slice();
                assert(bytes::views(args@).skip(*index as int)[0] == value@);
                *index = *index + 1;
                pass_options(state, token, Some(value));
            } else {
                pass_options(state, token, None);
            }
            return Ok(());
        }
        if flag == DETACH {
            state.detach = true;
            assert(done.push(flag)[at - 1] == DETACH);
        } else if flag == QUIET {
            state.quiet = true;
            assert(done.push(flag)[at - 1] == QUIET);
        } else if flag != FORCE {
            assert(at - 1 < short_value_at(bundle));
            proof {
                lemma_short_flags(bundle, at - 1);
            }
            return Err("unrecognised `git worktree add` option");
        }
        proof {
            bytes::lemma_push_contains(done, flag, QUIET);
            bytes::lemma_push_contains(done, flag, DETACH);
        }
        at = at + 1;
    }
    assert(short_value_at(bundle) == bundle.len());
    assert(bundle.take(at - 1) =~= bundle.take(short_value_at(bundle)));
    pass_options(state, token, None);
    Ok(())
}

/// Flags up to something else are all the flags a bundle starts with.
proof fn lemma_short_flags(bundle: Seq<u8>, n: int)
    requires
        0 <= n < bundle.len(),
        forall|i: int|
            0 <= i < n ==> (#[trigger] bundle[i] == FORCE || bundle[i] == DETACH || bundle[i]
                == QUIET),
        bundle[n] != FORCE && bundle[n] != DETACH && bundle[n] != QUIET,
    ensures
        short_flags(bundle) == n,
    decreases n,
{
    if n > 0 {
        assert(bundle[0] == FORCE || bundle[0] == DETACH || bundle[0] == QUIET);
        let rest = bundle.skip(1);
        assert forall|i: int| 0 <= i < n - 1 implies (#[trigger] rest[i] == FORCE || rest[i]
            == DETACH || rest[i] == QUIET) by {
            assert(bundle[i + 1] == rest[i]);
        }
        lemma_short_flags(rest, n - 1);
    }
}

/// Takes the argument at `index`, with its value if it has a separate one.
fn parse_word(state: &mut AddParse, args: &[Vec<u8>], index: &mut usize) -> (r: Result<
    (),
    &'static str,
>)
    requires
        *old(index) < args.len(),
    ensures
        match gather_one(bytes::views(args@).skip(*old(index) as int), old(state)@) {
            Ok((next, taken)) => r is Ok && final(state)@ == next && *final(index) == *old(index)
                + taken && *final(index) <= args.len(),
            Err(reason) => r matches Err(e) && e@ == reason && final(state)@
                == old(state)@.with_refused(args@[*old(index) as int]@) && *final(index)
                == *old(index) + 1,
        },
{
    let token = args[*index].as_slice();
    let ghost rest = bytes::views(args@).skip(*index as int);
    assert(rest[0] == token@);
    assert(rest.skip(1) =~= bytes::views(args@).skip(*index + 1));
    *index = *index + 1;

    if state.double_dash.is_some() {
        take_positional(state, token);
        return Ok(());
    }
    if bytes::as_text(token).is_none() {
        take_positional(state, token);
        return Ok(());
    }
    if bytes::is_word(token, "--") {
        let ghost passthrough = state.passthrough@;
        state.double_dash = Some(state.passthrough.len());
        state.passthrough.push(slice_to_vec(token));
        proof {
            bytes::lemma_views_push(passthrough, state.passthrough@.last());
        }
        return Ok(());
    }
    if bytes::is_word(token, "--no-cow") {
        state.no_cow = true;
        return Ok(());
    }
    if bytes::is_word(token, "--isolated-metadata") {
        state.isolated_metadata = true;
        return Ok(());
    }
    if bytes::begins_with(token, "--".as_bytes()) {
        return parse_long(state, token, args, index);
    }
    if token.len() > 1 && token[0] == DASH {
        return parse_shorts(state, token, args, index);
    }
    take_positional(state, token);
    Ok(())
}

/// Parses the arguments after `add`.
fn parse_add(globals: Vec<Vec<u8>>, args: &[Vec<u8>]) -> (r: Result<AddCommand, &'static str>)
    ensures
        match add_request(bytes::views(globals@), bytes::views(args@)) {
            Ok(add) => r matches Ok(command) && command@ == add,
            Err(reason) => r matches Err(e) && e@ == reason,
        },
{
    let mut state = AddParse {
        passthrough: Vec::new(),
        double_dash: None,
        positionals: Vec::new(),
        quiet: false,
        checkout: true,
        orphan: false,
        no_cow: false,
        isolated_metadata: false,
        detach: false,
    };
    let ghost all = bytes::views(args@);
    assert(state@.passthrough =~= Seq::empty());
    assert(state@.positionals =~= Seq::empty());
    assert(state@ == Gathered::nothing());
    assert(all.skip(0) =~= all);

    let mut index: usize = 0;
    while index < args.len()
        invariant
            index <= args.len(),
            all == bytes::views(args@),
            gather(all, Gathered::nothing()) == gather(all.skip(index as int), state@),
        decreases args.len() - index,
    {
        let ghost rest = all.skip(index as int);
        let ghost prior = index;
        match parse_word(&mut state, args, &mut index) {
            Ok(()) => {},
            Err(reason) => {
                return Err(reason);
            },
        }
        assert(rest.skip(index - prior) =~= all.skip(index as int));
    }
    assert(gather(all, Gathered::nothing()) == Ok::<Gathered, Seq<char>>(state@));

    if state.positionals.len() == 0 {
        return Err("no worktree path given");
    }
    if state.positionals.len() > 2 {
        return Err("more positional arguments than `git worktree add` takes");
    }
    let path = slice_to_vec(state.positionals[0].as_slice());
    let commit_ish = if state.positionals.len() == 2 {
        Some(slice_to_vec(state.positionals[1].as_slice()))
    } else {
        None
    };
    Ok(
        AddCommand {
            globals,
            passthrough: state.passthrough,
            double_dash: state.double_dash,
            path,
            commit_ish,
            quiet: state.quiet,
            checkout: state.checkout,
            orphan: state.orphan,
            no_cow: state.no_cow,
            isolated_metadata: state.isolated_metadata,
            detach: state.detach,
        },
    )
}

/// Parses the argument tail the binary was invoked with.
pub fn parse(args: &[Vec<u8>]) -> (r: Invocation)
    ensures
        r@ == request(bytes::views(args@)),
        r matches Invocation::Add(add) ==> add@.well_formed(),
{
    let ghost all = bytes::views(args@);
    proof {
        an_accepted_request_is_well_formed(all);
    }
    if args.len() == 1 && (bytes::is_word(args[0].as_slice(), "--version") || bytes::is_word(
        args[0].as_slice(),
        "-V",
    )) {
        return Invocation::Version;
    }
    let taken = match take_globals(args) {
        Some(taken) => taken,
        None => {
            return delegate(args, "unrecognised git global option");
        },
    };
    if taken == args.len() || !bytes::is_word(args[taken].as_slice(), "add") {
        return delegate(args, "not a `worktree add` invocation");
    }
    let globals = bytes::copy_all(slice_subrange(args, 0, taken));
    assert(bytes::views(globals@) =~= all.take(taken as int));
    let rest = slice_subrange(args, taken + 1, args.len());
    assert(bytes::views(rest@) =~= all.skip(taken + 1));
    match parse_add(globals, rest) {
        Ok(add) => Invocation::Add(Box::new(add)),
        Err(reason) => delegate(args, reason),
    }
}

/// A delegation hands git the very arguments that were given.
pub proof fn delegation_reproduces_the_arguments(args: Seq<Seq<u8>>)
    ensures
        request(args) matches Request::Delegate { git_args, .. } ==> git_args == seq![
            "worktree".spec_bytes(),
        ] + args,
{
}

/// The globals that `globals_length` counts are among the arguments.
proof fn lemma_globals_length(args: Seq<Seq<u8>>)
    ensures
        globals_length(args) matches Some(n) ==> n <= args.len(),
    decreases args.len(),
{
    if args.len() > 0 {
        lemma_globals_length(args.skip(1));
        if args.len() > 1 {
            lemma_globals_length(args.skip(2));
        }
    }
}

/// Arguments that are understood on their own are understood the same way with more
/// arguments after them.
proof fn lemma_gather_concat(first: Seq<Seq<u8>>, second: Seq<Seq<u8>>, so_far: Gathered)
    requires
        gather(first, so_far) is Ok,
    ensures
        gather(first + second, so_far) == gather(second, gather(first, so_far)->Ok_0),
    decreases first.len(),
{
    let both = first + second;
    if first.len() == 0 {
        assert(both =~= second);
    } else {
        assert(both[0] == first[0]);
        if first.len() > 1 {
            assert(both.skip(1)[0] == first.skip(1)[0]);
        }
        let (next, taken) = gather_one(first, so_far)->Ok_0;
        assert(gather_one(both, so_far) == gather_one(first, so_far));
        assert(both.skip(taken) =~= first.skip(taken) + second);
        lemma_gather_concat(first.skip(taken), second, next);
    }
}

/// After `--` every argument is positional.
proof fn lemma_gather_positionals(args: Seq<Seq<u8>>, so_far: Gathered)
    requires
        so_far.double_dash is Some,
    ensures
        gather(args, so_far) == Ok::<Gathered, Seq<char>>(
            Gathered {
                passthrough: so_far.passthrough + args,
                positionals: so_far.positionals + args,
                ..so_far
            },
        ),
    decreases args.len(),
{
    if args.len() == 0 {
        assert(so_far.passthrough + args =~= so_far.passthrough);
        assert(so_far.positionals + args =~= so_far.positionals);
    } else {
        let next = so_far.with_positional(args[0]);
        lemma_gather_positionals(args.skip(1), next);
        assert(next.passthrough + args.skip(1) =~= so_far.passthrough + args);
        assert(next.positionals + args.skip(1) =~= so_far.positionals + args);
    }
}

impl Gathered {
    /// The same without the tool's own flags.
    pub open spec fn without_own_flags(self) -> Gathered {
        Gathered { no_cow: false, isolated_metadata: false, ..self }
    }
}

/// Whether the first argument is one of the tool's own flags.
spec fn own_flag(args: Seq<Seq<u8>>, so_far: Gathered) -> bool {
    so_far.double_dash is None && (word_of(args[0]) is NoCow || word_of(
        args[0],
    ) is IsolatedMetadata)
}

/// What one step passes on: nothing for the tool's own flags, else what it took.
proof fn lemma_gather_one(args: Seq<Seq<u8>>, so_far: Gathered)
    requires
        args.len() > 0,
        gather_one(args, so_far) is Ok,
    ensures
        ({
            let (next, taken) = gather_one(args, so_far)->Ok_0;
            &&& 1 <= taken <= 2
            &&& taken <= args.len()
            &&& own_flag(args, so_far) ==> next.passthrough == so_far.passthrough
                && next.without_own_flags() == so_far.without_own_flags() && taken == 1
            &&& !own_flag(args, so_far) ==> next.passthrough == so_far.passthrough + args.take(
                taken,
            )
        }),
{
    let (next, taken) = gather_one(args, so_far)->Ok_0;
    if taken == 2 {
        assert(args.take(2) =~= seq![args[0], args.skip(1)[0]]);
    } else {
        assert(args.take(1) =~= seq![args[0]]);
    }
    if !own_flag(args, so_far) {
        assert(next.passthrough =~= so_far.passthrough + args.take(taken));
    }
}

/// A step depends on what it takes alone.
proof fn lemma_gather_one_again(args: Seq<Seq<u8>>, passed: Seq<Seq<u8>>, so_far: Gathered)
    requires
        args.len() > 0,
        gather_one(args, so_far) is Ok,
        !own_flag(args, so_far),
        ({
            let taken = gather_one(args, so_far)->Ok_0.1;
            taken <= args.len() && taken <= passed.len() && passed.take(taken) == args.take(taken)
        }),
    ensures
        ({
            let (next, taken) = gather_one(args, so_far)->Ok_0;
            gather_one(passed, so_far.without_own_flags()) == Ok::<(Gathered, int), Seq<char>>(
                (next.without_own_flags(), taken),
            )
        }),
{
    let (next, taken) = gather_one(args, so_far)->Ok_0;
    assert(passed.take(taken)[0] == args.take(taken)[0]);
    assert(passed[0] == args[0]);
    if taken == 2 {
        assert(passed.take(2)[1] == args.take(2)[1]);
        assert(passed.skip(1)[0] == args.skip(1)[0]);
    }
}

/// Going through what was passed on gives the same again, but for the tool's own flags.
proof fn lemma_gather_again(args: Seq<Seq<u8>>, so_far: Gathered)
    requires
        gather(args, so_far) is Ok,
    ensures
        ({
            let end = gather(args, so_far)->Ok_0;
            let passed = end.passthrough.skip(so_far.passthrough.len() as int);
            &&& so_far.passthrough.len() <= end.passthrough.len()
            &&& end.passthrough == so_far.passthrough + passed
            &&& gather(passed, so_far.without_own_flags()) == Ok::<Gathered, Seq<char>>(
                end.without_own_flags(),
            )
        }),
    decreases args.len(),
{
    let end = gather(args, so_far)->Ok_0;
    let passed = end.passthrough.skip(so_far.passthrough.len() as int);
    if args.len() == 0 {
        assert(passed =~= Seq::empty());
        assert(end.passthrough =~= so_far.passthrough + passed);
    } else {
        let step = gather_one(args, so_far)->Ok_0;
        let next = step.0;
        let taken = step.1;
        lemma_gather_one(args, so_far);
        lemma_gather_again(args.skip(taken), next);
        let later = end.passthrough.skip(next.passthrough.len() as int);
        if !own_flag(args, so_far) {
            let spelled = args.take(taken);
            assert(end.passthrough =~= so_far.passthrough + (spelled + later));
            assert(passed =~= spelled + later);
            assert(passed.take(taken) =~= spelled);
            assert(passed.skip(taken) =~= later);
            lemma_gather_one_again(args, passed, so_far);
        }
    }
}

/// A recorded `--` splits the arguments passed on: what precedes it was understood before
/// it, and the rest are positional.
proof fn lemma_double_dash(args: Seq<Seq<u8>>, so_far: Gathered) -> (n: int)
    requires
        so_far.double_dash is None,
        gather(args, so_far) matches Ok(end) && end.double_dash is Some,
    ensures
        0 <= n < args.len(),
        word_of(args[n]) is DoubleDash,
        gather(args.take(n), so_far) matches Ok(middle) && middle.double_dash is None && gather(
            args,
            so_far,
        )->Ok_0.double_dash == Some(middle.passthrough.len()),
    decreases args.len(),
{
    let (next, taken) = gather_one(args, so_far)->Ok_0;
    if word_of(args[0]) is DoubleDash {
        lemma_gather_positionals(args.skip(1), next);
        assert(args.take(0) =~= Seq::empty());
        0
    } else {
        assert(next.double_dash is None);
        let m = lemma_double_dash(args.skip(taken), next);
        let n = m + taken;
        assert(args.skip(taken)[m] == args[n]);
        let start = args.take(n);
        assert(start[0] == args[0]);
        if taken == 2 {
            assert(start.skip(1)[0] == args.skip(1)[0]);
        }
        assert(start.skip(taken) =~= args.skip(taken).take(m));
        n
    }
}

/// What the literal arguments are.
proof fn lemma_no_checkout_word()
    ensures
        word_of("--no-checkout".spec_bytes()) == (Word::Options {
            takes_next: false,
            detach: None,
            quiet: None,
            checkout: Some(false),
            orphan: None,
        }),
        word_of("--checkout".spec_bytes()) == (Word::Options {
            takes_next: false,
            detach: None,
            quiet: None,
            checkout: Some(true),
            orphan: None,
        }),
{
    reveal_strlit("--no-checkout");
    reveal_strlit("--checkout");
    reveal_strlit("--");
    reveal_strlit("--no-cow");
    reveal_strlit("--isolated-metadata");
    reveal_strlit("--detach");
    reveal_strlit("--no-detach");
    reveal_strlit("--quiet");
    reveal_strlit("--no-quiet");
    reveal_strlit("--orphan");
    reveal_strlit("--no-orphan");
    assert(is_ascii("--no-checkout"));
    assert(is_ascii("--checkout"));
    assert(is_ascii("--"));
    assert(is_ascii("--no-cow"));
    assert(is_ascii("--isolated-metadata"));
    assert(is_ascii("--detach"));
    assert(is_ascii("--no-detach"));
    assert(is_ascii("--quiet"));
    assert(is_ascii("--no-quiet"));
    assert(is_ascii("--orphan"));
    assert(is_ascii("--no-orphan"));
    encode_utf8_valid_utf8("--no-checkout"@);
    encode_utf8_valid_utf8("--checkout"@);
    assert("--no-quiet".spec_bytes()[2] == 0x6e);
    assert("--checkout".spec_bytes()[2] == 0x63);
    assert("--".spec_bytes() =~= "--checkout".spec_bytes().take(2));
    assert("--".spec_bytes() =~= "--no-checkout".spec_bytes().take(2));
}

/// What the literal `--` is.
proof fn lemma_double_dash_word(arg: Seq<u8>)
    requires
        word_of(arg) is DoubleDash,
    ensures
        arg == "--".spec_bytes(),
{
}

/// A later option wins: an option appended to a command line without `--` decides every
/// setting that it speaks of, and leaves the others as they were.
pub proof fn a_later_option_wins(args: Seq<Seq<u8>>, option: Seq<u8>)
    requires
        gather(args, Gathered::nothing()) matches Ok(so_far) && so_far.double_dash is None,
        word_of(option) is Options,
        !takes_next(option),
    ensures
        gather(args.push(option), Gathered::nothing()) == Ok::<Gathered, Seq<char>>(
            gather(args, Gathered::nothing())->Ok_0.with_options(seq![option], word_of(option)),
        ),
{
    let more = seq![option];
    let so_far = gather(args, Gathered::nothing())->Ok_0;
    lemma_gather_concat(args, more, Gathered::nothing());
    assert(args + more =~= args.push(option));
    assert(more[0] == option);
    let next = so_far.with_options(more, word_of(option));
    assert(gather_one(more, so_far) == Ok::<(Gathered, int), Seq<char>>((next, 1)));
    assert(more.skip(1) =~= Seq::empty());
    assert(gather(more.skip(1), next) == Ok::<Gathered, Seq<char>>(next));
}

/// Of `--checkout` and `--no-checkout` the later one wins.
pub proof fn a_later_checkout_flag_wins(args: Seq<Seq<u8>>)
    requires
        gather(args, Gathered::nothing()) matches Ok(so_far) && so_far.double_dash is None,
    ensures
        gather(args.push("--checkout".spec_bytes()), Gathered::nothing()) matches Ok(end)
            && end.checkout,
        gather(args.push("--no-checkout".spec_bytes()), Gathered::nothing()) matches Ok(end)
            && !end.checkout,
{
    lemma_no_checkout_word();
    a_later_option_wins(args, "--checkout".spec_bytes());
    a_later_option_wins(args, "--no-checkout".spec_bytes());
}

/// Without the tool's own flags among the arguments, git gets every argument, in order.
pub proof fn other_arguments_are_passed_through(args: Seq<Seq<u8>>, so_far: Gathered)
    requires
        gather(args, so_far) is Ok,
        !args.contains("--no-cow".spec_bytes()),
        !args.contains("--isolated-metadata".spec_bytes()),
    ensures
        gather(args, so_far)->Ok_0.passthrough == so_far.passthrough + args,
    decreases args.len(),
{
    if args.len() == 0 {
        assert(so_far.passthrough + args =~= so_far.passthrough);
    } else {
        let (next, taken) = gather_one(args, so_far)->Ok_0;
        assert(args.contains(args[0]));
        let rest = args.skip(taken);
        assert forall|x: Seq<u8>| rest.contains(x) implies args.contains(x) by {
            let i = choose|i: int| 0 <= i < rest.len() && rest[i] == x;
            assert(args[i + taken] == x);
        }
        other_arguments_are_passed_through(rest, next);
        if taken == 1 {
            assert(next.passthrough =~= so_far.passthrough + args.take(1));
        } else {
            assert(next.passthrough =~= so_far.passthrough + args.take(2));
        }
        assert(next.passthrough + rest =~= so_far.passthrough + args);
    }
}

/// The globals of a request are all that `globals_length` counts, whatever follows `add`.
proof fn lemma_globals_again(args: Seq<Seq<u8>>, rest: Seq<Seq<u8>>)
    requires
        globals_length(args) matches Some(n) && n < args.len() && args[n as int]
            == "add".spec_bytes(),
        rest.len() > 0,
        rest[0] == "add".spec_bytes(),
    ensures
        globals_length(args.take(globals_length(args)->Some_0 as int) + rest) == globals_length(
            args,
        ),
    decreases args.len(),
{
    let n = globals_length(args)->Some_0;
    let again = args.take(n as int) + rest;
    reveal_strlit("add");
    assert(is_ascii("add"));
    assert("add".spec_bytes()[0] == 0x61);
    if n == 0 {
        assert(again =~= rest);
    } else {
        assert(again[0] == args[0]);
        let step: int = if global_with_value(args[0]) && !global_standalone(args[0]) {
            2
        } else {
            1
        };
        let later = args.skip(step);
        lemma_globals_length(later);
        assert(later[n - step] == args[n as int]);
        lemma_globals_again(later, rest);
        assert(again.skip(step) =~= later.take(n - step) + rest);
    }
}

/// An accepted request is well formed: a recorded `--` is where it is said to be.
pub proof fn an_accepted_request_is_well_formed(args: Seq<Seq<u8>>)
    ensures
        request(args) matches Request::Add(add) ==> add.well_formed(),
{
    if let Request::Add(add) = request(args) {
        let n = globals_length(args)->Some_0;
        let words = args.skip(n as int + 1);
        let nothing = Gathered::nothing();
        let end = gather(words, nothing)->Ok_0;
        lemma_gather_again(words, nothing);
        assert(end.passthrough.skip(0) =~= end.passthrough);
        assert(nothing.without_own_flags() == nothing);
        lemma_insert_no_checkout(add.passthrough);
    }
}

/// Going through the start of what was passed on passes all of it on.
proof fn lemma_gather_verbatim(start: Seq<Seq<u8>>, so_far: Gathered, passed: Seq<Seq<u8>>)
    requires
        !so_far.no_cow,
        !so_far.isolated_metadata,
        start.len() <= passed.len(),
        start == passed.take(start.len() as int),
        gather(start, so_far) is Ok,
        gather(passed, so_far) matches Ok(end) && end.passthrough == so_far.passthrough + passed,
    ensures
        gather(start, so_far)->Ok_0.passthrough == so_far.passthrough + start,
    decreases start.len(),
{
    if start.len() == 0 {
        assert(so_far.passthrough + start =~= so_far.passthrough);
    } else {
        assert(start[0] == passed[0]);
        if start.len() > 1 {
            assert(start.skip(1)[0] == passed.skip(1)[0]);
        }
        let (next, taken) = gather_one(start, so_far)->Ok_0;
        assert(gather_one(passed, so_far) == gather_one(start, so_far));
        let end = gather(passed, so_far)->Ok_0;
        lemma_gather_again(passed.skip(taken), next);
        lemma_passed_at_most(passed.skip(taken), next);
        assert(end.passthrough.len() == so_far.passthrough.len() + passed.len());
        if taken == 1 {
            assert(start.take(1) =~= seq![start[0]]);
        } else {
            assert(start.take(2) =~= seq![start[0], start.skip(1)[0]]);
        }
        assert(next.passthrough =~= so_far.passthrough + start.take(taken));
        assert(end.passthrough.take(next.passthrough.len() as int) =~= next.passthrough);
        assert(end.passthrough =~= next.passthrough + passed.skip(taken));
        assert(start.skip(taken) =~= passed.skip(taken).take(start.len() - taken));
        lemma_gather_verbatim(start.skip(taken), next, passed.skip(taken));
        assert(next.passthrough + start.skip(taken) =~= so_far.passthrough + start);
    }
}

/// No more is passed on than was given.
proof fn lemma_passed_at_most(args: Seq<Seq<u8>>, so_far: Gathered)
    requires
        gather(args, so_far) is Ok,
    ensures
        gather(args, so_far)->Ok_0.passthrough.len() <= so_far.passthrough.len() + args.len(),
    decreases args.len(),
{
    if args.len() > 0 {
        let (next, taken) = gather_one(args, so_far)->Ok_0;
        lemma_passed_at_most(args.skip(taken), next);
    }
}

impl Add {
    /// The same request without the tool's own flags.
    pub open spec fn without_own_flags(self) -> Add {
        Add { no_cow: false, isolated_metadata: false, ..self }
    }
}

/// `git_args` reproduces the request: given back without the `worktree` that it adds, it
/// is parsed into the same request, but for the tool's own flags.
pub proof fn git_args_reproduce_the_request(args: Seq<Seq<u8>>)
    ensures
        request(args) matches Request::Add(add) ==> ({
            &&& add.git_args() == add.globals + (seq!["worktree".spec_bytes()] + (seq![
                "add".spec_bytes(),
            ] + add.passthrough))
            &&& request(add.globals + (seq!["add".spec_bytes()] + add.passthrough))
                == Request::Add(add.without_own_flags())
        }),
{
    if let Request::Add(add) = request(args) {
        let n = globals_length(args)->Some_0;
        let words = args.skip(n as int + 1);
        let nothing = Gathered::nothing();
        let tail = seq!["add".spec_bytes()] + add.passthrough;
        let again = add.globals + tail;
        assert(add.git_args() =~= add.globals + (seq!["worktree".spec_bytes()] + tail));
        lemma_globals_length(args);
        lemma_globals_again(args, tail);
        assert(again[n as int] == "add".spec_bytes());
        assert(again.take(n as int) =~= add.globals);
        assert(again.skip(n as int + 1) =~= add.passthrough);
        lemma_gather_again(words, nothing);
        let end = gather(words, nothing)->Ok_0;
        assert(end.passthrough.skip(0) =~= end.passthrough);
        assert(nothing.without_own_flags() == nothing);
        lemma_passed_at_least(words, nothing);
    }
}

/// Every positional argument is passed on.
proof fn lemma_passed_at_least(args: Seq<Seq<u8>>, so_far: Gathered)
    requires
        gather(args, so_far) is Ok,
        so_far.positionals.len() <= so_far.passthrough.len(),
    ensures
        gather(args, so_far)->Ok_0.positionals.len() <= gather(
            args,
            so_far,
        )->Ok_0.passthrough.len(),
    decreases args.len(),
{
    if args.len() > 0 {
        let (next, taken) = gather_one(args, so_far)->Ok_0;
        lemma_passed_at_least(args.skip(taken), next);
    }
}

/// A `--` after arguments that are understood makes the rest positional.
proof fn lemma_gather_dash(start: Seq<Seq<u8>>, dash: Seq<u8>, last: Seq<Seq<u8>>)
    requires
        gather(start, Gathered::nothing()) matches Ok(middle) && middle.double_dash is None,
        word_of(dash) is DoubleDash,
    ensures
        ({
            let middle = gather(start, Gathered::nothing())->Ok_0;
            let finish = seq![dash] + last;
            gather(start + finish, Gathered::nothing()) == Ok::<Gathered, Seq<char>>(
                Gathered {
                    passthrough: middle.passthrough + finish,
                    double_dash: Some(middle.passthrough.len()),
                    positionals: middle.positionals + last,
                    ..middle
                },
            )
        }),
{
    let middle = gather(start, Gathered::nothing())->Ok_0;
    let finish = seq![dash] + last;
    let dashed = middle.with_double_dash(dash);
    lemma_gather_concat(start, finish, Gathered::nothing());
    assert(finish[0] == dash);
    assert(finish.skip(1) =~= last);
    assert(gather_one(finish, middle) == Ok::<(Gathered, int), Seq<char>>((dashed, 1)));
    lemma_gather_positionals(last, dashed);
    assert(dashed.passthrough + last =~= middle.passthrough + finish);
}

/// Inserting `--no-checkout` before a recorded `--`, or at the end, only turns the checkout
/// off.
proof fn lemma_insert_no_checkout(passed: Seq<Seq<u8>>)
    requires
        gather(passed, Gathered::nothing()) matches Ok(end) && end.passthrough == passed,
    ensures
        ({
            let flag = "--no-checkout".spec_bytes();
            let end = gather(passed, Gathered::nothing())->Ok_0;
            let at: int = match end.double_dash {
                Some(i) => i as int,
                None => passed.len() as int,
            };
            &&& 0 <= at <= passed.len()
            &&& end.double_dash is Some ==> at < passed.len() && passed[at] == "--".spec_bytes()
            &&& gather(passed.insert(at, flag), Gathered::nothing()) == Ok::<Gathered, Seq<char>>(
                Gathered {
                    passthrough: passed.insert(at, flag),
                    double_dash: match end.double_dash {
                        Some(i) => Some(i + 1),
                        None => None,
                    },
                    checkout: false,
                    ..end
                },
            )
        }),
{
    let flag = "--no-checkout".spec_bytes();
    let nothing = Gathered::nothing();
    let end = gather(passed, nothing)->Ok_0;
    lemma_no_checkout_word();
    if end.double_dash is None {
        a_later_option_wins(passed, flag);
        assert(passed.insert(passed.len() as int, flag) =~= passed.push(flag));
        assert(passed + seq![flag] =~= passed.push(flag));
    } else {
        let m = lemma_double_dash(passed, nothing);
        let start = passed.take(m);
        assert(nothing.passthrough + passed =~= passed);
        lemma_gather_verbatim(start, nothing, passed);
        let middle = gather(start, nothing)->Ok_0;
        assert(middle.passthrough =~= start);
        let dash = passed[m];
        lemma_double_dash_word(dash);
        let last = passed.skip(m + 1);
        let inserted = passed.insert(m, flag);

        let finish = seq![dash] + last;
        assert(passed =~= start + finish);
        lemma_gather_dash(start, dash, last);

        a_later_option_wins(start, flag);
        assert(inserted =~= start.push(flag) + finish);
        lemma_gather_dash(start.push(flag), dash, last);
        assert((start + seq![flag]) + finish =~= inserted);
    }
}

/// The arguments that create the worktree without files make the same request, but that
/// nothing is checked out: `--no-checkout` is read as an option even where the request
/// holds a `--`, and path and commit-ish stay what they were.
pub proof fn no_checkout_args_only_turn_the_checkout_off(args: Seq<Seq<u8>>)
    ensures
        request(args) matches Request::Add(add) ==> request(
            add.globals + add.no_checkout_args().skip(1),
        ) == Request::Add(
            Add {
                passthrough: add.passthrough.insert(
                    add.insert_at(),
                    "--no-checkout".spec_bytes(),
                ),
                double_dash: match add.double_dash {
                    Some(i) => Some(i + 1),
                    None => None,
                },
                checkout: false,
                ..add.without_own_flags()
            },
        ),
{
    if let Request::Add(add) = request(args) {
        let n = globals_length(args)->Some_0;
        let words = args.skip(n as int + 1);
        let nothing = Gathered::nothing();
        lemma_gather_again(words, nothing);
        let end = gather(words, nothing)->Ok_0;
        assert(end.passthrough.skip(0) =~= end.passthrough);
        assert(nothing.without_own_flags() == nothing);
        lemma_insert_no_checkout(add.passthrough);
        let inserted = add.passthrough.insert(add.insert_at(), "--no-checkout".spec_bytes());
        let tail = add.no_checkout_args().skip(1);
        assert(tail =~= seq!["add".spec_bytes()] + inserted);
        let again = add.globals + tail;
        lemma_globals_length(args);
        lemma_globals_again(args, tail);
        assert(again[n as int] == "add".spec_bytes());
        assert(again.take(n as int) =~= add.globals);
        assert(again.skip(n as int + 1) =~= inserted);
        assert(again.len() == n + 1 + inserted.len());
    }
}

/// Bytes below 0x80 are text.
proof fn lemma_plain_text(text: Seq<u8>)
    requires
        forall|i: int| 0 <= i < text.len() ==> #[trigger] text[i] < 0x80,
    ensures
        valid_utf8(text),
{
    assert(text.subrange(0, 0) =~= Seq::empty());
    assert(partial_valid_utf8(text, 0));
    partial_valid_utf8_extend_ascii_block(text, 0, text.len() as int);
    assert(text.subrange(0, text.len() as int) =~= text);
}

/// An argument that starts with one dash is no word that starts with two, and is read as
/// short options where it is text.
proof fn lemma_one_dash(arg: Seq<u8>)
    requires
        valid_utf8(arg),
        arg.len() > 1,
        arg[0] == 0x2d,
        arg[1] != 0x2d,
    ensures
        !"--".spec_bytes().is_prefix_of(arg),
        word_of(arg) == short_options(arg.skip(1)),
{
    reveal_strlit("--");
    reveal_strlit("--no-cow");
    reveal_strlit("--isolated-metadata");
    assert(is_ascii("--"));
    assert(is_ascii("--no-cow"));
    assert(is_ascii("--isolated-metadata"));
    assert("--".spec_bytes()[1] == 0x2d);
    assert("--no-cow".spec_bytes()[1] == 0x2d);
    assert("--isolated-metadata".spec_bytes()[1] == 0x2d);
    if "--".spec_bytes().is_prefix_of(arg) {
        assert(arg.take(2)[1] == 0x2d);
    }
}

/// The first option of a bundle that takes a value stands after its switches.
proof fn lemma_value_at(switches: Seq<u8>, rest: Seq<u8>)
    requires
        forall|i: int|
            0 <= i < switches.len() ==> (#[trigger] switches[i] == 0x66 || switches[i] == 0x64
                || switches[i] == 0x71),
    ensures
        switches.len() <= short_value_at(switches + rest) <= switches.len() + rest.len(),
        rest.len() > 0 && (rest[0] == 0x62 || rest[0] == 0x42) ==> short_value_at(switches + rest)
            == switches.len(),
        rest.len() > 0 && rest[0] != 0x62 && rest[0] != 0x42 ==> short_value_at(switches + rest)
            > switches.len(),
{
    let bundle = switches + rest;
    bytes::lemma_first_index(bundle, 0x62);
    bytes::lemma_first_index(bundle, 0x42);
    let lower = bytes::first_index(bundle, 0x62);
    let upper = bytes::first_index(bundle, 0x42);
    if lower < switches.len() {
        assert(bundle[lower] == switches[lower]);
    }
    if upper < switches.len() {
        assert(bundle[upper] == switches[upper]);
    }
    if rest.len() > 0 {
        assert(bundle[switches.len() as int] == rest[0]);
    }
}

/// What a bundle says of its switches.
proof fn lemma_switches(switches: Seq<u8>, rest: Seq<u8>)
    requires
        forall|i: int|
            0 <= i < switches.len() ==> (#[trigger] switches[i] == 0x66 || switches[i] == 0x64
                || switches[i] == 0x71),
        rest.len() == 0 || rest[0] == 0x62 || rest[0] == 0x42,
    ensures
        short_options(switches + rest) == (Word::Options {
            takes_next: rest.len() == 1,
            detach: if switches.contains(0x64) {
                Some(true)
            } else {
                None
            },
            quiet: if switches.contains(0x71) {
                Some(true)
            } else {
                None
            },
            checkout: None,
            orphan: None,
        }),
{
    let bundle = switches + rest;
    lemma_value_at(switches, rest);
    assert(bundle.take(switches.len() as int) =~= switches);
    assert forall|i: int| 0 <= i < switches.len() implies (bundle[i] == FORCE || bundle[i] == DETACH
        || bundle[i] == QUIET) by {
        assert(bundle[i] == switches[i]);
    }
}

/// One argument, with its value where it takes one, and what is left of the others.
proof fn lemma_gather_first(arg: Seq<u8>, rest: Seq<Seq<u8>>, so_far: Gathered)
    requires
        so_far.double_dash is None,
    ensures
        gather(seq![arg] + rest, so_far) == (match gather_one(seq![arg] + rest, so_far) {
            Ok((next, taken)) => gather((seq![arg] + rest).skip(taken), next),
            Err(reason) => Err(reason),
        }),
        (seq![arg] + rest)[0] == arg,
        (seq![arg] + rest).skip(1) == rest,
        rest.len() > 0 ==> (seq![arg] + rest).skip(2) == rest.skip(1),
{
    assert((seq![arg] + rest).skip(1) =~= rest);
    if rest.len() > 0 {
        assert((seq![arg] + rest).skip(2) =~= rest.skip(1));
    }
}

/// A bundle of switches that ends in the letter of a branch option, `b` or `B`, takes the
/// next argument as that branch's name: both are passed on, neither is positional, and the
/// switches count. Without a next argument the bundle is refused.
pub proof fn a_bundle_that_ends_in_a_branch_takes_its_name(
    switches: Seq<u8>,
    letter: u8,
    value: Seq<u8>,
    rest: Seq<Seq<u8>>,
    so_far: Gathered,
)
    requires
        forall|i: int|
            0 <= i < switches.len() ==> (#[trigger] switches[i] == 0x66 || switches[i] == 0x64
                || switches[i] == 0x71),
        letter == 0x62 || letter == 0x42,
        so_far.double_dash is None,
    ensures
        ({
            let bundle = seq![0x2du8] + switches + seq![letter];
            &&& takes_next(bundle)
            &&& gather(seq![bundle, value] + rest, so_far) == gather(
                rest,
                Gathered {
                    passthrough: so_far.passthrough + seq![bundle, value],
                    quiet: so_far.quiet || switches.contains(0x71),
                    detach: so_far.detach || switches.contains(0x64),
                    ..so_far
                },
            )
            &&& gather(seq![bundle], so_far) == Err::<Gathered, Seq<char>>(
                "short option is missing its value"@,
            )
        }),
{
    let bundle = seq![0x2du8] + switches + seq![letter];
    assert(bundle.skip(1) =~= switches + seq![letter]);
    assert forall|i: int| 0 <= i < bundle.len() implies #[trigger] bundle[i] < 0x80 by {
        if 1 <= i <= switches.len() {
            assert(bundle[i] == switches[i - 1]);
        }
    }
    lemma_plain_text(bundle);
    if switches.len() > 0 {
        assert(bundle[1] == switches[0]);
    }
    lemma_one_dash(bundle);
    lemma_switches(switches, seq![letter]);
    lemma_gather_first(bundle, seq![value] + rest, so_far);
    assert(seq![bundle, value] + rest =~= seq![bundle] + (seq![value] + rest));
    assert((seq![value] + rest).skip(1) =~= rest);
    assert((seq![value] + rest)[0] == value);
    lemma_gather_first(bundle, Seq::empty(), so_far);
    assert(seq![bundle] + Seq::<Seq<u8>>::empty() =~= seq![bundle]);
}

/// Which arguments are positional depends on the arguments, not on what was said before.
proof fn lemma_same_positionals(args: Seq<Seq<u8>>, one: Gathered, other: Gathered)
    requires
        one.positionals == other.positionals,
        one.double_dash is Some <==> other.double_dash is Some,
    ensures
        gather(args, one) is Ok <==> gather(args, other) is Ok,
        gather(args, one) is Err ==> gather(args, one) == gather(args, other),
        gather(args, one) is Ok ==> gather(args, one)->Ok_0.positionals == gather(
            args,
            other,
        )->Ok_0.positionals,
    decreases args.len(),
{
    if args.len() > 0 && gather_one(args, one) is Ok {
        let (next, taken) = gather_one(args, one)->Ok_0;
        let (also, again) = gather_one(args, other)->Ok_0;
        assert(taken == again);
        lemma_same_positionals(args.skip(taken), next, also);
    }
}

/// The name of a branch is never positional: with a bundle that ends in a branch option and
/// the name in front, the same arguments are positional as without.
pub proof fn a_branch_name_is_not_positional(
    switches: Seq<u8>,
    letter: u8,
    value: Seq<u8>,
    rest: Seq<Seq<u8>>,
)
    requires
        forall|i: int|
            0 <= i < switches.len() ==> (#[trigger] switches[i] == 0x66 || switches[i] == 0x64
                || switches[i] == 0x71),
        letter == 0x62 || letter == 0x42,
    ensures
        ({
            let bundle = seq![0x2du8] + switches + seq![letter];
            let with = gather(seq![bundle, value] + rest, Gathered::nothing());
            let without = gather(rest, Gathered::nothing());
            &&& with is Ok <==> without is Ok
            &&& with is Ok ==> with->Ok_0.positionals == without->Ok_0.positionals
        }),
{
    let nothing = Gathered::nothing();
    a_bundle_that_ends_in_a_branch_takes_its_name(switches, letter, value, rest, nothing);
    let bundle = seq![0x2du8] + switches + seq![letter];
    let next = Gathered {
        passthrough: nothing.passthrough + seq![bundle, value],
        quiet: nothing.quiet || switches.contains(0x71),
        detach: nothing.detach || switches.contains(0x64),
        ..nothing
    };
    lemma_same_positionals(rest, next, nothing);
}

/// A bundle of switches, with or without a branch option and its name stuck to it, stands
/// alone: it is passed on, the next argument is no part of it, and the switches before the
/// branch option count, those letters in the name do not.
pub proof fn a_bundle_without_a_loose_branch_stands_alone(
    switches: Seq<u8>,
    branch: Seq<u8>,
    rest: Seq<Seq<u8>>,
    so_far: Gathered,
)
    requires
        forall|i: int|
            0 <= i < switches.len() ==> (#[trigger] switches[i] == 0x66 || switches[i] == 0x64
                || switches[i] == 0x71),
        branch.len() == 0 && switches.len() > 0 || branch.len() > 1 && (branch[0] == 0x62
            || branch[0] == 0x42),
        valid_utf8(seq![0x2du8] + switches + branch),
        so_far.double_dash is None,
    ensures
        ({
            let bundle = seq![0x2du8] + switches + branch;
            &&& !takes_next(bundle)
            &&& gather(seq![bundle] + rest, so_far) == gather(
                rest,
                Gathered {
                    passthrough: so_far.passthrough + seq![bundle],
                    quiet: so_far.quiet || switches.contains(0x71),
                    detach: so_far.detach || switches.contains(0x64),
                    ..so_far
                },
            )
        }),
{
    let bundle = seq![0x2du8] + switches + branch;
    assert(bundle.skip(1) =~= switches + branch);
    if switches.len() > 0 {
        assert(bundle[1] == switches[0]);
    }
    lemma_one_dash(bundle);
    lemma_switches(switches, branch);
    lemma_gather_first(bundle, rest, so_far);
}

/// A bundle with a letter that is neither a switch nor a branch option, and stands before
/// any branch option, is refused.
pub proof fn an_unknown_letter_is_refused(
    switches: Seq<u8>,
    letter: u8,
    more: Seq<u8>,
    rest: Seq<Seq<u8>>,
    so_far: Gathered,
)
    requires
        forall|i: int|
            0 <= i < switches.len() ==> (#[trigger] switches[i] == 0x66 || switches[i] == 0x64
                || switches[i] == 0x71),
        letter != 0x66 && letter != 0x64 && letter != 0x71,
        letter != 0x62 && letter != 0x42,
        switches.len() == 0 ==> letter != 0x2d,
        valid_utf8(seq![0x2du8] + switches + seq![letter] + more),
        so_far.double_dash is None,
    ensures
        gather(seq![seq![0x2du8] + switches + seq![letter] + more] + rest, so_far) == Err::<
            Gathered,
            Seq<char>,
        >("unrecognised `git worktree add` option"@),
{
    let bundle = seq![0x2du8] + switches + seq![letter] + more;
    let others = seq![letter] + more;
    assert(bundle.skip(1) =~= switches + others);
    if switches.len() > 0 {
        assert(bundle[1] == switches[0]);
    } else {
        assert(bundle[1] == letter);
    }
    lemma_one_dash(bundle);
    lemma_value_at(switches, others);
    assert((switches + others)[switches.len() as int] == letter);
    lemma_gather_first(bundle, rest, so_far);
}

/// Where the words that set something differ.
#[verifier::spinoff_prover]
#[verifier::rlimit(60)]
proof fn lemma_setting_words()
    ensures
        "--no-cow".spec_bytes().len() == 8,
        "--no-cow".spec_bytes()[2] == 0x6e,
        "--no-cow".spec_bytes()[5] == 0x63,
        "--isolated-metadata".spec_bytes().len() == 19,
        "--isolated-metadata".spec_bytes()[2] == 0x69,
        "--isolated-metadata".spec_bytes()[5] == 0x6c,
        "--isolated-metadata".spec_bytes()[8] == 0x65,
        "--".spec_bytes().len() == 2,
        valid_utf8("--detach".spec_bytes()),
        "--".spec_bytes().is_prefix_of("--detach".spec_bytes()),
        "--detach".spec_bytes().len() == 8,
        "--detach".spec_bytes()[2] == 0x64,
        "--detach".spec_bytes()[5] == 0x61,
        valid_utf8("--no-detach".spec_bytes()),
        "--".spec_bytes().is_prefix_of("--no-detach".spec_bytes()),
        "--no-detach".spec_bytes().len() == 11,
        "--no-detach".spec_bytes()[2] == 0x6e,
        "--no-detach".spec_bytes()[5] == 0x64,
        "--no-detach".spec_bytes()[8] == 0x61,
        valid_utf8("--quiet".spec_bytes()),
        "--".spec_bytes().is_prefix_of("--quiet".spec_bytes()),
        "--quiet".spec_bytes().len() == 7,
        "--quiet".spec_bytes()[2] == 0x71,
        "--quiet".spec_bytes()[5] == 0x65,
        valid_utf8("--no-quiet".spec_bytes()),
        "--".spec_bytes().is_prefix_of("--no-quiet".spec_bytes()),
        "--no-quiet".spec_bytes().len() == 10,
        "--no-quiet".spec_bytes()[2] == 0x6e,
        "--no-quiet".spec_bytes()[5] == 0x71,
        "--no-quiet".spec_bytes()[8] == 0x65,
        valid_utf8("--checkout".spec_bytes()),
        "--".spec_bytes().is_prefix_of("--checkout".spec_bytes()),
        "--checkout".spec_bytes().len() == 10,
        "--checkout".spec_bytes()[2] == 0x63,
        "--checkout".spec_bytes()[5] == 0x63,
        "--checkout".spec_bytes()[8] == 0x75,
        valid_utf8("--no-checkout".spec_bytes()),
        "--".spec_bytes().is_prefix_of("--no-checkout".spec_bytes()),
        "--no-checkout".spec_bytes().len() == 13,
        "--no-checkout".spec_bytes()[2] == 0x6e,
        "--no-checkout".spec_bytes()[5] == 0x63,
        "--no-checkout".spec_bytes()[8] == 0x63,
        valid_utf8("--orphan".spec_bytes()),
        "--".spec_bytes().is_prefix_of("--orphan".spec_bytes()),
        "--orphan".spec_bytes().len() == 8,
        "--orphan".spec_bytes()[2] == 0x6f,
        "--orphan".spec_bytes()[5] == 0x68,
        valid_utf8("--no-orphan".spec_bytes()),
        "--".spec_bytes().is_prefix_of("--no-orphan".spec_bytes()),
        "--no-orphan".spec_bytes().len() == 11,
        "--no-orphan".spec_bytes()[2] == 0x6e,
        "--no-orphan".spec_bytes()[5] == 0x6f,
        "--no-orphan".spec_bytes()[8] == 0x68,
{
    reveal_strlit("--no-cow");
    reveal_strlit("--isolated-metadata");
    reveal_strlit("--");
    reveal_strlit("--detach");
    reveal_strlit("--no-detach");
    reveal_strlit("--quiet");
    reveal_strlit("--no-quiet");
    reveal_strlit("--checkout");
    reveal_strlit("--no-checkout");
    reveal_strlit("--orphan");
    reveal_strlit("--no-orphan");
    assert(is_ascii("--no-cow"));
    assert(is_ascii("--isolated-metadata"));
    assert(is_ascii("--"));
    assert(is_ascii("--detach"));
    assert(is_ascii("--no-detach"));
    assert(is_ascii("--quiet"));
    assert(is_ascii("--no-quiet"));
    assert(is_ascii("--checkout"));
    assert(is_ascii("--no-checkout"));
    assert(is_ascii("--orphan"));
    assert(is_ascii("--no-orphan"));
    encode_utf8_valid_utf8("--detach"@);
    assert("--".spec_bytes() =~= "--detach".spec_bytes().take(2));
    encode_utf8_valid_utf8("--no-detach"@);
    assert("--".spec_bytes() =~= "--no-detach".spec_bytes().take(2));
    encode_utf8_valid_utf8("--quiet"@);
    assert("--".spec_bytes() =~= "--quiet".spec_bytes().take(2));
    encode_utf8_valid_utf8("--no-quiet"@);
    assert("--".spec_bytes() =~= "--no-quiet".spec_bytes().take(2));
    encode_utf8_valid_utf8("--checkout"@);
    assert("--".spec_bytes() =~= "--checkout".spec_bytes().take(2));
    encode_utf8_valid_utf8("--no-checkout"@);
    assert("--".spec_bytes() =~= "--no-checkout".spec_bytes().take(2));
    encode_utf8_valid_utf8("--orphan"@);
    assert("--".spec_bytes() =~= "--orphan".spec_bytes().take(2));
    encode_utf8_valid_utf8("--no-orphan"@);
    assert("--".spec_bytes() =~= "--no-orphan".spec_bytes().take(2));
}

/// Where the words that set nothing differ from those.
#[verifier::spinoff_prover]
#[verifier::rlimit(60)]
proof fn lemma_other_words()
    ensures
        valid_utf8("--force".spec_bytes()),
        "--".spec_bytes().is_prefix_of("--force".spec_bytes()),
        "--force".spec_bytes().len() == 7,
        "--force".spec_bytes()[2] == 0x66,
        "--force".spec_bytes()[5] == 0x63,
        valid_utf8("--no-force".spec_bytes()),
        "--".spec_bytes().is_prefix_of("--no-force".spec_bytes()),
        "--no-force".spec_bytes().len() == 10,
        "--no-force".spec_bytes()[2] == 0x6e,
        "--no-force".spec_bytes()[5] == 0x66,
        "--no-force".spec_bytes()[8] == 0x63,
        valid_utf8("--lock".spec_bytes()),
        "--".spec_bytes().is_prefix_of("--lock".spec_bytes()),
        "--lock".spec_bytes().len() == 6,
        "--lock".spec_bytes()[2] == 0x6c,
        "--lock".spec_bytes()[5] == 0x6b,
        valid_utf8("--no-lock".spec_bytes()),
        "--".spec_bytes().is_prefix_of("--no-lock".spec_bytes()),
        "--no-lock".spec_bytes().len() == 9,
        "--no-lock".spec_bytes()[2] == 0x6e,
        "--no-lock".spec_bytes()[5] == 0x6c,
        "--no-lock".spec_bytes()[8] == 0x6b,
        valid_utf8("--no-reason".spec_bytes()),
        "--".spec_bytes().is_prefix_of("--no-reason".spec_bytes()),
        "--no-reason".spec_bytes().len() == 11,
        "--no-reason".spec_bytes()[2] == 0x6e,
        "--no-reason".spec_bytes()[5] == 0x72,
        "--no-reason".spec_bytes()[8] == 0x73,
        valid_utf8("--track".spec_bytes()),
        "--".spec_bytes().is_prefix_of("--track".spec_bytes()),
        "--track".spec_bytes().len() == 7,
        "--track".spec_bytes()[2] == 0x74,
        "--track".spec_bytes()[5] == 0x63,
        valid_utf8("--no-track".spec_bytes()),
        "--".spec_bytes().is_prefix_of("--no-track".spec_bytes()),
        "--no-track".spec_bytes().len() == 10,
        "--no-track".spec_bytes()[2] == 0x6e,
        "--no-track".spec_bytes()[5] == 0x74,
        "--no-track".spec_bytes()[8] == 0x63,
        valid_utf8("--guess-remote".spec_bytes()),
        "--".spec_bytes().is_prefix_of("--guess-remote".spec_bytes()),
        "--guess-remote".spec_bytes().len() == 14,
        "--guess-remote".spec_bytes()[2] == 0x67,
        "--guess-remote".spec_bytes()[5] == 0x73,
        "--guess-remote".spec_bytes()[8] == 0x72,
        valid_utf8("--no-guess-remote".spec_bytes()),
        "--".spec_bytes().is_prefix_of("--no-guess-remote".spec_bytes()),
        "--no-guess-remote".spec_bytes().len() == 17,
        "--no-guess-remote".spec_bytes()[2] == 0x6e,
        "--no-guess-remote".spec_bytes()[5] == 0x67,
        "--no-guess-remote".spec_bytes()[8] == 0x73,
        valid_utf8("--relative-paths".spec_bytes()),
        "--".spec_bytes().is_prefix_of("--relative-paths".spec_bytes()),
        "--relative-paths".spec_bytes().len() == 16,
        "--relative-paths".spec_bytes()[2] == 0x72,
        "--relative-paths".spec_bytes()[5] == 0x61,
        "--relative-paths".spec_bytes()[8] == 0x76,
        valid_utf8("--no-relative-paths".spec_bytes()),
        "--".spec_bytes().is_prefix_of("--no-relative-paths".spec_bytes()),
        "--no-relative-paths".spec_bytes().len() == 19,
        "--no-relative-paths".spec_bytes()[2] == 0x6e,
        "--no-relative-paths".spec_bytes()[5] == 0x72,
        "--no-relative-paths".spec_bytes()[8] == 0x61,
        valid_utf8("--reason".spec_bytes()),
        "--".spec_bytes().is_prefix_of("--reason".spec_bytes()),
        "--reason".spec_bytes().len() == 8,
        "--reason".spec_bytes()[2] == 0x72,
        "--reason".spec_bytes()[5] == 0x73,
{
    reveal_strlit("--force");
    reveal_strlit("--no-force");
    reveal_strlit("--lock");
    reveal_strlit("--no-lock");
    reveal_strlit("--no-reason");
    reveal_strlit("--track");
    reveal_strlit("--no-track");
    reveal_strlit("--guess-remote");
    reveal_strlit("--no-guess-remote");
    reveal_strlit("--relative-paths");
    reveal_strlit("--no-relative-paths");
    reveal_strlit("--reason");
    assert(is_ascii("--force"));
    assert(is_ascii("--no-force"));
    assert(is_ascii("--lock"));
    assert(is_ascii("--no-lock"));
    assert(is_ascii("--no-reason"));
    assert(is_ascii("--track"));
    assert(is_ascii("--no-track"));
    assert(is_ascii("--guess-remote"));
    assert(is_ascii("--no-guess-remote"));
    assert(is_ascii("--relative-paths"));
    assert(is_ascii("--no-relative-paths"));
    assert(is_ascii("--reason"));
    reveal_strlit("--");
    assert(is_ascii("--"));
    encode_utf8_valid_utf8("--force"@);
    assert("--".spec_bytes() =~= "--force".spec_bytes().take(2));
    encode_utf8_valid_utf8("--no-force"@);
    assert("--".spec_bytes() =~= "--no-force".spec_bytes().take(2));
    encode_utf8_valid_utf8("--lock"@);
    assert("--".spec_bytes() =~= "--lock".spec_bytes().take(2));
    encode_utf8_valid_utf8("--no-lock"@);
    assert("--".spec_bytes() =~= "--no-lock".spec_bytes().take(2));
    encode_utf8_valid_utf8("--no-reason"@);
    assert("--".spec_bytes() =~= "--no-reason".spec_bytes().take(2));
    encode_utf8_valid_utf8("--track"@);
    assert("--".spec_bytes() =~= "--track".spec_bytes().take(2));
    encode_utf8_valid_utf8("--no-track"@);
    assert("--".spec_bytes() =~= "--no-track".spec_bytes().take(2));
    encode_utf8_valid_utf8("--guess-remote"@);
    assert("--".spec_bytes() =~= "--guess-remote".spec_bytes().take(2));
    encode_utf8_valid_utf8("--no-guess-remote"@);
    assert("--".spec_bytes() =~= "--no-guess-remote".spec_bytes().take(2));
    encode_utf8_valid_utf8("--relative-paths"@);
    assert("--".spec_bytes() =~= "--relative-paths".spec_bytes().take(2));
    encode_utf8_valid_utf8("--no-relative-paths"@);
    assert("--".spec_bytes() =~= "--no-relative-paths".spec_bytes().take(2));
    encode_utf8_valid_utf8("--reason"@);
    assert("--".spec_bytes() =~= "--reason".spec_bytes().take(2));
}

/// A long option that says nothing of the settings that matter here is passed on, and
/// changes nothing else.
#[verifier::spinoff_prover]
#[verifier::rlimit(60)]
pub proof fn other_long_options_are_only_passed_on(
    option: Seq<u8>,
    rest: Seq<Seq<u8>>,
    so_far: Gathered,
)
    requires
        so_far.double_dash is None,
        ({
            ||| option == "--force".spec_bytes()
            ||| option == "--no-force".spec_bytes()
            ||| option == "--lock".spec_bytes()
            ||| option == "--no-lock".spec_bytes()
            ||| option == "--no-reason".spec_bytes()
            ||| option == "--track".spec_bytes()
            ||| option == "--no-track".spec_bytes()
            ||| option == "--guess-remote".spec_bytes()
            ||| option == "--no-guess-remote".spec_bytes()
            ||| option == "--relative-paths".spec_bytes()
            ||| option == "--no-relative-paths".spec_bytes()
        }),
    ensures
        gather(seq![option] + rest, so_far) == gather(
            rest,
            Gathered { passthrough: so_far.passthrough.push(option), ..so_far },
        ),
{
    lemma_setting_words();
    lemma_other_words();
    lemma_gather_first(option, rest, so_far);
    assert(so_far.passthrough + seq![option] =~= so_far.passthrough.push(option));
}

/// A long option turns its own setting on, or off in its `--no-` form, is passed on, and
/// changes nothing else.
#[verifier::spinoff_prover]
#[verifier::rlimit(60)]
pub proof fn a_long_option_switches_its_own_setting(rest: Seq<Seq<u8>>, so_far: Gathered)
    requires
        so_far.double_dash is None,
    ensures
        gather(seq!["--detach".spec_bytes()] + rest, so_far) == gather(
            rest,
            Gathered {
                passthrough: so_far.passthrough.push("--detach".spec_bytes()),
                detach: true,
                ..so_far
            },
        ),
        gather(seq!["--no-detach".spec_bytes()] + rest, so_far) == gather(
            rest,
            Gathered {
                passthrough: so_far.passthrough.push("--no-detach".spec_bytes()),
                detach: false,
                ..so_far
            },
        ),
        gather(seq!["--quiet".spec_bytes()] + rest, so_far) == gather(
            rest,
            Gathered {
                passthrough: so_far.passthrough.push("--quiet".spec_bytes()),
                quiet: true,
                ..so_far
            },
        ),
        gather(seq!["--no-quiet".spec_bytes()] + rest, so_far) == gather(
            rest,
            Gathered {
                passthrough: so_far.passthrough.push("--no-quiet".spec_bytes()),
                quiet: false,
                ..so_far
            },
        ),
        gather(seq!["--checkout".spec_bytes()] + rest, so_far) == gather(
            rest,
            Gathered {
                passthrough: so_far.passthrough.push("--checkout".spec_bytes()),
                checkout: true,
                ..so_far
            },
        ),
        gather(seq!["--no-checkout".spec_bytes()] + rest, so_far) == gather(
            rest,
            Gathered {
                passthrough: so_far.passthrough.push("--no-checkout".spec_bytes()),
                checkout: false,
                ..so_far
            },
        ),
        gather(seq!["--orphan".spec_bytes()] + rest, so_far) == gather(
            rest,
            Gathered {
                passthrough: so_far.passthrough.push("--orphan".spec_bytes()),
                orphan: true,
                ..so_far
            },
        ),
        gather(seq!["--no-orphan".spec_bytes()] + rest, so_far) == gather(
            rest,
            Gathered {
                passthrough: so_far.passthrough.push("--no-orphan".spec_bytes()),
                orphan: false,
                ..so_far
            },
        ),
{
    lemma_setting_words();
    lemma_gather_first("--detach".spec_bytes(), rest, so_far);
    assert(so_far.passthrough + seq!["--detach".spec_bytes()] =~= so_far.passthrough.push(
        "--detach".spec_bytes(),
    ));
    lemma_gather_first("--no-detach".spec_bytes(), rest, so_far);
    assert(so_far.passthrough + seq!["--no-detach".spec_bytes()] =~= so_far.passthrough.push(
        "--no-detach".spec_bytes(),
    ));
    lemma_gather_first("--quiet".spec_bytes(), rest, so_far);
    assert(so_far.passthrough + seq!["--quiet".spec_bytes()] =~= so_far.passthrough.push(
        "--quiet".spec_bytes(),
    ));
    lemma_gather_first("--no-quiet".spec_bytes(), rest, so_far);
    assert(so_far.passthrough + seq!["--no-quiet".spec_bytes()] =~= so_far.passthrough.push(
        "--no-quiet".spec_bytes(),
    ));
    lemma_gather_first("--checkout".spec_bytes(), rest, so_far);
    assert(so_far.passthrough + seq!["--checkout".spec_bytes()] =~= so_far.passthrough.push(
        "--checkout".spec_bytes(),
    ));
    lemma_gather_first("--no-checkout".spec_bytes(), rest, so_far);
    assert(so_far.passthrough + seq!["--no-checkout".spec_bytes()] =~= so_far.passthrough.push(
        "--no-checkout".spec_bytes(),
    ));
    lemma_gather_first("--orphan".spec_bytes(), rest, so_far);
    assert(so_far.passthrough + seq!["--orphan".spec_bytes()] =~= so_far.passthrough.push(
        "--orphan".spec_bytes(),
    ));
    lemma_gather_first("--no-orphan".spec_bytes(), rest, so_far);
    assert(so_far.passthrough + seq!["--no-orphan".spec_bytes()] =~= so_far.passthrough.push(
        "--no-orphan".spec_bytes(),
    ));
}

/// A word that starts with two dashes is taken only if it is one of those that are known,
/// or a known one with its value after `=`; any other is refused.
#[verifier::spinoff_prover]
#[verifier::rlimit(60)]
pub proof fn other_long_words_are_refused(arg: Seq<u8>, rest: Seq<Seq<u8>>, so_far: Gathered)
    requires
        so_far.double_dash is None,
        valid_utf8(arg),
        "--".spec_bytes().is_prefix_of(arg),
        !"--reason=".spec_bytes().is_prefix_of(arg),
        arg != "--no-cow".spec_bytes(),
        arg != "--isolated-metadata".spec_bytes(),
        arg != "--".spec_bytes(),
        arg != "--force".spec_bytes(),
        arg != "--no-force".spec_bytes(),
        arg != "--detach".spec_bytes(),
        arg != "--no-detach".spec_bytes(),
        arg != "--checkout".spec_bytes(),
        arg != "--no-checkout".spec_bytes(),
        arg != "--orphan".spec_bytes(),
        arg != "--no-orphan".spec_bytes(),
        arg != "--lock".spec_bytes(),
        arg != "--no-lock".spec_bytes(),
        arg != "--no-reason".spec_bytes(),
        arg != "--quiet".spec_bytes(),
        arg != "--no-quiet".spec_bytes(),
        arg != "--track".spec_bytes(),
        arg != "--no-track".spec_bytes(),
        arg != "--guess-remote".spec_bytes(),
        arg != "--no-guess-remote".spec_bytes(),
        arg != "--relative-paths".spec_bytes(),
        arg != "--no-relative-paths".spec_bytes(),
        arg != "--reason".spec_bytes(),
    ensures
        gather(seq![arg] + rest, so_far) == Err::<Gathered, Seq<char>>(
            "unrecognised `git worktree add` option"@,
        ),
{
    reveal_strlit("--reason");
    reveal_strlit("--reason=");
    assert(is_ascii("--reason"));
    assert(is_ascii("--reason="));
    if let Some((name, value)) = assignment(arg) {
        if name == "--reason".spec_bytes() {
            bytes::lemma_first_index(arg, EQUALS);
            assert(arg.take(8) == name);
            assert(arg.take(9) =~= "--reason=".spec_bytes()) by {
                assert forall|i: int| 0 <= i < 9 implies #[trigger] arg.take(9)[i]
                    == "--reason=".spec_bytes()[i] by {
                    if i < 8 {
                        assert(arg.take(8)[i] == name[i]);
                        assert("--reason"@[i] == "--reason="@[i]);
                    }
                }
            }
        }
    }
    lemma_gather_first(arg, rest, so_far);
}

/// What kind of word `--reason` is.
#[verifier::spinoff_prover]
#[verifier::rlimit(60)]
proof fn lemma_reason_word()
    ensures
        word_of("--reason".spec_bytes()) == (Word::Options {
            takes_next: true,
            detach: None,
            quiet: None,
            checkout: None,
            orphan: None,
        }),
        "--".spec_bytes().is_prefix_of("--reason".spec_bytes()),
{
    lemma_setting_words();
    lemma_other_words();
    assert(!add_standalone("--reason".spec_bytes()));
}

/// `--reason` takes its value from the next argument, which is then not positional; both are
/// passed on and nothing else changes, and without a value it is refused.
pub proof fn a_reason_takes_its_value(value: Seq<u8>, rest: Seq<Seq<u8>>, so_far: Gathered)
    requires
        so_far.double_dash is None,
    ensures
        takes_next("--reason".spec_bytes()),
        gather(seq!["--reason".spec_bytes(), value] + rest, so_far) == gather(
            rest,
            Gathered {
                passthrough: so_far.passthrough + seq!["--reason".spec_bytes(), value],
                ..so_far
            },
        ),
        gather(seq!["--reason".spec_bytes()], so_far) == Err::<Gathered, Seq<char>>(
            "long option is missing its value"@,
        ),
{
    let word = "--reason".spec_bytes();
    lemma_reason_word();
    lemma_gather_first(word, seq![value] + rest, so_far);
    assert(seq![word, value] + rest =~= seq![word] + (seq![value] + rest));
    assert((seq![value] + rest).skip(1) =~= rest);
    assert((seq![value] + rest)[0] == value);
    lemma_gather_first(word, Seq::empty(), so_far);
    assert(seq![word] + Seq::<Seq<u8>>::empty() =~= seq![word]);
}

/// The value of `--reason` may follow a `=`; the next argument is then no part of it.
pub proof fn a_reason_may_follow_an_equals_sign(
    value: Seq<u8>,
    rest: Seq<Seq<u8>>,
    so_far: Gathered,
)
    requires
        so_far.double_dash is None,
        valid_utf8("--reason".spec_bytes() + seq![0x3du8] + value),
    ensures
        ({
            let spelled = "--reason".spec_bytes() + seq![0x3du8] + value;
            &&& !takes_next(spelled)
            &&& gather(seq![spelled] + rest, so_far) == gather(
                rest,
                Gathered { passthrough: so_far.passthrough.push(spelled), ..so_far },
            )
        }),
{
    let word = "--reason".spec_bytes();
    let spelled = word + seq![0x3du8] + value;
    lemma_reason_bytes();
    lemma_assigned_name(word, value);
    assert(spelled[8] == 0x3d);
    lemma_assigned_reason(spelled);
    lemma_gather_neutral(spelled, rest, so_far);
}

/// The bytes of `--reason` that matter.
proof fn lemma_reason_bytes()
    ensures
        "--reason".spec_bytes().len() == 8,
        "--".spec_bytes().is_prefix_of("--reason".spec_bytes()),
        !"--reason".spec_bytes().contains(0x3d),
{
    reveal_strlit("--");
    reveal_strlit("--reason");
    assert(is_ascii("--"));
    assert(is_ascii("--reason"));
    assert("--".spec_bytes() =~= "--reason".spec_bytes().take(2));
}

/// A name without a `=` is what stands before the first one.
proof fn lemma_assigned_name(name: Seq<u8>, value: Seq<u8>)
    requires
        "--".spec_bytes().is_prefix_of(name),
        !name.contains(0x3d),
    ensures
        "--".spec_bytes().is_prefix_of(name + seq![0x3du8] + value),
        assignment(name + seq![0x3du8] + value) is Some,
        assignment(name + seq![0x3du8] + value)->Some_0.0 == name,
{
    let dashes = "--".spec_bytes();
    let spelled = name + seq![0x3du8] + value;
    let at = name.len() as int;
    assert(spelled[at] == 0x3d);
    assert forall|i: int| 0 <= i < at implies spelled[i] != 0x3d by {
        assert(spelled[i] == name[i]);
    }
    bytes::lemma_first_index_unique(spelled, EQUALS, at);
    assert(spelled.take(at) =~= name);
    assert(spelled.take(dashes.len() as int) =~= name.take(dashes.len() as int));
}

/// Options that stand alone and set nothing are only passed on.
proof fn lemma_gather_neutral(arg: Seq<u8>, rest: Seq<Seq<u8>>, so_far: Gathered)
    requires
        so_far.double_dash is None,
        word_of(arg) == (Word::Options {
            takes_next: false,
            detach: None,
            quiet: None,
            checkout: None,
            orphan: None,
        }),
    ensures
        !takes_next(arg),
        gather(seq![arg] + rest, so_far) == gather(
            rest,
            Gathered { passthrough: so_far.passthrough.push(arg), ..so_far },
        ),
{
    lemma_gather_first(arg, rest, so_far);
    assert(so_far.passthrough + seq![arg] =~= so_far.passthrough.push(arg));
}

/// What kind of word `--reason` with its value behind a `=` is.
#[verifier::spinoff_prover]
#[verifier::rlimit(60)]
proof fn lemma_assigned_reason(token: Seq<u8>)
    requires
        valid_utf8(token),
        token.len() > 8,
        token[8] == 0x3d,
        "--".spec_bytes().is_prefix_of(token),
        assignment(token) is Some,
        assignment(token)->Some_0.0 == "--reason".spec_bytes(),
    ensures
        word_of(token) == (Word::Options {
            takes_next: false,
            detach: None,
            quiet: None,
            checkout: None,
            orphan: None,
        }),
{
    lemma_no_equals(token);
    let is_reason = add_with_value(token);
    assert(!is_reason);
    assert(long_option(token) == word_of(token));
}

/// No word that is known to stand alone holds a `=`.
#[verifier::spinoff_prover]
#[verifier::rlimit(60)]
proof fn lemma_no_equals(token: Seq<u8>)
    requires
        token.len() > 8,
        token[8] == 0x3d,
    ensures
        !add_standalone(token),
        token != "--no-cow".spec_bytes(),
        token != "--isolated-metadata".spec_bytes(),
        token != "--".spec_bytes(),
        token != "--reason".spec_bytes(),
{
    lemma_setting_words();
    lemma_other_words();
}

/// The tool's own flags set themselves and are not passed on; `--` is passed on and makes
/// everything after it positional; a word without a leading dash, a lone dash, and what is
/// no text are positional.
#[verifier::spinoff_prover]
#[verifier::rlimit(60)]
pub proof fn own_flags_and_positional_words(
    arg: Seq<u8>,
    rest: Seq<Seq<u8>>,
    so_far: Gathered,
)
    requires
        so_far.double_dash is None,
    ensures
        gather(seq!["--no-cow".spec_bytes()] + rest, so_far) == gather(
            rest,
            Gathered { no_cow: true, ..so_far },
        ),
        gather(seq!["--isolated-metadata".spec_bytes()] + rest, so_far) == gather(
            rest,
            Gathered { isolated_metadata: true, ..so_far },
        ),
        gather(seq!["--".spec_bytes()] + rest, so_far) == Ok::<Gathered, Seq<char>>(
            Gathered {
                passthrough: so_far.passthrough + (seq!["--".spec_bytes()] + rest),
                double_dash: Some(so_far.passthrough.len()),
                positionals: so_far.positionals + rest,
                ..so_far
            },
        ),
        !valid_utf8(arg) || arg.len() == 0 || arg[0] != 0x2d || arg.len() == 1 ==> gather(
            seq![arg] + rest,
            so_far,
        ) == gather(
            rest,
            Gathered {
                passthrough: so_far.passthrough.push(arg),
                positionals: so_far.positionals.push(arg),
                ..so_far
            },
        ),
{
    reveal_strlit("--no-cow");
    reveal_strlit("--isolated-metadata");
    reveal_strlit("--");
    assert(is_ascii("--no-cow"));
    assert(is_ascii("--isolated-metadata"));
    assert(is_ascii("--"));
    encode_utf8_valid_utf8("--no-cow"@);
    encode_utf8_valid_utf8("--isolated-metadata"@);
    encode_utf8_valid_utf8("--"@);
    lemma_gather_first("--no-cow".spec_bytes(), rest, so_far);
    lemma_gather_first("--isolated-metadata".spec_bytes(), rest, so_far);
    lemma_gather_first("--".spec_bytes(), rest, so_far);
    let dashed = so_far.with_double_dash("--".spec_bytes());
    lemma_gather_positionals(rest, dashed);
    assert(dashed.passthrough + rest =~= so_far.passthrough + (seq!["--".spec_bytes()] + rest));
    lemma_gather_first(arg, rest, so_far);
    assert("--".spec_bytes()[0] == 0x2d);
    assert("--no-cow".spec_bytes()[0] == 0x2d);
    assert("--isolated-metadata".spec_bytes()[0] == 0x2d);
    if "--".spec_bytes().is_prefix_of(arg) {
        assert(arg[0] == arg.take(2)[0]);
    }
}

/// A global option of git's that stands alone is one argument of the globals, one with a
/// value two, and one with its value after `=` one; what follows counts on its own.
#[verifier::spinoff_prover]
#[verifier::rlimit(60)]
pub proof fn global_options_are_counted_with_their_values(
    option: Seq<u8>,
    value: Seq<u8>,
    rest: Seq<Seq<u8>>,
)
    ensures
        ({
            ||| option == "-p".spec_bytes()
            ||| option == "--paginate".spec_bytes()
            ||| option == "-P".spec_bytes()
            ||| option == "--no-pager".spec_bytes()
            ||| option == "--bare".spec_bytes()
            ||| option == "--no-replace-objects".spec_bytes()
            ||| option == "--literal-pathspecs".spec_bytes()
            ||| option == "--glob-pathspecs".spec_bytes()
            ||| option == "--noglob-pathspecs".spec_bytes()
            ||| option == "--icase-pathspecs".spec_bytes()
            ||| option == "--no-optional-locks".spec_bytes()
        }) ==> (match globals_length(rest) {
            Some(n) => globals_length(seq![option] + rest) == Some((n + 1) as nat),
            None => globals_length(seq![option] + rest) is None,
        }),
        ({
            ||| option == "-C".spec_bytes()
            ||| option == "-c".spec_bytes()
            ||| option == "--git-dir".spec_bytes()
            ||| option == "--work-tree".spec_bytes()
            ||| option == "--namespace".spec_bytes()
        }) ==> globals_length(seq![option]) is None && (match globals_length(rest) {
            Some(n) => globals_length(seq![option, value] + rest) == Some((n + 2) as nat),
            None => globals_length(seq![option, value] + rest) is None,
        }),
{
    assert((seq![option] + rest).skip(1) =~= rest);
    assert((seq![option, value] + rest).skip(2) =~= rest);
    assert((seq![option, value] + rest)[0] == option);
    if global_standalone(option) || global_with_value(option) {
        lemma_global_word(option);
    }
    if global_with_value(option) {
        lemma_not_standalone(option);
        assert(seq![option].len() == 1);
    }
}

/// A global option starts with a dash.
#[verifier::spinoff_prover]
#[verifier::rlimit(60)]
proof fn lemma_global_word(option: Seq<u8>)
    requires
        global_standalone(option) || global_with_value(option),
    ensures
        valid_utf8(option),
        option.len() > 0,
        option[0] == 0x2d,
{
    assert(option == "-p".spec_bytes() ==> valid_utf8(option) && option.len() > 0
        && option[0] == 0x2d) by {
        reveal_strlit("-p");
        assert(is_ascii("-p"));
        encode_utf8_valid_utf8("-p"@);
    }
    assert(option == "--paginate".spec_bytes() ==> valid_utf8(option) && option.len() > 0
        && option[0] == 0x2d) by {
        reveal_strlit("--paginate");
        assert(is_ascii("--paginate"));
        encode_utf8_valid_utf8("--paginate"@);
    }
    assert(option == "-P".spec_bytes() ==> valid_utf8(option) && option.len() > 0
        && option[0] == 0x2d) by {
        reveal_strlit("-P");
        assert(is_ascii("-P"));
        encode_utf8_valid_utf8("-P"@);
    }
    assert(option == "--no-pager".spec_bytes() ==> valid_utf8(option) && option.len() > 0
        && option[0] == 0x2d) by {
        reveal_strlit("--no-pager");
        assert(is_ascii("--no-pager"));
        encode_utf8_valid_utf8("--no-pager"@);
    }
    assert(option == "--bare".spec_bytes() ==> valid_utf8(option) && option.len() > 0
        && option[0] == 0x2d) by {
        reveal_strlit("--bare");
        assert(is_ascii("--bare"));
        encode_utf8_valid_utf8("--bare"@);
    }
    assert(option == "--no-replace-objects".spec_bytes() ==> valid_utf8(option) && option.len() > 0
        && option[0] == 0x2d) by {
        reveal_strlit("--no-replace-objects");
        assert(is_ascii("--no-replace-objects"));
        encode_utf8_valid_utf8("--no-replace-objects"@);
    }
    assert(option == "--literal-pathspecs".spec_bytes() ==> valid_utf8(option) && option.len() > 0
        && option[0] == 0x2d) by {
        reveal_strlit("--literal-pathspecs");
        assert(is_ascii("--literal-pathspecs"));
        encode_utf8_valid_utf8("--literal-pathspecs"@);
    }
    assert(option == "--glob-pathspecs".spec_bytes() ==> valid_utf8(option) && option.len() > 0
        && option[0] == 0x2d) by {
        reveal_strlit("--glob-pathspecs");
        assert(is_ascii("--glob-pathspecs"));
        encode_utf8_valid_utf8("--glob-pathspecs"@);
    }
    assert(option == "--noglob-pathspecs".spec_bytes() ==> valid_utf8(option) && option.len() > 0
        && option[0] == 0x2d) by {
        reveal_strlit("--noglob-pathspecs");
        assert(is_ascii("--noglob-pathspecs"));
        encode_utf8_valid_utf8("--noglob-pathspecs"@);
    }
    assert(option == "--icase-pathspecs".spec_bytes() ==> valid_utf8(option) && option.len() > 0
        && option[0] == 0x2d) by {
        reveal_strlit("--icase-pathspecs");
        assert(is_ascii("--icase-pathspecs"));
        encode_utf8_valid_utf8("--icase-pathspecs"@);
    }
    assert(option == "--no-optional-locks".spec_bytes() ==> valid_utf8(option) && option.len() > 0
        && option[0] == 0x2d) by {
        reveal_strlit("--no-optional-locks");
        assert(is_ascii("--no-optional-locks"));
        encode_utf8_valid_utf8("--no-optional-locks"@);
    }
    assert(option == "-C".spec_bytes() ==> valid_utf8(option) && option.len() > 0
        && option[0] == 0x2d) by {
        reveal_strlit("-C");
        assert(is_ascii("-C"));
        encode_utf8_valid_utf8("-C"@);
    }
    assert(option == "-c".spec_bytes() ==> valid_utf8(option) && option.len() > 0
        && option[0] == 0x2d) by {
        reveal_strlit("-c");
        assert(is_ascii("-c"));
        encode_utf8_valid_utf8("-c"@);
    }
    assert(option == "--git-dir".spec_bytes() ==> valid_utf8(option) && option.len() > 0
        && option[0] == 0x2d) by {
        reveal_strlit("--git-dir");
        assert(is_ascii("--git-dir"));
        encode_utf8_valid_utf8("--git-dir"@);
    }
    assert(option == "--work-tree".spec_bytes() ==> valid_utf8(option) && option.len() > 0
        && option[0] == 0x2d) by {
        reveal_strlit("--work-tree");
        assert(is_ascii("--work-tree"));
        encode_utf8_valid_utf8("--work-tree"@);
    }
    assert(option == "--namespace".spec_bytes() ==> valid_utf8(option) && option.len() > 0
        && option[0] == 0x2d) by {
        reveal_strlit("--namespace");
        assert(is_ascii("--namespace"));
        encode_utf8_valid_utf8("--namespace"@);
    }
}

/// The value of a global option may follow a `=`, and is then no argument of its own.
#[verifier::spinoff_prover]
#[verifier::rlimit(60)]
pub proof fn the_value_of_a_global_may_follow_an_equals_sign(
    name: Seq<u8>,
    value: Seq<u8>,
    rest: Seq<Seq<u8>>,
)
    requires
        name == "--git-dir".spec_bytes() || name == "--work-tree".spec_bytes() || name
            == "--namespace".spec_bytes(),
        valid_utf8(name + seq![0x3du8] + value),
    ensures
        match globals_length(rest) {
            Some(n) => globals_length(seq![name + seq![0x3du8] + value] + rest) == Some(
                (n + 1) as nat,
            ),
            None => globals_length(seq![name + seq![0x3du8] + value] + rest) is None,
        },
{
    assert(name == "--git-dir".spec_bytes() ==> name.len() >= 9 && name[0] == 0x2d
        && "--".spec_bytes() == name.take(2) && !name.contains(0x3d)) by {
        reveal_strlit("--");
        reveal_strlit("--git-dir");
        assert(is_ascii("--"));
        assert(is_ascii("--git-dir"));
        assert("--".spec_bytes() =~= "--git-dir".spec_bytes().take(2));
    }
    assert(name == "--work-tree".spec_bytes() ==> name.len() >= 9 && name[0] == 0x2d
        && "--".spec_bytes() == name.take(2) && !name.contains(0x3d)) by {
        reveal_strlit("--");
        reveal_strlit("--work-tree");
        assert(is_ascii("--"));
        assert(is_ascii("--work-tree"));
        assert("--".spec_bytes() =~= "--work-tree".spec_bytes().take(2));
    }
    assert(name == "--namespace".spec_bytes() ==> name.len() >= 9 && name[0] == 0x2d
        && "--".spec_bytes() == name.take(2) && !name.contains(0x3d)) by {
        reveal_strlit("--");
        reveal_strlit("--namespace");
        assert(is_ascii("--"));
        assert(is_ascii("--namespace"));
        assert("--".spec_bytes() =~= "--namespace".spec_bytes().take(2));
    }
    let spelled = name + seq![0x3du8] + value;
    let at = name.len() as int;
    assert(spelled[at] == 0x3d);
    assert forall|i: int| 0 <= i < at implies spelled[i] != 0x3d by {
        assert(spelled[i] == name[i]);
    }
    bytes::lemma_first_index_unique(spelled, EQUALS, at);
    assert(spelled.take(at) =~= name);
    assert(spelled.take(2) =~= name.take(2));
    assert(spelled[0] == name[0]);
    lemma_assigned(spelled, at);
    assert((seq![spelled] + rest).skip(1) =~= rest);
    assert((seq![spelled] + rest)[0] == spelled);
}

/// An option that takes a separate value does not stand alone.
#[verifier::spinoff_prover]
#[verifier::rlimit(60)]
proof fn lemma_not_standalone(option: Seq<u8>)
    requires
        global_with_value(option),
    ensures
        !global_standalone(option),
{
    reveal_strlit("-p");
    reveal_strlit("--paginate");
    reveal_strlit("-P");
    reveal_strlit("--no-pager");
    reveal_strlit("--bare");
    reveal_strlit("--no-replace-objects");
    reveal_strlit("--literal-pathspecs");
    reveal_strlit("--glob-pathspecs");
    reveal_strlit("--noglob-pathspecs");
    reveal_strlit("--icase-pathspecs");
    reveal_strlit("--no-optional-locks");
    reveal_strlit("-C");
    reveal_strlit("-c");
    reveal_strlit("--git-dir");
    reveal_strlit("--work-tree");
    reveal_strlit("--namespace");
    assert(is_ascii("-p"));
    assert(is_ascii("--paginate"));
    assert(is_ascii("-P"));
    assert(is_ascii("--no-pager"));
    assert(is_ascii("--bare"));
    assert(is_ascii("--no-replace-objects"));
    assert(is_ascii("--literal-pathspecs"));
    assert(is_ascii("--glob-pathspecs"));
    assert(is_ascii("--noglob-pathspecs"));
    assert(is_ascii("--icase-pathspecs"));
    assert(is_ascii("--no-optional-locks"));
    assert(is_ascii("-C"));
    assert(is_ascii("-c"));
    assert(is_ascii("--git-dir"));
    assert(is_ascii("--work-tree"));
    assert(is_ascii("--namespace"));
    assert("-C".spec_bytes()[1] == 0x43);
    assert("-p".spec_bytes()[1] == 0x70);
    assert("-C".spec_bytes()[1] == 0x43);
    assert("-P".spec_bytes()[1] == 0x50);
    assert("-c".spec_bytes()[1] == 0x63);
    assert("-p".spec_bytes()[1] == 0x70);
    assert("-c".spec_bytes()[1] == 0x63);
    assert("-P".spec_bytes()[1] == 0x50);
}

/// A word with a `=` at that place is no global option by itself.
#[verifier::spinoff_prover]
#[verifier::rlimit(60)]
proof fn lemma_assigned(token: Seq<u8>, at: int)
    requires
        9 <= at < token.len(),
        token[at] == 0x3d,
    ensures
        !global_standalone(token),
        !global_with_value(token),
{
    if token == "-p".spec_bytes() {
        reveal_strlit("-p");
        assert(is_ascii("-p"));
    }
    if token == "--paginate".spec_bytes() {
        reveal_strlit("--paginate");
        assert(is_ascii("--paginate"));
        assert("--paginate".spec_bytes()[at] != 0x3d);
    }
    if token == "-P".spec_bytes() {
        reveal_strlit("-P");
        assert(is_ascii("-P"));
    }
    if token == "--no-pager".spec_bytes() {
        reveal_strlit("--no-pager");
        assert(is_ascii("--no-pager"));
        assert("--no-pager".spec_bytes()[at] != 0x3d);
    }
    if token == "--bare".spec_bytes() {
        reveal_strlit("--bare");
        assert(is_ascii("--bare"));
    }
    if token == "--no-replace-objects".spec_bytes() {
        reveal_strlit("--no-replace-objects");
        assert(is_ascii("--no-replace-objects"));
        assert("--no-replace-objects".spec_bytes()[at] != 0x3d);
    }
    if token == "--literal-pathspecs".spec_bytes() {
        reveal_strlit("--literal-pathspecs");
        assert(is_ascii("--literal-pathspecs"));
        assert("--literal-pathspecs".spec_bytes()[at] != 0x3d);
    }
    if token == "--glob-pathspecs".spec_bytes() {
        reveal_strlit("--glob-pathspecs");
        assert(is_ascii("--glob-pathspecs"));
        assert("--glob-pathspecs".spec_bytes()[at] != 0x3d);
    }
    if token == "--noglob-pathspecs".spec_bytes() {
        reveal_strlit("--noglob-pathspecs");
        assert(is_ascii("--noglob-pathspecs"));
        assert("--noglob-pathspecs".spec_bytes()[at] != 0x3d);
    }
    if token == "--icase-pathspecs".spec_bytes() {
        reveal_strlit("--icase-pathspecs");
        assert(is_ascii("--icase-pathspecs"));
        assert("--icase-pathspecs".spec_bytes()[at] != 0x3d);
    }
    if token == "--no-optional-locks".spec_bytes() {
        reveal_strlit("--no-optional-locks");
        assert(is_ascii("--no-optional-locks"));
        assert("--no-optional-locks".spec_bytes()[at] != 0x3d);
    }
    if token == "-C".spec_bytes() {
        reveal_strlit("-C");
        assert(is_ascii("-C"));
    }
    if token == "-c".spec_bytes() {
        reveal_strlit("-c");
        assert(is_ascii("-c"));
    }
    if token == "--git-dir".spec_bytes() {
        reveal_strlit("--git-dir");
        assert(is_ascii("--git-dir"));
    }
    if token == "--work-tree".spec_bytes() {
        reveal_strlit("--work-tree");
        assert(is_ascii("--work-tree"));
        assert("--work-tree".spec_bytes()[at] != 0x3d);
    }
    if token == "--namespace".spec_bytes() {
        reveal_strlit("--namespace");
        assert(is_ascii("--namespace"));
        assert("--namespace".spec_bytes()[at] != 0x3d);
    }
}

/// The globals end at the first argument without a leading dash or that is no text, and a
/// leading dash that starts no known global option makes all of it unknown.
#[verifier::spinoff_prover]
#[verifier::rlimit(60)]
pub proof fn unknown_globals_are_not_guessed(arg: Seq<u8>, rest: Seq<Seq<u8>>)
    ensures
        globals_length(Seq::empty()) == Some(0nat),
        !valid_utf8(arg) || arg.len() == 0 || arg[0] != 0x2d ==> globals_length(seq![arg] + rest)
            == Some(0nat),
        valid_utf8(arg) && arg.len() > 0 && arg[0] == 0x2d && globals_length(seq![arg] + rest)
            is Some ==> ({
            ||| arg == "-p".spec_bytes()
            ||| arg == "--paginate".spec_bytes()
            ||| arg == "-P".spec_bytes()
            ||| arg == "--no-pager".spec_bytes()
            ||| arg == "--bare".spec_bytes()
            ||| arg == "--no-replace-objects".spec_bytes()
            ||| arg == "--literal-pathspecs".spec_bytes()
            ||| arg == "--glob-pathspecs".spec_bytes()
            ||| arg == "--noglob-pathspecs".spec_bytes()
            ||| arg == "--icase-pathspecs".spec_bytes()
            ||| arg == "--no-optional-locks".spec_bytes()
            ||| arg == "-C".spec_bytes()
            ||| arg == "-c".spec_bytes()
            ||| arg == "--git-dir".spec_bytes()
            ||| arg == "--work-tree".spec_bytes()
            ||| arg == "--namespace".spec_bytes()
            ||| "--git-dir=".spec_bytes().is_prefix_of(arg)
            ||| "--work-tree=".spec_bytes().is_prefix_of(arg)
            ||| "--namespace=".spec_bytes().is_prefix_of(arg)
        }),
{
    assert((seq![arg] + rest)[0] == arg);
    if let Some((name, value)) = assignment(arg) {
        let k = bytes::first_index(arg, EQUALS);
        bytes::lemma_first_index(arg, EQUALS);
        reveal_strlit("--");
        reveal_strlit("-C");
        reveal_strlit("-c");
        assert(is_ascii("--"));
        assert(is_ascii("-C"));
        assert(is_ascii("-c"));
        assert(arg.take(2)[1] == 0x2d);
        assert(k != 1);
        if name == "-C".spec_bytes() || name == "-c".spec_bytes() {
            assert(name[1] == arg[1]);
        }
        if name == "--git-dir".spec_bytes() {
            reveal_strlit("--git-dir");
            reveal_strlit("--git-dir=");
            assert(is_ascii("--git-dir"));
            assert(is_ascii("--git-dir="));
            assert(arg.take(10) =~= "--git-dir=".spec_bytes()) by {
                assert forall|i: int| 0 <= i < 10 implies #[trigger] arg.take(10)[i]
                    == "--git-dir=".spec_bytes()[i] by {
                    if i < 9 {
                        assert(arg.take(9)[i] == name[i]);
                        assert("--git-dir"@[i] == "--git-dir="@[i]);
                    }
                }
            }
        }
        if name == "--work-tree".spec_bytes() {
            reveal_strlit("--work-tree");
            reveal_strlit("--work-tree=");
            assert(is_ascii("--work-tree"));
            assert(is_ascii("--work-tree="));
            assert(arg.take(12) =~= "--work-tree=".spec_bytes()) by {
                assert forall|i: int| 0 <= i < 12 implies #[trigger] arg.take(12)[i]
                    == "--work-tree=".spec_bytes()[i] by {
                    if i < 11 {
                        assert(arg.take(11)[i] == name[i]);
                        assert("--work-tree"@[i] == "--work-tree="@[i]);
                    }
                }
            }
        }
        if name == "--namespace".spec_bytes() {
            reveal_strlit("--namespace");
            reveal_strlit("--namespace=");
            assert(is_ascii("--namespace"));
            assert(is_ascii("--namespace="));
            assert(arg.take(12) =~= "--namespace=".spec_bytes()) by {
                assert forall|i: int| 0 <= i < 12 implies #[trigger] arg.take(12)[i]
                    == "--namespace=".spec_bytes()[i] by {
                    if i < 11 {
                        assert(arg.take(11)[i] == name[i]);
                        assert("--namespace"@[i] == "--namespace="@[i]);
                    }
                }
            }
        }
    }
}

/// `--name=value` is cut at its first `=`: the halves give the whole back, and the name
/// holds none. Without the dashes or a `=` there is nothing to cut.
pub proof fn an_assignment_is_cut_at_its_first_equals_sign(token: Seq<u8>, name: Seq<u8>, value: Seq<u8>)
    ensures
        assignment(token) is Some <==> token.len() >= 2 && token[0] == 0x2d && token[1] == 0x2d
            && token.contains(0x3d),
        assignment(token) == Some((name, value)) ==> token == name + seq![0x3du8] + value
            && !name.contains(0x3d),
{
    reveal_strlit("--");
    assert(is_ascii("--"));
    bytes::lemma_first_index(token, EQUALS);
    let k = bytes::first_index(token, EQUALS);
    if token.len() >= 2 {
        assert(token.take(2)[0] == token[0]);
        assert(token.take(2)[1] == token[1]);
        if token[0] == 0x2d && token[1] == 0x2d {
            assert("--".spec_bytes() =~= token.take(2));
        }
    }
    if k < token.len() {
        assert(token =~= token.take(k) + seq![0x3du8] + token.skip(k + 1));
    }
}

/// Every argument of the plain form is what it seems: `add`, a path and, where there is one,
/// a commit-ish make a request with nothing else in it.
#[verifier::spinoff_prover]
#[verifier::rlimit(60)]
pub proof fn a_plain_request(path: Seq<u8>, commit_ish: Seq<u8>)
    requires
        !valid_utf8(path) || path.len() == 0 || path[0] != 0x2d,
        !valid_utf8(commit_ish) || commit_ish.len() == 0 || commit_ish[0] != 0x2d,
    ensures
        ({
            let plain = Add {
                globals: Seq::empty(),
                passthrough: seq![path],
                double_dash: None,
                path,
                commit_ish: None,
                quiet: false,
                checkout: true,
                orphan: false,
                no_cow: false,
                isolated_metadata: false,
                detach: false,
            };
            &&& request(seq!["add".spec_bytes(), path]) == Request::Add(plain)
            &&& request(seq!["add".spec_bytes(), path, commit_ish]) == Request::Add(
                Add {
                    passthrough: seq![path, commit_ish],
                    commit_ish: Some(commit_ish),
                    ..plain
                },
            )
            &&& request(seq!["add".spec_bytes()]) == (Request::Delegate {
                git_args: seq!["worktree".spec_bytes(), "add".spec_bytes()],
                reason: "no worktree path given"@,
            })
        }),
{
    let nothing = Gathered::nothing();
    let word = "add".spec_bytes();
    reveal_strlit("add");
    assert(is_ascii("add"));
    reveal_strlit("--version");
    assert(is_ascii("--version"));
    reveal_strlit("-V");
    assert(is_ascii("-V"));
    assert(word[0] == 0x61);
    let empty = Seq::<Seq<u8>>::empty();
    own_flags_and_positional_words(path, empty, nothing);
    own_flags_and_positional_words(path, seq![commit_ish], nothing);
    let one = nothing.with_positional(path);
    own_flags_and_positional_words(commit_ish, empty, one);
    let short = seq![word, path];
    let long = seq![word, path, commit_ish];
    assert(short.skip(1) =~= seq![path] + empty);
    assert(long.skip(1) =~= seq![path] + seq![commit_ish]);
    assert(seq![commit_ish] + empty =~= seq![commit_ish]);
    assert(short.take(0) =~= empty);
    assert(long.take(0) =~= empty);
    assert(one.passthrough =~= seq![path]);
    assert(one.positionals =~= seq![path]);
    let two = one.with_positional(commit_ish);
    assert(two.passthrough =~= seq![path, commit_ish]);
    assert(two.positionals =~= seq![path, commit_ish]);
    assert(gather(empty, one) == Ok::<Gathered, Seq<char>>(one));
    assert(gather(empty, two) == Ok::<Gathered, Seq<char>>(two));
    assert(seq![word].skip(1) =~= empty);
    assert(seq!["worktree".spec_bytes()] + seq![word] =~= seq!["worktree".spec_bytes(), word]);
}

/// The first positional argument is the path and the second the commit-ish; with none, or
/// with more than two, there is no request. All that the options said is in it.
pub proof fn a_request_holds_what_was_gathered(globals: Seq<Seq<u8>>, args: Seq<Seq<u8>>)
    requires
        gather(args, Gathered::nothing()) is Ok,
    ensures
        ({
            let gathered = gather(args, Gathered::nothing())->Ok_0;
            let asked = add_request(globals, args);
            &&& gathered.positionals.len() == 0 ==> asked == Err::<Add, Seq<char>>(
                "no worktree path given"@,
            )
            &&& gathered.positionals.len() > 2 ==> asked == Err::<Add, Seq<char>>(
                "more positional arguments than `git worktree add` takes"@,
            )
            &&& 1 <= gathered.positionals.len() <= 2 ==> {
                &&& asked matches Ok(add)
                &&& add.globals == globals
                &&& add.passthrough == gathered.passthrough
                &&& add.double_dash == gathered.double_dash
                &&& add.path == gathered.positionals[0]
                &&& add.commit_ish is Some <==> gathered.positionals.len() == 2
                &&& add.commit_ish is Some ==> add.commit_ish->Some_0 == gathered.positionals[1]
                &&& add.quiet == gathered.quiet
                &&& add.checkout == gathered.checkout
                &&& add.orphan == gathered.orphan
                &&& add.no_cow == gathered.no_cow
                &&& add.isolated_metadata == gathered.isolated_metadata
                &&& add.detach == gathered.detach
            }
        }),
{
}

/// Only `add` after the globals is taken on. Everything else goes to git as it is, with the
/// reason that holds; the version is reported only where it is all that was asked.
pub proof fn only_add_is_taken_on(args: Seq<Seq<u8>>)
    ensures
        ({
            let to_git = |reason: Seq<char>|
                request(args) == (Request::Delegate {
                    git_args: seq!["worktree".spec_bytes()] + args,
                    reason,
                });
            let version = args == seq!["--version".spec_bytes()] || args == seq![
                "-V".spec_bytes(),
            ];
            &&& request(args) is Version <==> version
            &&& !version ==> match globals_length(args) {
                None => to_git("unrecognised git global option"@),
                Some(n) => {
                    &&& n == args.len() || args[n as int] != "add".spec_bytes() ==> to_git(
                        "not a `worktree add` invocation"@,
                    )
                    &&& n < args.len() && args[n as int] == "add".spec_bytes() ==> match add_request(
                        args.take(n as int),
                        args.skip(n as int + 1),
                    ) {
                        Ok(add) => request(args) == Request::Add(add),
                        Err(reason) => to_git(reason),
                    }
                },
            }
        }),
{
    lemma_globals_length(args);
    if args.len() == 1 && args[0] == "--version".spec_bytes() {
        assert(args =~= seq!["--version".spec_bytes()]);
    }
    if args.len() == 1 && args[0] == "-V".spec_bytes() {
        assert(args =~= seq!["-V".spec_bytes()]);
    }
    if args == seq!["--version".spec_bytes()] || args == seq!["-V".spec_bytes()] {
        assert(args.len() == 1);
    }
}

/// The step that creates the worktree without files adds `--no-checkout` and nothing else:
/// before a recorded `--`, or at the end.
pub proof fn no_checkout_goes_before_the_double_dash(add: Add)
    requires
        add.double_dash matches Some(i) ==> i <= add.passthrough.len(),
    ensures
        add.double_dash is None ==> add.no_checkout_args() == seq![
            "worktree".spec_bytes(),
            "add".spec_bytes(),
        ] + add.passthrough + seq!["--no-checkout".spec_bytes()],
        add.double_dash matches Some(i) ==> add.no_checkout_args() == seq![
            "worktree".spec_bytes(),
            "add".spec_bytes(),
        ] + add.passthrough.take(i as int) + seq!["--no-checkout".spec_bytes()]
            + add.passthrough.skip(i as int),
        add.git_args() == add.globals + seq!["worktree".spec_bytes(), "add".spec_bytes()]
            + add.passthrough,
{
    match add.double_dash {
        None => {
            assert(add.no_checkout_args() =~= seq!["worktree".spec_bytes(), "add".spec_bytes()]
                + add.passthrough + seq!["--no-checkout".spec_bytes()]);
        },
        Some(i) => {
            assert(add.no_checkout_args() =~= seq!["worktree".spec_bytes(), "add".spec_bytes()]
                + add.passthrough.take(i as int) + seq!["--no-checkout".spec_bytes()]
                + add.passthrough.skip(i as int));
        },
    }
}

/// The contents of a parsed command line are all that it holds.
pub proof fn contents_leave_nothing_out(add: AddCommand, asked: Invocation)
    ensures
        add@.globals == bytes::views(add.globals@),
        add@.passthrough == bytes::views(add.passthrough@),
        add.double_dash is None <==> add@.double_dash is None,
        add.double_dash matches Some(i) ==> add@.double_dash == Some(i as nat),
        add@.path == add.path@,
        add.commit_ish is None <==> add@.commit_ish is None,
        add.commit_ish matches Some(name) ==> add@.commit_ish == Some(name@),
        add@.quiet == add.quiet,
        add@.checkout == add.checkout,
        add@.orphan == add.orphan,
        add@.no_cow == add.no_cow,
        add@.isolated_metadata == add.isolated_metadata,
        add@.detach == add.detach,
        asked is Version <==> asked@ is Version,
        asked is Add <==> asked@ is Add,
        asked is Delegate <==> asked@ is Delegate,
        asked matches Invocation::Add(inner) ==> asked@ == Request::Add(inner@),
        asked matches Invocation::Delegate { git_args, reason } ==> asked@ == (Request::Delegate {
            git_args: bytes::views(git_args@),
            reason: reason@,
        }),
{
}

} // verus!
