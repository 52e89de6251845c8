//! The clone phase: choose a source, plan, clone, and write the scratch index.

use vstd::prelude::*;
use vstd::string::*;

use crate::bytes;
use crate::sprout::checkout;
use crate::sprout::checkout::Intended;
use crate::sprout::checkout::Landed;
use crate::sprout::checkout::Planned;
use crate::sprout::checkout::Record;
use crate::sprout::differences;
use crate::sprout::finish;
use crate::sprout::text;
use crate::tree;
use crate::verify;
use crate::verify::AttributeFiles;

verus! {

/// What there is to report about the clone phase.
#[derive(Debug, PartialEq, Eq)]
pub struct Report {
    /// The checkout that was cloned from.
    pub source: Option<Vec<u8>>,
    pub cloned_directories: usize,
    pub cloned: usize,
    pub skipped: usize,
    pub checked_out_by_git: usize,
    /// Why something was left to git, in the order in which it turned out.
    pub reasons: Vec<String>,
}

/// The content of a [`Report`].
pub struct Account {
    pub source: Option<Seq<u8>>,
    pub cloned_directories: usize,
    pub cloned: usize,
    pub skipped: usize,
    pub checked_out_by_git: usize,
    pub reasons: Seq<Seq<char>>,
}

/// The characters of texts.
pub open spec fn wordings(texts: Seq<String>) -> Seq<Seq<char>> {
    Seq::new(texts.len(), |i: int| texts[i]@)
}

impl View for Report {
    type V = Account;

    open spec fn view(&self) -> Account {
        Account {
            source: bytes::view_of(self.source),
            cloned_directories: self.cloned_directories,
            cloned: self.cloned,
            skipped: self.skipped,
            checked_out_by_git: self.checked_out_by_git,
            reasons: wordings(self.reasons@),
        }
    }
}

impl Account {
    /// Nothing happened yet.
    pub open spec fn nothing() -> Account {
        Account {
            source: None,
            cloned_directories: 0,
            cloned: 0,
            skipped: 0,
            checked_out_by_git: 0,
            reasons: Seq::empty(),
        }
    }

    /// The same with one more reason.
    pub open spec fn with_reason(self, reason: Seq<char>) -> Account {
        Account { reasons: self.reasons.push(reason), ..self }
    }
}

impl Report {
    /// Nothing happened yet.
    fn nothing() -> (r: Report)
        ensures
            r@ == Account::nothing(),
    {
        let r = Report {
            source: None,
            cloned_directories: 0,
            cloned: 0,
            skipped: 0,
            checked_out_by_git: 0,
            reasons: Vec::new(),
        };
        assert(r@.reasons =~= Seq::<Seq<char>>::empty());
        r
    }

    /// Notes one more reason.
    fn fall_back(&mut self, reason: String)
        ensures
            final(self)@ == old(self)@.with_reason(reason@),
    {
        let ghost prior = self.reasons@;
        self.reasons.push(reason);
        assert(wordings(self.reasons@) =~= wordings(prior).push(reason@));
    }
}

/// What was found out before anything is cloned.
#[derive(Debug, PartialEq, Eq)]
pub struct Ground {
    /// The commit to check out.
    pub head: Vec<u8>,
    /// The repository's object ids are SHA-256 ones, and not SHA-1.
    pub sha256: bool,
    /// The new worktree's index file.
    pub index: Vec<u8>,
    /// The checkout to clone from.
    pub source: Vec<u8>,
    /// The commit that is checked out there.
    pub source_head: Vec<u8>,
    /// The index file there.
    pub source_index: Vec<u8>,
}

/// The content of a [`Ground`].
pub struct Basis {
    pub head: Seq<u8>,
    pub sha256: bool,
    pub index: Seq<u8>,
    pub source: Seq<u8>,
    pub source_head: Seq<u8>,
    pub source_index: Seq<u8>,
}

impl View for Ground {
    type V = Basis;

    open spec fn view(&self) -> Basis {
        Basis {
            head: self.head@,
            sha256: self.sha256,
            index: self.index@,
            source: self.source@,
            source_head: self.source_head@,
            source_index: self.source_index@,
        }
    }
}

impl Basis {
    /// Nothing is known yet.
    pub open spec fn nothing() -> Basis {
        Basis {
            head: Seq::empty(),
            sha256: false,
            index: Seq::empty(),
            source: Seq::empty(),
            source_head: Seq::empty(),
            source_index: Seq::empty(),
        }
    }
}

/// What decides, in one worktree, how blob bytes become working-tree bytes.
#[derive(Debug, PartialEq, Eq)]
pub struct Settings {
    /// The value of `core.autocrlf`.
    pub autocrlf: Option<Vec<u8>>,
    /// The value of `core.eol`.
    pub eol: Option<Vec<u8>>,
    /// The value of `core.symlinks`.
    pub symlinks: Option<Vec<u8>>,
    /// The contents of the worktree's own `info/attributes`.
    pub attributes: Option<Vec<u8>>,
}

/// The content of [`Settings`].
pub struct Conversion {
    pub autocrlf: Option<Seq<u8>>,
    pub eol: Option<Seq<u8>>,
    pub symlinks: Option<Seq<u8>>,
    pub attributes: Option<Seq<u8>>,
}

impl View for Settings {
    type V = Conversion;

    open spec fn view(&self) -> Conversion {
        Conversion {
            autocrlf: bytes::view_of(self.autocrlf),
            eol: bytes::view_of(self.eol),
            symlinks: bytes::view_of(self.symlinks),
            attributes: bytes::view_of(self.attributes),
        }
    }
}

/// Why the two worktrees would convert blob bytes differently, if they would. Cloning is
/// only sound when both resolve all of it the same way.
pub open spec fn mismatch(source: Conversion, destination: Conversion) -> Option<Seq<char>> {
    if source.autocrlf != destination.autocrlf {
        Some("core.autocrlf"@ + " differs between the worktrees"@)
    } else if source.eol != destination.eol {
        Some("core.eol"@ + " differs between the worktrees"@)
    } else if source.symlinks != destination.symlinks {
        Some("core.symlinks"@ + " differs between the worktrees"@)
    } else if source.attributes != destination.attributes {
        Some("the worktrees have different attributes files"@)
    } else {
        None
    }
}

/// Whether two optional byte strings are the same.
fn same_value(a: &Option<Vec<u8>>, b: &Option<Vec<u8>>) -> (r: bool)
    ensures
        r == (bytes::view_of(*a) == bytes::view_of(*b)),
{
    match (a, b) {
        (Some(a), Some(b)) => bytes::same_bytes(a.as_slice(), b.as_slice()),
        (None, None) => true,
        _ => false,
    }
}

/// Whether the two worktrees would convert blob bytes differently, and why.
pub fn conversion_mismatch(source: &Settings, destination: &Settings) -> (r: Option<String>)
    ensures
        crate::source::characters(r) == mismatch(source@, destination@),
{
    let differs = " differs between the worktrees";
    if !same_value(&source.autocrlf, &destination.autocrlf) {
        return Some(text::message("core.autocrlf", differs));
    }
    if !same_value(&source.eol, &destination.eol) {
        return Some(text::message("core.eol", differs));
    }
    if !same_value(&source.symlinks, &destination.symlinks) {
        return Some(text::message("core.symlinks", differs));
    }
    if !same_value(&source.attributes, &destination.attributes) {
        return Some("the worktrees have different attributes files".to_owned());
    }
    None
}

/// Whether the repository writes a split index: git's own test hook says so, or the
/// configuration does.
pub open spec fn splits(hook: Option<Seq<u8>>, config: Option<Seq<u8>>) -> bool {
    hook == Some("1".spec_bytes()) || config == Some("true".spec_bytes())
}

/// Whether an optional byte string is exactly this text.
fn is_value(value: Option<&[u8]>, text: &str) -> (r: bool)
    ensures
        r == (bytes::slice_of(value) == Some(text.spec_bytes())),
{
    match value {
        Some(value) => bytes::is_word(value, text),
        None => false,
    }
}

/// Whether this repository writes a split index, from the same sources git consults: the
/// environment variable `GIT_TEST_SPLIT_INDEX` and the configuration of `core.splitIndex`.
pub fn splits_the_index(hook: Option<&[u8]>, config: Option<&[u8]>) -> (r: bool)
    ensures
        r == splits(bytes::slice_of(hook), bytes::slice_of(config)),
{
    is_value(hook, "1") || is_value(config, "true")
}

/// Asks for a file in a worktree's git directory.
pub open spec fn git_path_command(file: Seq<u8>) -> Seq<Seq<u8>> {
    seq![
        "rev-parse".spec_bytes(),
        "--path-format=absolute".spec_bytes(),
        "--git-path".spec_bytes(),
        file,
    ]
}

fn git_path_args(file: &str) -> (args: Vec<Vec<u8>>)
    ensures
        bytes::views(args@) == git_path_command(file.spec_bytes()),
{
    let args = vec![
        bytes::word("rev-parse"),
        bytes::word("--path-format=absolute"),
        bytes::word("--git-path"),
        bytes::word(file),
    ];
    assert(bytes::views(args@) =~= git_path_command(file.spec_bytes()));
    args
}

/// The arguments that ask for a worktree's index file.
pub fn index_args() -> (args: Vec<Vec<u8>>)
    ensures
        bytes::views(args@) == git_path_command("index".spec_bytes()),
{
    git_path_args("index")
}

/// The arguments that ask for a worktree's own attributes file.
pub fn attributes_args() -> (args: Vec<Vec<u8>>)
    ensures
        bytes::views(args@) == git_path_command("info/attributes".spec_bytes()),
{
    git_path_args("info/attributes")
}

/// Lists a commit's tree, with all directories.
pub open spec fn tree_command(commit: Seq<u8>) -> Seq<Seq<u8>> {
    seq![
        "ls-tree".spec_bytes(),
        "-r".spec_bytes(),
        "-t".spec_bytes(),
        "-z".spec_bytes(),
        commit,
    ]
}

/// The arguments that list a commit's tree.
pub fn tree_args(commit: &[u8]) -> (args: Vec<Vec<u8>>)
    ensures
        bytes::views(args@) == tree_command(commit@),
{
    let mut args = vec![
        bytes::word("ls-tree"),
        bytes::word("-r"),
        bytes::word("-t"),
        bytes::word("-z"),
    ];
    args.push(bytes::copy(commit));
    assert(bytes::views(args@) =~= tree_command(commit@));
    args
}

/// Lets git take the stat data of every path in the index anew.
pub open spec fn refresh_command() -> Seq<Seq<u8>> {
    seq!["update-index".spec_bytes(), "--really-refresh".spec_bytes()]
}

/// The arguments that refresh the scratch index, where that is called for.
///
/// Git for Windows records stat fields that native metadata reports as zeros. Without the
/// refresh the reset that follows treats every cloned path as stale and writes it again,
/// which discards the clones that were just made.
pub fn refresh_args(windows: bool) -> (args: Option<Vec<Vec<u8>>>)
    ensures
        args is Some <==> windows,
        args matches Some(args) ==> bytes::views(args@) == refresh_command(),
{
    if !windows {
        return None;
    }
    let args = vec![bytes::word("update-index"), bytes::word("--really-refresh")];
    assert(bytes::views(args@) =~= refresh_command());
    Some(args)
}

/// What comes next.
#[derive(Debug)]
pub enum Stage {
    /// Ask git, in the new worktree, for the commit to check out.
    Head,
    /// Ask git, in the new worktree, for the object format.
    Format,
    /// Ask git, in the new worktree, for its index file.
    Index,
    /// Find out which version of the index the repository writes.
    Version,
    /// Find out what the environment and the configuration say about splitting the index.
    Split,
    /// Choose the checkout to clone from.
    Source,
    /// Find out how both worktrees convert blob bytes.
    Conversion,
    /// List the tree of the commit to check out.
    TargetTree,
    /// Ask git, in the source, for the commit that is checked out.
    SourceHead,
    /// List the tree of that commit.
    SourceTree,
    /// Ask git, in the source, for its index file.
    SourceIndexPath,
    /// Read that index.
    SourceIndex,
    /// Find the attribute files of both sides, and those in the source that may be modified.
    Attributes,
    /// Ask git which of those really are.
    Dirty { target: AttributeFiles, source: AttributeFiles, suspect: Vec<Vec<u8>> },
    /// Find the directories in which paths of the two sides collide.
    Collide { poisoned: Vec<Vec<u8>> },
    /// Judge every path of the target tree outside of the poisoned directories.
    Verify { poisoned: Vec<Vec<u8>> },
    /// Ask git which of the racy paths really differ.
    Racy { considered: usize, paths: Vec<Planned>, racy: Vec<Planned> },
    /// Ask git for the attributes that convert, of every path.
    Convert { considered: usize, paths: Vec<Planned> },
    /// Make a plan for these paths and clone it.
    Clone { considered: usize, paths: Vec<Planned> },
    /// Write the scratch index.
    WriteIndex { records: Vec<Record> },
    /// Refresh the scratch index.
    Refresh,
    /// Nothing is left to do.
    Finished,
}

/// The content of a [`Stage`].
pub enum Doing {
    Head,
    Format,
    Index,
    Version,
    Split,
    Source,
    Conversion,
    TargetTree,
    SourceHead,
    SourceTree,
    SourceIndexPath,
    SourceIndex,
    Attributes,
    Dirty {
        target: Map<Seq<u8>, gix_hash::ObjectId>,
        source: Map<Seq<u8>, gix_hash::ObjectId>,
        suspect: Seq<Seq<u8>>,
    },
    Collide { poisoned: Seq<Seq<u8>> },
    Verify { poisoned: Seq<Seq<u8>> },
    Racy { considered: usize, paths: Seq<Intended>, racy: Seq<Intended> },
    Convert { considered: usize, paths: Seq<Intended> },
    Clone { considered: usize, paths: Seq<Intended> },
    WriteIndex { records: Seq<Landed> },
    Refresh,
    Finished,
}

impl View for Stage {
    type V = Doing;

    open spec fn view(&self) -> Doing {
        match self {
            Stage::Head => Doing::Head,
            Stage::Format => Doing::Format,
            Stage::Index => Doing::Index,
            Stage::Version => Doing::Version,
            Stage::Split => Doing::Split,
            Stage::Source => Doing::Source,
            Stage::Conversion => Doing::Conversion,
            Stage::TargetTree => Doing::TargetTree,
            Stage::SourceHead => Doing::SourceHead,
            Stage::SourceTree => Doing::SourceTree,
            Stage::SourceIndexPath => Doing::SourceIndexPath,
            Stage::SourceIndex => Doing::SourceIndex,
            Stage::Attributes => Doing::Attributes,
            Stage::Dirty { target, source, suspect } => Doing::Dirty {
                target: target@,
                source: source@,
                suspect: bytes::views(suspect@),
            },
            Stage::Collide { poisoned } => Doing::Collide { poisoned: bytes::views(poisoned@) },
            Stage::Verify { poisoned } => Doing::Verify { poisoned: bytes::views(poisoned@) },
            Stage::Racy { considered, paths, racy } => Doing::Racy {
                considered: *considered,
                paths: checkout::intentions(paths@),
                racy: checkout::intentions(racy@),
            },
            Stage::Convert { considered, paths } => Doing::Convert {
                considered: *considered,
                paths: checkout::intentions(paths@),
            },
            Stage::Clone { considered, paths } => Doing::Clone {
                considered: *considered,
                paths: checkout::intentions(paths@),
            },
            Stage::WriteIndex { records } => Doing::WriteIndex {
                records: checkout::landings(records@),
            },
            Stage::Refresh => Doing::Refresh,
            Stage::Finished => Doing::Finished,
        }
    }
}

/// A new worktree that is being filled.
#[derive(Debug)]
pub struct Populate {
    pub ground: Ground,
    pub report: Report,
    pub stage: Stage,
}

/// The content of a [`Populate`].
pub struct Populating {
    pub ground: Basis,
    pub report: Account,
    pub stage: Doing,
}

impl View for Populate {
    type V = Populating;

    open spec fn view(&self) -> Populating {
        Populating { ground: self.ground@, report: self.report@, stage: self.stage@ }
    }
}

/// Whether the attributes at a path are not known to be the same on both sides: the files
/// disagree, or the one in the source is modified.
pub open spec fn in_doubt(
    target: Map<Seq<u8>, gix_hash::ObjectId>,
    source: Map<Seq<u8>, gix_hash::ObjectId>,
    suspect: Seq<Seq<u8>>,
    output: Option<Seq<u8>>,
    path: Seq<u8>,
) -> bool {
    ||| verify::disagree(target, source, Seq::empty(), path)
    ||| differences::changed(suspect, output, path)
}

/// The racy paths that git reports as changed.
pub open spec fn changed_among(racy: Seq<Intended>, output: Option<Seq<u8>>) -> Set<Seq<u8>> {
    Set::new(
        |path: Seq<u8>| differences::changed(checkout::intended_paths(racy), output, path),
    )
}

/// How many paths are left over, if any.
pub open spec fn left_over(considered: usize, cloned: nat) -> int {
    if considered >= cloned {
        considered - cloned
    } else {
        0
    }
}

impl Populating {
    /// Nothing is known or done yet.
    pub open spec fn start() -> Populating {
        Populating {
            ground: Basis::nothing(),
            report: Account::nothing(),
            stage: Doing::Head,
        }
    }

    /// Everything is left to git, for this reason.
    pub open spec fn refused(self, reason: Seq<char>) -> Populating {
        Populating {
            report: self.report.with_reason(reason),
            stage: Doing::Finished,
            ..self
        }
    }

    /// The next stage where all is well, and a refusal otherwise.
    pub open spec fn passed(self, success: bool, stage: Doing, reason: Seq<char>) -> Populating {
        if success {
            Populating { stage, ..self }
        } else {
            self.refused(reason)
        }
    }

    /// After the question for the commit to check out.
    pub open spec fn head(self, line: Option<Seq<u8>>) -> Populating {
        match line {
            Some(head) => Populating {
                ground: Basis { head, ..self.ground },
                stage: Doing::Format,
                ..self
            },
            None => self.refused("the new worktree has no HEAD"@),
        }
    }

    /// After the question for the object format.
    pub open spec fn format(self, line: Option<Seq<u8>>) -> Populating {
        if line == Some("sha1".spec_bytes()) {
            Populating {
                ground: Basis { sha256: false, ..self.ground },
                stage: Doing::Index,
                ..self
            }
        } else if line == Some("sha256".spec_bytes()) {
            Populating {
                ground: Basis { sha256: true, ..self.ground },
                stage: Doing::Index,
                ..self
            }
        } else {
            self.refused("unknown object format"@)
        }
    }

    /// After the question for the index file.
    pub open spec fn index(self, path: Option<Seq<u8>>) -> Populating {
        match path {
            Some(index) => Populating {
                ground: Basis { index, ..self.ground },
                stage: Doing::Version,
                ..self
            },
            None => self.refused("could not locate the new worktree's index"@),
        }
    }

    /// After the question for the version of the index.
    pub open spec fn version(self, written: u32, supported: u32) -> Populating {
        self.passed(
            written == supported,
            Doing::Split,
            "the repository writes index version "@ + text::decimal(written as nat),
        )
    }

    /// After the question whether the index is split. Git keeps the shape of the index it
    /// reads: a scratch index written whole would make git write the final one whole too.
    pub open spec fn split(self, hook: Option<Seq<u8>>, config: Option<Seq<u8>>) -> Populating {
        self.passed(
            !splits(hook, config),
            Doing::Source,
            "the repository splits the index"@,
        )
    }

    /// After the choice of a checkout to clone from.
    pub open spec fn source(self, chosen: Option<Seq<u8>>) -> Populating {
        match chosen {
            Some(source) => Populating {
                ground: Basis { source, ..self.ground },
                report: Account { source: chosen, ..self.report },
                stage: Doing::Conversion,
            },
            None => self.refused("no usable source checkout"@),
        }
    }

    /// After the comparison of how both worktrees convert blob bytes.
    pub open spec fn conversion(self, source: Conversion, destination: Conversion) -> Populating {
        match mismatch(source, destination) {
            Some(reason) => self.refused(reason),
            None => Populating { stage: Doing::TargetTree, ..self },
        }
    }

    /// After the listing of the target tree.
    pub open spec fn target_tree(self, success: bool) -> Populating {
        self.passed(success, Doing::SourceHead, "could not read the target tree"@)
    }

    /// After the question for the commit that is checked out in the source.
    pub open spec fn source_head(self, line: Option<Seq<u8>>) -> Populating {
        match line {
            Some(source_head) => Populating {
                ground: Basis { source_head, ..self.ground },
                stage: Doing::SourceTree,
                ..self
            },
            None => self.refused("the source checkout has no HEAD"@),
        }
    }

    /// After the listing of the source tree.
    pub open spec fn source_tree(self, success: bool) -> Populating {
        self.passed(success, Doing::SourceIndexPath, "could not read the source tree"@)
    }

    /// After the question for the source's index file.
    pub open spec fn source_index_path(self, path: Option<Seq<u8>>) -> Populating {
        match path {
            Some(source_index) => Populating {
                ground: Basis { source_index, ..self.ground },
                stage: Doing::SourceIndex,
                ..self
            },
            None => self.refused("could not locate the source index"@),
        }
    }

    /// After the source index was read.
    pub open spec fn source_index(self, success: bool) -> Populating {
        self.passed(success, Doing::Attributes, "could not read the source index"@)
    }

    /// After git said which of the racy paths differ.
    pub open spec fn racy(self, output: Option<Seq<u8>>) -> Populating {
        match self.stage {
            Doing::Racy { considered, paths, racy } => Populating {
                stage: Doing::Convert {
                    considered,
                    paths: differences::settled(paths, racy, changed_among(racy, output)),
                },
                ..self
            },
            _ => self,
        }
    }

    /// After git said which paths are converted.
    pub open spec fn converted(self, reported: Option<Seq<Option<bool>>>) -> Populating {
        match self.stage {
            Doing::Convert { considered, paths } => Populating {
                stage: Doing::Clone {
                    considered,
                    paths: differences::unconverted(paths, reported, paths.len() as int),
                },
                ..self
            },
            _ => self,
        }
    }

    /// The report once the plan was cloned.
    pub open spec fn counted(
        self,
        considered: usize,
        directories: usize,
        cloned: nat,
        demotion: Option<Seq<char>>,
    ) -> Account {
        let reasons = match demotion {
            Some(reason) => self.report.reasons.push(reason),
            None => self.report.reasons,
        };
        Account {
            source: self.report.source,
            cloned_directories: if demotion is None {
                directories
            } else {
                0
            },
            cloned: cloned as usize,
            skipped: left_over(considered, cloned) as usize,
            checked_out_by_git: left_over(considered, cloned) as usize,
            reasons: if cloned == 0 && reasons.len() == 0 {
                seq!["nothing in the target tree could be cloned"@]
            } else {
                reasons
            },
        }
    }

    /// After the plan, with so many whole directories in it, was cloned.
    pub open spec fn cloned(
        self,
        directories: usize,
        records: Seq<Landed>,
        demotion: Option<Seq<char>>,
    ) -> Populating {
        match self.stage {
            Doing::Clone { considered, .. } => Populating {
                report: self.counted(considered, directories, records.len(), demotion),
                stage: if records.len() == 0 {
                    Doing::Finished
                } else {
                    Doing::WriteIndex { records }
                },
                ..self
            },
            _ => self,
        }
    }

    /// After the scratch index was written.
    pub open spec fn written(self, success: bool) -> Populating {
        self.passed(success, Doing::Refresh, "could not write the scratch index"@)
    }

    /// After the scratch index was refreshed.
    pub open spec fn refreshed(self, success: bool) -> Populating {
        self.passed(
            success,
            Doing::Finished,
            "could not refresh the Windows scratch index"@,
        )
    }
}

impl Populate {
    /// Nothing is known or done yet.
    pub fn begin() -> (r: Populate)
        ensures
            r@ == Populating::start(),
    {
        let ground = Ground {
            head: Vec::new(),
            sha256: false,
            index: Vec::new(),
            source: Vec::new(),
            source_head: Vec::new(),
            source_index: Vec::new(),
        };
        Populate { ground, report: Report::nothing(), stage: Stage::Head }
    }

    /// Leaves everything to git, for this reason.
    fn refuse(self, reason: String) -> (r: Populate)
        ensures
            r@ == self@.refused(reason@),
    {
        let mut next = self;
        next.report.fall_back(reason);
        next.stage = Stage::Finished;
        next
    }

    /// Goes on where all is well, and leaves everything to git otherwise.
    fn pass(self, success: bool, stage: Stage, reason: &str) -> (r: Populate)
        ensures
            r@ == self@.passed(success, stage@, reason@),
    {
        if success {
            let mut next = self;
            next.stage = stage;
            next
        } else {
            self.refuse(reason.to_owned())
        }
    }

    /// Git named the commit to check out, or did not.
    pub fn head(self, line: Option<Vec<u8>>) -> (r: Populate)
        requires
            self.stage is Head,
        ensures
            r@ == self@.head(bytes::view_of(line)),
    {
        match line {
            Some(head) => {
                let mut next = self;
                next.ground.head = head;
                next.stage = Stage::Format;
                next
            },
            None => self.refuse("the new worktree has no HEAD".to_owned()),
        }
    }

    /// Git named the object format, or did not.
    pub fn format(self, line: Option<&[u8]>) -> (r: Populate)
        requires
            self.stage is Format,
        ensures
            r@ == self@.format(bytes::slice_of(line)),
    {
        let sha1 = is_value(line, "sha1");
        let sha256 = is_value(line, "sha256");
        if sha1 || sha256 {
            let mut next = self;
            next.ground.sha256 = !sha1;
            next.stage = Stage::Index;
            next
        } else {
            self.refuse("unknown object format".to_owned())
        }
    }

    /// Git named the index file, or did not.
    pub fn index(self, path: Option<Vec<u8>>) -> (r: Populate)
        requires
            self.stage is Index,
        ensures
            r@ == self@.index(bytes::view_of(path)),
    {
        match path {
            Some(index) => {
                let mut next = self;
                next.ground.index = index;
                next.stage = Stage::Version;
                next
            },
            None => self.refuse("could not locate the new worktree's index".to_owned()),
        }
    }

    /// The repository writes this version of the index, and that one is supported.
    pub fn version(self, written: u32, supported: u32) -> (r: Populate)
        requires
            self.stage is Version,
        ensures
            r@ == self@.version(written, supported),
    {
        let number = text::decimal_text(written as u64);
        let reason = text::message("the repository writes index version ", number.as_str());
        self.pass(written == supported, Stage::Split, reason.as_str())
    }

    /// The environment and the configuration say this about splitting the index.
    pub fn split(self, hook: Option<&[u8]>, config: Option<&[u8]>) -> (r: Populate)
        requires
            self.stage is Split,
        ensures
            r@ == self@.split(bytes::slice_of(hook), bytes::slice_of(config)),
    {
        let whole = !splits_the_index(hook, config);
        self.pass(whole, Stage::Source, "the repository splits the index")
    }

    /// This checkout was chosen to clone from, or none was.
    pub fn source(self, chosen: Option<Vec<u8>>) -> (r: Populate)
        requires
            self.stage is Source,
        ensures
            r@ == self@.source(bytes::view_of(chosen)),
    {
        match chosen {
            Some(source) => {
                let mut next = self;
                next.report.source = Some(bytes::copy(source.as_slice()));
                next.ground.source = source;
                next.stage = Stage::Conversion;
                next
            },
            None => self.refuse("no usable source checkout".to_owned()),
        }
    }

    /// The worktrees convert blob bytes like this.
    pub fn conversion(self, source: &Settings, destination: &Settings) -> (r: Populate)
        requires
            self.stage is Conversion,
        ensures
            r@ == self@.conversion(source@, destination@),
    {
        match conversion_mismatch(source, destination) {
            Some(reason) => self.refuse(reason),
            None => {
                let mut next = self;
                next.stage = Stage::TargetTree;
                next
            },
        }
    }

    /// The target tree was listed, or could not be.
    pub fn target_tree(self, success: bool) -> (r: Populate)
        requires
            self.stage is TargetTree,
        ensures
            r@ == self@.target_tree(success),
    {
        self.pass(success, Stage::SourceHead, "could not read the target tree")
    }

    /// Git named the commit that is checked out in the source, or did not.
    pub fn source_head(self, line: Option<Vec<u8>>) -> (r: Populate)
        requires
            self.stage is SourceHead,
        ensures
            r@ == self@.source_head(bytes::view_of(line)),
    {
        match line {
            Some(head) => {
                let mut next = self;
                next.ground.source_head = head;
                next.stage = Stage::SourceTree;
                next
            },
            None => self.refuse("the source checkout has no HEAD".to_owned()),
        }
    }

    /// The source tree was listed, or could not be.
    pub fn source_tree(self, success: bool) -> (r: Populate)
        requires
            self.stage is SourceTree,
        ensures
            r@ == self@.source_tree(success),
    {
        self.pass(success, Stage::SourceIndexPath, "could not read the source tree")
    }

    /// Git named the source's index file, or did not.
    pub fn source_index_path(self, path: Option<Vec<u8>>) -> (r: Populate)
        requires
            self.stage is SourceIndexPath,
        ensures
            r@ == self@.source_index_path(bytes::view_of(path)),
    {
        match path {
            Some(index) => {
                let mut next = self;
                next.ground.source_index = index;
                next.stage = Stage::SourceIndex;
                next
            },
            None => self.refuse("could not locate the source index".to_owned()),
        }
    }

    /// The source index was read, or could not be.
    pub fn source_index(self, success: bool) -> (r: Populate)
        requires
            self.stage is SourceIndex,
        ensures
            r@ == self@.source_index(success),
    {
        self.pass(success, Stage::Attributes, "could not read the source index")
    }

    /// These are the attribute files of both sides, and those in the source that may be
    /// modified.
    pub fn attributes(
        self,
        target: AttributeFiles,
        source: AttributeFiles,
        suspect: Vec<Vec<u8>>,
    ) -> (r: Populate)
        requires
            self.stage is Attributes,
        ensures
            r@ == (Populating {
                stage: Doing::Dirty {
                    target: target@,
                    source: source@,
                    suspect: bytes::views(suspect@),
                },
                ..self@
            }),
    {
        let mut next = self;
        next.stage = Stage::Dirty { target, source, suspect };
        next
    }

    /// Git said which of the attribute files in doubt differ from the index, or could not be
    /// asked. Poisoned are exactly the directories of the files that are not known to be the
    /// same on both sides, each once and in order.
    pub fn dirty(self, output: Option<&[u8]>) -> (r: Populate)
        requires
            self.stage is Dirty,
        ensures
            r@ == (Populating { stage: r@.stage, ..self@ }),
            r@.stage matches Doing::Collide { poisoned } && verify::ascending(poisoned) && forall|
                d: Seq<u8>,
            | #[trigger]
                poisoned.contains(d) <==> exists|p: Seq<u8>|
                    in_doubt(
                        self@.stage->Dirty_target,
                        self@.stage->Dirty_source,
                        self@.stage->Dirty_suspect,
                        bytes::slice_of(output),
                        p,
                    ) && #[trigger] tree::directory(p) == d,
    {
        let mut next = self;
        next.stage = match next.stage {
            Stage::Dirty { target, source, suspect } => {
                let dirty = differences::changed_paths(suspect.as_slice(), output);
                let poisoned = verify::poisoned_prefixes(&target, &source, dirty.as_slice());
                proof {
                    let given = bytes::slice_of(output);
                    let listed = bytes::views(dirty@);
                    assert forall|p: Seq<u8>|
                        verify::disagree(target@, source@, listed, p) <==> in_doubt(
                            target@,
                            source@,
                            bytes::views(suspect@),
                            given,
                            p,
                        ) by {
                        assert(listed.contains(p) <==> differences::changed(
                            bytes::views(suspect@),
                            given,
                            p,
                        ));
                    }
                }
                Stage::Collide { poisoned }
            },
            other => other,
        };
        next
    }

    /// Paths of the two sides collide in these directories as well.
    pub fn collided(self, prefixes: &[Vec<u8>]) -> (r: Populate)
        requires
            self.stage is Collide,
        ensures
            r@ == (Populating {
                stage: Doing::Verify {
                    poisoned: self@.stage->Collide_poisoned + bytes::views(prefixes@),
                },
                ..self@
            }),
    {
        let mut next = self;
        next.stage = match next.stage {
            Stage::Collide { poisoned } => {
                let mut poisoned = poisoned;
                bytes::append_all(&mut poisoned, prefixes);
                Stage::Verify { poisoned }
            },
            other => other,
        };
        next
    }

    /// So many paths were judged; these can be cloned, and about those git has to be asked.
    pub fn verified(self, considered: usize, paths: Vec<Planned>, racy: Vec<Planned>) -> (r:
        Populate)
        requires
            self.stage is Verify,
        ensures
            r@ == (Populating {
                stage: Doing::Racy {
                    considered,
                    paths: checkout::intentions(paths@),
                    racy: checkout::intentions(racy@),
                },
                ..self@
            }),
    {
        let mut next = self;
        next.stage = Stage::Racy { considered, paths, racy };
        next
    }

    /// Git said which of the racy paths differ from the index, or could not be asked.
    pub fn racy(self, output: Option<&[u8]>) -> (r: Populate)
        requires
            self.stage is Racy,
        ensures
            r@ == self@.racy(bytes::slice_of(output)),
    {
        let mut next = self;
        next.stage = match next.stage {
            Stage::Racy { considered, paths, racy } => {
                let names = paths_of(racy.as_slice());
                let changed = differences::changed_paths(names.as_slice(), output);
                let settled = differences::settle(
                    paths.as_slice(),
                    racy.as_slice(),
                    changed.as_slice(),
                );
                assert(bytes::views(changed@).to_set() =~= changed_among(
                    checkout::intentions(racy@),
                    bytes::slice_of(output),
                ));
                Stage::Convert { considered, paths: settled }
            },
            other => other,
        };
        next
    }

    /// This is, path by path, whether git converts it, where git said anything about it; or
    /// git could not be asked.
    pub fn converted(self, reported: Option<&[Option<bool>]>) -> (r: Populate)
        requires
            self.stage is Convert,
        ensures
            r@ == self@.converted(
                match reported {
                    Some(reported) => Some(reported@),
                    None => None,
                },
            ),
    {
        let mut next = self;
        next.stage = match next.stage {
            Stage::Convert { considered, paths } => Stage::Clone {
                considered,
                paths: differences::drop_converted_paths(paths, reported),
            },
            other => other,
        };
        next
    }

    /// A plan with so many whole directories in it was cloned; these paths landed, and the
    /// run was demoted for this reason if it was.
    pub fn cloned(self, directories: usize, records: Vec<Record>, demotion: Option<String>) -> (r:
        Populate)
        requires
            self.stage is Clone,
        ensures
            r@ == self@.cloned(
                directories,
                checkout::landings(records@),
                crate::source::characters(demotion),
            ),
    {
        let mut next = self;
        let considered: usize = match &next.stage {
            Stage::Clone { considered, paths: _ } => *considered,
            _ => 0,
        };
        next.report.cloned_directories = if demotion.is_none() {
            directories
        } else {
            0
        };
        if let Some(reason) = demotion {
            next.report.fall_back(reason);
        }
        let count: usize = records.len();
        let rest: usize = if considered >= count {
            considered - count
        } else {
            0
        };
        next.report.cloned = count;
        next.report.skipped = rest;
        next.report.checked_out_by_git = rest;
        if count == 0 {
            if next.report.reasons.len() == 0 {
                next.report.fall_back("nothing in the target tree could be cloned".to_owned());
                assert(next.report@.reasons =~= seq!["nothing in the target tree could be cloned"@]);
            }
            next.stage = Stage::Finished;
        } else {
            next.stage = Stage::WriteIndex { records };
        }
        next
    }

    /// The scratch index was written, or could not be.
    pub fn written(self, success: bool) -> (r: Populate)
        requires
            self.stage is WriteIndex,
        ensures
            r@ == self@.written(success),
    {
        self.pass(success, Stage::Refresh, "could not write the scratch index")
    }

    /// The scratch index was refreshed where that is called for, or could not be.
    pub fn refreshed(self, success: bool) -> (r: Populate)
        requires
            self.stage is Refresh,
        ensures
            r@ == self@.refreshed(success),
    {
        self.pass(success, Stage::Finished, "could not refresh the Windows scratch index")
    }
}

/// The paths in a list of paths to clone.
pub fn paths_of(list: &[Planned]) -> (r: Vec<Vec<u8>>)
    ensures
        bytes::views(r@) == checkout::intended_paths(checkout::intentions(list@)),
{
    let ghost all = checkout::intended_paths(checkout::intentions(list@));
    let mut found: Vec<Vec<u8>> = Vec::new();
    let mut i: usize = 0;
    while i < list.len()
        invariant
            i <= list.len(),
            all == checkout::intended_paths(checkout::intentions(list@)),
            bytes::views(found@) == all.take(i as int),
        decreases list.len() - i,
    {
        let ghost prior = found@;
        found.push(bytes::copy(list[i].path.as_slice()));
        proof {
            bytes::lemma_views_push(prior, found@.last());
            assert(all.take(i + 1) =~= all.take(i as int).push(list@[i as int].path@));
        }
        i = i + 1;
    }
    assert(all.take(i as int) =~= all);
    found
}

/// Where a git command runs.
#[derive(Debug, Clone, Copy, PartialEq, Eq, Structural)]
pub enum Place {
    /// In the new worktree.
    Destination,
    /// In the checkout that is cloned from.
    Source,
}

impl Populating {
    /// The git command whose output the stage waits for, and where it runs, if it waits for
    /// one. Where there is nothing to ask about there is no command.
    pub open spec fn command(
        self,
        converting: Seq<Seq<u8>>,
        windows: bool,
    ) -> Option<(Place, Seq<Seq<u8>>)> {
        match self.stage {
            Doing::Head => Some((Place::Destination, finish::head_command())),
            Doing::Format => Some((Place::Destination, finish::format_command())),
            Doing::Index => Some((Place::Destination, git_path_command("index".spec_bytes()))),
            Doing::TargetTree => Some((Place::Destination, tree_command(self.ground.head))),
            Doing::SourceHead => Some((Place::Source, finish::head_command())),
            Doing::SourceTree => Some((Place::Source, tree_command(self.ground.source_head))),
            Doing::SourceIndexPath => Some(
                (Place::Source, git_path_command("index".spec_bytes())),
            ),
            Doing::Dirty { suspect, .. } if suspect.len() > 0 => Some(
                (Place::Source, differences::changed_command(suspect)),
            ),
            Doing::Racy { racy, .. } if racy.len() > 0 => Some(
                (
                    Place::Source,
                    differences::changed_command(checkout::intended_paths(racy)),
                ),
            ),
            Doing::Convert { paths, .. } if paths.len() > 0 => Some(
                (Place::Source, differences::attribute_command(converting)),
            ),
            Doing::Refresh if windows => Some((Place::Destination, refresh_command())),
            _ => None,
        }
    }
}

impl Populate {
    /// The git command whose output the stage waits for, and where it runs, if it waits for
    /// one. `converting` names the attributes that convert a file.
    pub fn args(&self, converting: &[Vec<u8>], windows: bool) -> (r: Option<(Place, Vec<Vec<u8>>)>)
        ensures
            match r {
                Some((place, args)) => self@.command(bytes::views(converting@), windows) == Some(
                    (place, bytes::views(args@)),
                ),
                None => self@.command(bytes::views(converting@), windows) is None,
            },
    {
        match &self.stage {
            Stage::Head => Some((Place::Destination, finish::head_args())),
            Stage::Format => Some((Place::Destination, finish::format_args())),
            Stage::Index => Some((Place::Destination, index_args())),
            Stage::TargetTree => Some(
                (Place::Destination, tree_args(self.ground.head.as_slice())),
            ),
            Stage::SourceHead => Some((Place::Source, finish::head_args())),
            Stage::SourceTree => Some(
                (Place::Source, tree_args(self.ground.source_head.as_slice())),
            ),
            Stage::SourceIndexPath => Some((Place::Source, index_args())),
            Stage::Dirty { target: _, source: _, suspect } => {
                match differences::changed_args(suspect.as_slice()) {
                    Some(args) => Some((Place::Source, args)),
                    None => None,
                }
            },
            Stage::Racy { considered: _, paths: _, racy } => {
                let names = paths_of(racy.as_slice());
                match differences::changed_args(names.as_slice()) {
                    Some(args) => Some((Place::Source, args)),
                    None => None,
                }
            },
            Stage::Convert { considered: _, paths } => {
                if paths.len() > 0 {
                    Some((Place::Source, differences::attribute_args(converting)))
                } else {
                    None
                }
            },
            Stage::Refresh => {
                match refresh_args(windows) {
                    Some(args) => Some((Place::Destination, args)),
                    None => None,
                }
            },
            _ => None,
        }
    }
}

/// Everything that can come back before anything is planned.
pub struct Answers {
    pub head: Option<Seq<u8>>,
    pub format: Option<Seq<u8>>,
    pub index: Option<Seq<u8>>,
    pub written: u32,
    pub supported: u32,
    pub split_hook: Option<Seq<u8>>,
    pub split_config: Option<Seq<u8>>,
    pub source: Option<Seq<u8>>,
    pub source_conversion: Conversion,
    pub destination_conversion: Conversion,
    pub target_tree: bool,
    pub source_head: Option<Seq<u8>>,
    pub source_tree: bool,
    pub source_index_path: Option<Seq<u8>>,
    pub source_index: bool,
}

/// Why everything is left to git, if it is: the first condition for cloning that does not
/// hold.
pub open spec fn refusal(answers: Answers) -> Option<Seq<char>> {
    if answers.head is None {
        Some("the new worktree has no HEAD"@)
    } else if answers.format != Some("sha1".spec_bytes()) && answers.format != Some(
        "sha256".spec_bytes(),
    ) {
        Some("unknown object format"@)
    } else if answers.index is None {
        Some("could not locate the new worktree's index"@)
    } else if answers.written != answers.supported {
        Some("the repository writes index version "@ + text::decimal(answers.written as nat))
    } else if splits(answers.split_hook, answers.split_config) {
        Some("the repository splits the index"@)
    } else if answers.source is None {
        Some("no usable source checkout"@)
    } else if mismatch(answers.source_conversion, answers.destination_conversion) is Some {
        mismatch(answers.source_conversion, answers.destination_conversion)
    } else if !answers.target_tree {
        Some("could not read the target tree"@)
    } else if answers.source_head is None {
        Some("the source checkout has no HEAD"@)
    } else if !answers.source_tree {
        Some("could not read the source tree"@)
    } else if answers.source_index_path is None {
        Some("could not locate the source index"@)
    } else if !answers.source_index {
        Some("could not read the source index"@)
    } else {
        None
    }
}

/// The next state when these are the answers.
pub open spec fn step(state: Populating, answers: Answers) -> Populating {
    match state.stage {
        Doing::Head => state.head(answers.head),
        Doing::Format => state.format(answers.format),
        Doing::Index => state.index(answers.index),
        Doing::Version => state.version(answers.written, answers.supported),
        Doing::Split => state.split(answers.split_hook, answers.split_config),
        Doing::Source => state.source(answers.source),
        Doing::Conversion => state.conversion(
            answers.source_conversion,
            answers.destination_conversion,
        ),
        Doing::TargetTree => state.target_tree(answers.target_tree),
        Doing::SourceHead => state.source_head(answers.source_head),
        Doing::SourceTree => state.source_tree(answers.source_tree),
        Doing::SourceIndexPath => state.source_index_path(answers.source_index_path),
        Doing::SourceIndex => state.source_index(answers.source_index),
        _ => state,
    }
}

/// The state that so many steps lead to.
pub open spec fn run(state: Populating, answers: Answers, steps: nat) -> Populating
    decreases steps,
{
    if steps == 0 {
        state
    } else {
        run(step(state, answers), answers, (steps - 1) as nat)
    }
}

/// Cloning is planned exactly where every condition for it holds. Where one does not, the
/// first of them is the one reason that is noted, nothing is cloned and nothing more is asked.
pub proof fn the_first_obstacle_is_the_reason(answers: Answers)
    ensures
        ({
            let last = run(Populating::start(), answers, 12);
            match refusal(answers) {
                Some(reason) => {
                    &&& last.stage == Doing::Finished
                    &&& last.report.reasons == seq![reason]
                    &&& last.report.cloned == 0
                    &&& last.report.cloned_directories == 0
                },
                None => {
                    &&& last.stage == Doing::Attributes
                    &&& last.report == (Account { source: answers.source, ..Account::nothing() })
                    &&& last.ground == (Basis {
                        head: answers.head->Some_0,
                        sha256: answers.format == Some("sha256".spec_bytes()),
                        index: answers.index->Some_0,
                        source: answers.source->Some_0,
                        source_head: answers.source_head->Some_0,
                        source_index: answers.source_index_path->Some_0,
                    })
                },
            }
        }),
{
    lemma_formats();
    reveal_with_fuel(run, 13);
    let last = run(Populating::start(), answers, 12);
    if let Some(reason) = refusal(answers) {
        assert(Seq::<Seq<char>>::empty().push(reason) =~= seq![reason]);
    }
}

proof fn lemma_formats()
    ensures
        "sha1".spec_bytes() != "sha256".spec_bytes(),
{
    reveal_strlit("sha1");
    reveal_strlit("sha256");
    assert(is_ascii("sha1"));
    assert(is_ascii("sha256"));
    is_ascii_spec_bytes("sha1");
    is_ascii_spec_bytes("sha256");
    assert("sha1".spec_bytes().len() == 4);
    assert("sha256".spec_bytes().len() == 6);
}

/// Worktrees pass for converting alike exactly when all that decides it is the same in both.
pub proof fn only_worktrees_that_convert_alike_match(source: Conversion, destination: Conversion)
    ensures
        mismatch(source, destination) is None <==> source == destination,
{
}

/// The report accounts for every path that was considered: each is cloned, or left to git.
/// A run that cloned nothing says why and writes no index; one that cloned anything goes on
/// to write it.
pub proof fn every_path_is_accounted_for(
    state: Populating,
    directories: usize,
    records: Seq<Landed>,
    demotion: Option<Seq<char>>,
)
    requires
        state.stage is Clone,
        records.len() <= state.stage->Clone_considered,
    ensures
        ({
            let next = state.cloned(directories, records, demotion);
            &&& next.report.cloned == records.len()
            &&& next.report.cloned + next.report.skipped == state.stage->Clone_considered
            &&& next.report.checked_out_by_git == next.report.skipped
            &&& records.len() == 0 ==> next.stage == Doing::Finished && next.report.reasons.len()
                > 0
            &&& records.len() > 0 ==> next.stage == (Doing::WriteIndex { records })
            &&& demotion is Some ==> next.report.cloned_directories == 0
                && next.report.reasons.contains(demotion->Some_0)
        }),
{
    if let Some(reason) = demotion {
        let reasons = state.report.reasons.push(reason);
        assert(reasons[state.report.reasons.len() as int] == reason);
    }
}

/// Whatever is cloned was accepted by the stat cache or by git itself, and arrives in the
/// working tree as it is in the blob; and it is cloned in the order of its path.
pub proof fn cloned_paths_are_trusted(
    state: Populating,
    output: Option<Seq<u8>>,
    reported: Option<Seq<Option<bool>>>,
    x: Intended,
)
    requires
        state.stage is Racy,
    ensures
        ({
            let asked = state.racy(output);
            let settled = asked.stage->Convert_paths;
            let last = asked.converted(reported);
            let racy = state.stage->Racy_racy;
            &&& differences::path_ordered(settled)
            &&& last.stage is Clone
            &&& last.stage->Clone_considered == state.stage->Racy_considered
            &&& last.stage->Clone_paths.contains(x) ==> {
                &&& state.stage->Racy_paths.contains(x) || racy.contains(x)
                    && !differences::changed(checkout::intended_paths(racy), output, x.path)
                &&& exists|i: int|
                    0 <= i < settled.len() && differences::verbatim(reported, i)
                        && #[trigger] settled[i] == x
            }
        }),
{
    let paths = state.stage->Racy_paths;
    let racy = state.stage->Racy_racy;
    let settled = state.racy(output).stage->Convert_paths;
    differences::settled_paths_are_unchanged(paths, racy, changed_among(racy, output));
    differences::only_unconverted_paths_are_left(settled, reported, settled.len() as int, x);
    if state.racy(output).converted(reported).stage->Clone_paths.contains(x) {
        assert(settled.contains(x));
    }
}

/// Each obstacle, where no earlier one stands in the way, is the one reason that is noted;
/// nothing is cloned then. Without any, the attributes come next, with all that was found.
pub proof fn each_obstacle_is_told_in_its_turn(answers: Answers)
    ensures
        ({
            let last = run(Populating::start(), answers, 12);
            let told = |reason: Seq<char>|
                last.stage == Doing::Finished && last.report.reasons == seq![reason]
                    && last.report.cloned == 0 && last.report.cloned_directories == 0
                    && last.report.skipped == 0 && last.report.checked_out_by_git == 0;
            let headless = answers.head is None;
            let foreign = answers.format != Some("sha1".spec_bytes()) && answers.format != Some("sha256".spec_bytes());
            let lost = answers.index is None;
            let newer = answers.written != answers.supported;
            let split = answers.split_hook == Some("1".spec_bytes()) || answers.split_config == Some("true".spec_bytes());
            let alone = answers.source is None;
            let autocrlf = answers.source_conversion.autocrlf != answers.destination_conversion.autocrlf;
            let eol = answers.source_conversion.eol != answers.destination_conversion.eol;
            let symlinks = answers.source_conversion.symlinks != answers.destination_conversion.symlinks;
            let attributes = answers.source_conversion.attributes != answers.destination_conversion.attributes;
            let no_target = !answers.target_tree;
            let no_source_head = answers.source_head is None;
            let no_source = !answers.source_tree;
            let no_source_path = answers.source_index_path is None;
            let no_source_index = !answers.source_index;
            &&& headless ==> told("the new worktree has no HEAD"@)
            &&& !headless && foreign ==> told("unknown object format"@)
            &&& !headless && !foreign && lost ==> told("could not locate the new worktree's index"@)
            &&& !headless && !foreign && !lost && newer ==> told("the repository writes index version "@ + text::decimal(answers.written as nat))
            &&& !headless && !foreign && !lost && !newer && split ==> told("the repository splits the index"@)
            &&& !headless && !foreign && !lost && !newer && !split && alone ==> told("no usable source checkout"@)
            &&& !headless && !foreign && !lost && !newer && !split && !alone && autocrlf ==> told("core.autocrlf"@ + " differs between the worktrees"@)
            &&& !headless && !foreign && !lost && !newer && !split && !alone && !autocrlf && eol ==> told("core.eol"@ + " differs between the worktrees"@)
            &&& !headless && !foreign && !lost && !newer && !split && !alone && !autocrlf && !eol && symlinks ==> told("core.symlinks"@ + " differs between the worktrees"@)
            &&& !headless && !foreign && !lost && !newer && !split && !alone && !autocrlf && !eol && !symlinks && attributes ==> told("the worktrees have different attributes files"@)
            &&& !headless && !foreign && !lost && !newer && !split && !alone && !autocrlf && !eol && !symlinks && !attributes && no_target ==> told("could not read the target tree"@)
            &&& !headless && !foreign && !lost && !newer && !split && !alone && !autocrlf && !eol && !symlinks && !attributes && !no_target && no_source_head ==> told("the source checkout has no HEAD"@)
            &&& !headless && !foreign && !lost && !newer && !split && !alone && !autocrlf && !eol && !symlinks && !attributes && !no_target && !no_source_head && no_source ==> told("could not read the source tree"@)
            &&& !headless && !foreign && !lost && !newer && !split && !alone && !autocrlf && !eol && !symlinks && !attributes && !no_target && !no_source_head && !no_source && no_source_path ==> told("could not locate the source index"@)
            &&& !headless && !foreign && !lost && !newer && !split && !alone && !autocrlf && !eol && !symlinks && !attributes && !no_target && !no_source_head && !no_source && !no_source_path && no_source_index ==> told("could not read the source index"@)
            &&& !headless && !foreign && !lost && !newer && !split && !alone && !autocrlf && !eol && !symlinks && !attributes && !no_target && !no_source_head && !no_source && !no_source_path && !no_source_index ==> {
                &&& last.stage == Doing::Attributes
                &&& last.report.reasons.len() == 0
                &&& last.report.source == answers.source
                &&& last.ground.head == answers.head->Some_0
                &&& last.ground.sha256 <==> answers.format == Some("sha256".spec_bytes())
                &&& last.ground.index == answers.index->Some_0
                &&& last.ground.source == answers.source->Some_0
                &&& last.ground.source_head == answers.source_head->Some_0
                &&& last.ground.source_index == answers.source_index_path->Some_0
            }
        }),
{
    the_first_obstacle_is_the_reason(answers);
    lemma_formats();
    lemma_nothing_skipped(answers);
}

proof fn lemma_nothing_skipped(answers: Answers)
    ensures
        ({
            let last = run(Populating::start(), answers, 12);
            last.report.skipped == 0 && last.report.checked_out_by_git == 0
        }),
{
    reveal_with_fuel(run, 13);
}

/// An index is split exactly where git's test hook is `1` or the configuration is `true`.
pub proof fn the_index_is_split_where_git_says_so(
    hook: Option<Seq<u8>>,
    config: Option<Seq<u8>>,
)
    ensures
        splits(Some("1".spec_bytes()), config),
        splits(hook, Some("true".spec_bytes())),
        splits(hook, config) ==> hook == Some("1".spec_bytes()) || config == Some(
            "true".spec_bytes(),
        ),
{
}

/// What differs first between the worktrees is the reason: `core.autocrlf`, `core.eol`,
/// `core.symlinks`, and the attributes last.
pub proof fn the_first_setting_that_differs_is_named(source: Conversion, destination: Conversion)
    ensures
        ({
            let differs = " differs between the worktrees"@;
            let told = mismatch(source, destination);
            &&& source.autocrlf != destination.autocrlf ==> told == Some(
                "core.autocrlf"@ + differs,
            )
            &&& source.autocrlf == destination.autocrlf ==> {
                &&& source.eol != destination.eol ==> told == Some("core.eol"@ + differs)
                &&& source.eol == destination.eol ==> {
                    &&& source.symlinks != destination.symlinks ==> told == Some(
                        "core.symlinks"@ + differs,
                    )
                    &&& source.symlinks == destination.symlinks ==> {
                        &&& source.attributes != destination.attributes ==> told == Some(
                            "the worktrees have different attributes files"@,
                        )
                        &&& source.attributes == destination.attributes ==> told is None
                    }
                }
            }
        }),
{
}

/// A run that was not demoted reports its whole directories; every earlier reason and the
/// source stay in the report, and a demotion is the last reason. What was not cloned is left
/// to git, and only a run without any reason that cloned nothing needs one of its own.
pub proof fn the_report_keeps_what_it_held(
    state: Populating,
    directories: usize,
    records: Seq<Landed>,
    demotion: Option<Seq<char>>,
)
    requires
        state.stage is Clone,
        records.len() <= usize::MAX,
    ensures
        ({
            let next = state.cloned(directories, records, demotion).report;
            let before = state.report.reasons;
            let considered = state.stage->Clone_considered;
            &&& next.source == state.report.source
            &&& state.cloned(directories, records, demotion).ground == state.ground
            &&& demotion is None ==> next.cloned_directories == directories
            &&& demotion is Some ==> next.cloned_directories == 0 && next.reasons == before.push(
                demotion->Some_0,
            )
            &&& demotion is None && (before.len() > 0 || records.len() > 0) ==> next.reasons
                == before
            &&& demotion is None && before.len() == 0 && records.len() == 0 ==> next.reasons
                == seq!["nothing in the target tree could be cloned"@]
            &&& next.cloned == records.len()
            &&& records.len() <= considered ==> next.skipped == considered - records.len()
            &&& records.len() > considered ==> next.skipped == 0
            &&& next.checked_out_by_git == next.skipped
        }),
{
}

/// The index is written and then refreshed; where either fails that is noted after all
/// other reasons, and nothing more is done.
pub proof fn a_written_index_is_refreshed(state: Populating)
    ensures
        state.written(true) == (Populating { stage: Doing::Refresh, ..state }),
        state.written(false).stage == Doing::Finished,
        state.written(false).ground == state.ground,
        state.written(false).report == (Account {
            reasons: state.report.reasons.push("could not write the scratch index"@),
            ..state.report
        }),
        state.refreshed(true) == (Populating { stage: Doing::Finished, ..state }),
        state.refreshed(false).stage == Doing::Finished,
        state.refreshed(false).ground == state.ground,
        state.refreshed(false).report == (Account {
            reasons: state.report.reasons.push("could not refresh the Windows scratch index"@),
            ..state.report
        }),
{
}

/// Each stage asks git in the worktree that it is about: what concerns the source in the
/// source, all else in the new worktree. Where there is nothing to ask about, nothing is
/// asked, and only Windows needs a refresh.
pub proof fn each_stage_asks_where_it_belongs(
    state: Populating,
    converting: Seq<Seq<u8>>,
    windows: bool,
)
    ensures
        ({
            let asks = |place: Place, args: Seq<Seq<u8>>|
                state.command(converting, windows) == Some((place, args));
            let silent = state.command(converting, windows) is None;
            let head = seq!["rev-parse".spec_bytes(), "HEAD".spec_bytes()];
            let index = seq![
                "rev-parse".spec_bytes(),
                "--path-format=absolute".spec_bytes(),
                "--git-path".spec_bytes(),
                "index".spec_bytes(),
            ];
            let tree = |commit: Seq<u8>|
                seq![
                    "ls-tree".spec_bytes(),
                    "-r".spec_bytes(),
                    "-t".spec_bytes(),
                    "-z".spec_bytes(),
                    commit,
                ];
            match state.stage {
                Doing::Head => asks(Place::Destination, head),
                Doing::Format => asks(
                    Place::Destination,
                    seq!["rev-parse".spec_bytes(), "--show-object-format".spec_bytes()],
                ),
                Doing::Index => asks(Place::Destination, index),
                Doing::TargetTree => asks(Place::Destination, tree(state.ground.head)),
                Doing::SourceHead => asks(Place::Source, head),
                Doing::SourceTree => asks(Place::Source, tree(state.ground.source_head)),
                Doing::SourceIndexPath => asks(Place::Source, index),
                Doing::Dirty { suspect, .. } => if suspect.len() > 0 {
                    asks(Place::Source, differences::changed_command(suspect))
                } else {
                    silent
                },
                Doing::Racy { racy, .. } => if racy.len() > 0 {
                    asks(
                        Place::Source,
                        differences::changed_command(
                            Seq::new(racy.len(), |i: int| racy[i].path),
                        ),
                    )
                } else {
                    silent
                },
                Doing::Convert { paths, .. } => if paths.len() > 0 {
                    asks(
                        Place::Source,
                        seq!["check-attr".spec_bytes(), "-z".spec_bytes(), "--stdin".spec_bytes()]
                            + converting,
                    )
                } else {
                    silent
                },
                Doing::Refresh => if windows {
                    asks(
                        Place::Destination,
                        seq!["update-index".spec_bytes(), "--really-refresh".spec_bytes()],
                    )
                } else {
                    silent
                },
                _ => silent,
            }
        }),
{
    if let Doing::Racy { racy, .. } = state.stage {
        assert(checkout::intended_paths(racy) =~= Seq::new(racy.len(), |i: int| racy[i].path));
    }
}

/// The attributes at a path are in doubt exactly where one side lacks the file, the blobs
/// differ, or git printed the path as changed; where git could not be asked, all that it was
/// to be asked about are.
pub proof fn attributes_are_in_doubt_where_the_sides_differ(
    target: Map<Seq<u8>, gix_hash::ObjectId>,
    source: Map<Seq<u8>, gix_hash::ObjectId>,
    suspect: Seq<Seq<u8>>,
    printed: Seq<Seq<u8>>,
    path: Seq<u8>,
)
    requires
        forall|i: int|
            0 <= i < printed.len() ==> (#[trigger] printed[i]).len() > 0 && !printed[i].contains(
                0u8,
            ),
    ensures
        ({
            let apart = target.contains_key(path) != source.contains_key(path)
                || target.contains_key(path) && target[path] != source[path];
            let output = bytes::join_with(printed.push(Seq::empty()), 0);
            &&& in_doubt(target, source, suspect, None, path) <==> apart || suspect.contains(path)
            &&& suspect.len() > 0 ==> (in_doubt(target, source, suspect, Some(output), path)
                <==> apart || printed.contains(path))
            &&& suspect.len() == 0 ==> (in_doubt(target, source, suspect, Some(output), path)
                <==> apart)
        }),
{
    if suspect.len() > 0 {
        differences::what_git_prints_is_changed(suspect, printed, path);
    }
}

/// Of the racy paths exactly those that git prints are dropped, and of the others none is;
/// where git could not be asked, all racy ones are dropped.
pub proof fn git_decides_about_racy_paths(
    state: Populating,
    printed: Seq<Seq<u8>>,
    x: Intended,
)
    requires
        state.stage is Racy,
        forall|i: int|
            0 <= i < printed.len() ==> (#[trigger] printed[i]).len() > 0 && !printed[i].contains(
                0u8,
            ),
    ensures
        ({
            let paths = state.stage->Racy_paths;
            let racy = state.stage->Racy_racy;
            let output = bytes::join_with(printed.push(Seq::empty()), 0);
            let asked = state.racy(Some(output));
            let unasked = state.racy(None);
            &&& asked.stage is Convert && unasked.stage is Convert
            &&& asked.stage->Convert_considered == state.stage->Racy_considered
            &&& unasked.stage->Convert_considered == state.stage->Racy_considered
            &&& asked.ground == state.ground && asked.report == state.report
            &&& asked.stage->Convert_paths.contains(x) <==> paths.contains(x) || racy.contains(x)
                && !printed.contains(x.path)
            &&& unasked.stage->Convert_paths.contains(x) <==> paths.contains(x)
        }),
{
    let paths = state.stage->Racy_paths;
    let racy = state.stage->Racy_racy;
    let output = bytes::join_with(printed.push(Seq::empty()), 0);
    let names = checkout::intended_paths(racy);
    differences::settled_paths_are_unchanged(paths, racy, changed_among(racy, Some(output)));
    differences::settled_paths_are_unchanged(paths, racy, changed_among(racy, None));
    if racy.contains(x) {
        let i = choose|i: int| 0 <= i < racy.len() && racy[i] == x;
        assert(names[i] == x.path);
        differences::what_git_prints_is_changed(names, printed, x.path);
    }
}

/// What git converts is not cloned, nor what it said nothing of; what it does not convert
/// is, in order, and nothing else changes.
pub proof fn only_unconverted_paths_are_cloned(
    state: Populating,
    reported: Seq<Option<bool>>,
    x: Intended,
)
    requires
        state.stage is Convert,
    ensures
        ({
            let paths = state.stage->Convert_paths;
            let asked = state.converted(Some(reported));
            let unasked = state.converted(None);
            &&& asked.stage is Clone && unasked.stage is Clone
            &&& asked.stage->Clone_considered == state.stage->Convert_considered
            &&& unasked.stage->Clone_considered == state.stage->Convert_considered
            &&& asked.ground == state.ground && asked.report == state.report
            &&& unasked.stage->Clone_paths.len() == 0
            &&& asked.stage->Clone_paths.contains(x) <==> exists|i: int|
                0 <= i < paths.len() && i < reported.len() && (#[trigger] reported[i]) == Some(
                    false,
                ) && paths[i] == x
        }),
{
    differences::only_what_git_called_unconverted_is_left(
        state.stage->Convert_paths,
        reported,
        x,
    );
}

/// The contents of what is held here are all that it holds.
pub proof fn contents_leave_nothing_out(
    report: Report,
    ground: Ground,
    settings: Settings,
    state: Populate,
    i: int,
)
    ensures
        report.source matches Some(path) ==> report@.source == Some(path@),
        report.source is None ==> report@.source is None,
        report@.cloned_directories == report.cloned_directories,
        report@.cloned == report.cloned,
        report@.skipped == report.skipped,
        report@.checked_out_by_git == report.checked_out_by_git,
        report@.reasons.len() == report.reasons.len(),
        0 <= i < report.reasons.len() ==> report@.reasons[i] == report.reasons[i]@,
        ground@.head == ground.head@,
        ground@.sha256 == ground.sha256,
        ground@.index == ground.index@,
        ground@.source == ground.source@,
        ground@.source_head == ground.source_head@,
        ground@.source_index == ground.source_index@,
        settings@.autocrlf == bytes::view_of(settings.autocrlf),
        settings@.eol == bytes::view_of(settings.eol),
        settings@.symlinks == bytes::view_of(settings.symlinks),
        settings@.attributes == bytes::view_of(settings.attributes),
        state@.ground == state.ground@,
        state@.report == state.report@,
        state@.stage == state.stage@,
        state.stage is Head <==> state@.stage is Head,
        state.stage is Format <==> state@.stage is Format,
        state.stage is Index <==> state@.stage is Index,
        state.stage is Version <==> state@.stage is Version,
        state.stage is Split <==> state@.stage is Split,
        state.stage is Source <==> state@.stage is Source,
        state.stage is Conversion <==> state@.stage is Conversion,
        state.stage is TargetTree <==> state@.stage is TargetTree,
        state.stage is SourceHead <==> state@.stage is SourceHead,
        state.stage is SourceTree <==> state@.stage is SourceTree,
        state.stage is SourceIndexPath <==> state@.stage is SourceIndexPath,
        state.stage is SourceIndex <==> state@.stage is SourceIndex,
        state.stage is Attributes <==> state@.stage is Attributes,
        state.stage is Refresh <==> state@.stage is Refresh,
        state.stage is Finished <==> state@.stage is Finished,
        state.stage matches Stage::Dirty { target, source, suspect } ==> state@.stage
            == (Doing::Dirty {
            target: target@,
            source: source@,
            suspect: bytes::views(suspect@),
        }),
        state.stage matches Stage::Collide { poisoned } ==> state@.stage == (Doing::Collide {
            poisoned: bytes::views(poisoned@),
        }),
        state.stage matches Stage::Verify { poisoned } ==> state@.stage == (Doing::Verify {
            poisoned: bytes::views(poisoned@),
        }),
        state.stage matches Stage::Racy { considered, paths, racy } ==> state@.stage
            == (Doing::Racy {
            considered,
            paths: checkout::intentions(paths@),
            racy: checkout::intentions(racy@),
        }),
        state.stage matches Stage::Convert { considered, paths } ==> state@.stage
            == (Doing::Convert { considered, paths: checkout::intentions(paths@) }),
        state.stage matches Stage::Clone { considered, paths } ==> state@.stage == (Doing::Clone {
            considered,
            paths: checkout::intentions(paths@),
        }),
        state.stage matches Stage::WriteIndex { records } ==> state@.stage
            == (Doing::WriteIndex { records: checkout::landings(records@) }),
{
}

/// A file in a git directory is asked for by its name there, as an absolute path, and a tree
/// is listed with its directories.
pub proof fn files_and_trees_are_asked_for_by_name(file: Seq<u8>, commit: Seq<u8>)
    ensures
        git_path_command(file) == seq![
            "rev-parse".spec_bytes(),
            "--path-format=absolute".spec_bytes(),
            "--git-path".spec_bytes(),
        ].push(file),
        tree_command(commit) == seq![
            "ls-tree".spec_bytes(),
            "-r".spec_bytes(),
            "-t".spec_bytes(),
            "-z".spec_bytes(),
        ].push(commit),
{
    assert(git_path_command(file) =~= seq![
        "rev-parse".spec_bytes(),
        "--path-format=absolute".spec_bytes(),
        "--git-path".spec_bytes(),
    ].push(file));
    assert(tree_command(commit) =~= seq![
        "ls-tree".spec_bytes(),
        "-r".spec_bytes(),
        "-t".spec_bytes(),
        "-z".spec_bytes(),
    ].push(commit));
}

/// At first nothing is known or done, and the commit to check out is asked for.
pub proof fn nothing_is_known_at_first()
    ensures
        ({
            let start = Populating::start();
            &&& start.stage is Head
            &&& start.ground.head.len() == 0 && start.ground.index.len() == 0
            &&& start.ground.source.len() == 0 && start.ground.source_head.len() == 0
            &&& start.ground.source_index.len() == 0 && !start.ground.sha256
            &&& start.report.source is None && start.report.reasons.len() == 0
            &&& start.report.cloned == 0 && start.report.cloned_directories == 0
            &&& start.report.skipped == 0 && start.report.checked_out_by_git == 0
        }),
{
}

} // verus!
