//! Clones a plan and reports what actually landed.
//!
//! The first failed clone demotes the run: the rest of the plan is abandoned rather than
//! retried path by path, because a filesystem that cannot clone one file cannot clone the
//! next one either. Whatever was cloned before the failure is still correct and is kept.

use vstd::prelude::*;

use crate::bytes;
use crate::paths;
use crate::sprout::checkout;
use crate::sprout::checkout::Intended;
use crate::sprout::checkout::Landed;
use crate::sprout::checkout::Planned;
use crate::sprout::checkout::Record;
use crate::sprout::text;
use crate::source;
use crate::verify::Stat;

verus! {

/// What is to be cloned.
#[derive(Debug, PartialEq, Eq)]
pub struct Plan {
    /// The directories to clone whole.
    pub directories: Vec<Vec<u8>>,
    /// The files to clone one by one.
    pub files: Vec<Planned>,
    /// The directories that come into being on the way.
    pub directories_created: Vec<Vec<u8>>,
    /// Every path that is there once all is cloned.
    pub materialised: Vec<Planned>,
}

/// The content of a [`Plan`].
pub struct Design {
    pub directories: Seq<Seq<u8>>,
    pub files: Seq<Intended>,
    pub directories_created: Seq<Seq<u8>>,
    pub materialised: Seq<Intended>,
}

impl View for Plan {
    type V = Design;

    open spec fn view(&self) -> Design {
        Design {
            directories: bytes::views(self.directories@),
            files: checkout::intentions(self.files@),
            directories_created: bytes::views(self.directories_created@),
            materialised: checkout::intentions(self.materialised@),
        }
    }
}

/// What comes next. The number is the position in the list that the plan holds for it.
#[derive(Debug, Clone, Copy, PartialEq, Eq, Structural)]
pub enum Stage {
    /// Find out whether an interrupt was requested, before a directory is cloned.
    PollDirectory { at: usize },
    /// Make the directory's parent and clone the directory.
    CloneDirectory { at: usize },
    /// Remove what is left of a directory that could not be cloned.
    RemoveDirectory { at: usize },
    /// Find out whether an interrupt was requested, before a file is cloned.
    PollFile { at: usize },
    /// Make the file's directory and clone the file.
    CloneFile { at: usize },
    /// Remove what is left of a file that could not be cloned.
    RemoveFile { at: usize },
    /// Give a directory that came into being the permissions of one.
    SetMode { at: usize },
    /// Bring a path to what a checkout leaves.
    Conform { at: usize },
    /// Nothing is left to do.
    Finished,
}

/// A plan that is being cloned.
#[derive(Debug, PartialEq, Eq)]
pub struct Materialise {
    pub plan: Plan,
    pub stage: Stage,
    /// What landed so far.
    pub records: Vec<Record>,
    /// Why the run was demoted, if it was.
    pub demotion: Option<String>,
}

/// The content of a [`Materialise`].
pub struct Cloning {
    pub plan: Design,
    pub stage: Stage,
    pub records: Seq<Landed>,
    pub demotion: Option<Seq<char>>,
}

impl View for Materialise {
    type V = Cloning;

    open spec fn view(&self) -> Cloning {
        Cloning {
            plan: self.plan@,
            stage: self.stage,
            records: checkout::landings(self.records@),
            demotion: source::characters(self.demotion),
        }
    }
}

impl Design {
    /// What comes next when the paths before this one are accounted for.
    pub open spec fn records_from(self, at: int) -> Stage {
        if at < self.materialised.len() {
            Stage::Conform { at: at as usize }
        } else {
            Stage::Finished
        }
    }

    /// What comes next when the created directories before this one have their permissions.
    pub open spec fn modes_from(self, at: int) -> Stage {
        if at < self.directories_created.len() {
            Stage::SetMode { at: at as usize }
        } else {
            self.records_from(0)
        }
    }

    /// What comes next when the files before this one are cloned.
    pub open spec fn files_from(self, at: int) -> Stage {
        if at < self.files.len() {
            Stage::PollFile { at: at as usize }
        } else {
            self.modes_from(0)
        }
    }

    /// What comes next when the directories before this one are cloned.
    pub open spec fn directories_from(self, at: int) -> Stage {
        if at < self.directories.len() {
            Stage::PollDirectory { at: at as usize }
        } else {
            self.files_from(0)
        }
    }
}

/// Why a run is demoted by a directory that could not be cloned.
pub open spec fn directory_failure(error: Seq<char>) -> Seq<char> {
    "cloning a directory failed: "@ + error
}

/// Why a run is demoted by a file that could not be cloned.
pub open spec fn file_failure(error: Seq<char>) -> Seq<char> {
    "cloning a file failed: "@ + error
}

impl Cloning {
    /// A plan of which nothing is cloned yet.
    pub open spec fn start(plan: Design) -> Cloning {
        Cloning { plan, stage: plan.directories_from(0), records: Seq::empty(), demotion: None }
    }

    /// The position is one of the list that the stage walks along, and a demoted run clones
    /// nothing more.
    pub open spec fn well_formed(self) -> bool {
        match self.stage {
            Stage::PollDirectory { at } => at < self.plan.directories.len() && self.demotion is None,
            Stage::CloneDirectory { at } => at < self.plan.directories.len()
                && self.demotion is None,
            Stage::RemoveDirectory { at } => at < self.plan.directories.len()
                && self.demotion is Some,
            Stage::PollFile { at } => at < self.plan.files.len() && self.demotion is None,
            Stage::CloneFile { at } => at < self.plan.files.len() && self.demotion is None,
            Stage::RemoveFile { at } => at < self.plan.files.len() && self.demotion is Some,
            Stage::SetMode { at } => at < self.plan.directories_created.len()
                && self.demotion is None,
            Stage::Conform { at } => at < self.plan.materialised.len(),
            Stage::Finished => true,
        }
    }

    /// The path, relative to both checkouts, that the next thing to do is about.
    pub open spec fn subject(self) -> Option<Seq<u8>> {
        match self.stage {
            Stage::PollDirectory { at }
            | Stage::CloneDirectory { at }
            | Stage::RemoveDirectory { at } => Some(self.plan.directories[at as int]),
            Stage::PollFile { at } | Stage::CloneFile { at } | Stage::RemoveFile { at } => Some(
                self.plan.files[at as int].path,
            ),
            Stage::SetMode { at } => Some(self.plan.directories_created[at as int]),
            Stage::Conform { at } => Some(self.plan.materialised[at as int].path),
            Stage::Finished => None,
        }
    }

    /// After the question whether an interrupt was requested.
    pub open spec fn polled(self, interrupted: bool) -> Cloning {
        if interrupted {
            Cloning {
                demotion: Some("interrupted"@),
                stage: self.plan.records_from(0),
                ..self
            }
        } else {
            match self.stage {
                Stage::PollDirectory { at } => Cloning {
                    stage: Stage::CloneDirectory { at },
                    ..self
                },
                Stage::PollFile { at } => Cloning { stage: Stage::CloneFile { at }, ..self },
                _ => self,
            }
        }
    }

    /// After a clone, with the error where it failed.
    pub open spec fn cloned(self, error: Option<Seq<char>>) -> Cloning {
        match (self.stage, error) {
            (Stage::CloneDirectory { at }, None) => Cloning {
                stage: self.plan.directories_from(at + 1),
                ..self
            },
            (Stage::CloneDirectory { at }, Some(error)) => Cloning {
                stage: Stage::RemoveDirectory { at },
                demotion: Some(directory_failure(error)),
                ..self
            },
            (Stage::CloneFile { at }, None) => Cloning {
                stage: self.plan.files_from(at + 1),
                ..self
            },
            (Stage::CloneFile { at }, Some(error)) => Cloning {
                stage: Stage::RemoveFile { at },
                demotion: Some(file_failure(error)),
                ..self
            },
            _ => self,
        }
    }

    /// After the rest of a failed clone was removed.
    pub open spec fn removed(self) -> Cloning {
        Cloning { stage: self.plan.records_from(0), ..self }
    }

    /// After a directory was given its permissions.
    pub open spec fn mode_set(self) -> Cloning {
        match self.stage {
            Stage::SetMode { at } => Cloning { stage: self.plan.modes_from(at + 1), ..self },
            _ => self,
        }
    }

    /// After a path was brought to what a checkout leaves, with the stat data that describes
    /// it if it is there at all.
    pub open spec fn conformed(self, stat: Option<Stat>) -> Cloning {
        match self.stage {
            Stage::Conform { at } => Cloning {
                stage: self.plan.records_from(at + 1),
                records: self.records + at_most_one(self.plan.materialised[at as int], stat),
                ..self
            },
            _ => self,
        }
    }
}

/// The record of a path, where there is stat data for it.
pub open spec fn at_most_one(planned: Intended, stat: Option<Stat>) -> Seq<Landed> {
    match stat {
        Some(stat) => seq![checkout::landed(planned, stat)],
        None => Seq::empty(),
    }
}

impl Plan {
    fn records_from(&self, at: usize) -> (r: Stage)
        ensures
            r == self@.records_from(at as int),
    {
        if at < self.materialised.len() {
            Stage::Conform { at }
        } else {
            Stage::Finished
        }
    }

    fn modes_from(&self, at: usize) -> (r: Stage)
        ensures
            r == self@.modes_from(at as int),
    {
        if at < self.directories_created.len() {
            Stage::SetMode { at }
        } else {
            self.records_from(0)
        }
    }

    fn files_from(&self, at: usize) -> (r: Stage)
        ensures
            r == self@.files_from(at as int),
    {
        if at < self.files.len() {
            Stage::PollFile { at }
        } else {
            self.modes_from(0)
        }
    }

    fn directories_from(&self, at: usize) -> (r: Stage)
        ensures
            r == self@.directories_from(at as int),
    {
        if at < self.directories.len() {
            Stage::PollDirectory { at }
        } else {
            self.files_from(0)
        }
    }
}

impl Materialise {
    /// Nothing of the plan is cloned yet.
    pub fn begin(plan: Plan) -> (r: Materialise)
        ensures
            r@ == Cloning::start(plan@),
            r@.well_formed(),
    {
        let stage = plan.directories_from(0);
        let r = Materialise { plan, stage, records: Vec::new(), demotion: None };
        assert(r@.records =~= Seq::<Landed>::empty());
        r
    }

    /// The path, relative to both checkouts, that the next thing to do is about.
    pub fn subject(&self) -> (r: Option<&[u8]>)
        requires
            self@.well_formed(),
        ensures
            bytes::slice_of(r) == self@.subject(),
    {
        match self.stage {
            Stage::PollDirectory { at }
            | Stage::CloneDirectory { at }
            | Stage::RemoveDirectory { at } => Some(self.plan.directories[at].as_slice()),
            Stage::PollFile { at }
            | Stage::CloneFile { at }
            | Stage::RemoveFile { at } => Some(self.plan.files[at].path.as_slice()),
            Stage::SetMode { at } => Some(self.plan.directories_created[at].as_slice()),
            Stage::Conform { at } => Some(self.plan.materialised[at].path.as_slice()),
            Stage::Finished => None,
        }
    }

    /// Where the next thing to do finds or puts its path below a checkout.
    pub fn subject_in(&self, checkout: &[u8], windows: bool) -> (r: Option<Vec<u8>>)
        requires
            self@.well_formed(),
        ensures
            bytes::view_of(r) == match self@.subject() {
                Some(path) => Some(paths::joined(checkout@, path, windows)),
                None => None,
            },
    {
        match self.subject() {
            Some(path) => Some(paths::join(checkout, path, windows)),
            None => None,
        }
    }

    /// It is known whether an interrupt was requested.
    pub fn polled(self, interrupted: bool) -> (r: Materialise)
        requires
            self@.well_formed(),
            self.stage is PollDirectory || self.stage is PollFile,
        ensures
            r@ == self@.polled(interrupted),
            r@.well_formed(),
    {
        let mut next = self;
        if interrupted {
            next.demotion = Some("interrupted".to_owned());
            next.stage = next.plan.records_from(0);
        } else {
            next.stage = match next.stage {
                Stage::PollDirectory { at } => Stage::CloneDirectory { at },
                Stage::PollFile { at } => Stage::CloneFile { at },
                other => other,
            };
        }
        next
    }

    /// A clone succeeded, or failed with an error.
    pub fn cloned(self, error: Option<&str>) -> (r: Materialise)
        requires
            self@.well_formed(),
            self.stage is CloneDirectory || self.stage is CloneFile,
        ensures
            r@ == self@.cloned(
                match error {
                    Some(error) => Some(error@),
                    None => None,
                },
            ),
            r@.well_formed(),
    {
        let mut next = self;
        match error {
            None => {
                next.stage = match next.stage {
                    Stage::CloneDirectory { at } => {
                        assert(at < next.plan.directories.len());
                        next.plan.directories_from(at + 1)
                    },
                    Stage::CloneFile { at } => {
                        assert(at < next.plan.files.len());
                        next.plan.files_from(at + 1)
                    },
                    other => other,
                };
            },
            Some(error) => {
                match next.stage {
                    Stage::CloneDirectory { at } => {
                        next.demotion = Some(text::message("cloning a directory failed: ", error));
                        next.stage = Stage::RemoveDirectory { at };
                    },
                    Stage::CloneFile { at } => {
                        next.demotion = Some(text::message("cloning a file failed: ", error));
                        next.stage = Stage::RemoveFile { at };
                    },
                    _ => {},
                }
            },
        }
        next
    }

    /// What was left of a failed clone is gone, as far as that was possible.
    pub fn removed(self) -> (r: Materialise)
        requires
            self@.well_formed(),
            self.stage is RemoveDirectory || self.stage is RemoveFile,
        ensures
            r@ == self@.removed(),
            r@.well_formed(),
    {
        let mut next = self;
        next.stage = next.plan.records_from(0);
        next
    }

    /// A directory was given its permissions, as far as that was possible.
    pub fn mode_set(self) -> (r: Materialise)
        requires
            self@.well_formed(),
            self.stage is SetMode,
        ensures
            r@ == self@.mode_set(),
            r@.well_formed(),
    {
        let mut next = self;
        if let Stage::SetMode { at } = next.stage {
            assert(at < next.plan.directories_created.len());
            next.stage = next.plan.modes_from(at + 1);
        }
        next
    }

    /// A path was brought to what a checkout leaves, and this is the stat data that describes
    /// it, if it is there at all.
    pub fn conformed(self, stat: Option<Stat>) -> (r: Materialise)
        requires
            self@.well_formed(),
            self.stage is Conform,
        ensures
            r@ == self@.conformed(stat),
            r@.well_formed(),
    {
        let mut next = self;
        let ghost prior = next@.records;
        if let Stage::Conform { at } = next.stage {
            if let Some(stat) = stat {
                let planned = &next.plan.materialised[at];
                let record = Record {
                    path: bytes::copy(planned.path.as_slice()),
                    mode: planned.mode,
                    oid: planned.oid,
                    stat,
                };
                next.records.push(record);
            }
            assert(at < next.plan.materialised.len());
            next.stage = next.plan.records_from(at + 1);
            assert(checkout::landings(next.records@) =~= prior + at_most_one(
                self@.plan.materialised[at as int],
                stat,
            ));
        }
        next
    }
}

/// What came of one item of the plan.
pub struct Outcome {
    /// An interrupt was requested by the time the item was due.
    pub interrupted: bool,
    /// The error where the clone failed.
    pub error: Option<Seq<char>>,
}

/// Everything that can come back while a plan is cloned, item by item.
pub struct Events {
    pub directories: Seq<Outcome>,
    pub files: Seq<Outcome>,
    pub stats: Seq<Option<Stat>>,
}

/// The next state when this is what comes back.
pub open spec fn step(state: Cloning, events: Events) -> Cloning {
    match state.stage {
        Stage::PollDirectory { at } => state.polled(events.directories[at as int].interrupted),
        Stage::CloneDirectory { at } => state.cloned(events.directories[at as int].error),
        Stage::PollFile { at } => state.polled(events.files[at as int].interrupted),
        Stage::CloneFile { at } => state.cloned(events.files[at as int].error),
        Stage::RemoveDirectory { .. } | Stage::RemoveFile { .. } => state.removed(),
        Stage::SetMode { .. } => state.mode_set(),
        Stage::Conform { at } => state.conformed(events.stats[at as int]),
        Stage::Finished => state,
    }
}

/// The stages that a run goes through from a state on, in at most so many steps, and the
/// state that is reached.
pub open spec fn run(state: Cloning, events: Events, steps: nat) -> (Seq<Stage>, Cloning)
    decreases steps,
{
    if state.stage is Finished || steps == 0 {
        (Seq::empty(), state)
    } else {
        let (more, last) = run(step(state, events), events, (steps - 1) as nat);
        (seq![state.stage] + more, last)
    }
}

/// What an outcome says against going on, if anything.
pub open spec fn stopped_by(outcome: Outcome, failure: spec_fn(Seq<char>) -> Seq<char>) -> Option<
    Seq<char>,
> {
    if outcome.interrupted {
        Some("interrupted"@)
    } else {
        match outcome.error {
            Some(error) => Some(failure(error)),
            None => None,
        }
    }
}

/// What the first outcome from a position on that says anything against going on says.
pub open spec fn first_stop(
    outcomes: Seq<Outcome>,
    failure: spec_fn(Seq<char>) -> Seq<char>,
    at: int,
) -> Option<Seq<char>>
    decreases outcomes.len() - at,
{
    if at >= outcomes.len() {
        None
    } else {
        match stopped_by(outcomes[at], failure) {
            Some(reason) => Some(reason),
            None => first_stop(outcomes, failure, at + 1),
        }
    }
}

/// The reason for which a run is demoted, if it is: the first thing that went wrong with a
/// directory, or else with a file.
pub open spec fn demotion(events: Events) -> Option<Seq<char>> {
    match first_stop(events.directories, |e: Seq<char>| directory_failure(e), 0) {
        Some(reason) => Some(reason),
        None => first_stop(events.files, |e: Seq<char>| file_failure(e), 0),
    }
}

/// The records of the paths from a position on that are there in the end, in the plan's
/// order.
pub open spec fn landed_from(materialised: Seq<Intended>, stats: Seq<Option<Stat>>, at: int) -> Seq<
    Landed,
>
    decreases materialised.len() - at,
{
    if at >= materialised.len() {
        Seq::empty()
    } else {
        at_most_one(materialised[at], stats[at]) + landed_from(materialised, stats, at + 1)
    }
}

/// How many steps are left at most.
pub open spec fn steps_left(state: Cloning) -> nat {
    let modes = state.plan.directories_created.len();
    let records = state.plan.materialised.len();
    let files = 2 * state.plan.files.len();
    let directories = 2 * state.plan.directories.len();
    match state.stage {
        Stage::PollDirectory { at } => (directories - 2 * at + files + modes + records + 1) as nat,
        Stage::CloneDirectory { at } => (directories - 2 * at + files + modes + records) as nat,
        Stage::PollFile { at } => (files - 2 * at + modes + records + 1) as nat,
        Stage::CloneFile { at } => (files - 2 * at + modes + records) as nat,
        Stage::RemoveDirectory { .. } | Stage::RemoveFile { .. } => records + 1,
        Stage::SetMode { at } => (modes - at + records) as nat,
        Stage::Conform { at } => (records - at) as nat,
        Stage::Finished => 0,
    }
}

/// A stage at which something is cloned.
pub open spec fn clones(stage: Stage) -> bool {
    stage is CloneDirectory || stage is CloneFile
}

/// What a run from this state on ends with.
spec fn outcome_from(state: Cloning, events: Events) -> (Seq<Landed>, Option<Seq<char>>) {
    let from = |at: int| state.records + landed_from(state.plan.materialised, events.stats, at);
    let files = |at: int| first_stop(events.files, |e: Seq<char>| file_failure(e), at);
    let directories = |at: int|
        match first_stop(events.directories, |e: Seq<char>| directory_failure(e), at) {
            Some(reason) => Some(reason),
            None => files(0),
        };
    match state.stage {
        Stage::PollDirectory { at } => (from(0), directories(at as int)),
        Stage::CloneDirectory { at } => (
            from(0),
            match events.directories[at as int].error {
                Some(error) => Some(directory_failure(error)),
                None => directories(at + 1),
            },
        ),
        Stage::PollFile { at } => (from(0), files(at as int)),
        Stage::CloneFile { at } => (
            from(0),
            match events.files[at as int].error {
                Some(error) => Some(file_failure(error)),
                None => files(at + 1),
            },
        ),
        Stage::RemoveDirectory { .. } | Stage::RemoveFile { .. } | Stage::SetMode { .. } => (
            from(0),
            state.demotion,
        ),
        Stage::Conform { at } => (from(at as int), state.demotion),
        Stage::Finished => (state.records, state.demotion),
    }
}

/// Whether there is an event for every item of the plan.
pub open spec fn covers(events: Events, plan: Design) -> bool {
    &&& events.directories.len() == plan.directories.len()
    &&& events.files.len() == plan.files.len()
    &&& events.stats.len() == plan.materialised.len()
}

/// The lists of a plan are short enough for their positions to be numbers of the machine.
pub open spec fn fits(plan: Design) -> bool {
    &&& plan.directories.len() <= usize::MAX
    &&& plan.files.len() <= usize::MAX
    &&& plan.directories_created.len() <= usize::MAX
    &&& plan.materialised.len() <= usize::MAX
}

/// A step keeps a run well-formed, and takes it closer to its end.
proof fn lemma_step(state: Cloning, events: Events)
    requires
        state.well_formed(),
        fits(state.plan),
        covers(events, state.plan),
        !(state.stage is Finished),
    ensures
        step(state, events).well_formed(),
        step(state, events).plan == state.plan,
        steps_left(step(state, events)) < steps_left(state),
        outcome_from(step(state, events), events) == outcome_from(state, events),
{
    let next = step(state, events);
    let all = landed_from(state.plan.materialised, events.stats, 0);
    match state.stage {
        Stage::Conform { at } => {
            let one = at_most_one(state.plan.materialised[at as int], events.stats[at as int]);
            let rest = landed_from(state.plan.materialised, events.stats, at + 1);
            assert(state.records + (one + rest) =~= (state.records + one) + rest);
            assert(rest + Seq::empty() =~= rest);
        },
        _ => {},
    }
    if state.plan.materialised.len() == 0 {
        assert(state.records + all =~= state.records);
    }
}

proof fn lemma_run(state: Cloning, events: Events, steps: nat)
    requires
        state.well_formed(),
        fits(state.plan),
        covers(events, state.plan),
        steps_left(state) <= steps,
    ensures
        ({
            let (stages, last) = run(state, events, steps);
            &&& last.stage is Finished
            &&& last.plan == state.plan
            &&& (last.records, last.demotion) == outcome_from(state, events)
            &&& state.demotion is Some ==> forall|i: int|
                0 <= i < stages.len() ==> !clones(#[trigger] stages[i])
        }),
    decreases steps,
{
    if !(state.stage is Finished) {
        lemma_step(state, events);
        let next = step(state, events);
        lemma_run(next, events, (steps - 1) as nat);
        let (more, last) = run(next, events, (steps - 1) as nat);
        let (stages, _) = run(state, events, steps);
        if state.demotion is Some {
            assert(next.demotion == state.demotion);
            assert forall|i: int| 0 <= i < stages.len() implies !clones(#[trigger] stages[i]) by {
                if i > 0 {
                    assert(stages[i] == more[i - 1]);
                }
            }
        }
    }
}

/// A run ends with the records of every path of the plan that is there in the end, in the
/// plan's order, and is demoted by the first thing that goes wrong with a directory or else
/// with a file. What was cloned before is kept.
pub proof fn materialising_reports_what_landed(plan: Design, events: Events)
    requires
        fits(plan),
        covers(events, plan),
    ensures
        ({
            let start = Cloning::start(plan);
            let (stages, last) = run(start, events, steps_left(start));
            &&& last.stage is Finished
            &&& last.records == landed_from(plan.materialised, events.stats, 0)
            &&& last.demotion == demotion(events)
        }),
{
    let start = Cloning::start(plan);
    lemma_run(start, events, steps_left(start));
    let all = landed_from(plan.materialised, events.stats, 0);
    assert(Seq::<Landed>::empty() + all =~= all);
}

/// A demoted run stays demoted for the same reason and clones nothing more: the rest of the
/// plan is abandoned.
pub proof fn a_demoted_run_clones_nothing_more(state: Cloning, events: Events)
    requires
        state.well_formed(),
        state.demotion is Some,
        fits(state.plan),
        covers(events, state.plan),
    ensures
        ({
            let (stages, last) = run(state, events, steps_left(state));
            &&& last.demotion == state.demotion
            &&& forall|i: int| 0 <= i < stages.len() ==> !clones(#[trigger] stages[i])
        }),
{
    lemma_run(state, events, steps_left(state));
}

/// Whether a stage is one of those that a plan calls for.
pub open spec fn called_for(plan: Design, stage: Stage) -> bool {
    match stage {
        Stage::CloneDirectory { at } => at < plan.directories.len(),
        Stage::CloneFile { at } => at < plan.files.len(),
        Stage::SetMode { at } => at < plan.directories_created.len(),
        Stage::Conform { at } => at < plan.materialised.len(),
        _ => false,
    }
}

/// Whether a stage that a plan calls for is still to come, as long as nothing goes wrong.
spec fn ahead(now: Stage, stage: Stage) -> bool {
    match stage {
        Stage::CloneDirectory { at } => match now {
            Stage::PollDirectory { at: i } | Stage::CloneDirectory { at: i } => i <= at,
            _ => false,
        },
        Stage::CloneFile { at } => match now {
            Stage::PollDirectory { .. } | Stage::CloneDirectory { .. } => true,
            Stage::PollFile { at: i } | Stage::CloneFile { at: i } => i <= at,
            _ => false,
        },
        Stage::SetMode { at } => match now {
            Stage::PollDirectory { .. }
            | Stage::CloneDirectory { .. }
            | Stage::PollFile { .. }
            | Stage::CloneFile { .. } => true,
            Stage::SetMode { at: i } => i <= at,
            _ => false,
        },
        Stage::Conform { at } => match now {
            Stage::Conform { at: i } => i <= at,
            Stage::Finished => false,
            _ => true,
        },
        _ => false,
    }
}

proof fn lemma_reached(state: Cloning, events: Events, steps: nat, stage: Stage)
    requires
        state.well_formed(),
        fits(state.plan),
        covers(events, state.plan),
        steps_left(state) <= steps,
        called_for(state.plan, stage),
        ahead(state.stage, stage),
        stage is Conform || outcome_from(state, events).1 is None,
    ensures
        run(state, events, steps).0.contains(stage),
    decreases steps,
{
    lemma_step(state, events);
    let next = step(state, events);
    let (more, last) = run(next, events, (steps - 1) as nat);
    let (stages, _) = run(state, events, steps);
    if state.stage == stage {
        assert(stages[0] == stage);
    } else {
        assert(ahead(next.stage, stage));
        lemma_reached(next, events, (steps - 1) as nat, stage);
        let i = choose|i: int| 0 <= i < more.len() && more[i] == stage;
        assert(stages[i + 1] == stage);
    }
}

/// A run that nothing goes wrong with clones every directory and every file of the plan and
/// gives every created directory its permissions. Whatever goes wrong, every path of the
/// plan is looked at in the end.
pub proof fn an_undisturbed_run_does_everything(plan: Design, events: Events, stage: Stage)
    requires
        fits(plan),
        covers(events, plan),
        called_for(plan, stage),
        stage is Conform || demotion(events) is None,
    ensures
        ({
            let start = Cloning::start(plan);
            run(start, events, steps_left(start)).0.contains(stage)
        }),
{
    let start = Cloning::start(plan);
    lemma_reached(start, events, steps_left(start), stage);
}

/// Where the paths that landed stand in the plan.
proof fn lemma_landed_at(materialised: Seq<Intended>, stats: Seq<Option<Stat>>, from: int) -> (at:
    Seq<int>)
    requires
        0 <= from,
    ensures
        ({
            let records = landed_from(materialised, stats, from);
            &&& at.len() == records.len()
            &&& forall|k: int|
                0 <= k < at.len() ==> from <= #[trigger] at[k] < materialised.len()
                    && records[k].path == materialised[at[k]].path && records[k].mode
                    == materialised[at[k]].mode && records[k].oid == materialised[at[k]].oid
                    && Some(records[k].stat) == stats[at[k]]
            &&& forall|k: int, l: int|
                0 <= k < l < at.len() ==> #[trigger] at[k] < #[trigger] at[l]
            &&& forall|i: int|
                from <= i < materialised.len() ==> (at.contains(i) <==> (#[trigger] stats[i])
                    is Some)
        }),
    decreases materialised.len() - from,
{
    if from >= materialised.len() {
        Seq::empty()
    } else {
        let later = lemma_landed_at(materialised, stats, from + 1);
        let rest = landed_from(materialised, stats, from + 1);
        let records = landed_from(materialised, stats, from);
        if let Some(stat) = stats[from] {
            let at = seq![from] + later;
            assert forall|k: int| 0 <= k < at.len() implies from <= #[trigger] at[k]
                < materialised.len() && records[k].path == materialised[at[k]].path
                && records[k].mode == materialised[at[k]].mode && records[k].oid
                == materialised[at[k]].oid && Some(records[k].stat) == stats[at[k]] by {
                if k > 0 {
                    assert(at[k] == later[k - 1]);
                    assert(records[k] == rest[k - 1]);
                }
            }
            assert forall|k: int, l: int| 0 <= k < l < at.len() implies #[trigger] at[k]
                < #[trigger] at[l] by {
                assert(at[l] == later[l - 1]);
                if k > 0 {
                    assert(at[k] == later[k - 1]);
                }
            }
            assert forall|i: int| from <= i < materialised.len() implies (at.contains(i) <==> (
            #[trigger] stats[i]) is Some) by {
                if i == from {
                    assert(at[0] == i);
                } else {
                    if later.contains(i) {
                        let k = choose|k: int| 0 <= k < later.len() && later[k] == i;
                        assert(at[k + 1] == i);
                    }
                    if at.contains(i) {
                        let k = choose|k: int| 0 <= k < at.len() && at[k] == i;
                        assert(later[k - 1] == i);
                    }
                }
            }
            at
        } else {
            assert(records =~= rest);
            if later.contains(from) {
                let k = choose|k: int| 0 <= k < later.len() && later[k] == from;
                assert(later[k] >= from + 1);
            }
            later
        }
    }
}

/// Every record of a finished run stands for one path of the plan, under its name, its tree
/// mode and its blob, with the stat data that was found there; every path with stat data has
/// one; and they are in the plan's order.
pub proof fn records_stand_for_their_paths(plan: Design, events: Events)
    requires
        fits(plan),
        covers(events, plan),
    ensures
        ({
            let start = Cloning::start(plan);
            let records = run(start, events, steps_left(start)).1.records;
            exists|at: Seq<int>|
                {
                    &&& #[trigger] at.len() == records.len()
                    &&& forall|k: int|
                        0 <= k < at.len() ==> 0 <= #[trigger] at[k] < plan.materialised.len()
                            && records[k].path == plan.materialised[at[k]].path
                            && records[k].mode == plan.materialised[at[k]].mode
                            && records[k].oid == plan.materialised[at[k]].oid && Some(
                            records[k].stat,
                        ) == events.stats[at[k]]
                    &&& forall|k: int, l: int|
                        0 <= k < l < at.len() ==> #[trigger] at[k] < #[trigger] at[l]
                    &&& forall|i: int|
                        0 <= i < plan.materialised.len() ==> (at.contains(i) <==> (
                        #[trigger] events.stats[i]) is Some)
                }
        }),
{
    materialising_reports_what_landed(plan, events);
    let at = lemma_landed_at(plan.materialised, events.stats, 0);
    let start = Cloning::start(plan);
    let records = run(start, events, steps_left(start)).1.records;
    assert(at.len() == records.len());
}

/// A stop is that of the first outcome that is one.
proof fn lemma_first_stop(
    outcomes: Seq<Outcome>,
    failure: spec_fn(Seq<char>) -> Seq<char>,
    from: int,
)
    requires
        0 <= from <= outcomes.len(),
    ensures
        first_stop(outcomes, failure, from) is None <==> forall|i: int|
            from <= i < outcomes.len() ==> !(#[trigger] outcomes[i]).interrupted
                && outcomes[i].error is None,
        forall|i: int|
            #![trigger outcomes[i]]
            from <= i < outcomes.len() && (forall|j: int|
                from <= j < i ==> !(#[trigger] outcomes[j]).interrupted && outcomes[j].error
                    is None) ==> {
                &&& outcomes[i].interrupted ==> first_stop(outcomes, failure, from) == Some(
                    "interrupted"@,
                )
                &&& !outcomes[i].interrupted && outcomes[i].error is Some ==> first_stop(
                    outcomes,
                    failure,
                    from,
                ) == Some(failure(outcomes[i].error->Some_0))
            },
    decreases outcomes.len() - from,
{
    if from < outcomes.len() {
        lemma_first_stop(outcomes, failure, from + 1);
    }
}

/// A run is demoted exactly when an interrupt was requested before an item or the item could
/// not be cloned, and the first of these gives the reason: directories come before files, an
/// interrupt is called one, and a failure is told with its error.
pub proof fn the_first_trouble_demotes(plan: Design, events: Events, i: int)
    requires
        fits(plan),
        covers(events, plan),
    ensures
        ({
            let start = Cloning::start(plan);
            let demotion = run(start, events, steps_left(start)).1.demotion;
            let calm = |outcome: Outcome| !outcome.interrupted && outcome.error is None;
            let directories_calm = forall|j: int|
                0 <= j < events.directories.len() ==> calm(#[trigger] events.directories[j]);
            &&& demotion is None <==> directories_calm && forall|j: int|
                0 <= j < events.files.len() ==> calm(#[trigger] events.files[j])
            &&& 0 <= i < events.directories.len() && (forall|j: int|
                0 <= j < i ==> calm(#[trigger] events.directories[j])) ==> {
                &&& events.directories[i].interrupted ==> demotion == Some("interrupted"@)
                &&& !events.directories[i].interrupted ==> (
                events.directories[i].error matches Some(error) ==> demotion == Some(
                    "cloning a directory failed: "@ + error,
                ))
            }
            &&& directories_calm && 0 <= i < events.files.len() && (forall|j: int|
                0 <= j < i ==> calm(#[trigger] events.files[j])) ==> {
                &&& events.files[i].interrupted ==> demotion == Some("interrupted"@)
                &&& !events.files[i].interrupted ==> (
                events.files[i].error matches Some(error) ==> demotion == Some(
                    "cloning a file failed: "@ + error,
                ))
            }
        }),
{
    materialising_reports_what_landed(plan, events);
    lemma_first_stop(events.directories, |e: Seq<char>| directory_failure(e), 0);
    lemma_first_stop(events.files, |e: Seq<char>| file_failure(e), 0);
}

/// One thing leads to the next: a poll to the clone of the same item unless an interrupt was
/// requested, a failed clone to the removal of what is left of that item, and all trouble to
/// the records, with what was recorded and planned unchanged.
pub proof fn one_thing_leads_to_the_next(
    state: Cloning,
    at: usize,
    error: Seq<char>,
    stat: Option<Stat>,
)
    ensures
        ({
            let records = if state.plan.materialised.len() > 0 {
                Stage::Conform { at: 0 }
            } else {
                Stage::Finished
            };
            let stays = |next: Cloning| next.plan == state.plan && next.records == state.records;
            let in_stage = |stage: Stage| Cloning { stage, ..state };
            let ahead = in_stage(Stage::PollDirectory { at });
            let file = in_stage(Stage::PollFile { at });
            let cloning = in_stage(Stage::CloneDirectory { at });
            let copying = in_stage(Stage::CloneFile { at });
            &&& stays(ahead.polled(true)) && ahead.polled(true).stage == records
            &&& ahead.polled(true).demotion == Some("interrupted"@)
            &&& stays(file.polled(true)) && file.polled(true).stage == records
            &&& file.polled(true).demotion == Some("interrupted"@)
            &&& ahead.polled(false) == cloning
            &&& file.polled(false) == copying
            &&& cloning.cloned(Some(error)).stage == (Stage::RemoveDirectory { at })
            &&& copying.cloned(Some(error)).stage == (Stage::RemoveFile { at })
            &&& stays(cloning.cloned(Some(error))) && stays(copying.cloned(Some(error)))
            &&& state.removed() == (Cloning { stage: records, ..state })
            &&& at + 1 < state.plan.directories.len() && at + 1 <= usize::MAX
                ==> cloning.cloned(None) == in_stage(
                Stage::PollDirectory { at: (at + 1) as usize },
            )
            &&& at + 1 < state.plan.files.len() && at + 1 <= usize::MAX ==> copying.cloned(None)
                == in_stage(Stage::PollFile { at: (at + 1) as usize })
            &&& at + 1 == state.plan.directories.len() && state.plan.files.len() > 0
                ==> cloning.cloned(None) == in_stage(Stage::PollFile { at: 0 })
            &&& at + 1 == state.plan.files.len() && state.plan.directories_created.len() > 0
                ==> copying.cloned(None) == in_stage(Stage::SetMode { at: 0 })
            &&& at + 1 < state.plan.directories_created.len() && at + 1 <= usize::MAX ==> in_stage(
                Stage::SetMode { at },
            ).mode_set() == in_stage(Stage::SetMode { at: (at + 1) as usize })
            &&& at + 1 == state.plan.directories_created.len() ==> in_stage(
                Stage::SetMode { at },
            ).mode_set() == in_stage(records)
            &&& at < state.plan.materialised.len() ==> {
                let next = in_stage(Stage::Conform { at }).conformed(stat);
                &&& next.plan == state.plan && next.demotion == state.demotion
                &&& stat is None ==> next.records == state.records
                &&& (stat matches Some(found) ==> next.records == state.records.push(
                    Landed {
                        path: state.plan.materialised[at as int].path,
                        mode: state.plan.materialised[at as int].mode,
                        oid: state.plan.materialised[at as int].oid,
                        stat: found,
                    },
                ))
                &&& at + 1 == state.plan.materialised.len() ==> next.stage == Stage::Finished
                &&& at + 1 < state.plan.materialised.len() && at + 1 <= usize::MAX ==> next.stage
                    == (Stage::Conform { at: (at + 1) as usize })
            }
        }),
{
    let next = (Cloning { stage: Stage::Conform { at }, ..state }).conformed(stat);
    if at < state.plan.materialised.len() {
        let planned = state.plan.materialised[at as int];
        match stat {
            None => {
                assert(next.records =~= state.records);
            },
            Some(found) => {
                assert(next.records =~= state.records.push(
                    Landed { path: planned.path, mode: planned.mode, oid: planned.oid, stat: found },
                ));
            },
        }
    }
}

/// What is done next is done to the item of the plan that its turn it is.
pub proof fn each_stage_is_about_its_own_item(state: Cloning, at: usize)
    ensures
        ({
            let subject = |stage: Stage| (Cloning { stage, ..state }).subject();
            let directory = Some(state.plan.directories[at as int]);
            let file = Some(state.plan.files[at as int].path);
            &&& subject(Stage::PollDirectory { at }) == directory
            &&& subject(Stage::CloneDirectory { at }) == directory
            &&& subject(Stage::RemoveDirectory { at }) == directory
            &&& subject(Stage::PollFile { at }) == file
            &&& subject(Stage::CloneFile { at }) == file
            &&& subject(Stage::RemoveFile { at }) == file
            &&& subject(Stage::SetMode { at }) == Some(
                state.plan.directories_created[at as int],
            )
            &&& subject(Stage::Conform { at }) == Some(state.plan.materialised[at as int].path)
            &&& subject(Stage::Finished) is None
        }),
{
}

/// The contents of a plan and of its cloning are all that they hold.
pub proof fn contents_leave_nothing_out(plan: Plan, state: Materialise)
    ensures
        plan@.directories == bytes::views(plan.directories@),
        plan@.files == checkout::intentions(plan.files@),
        plan@.directories_created == bytes::views(plan.directories_created@),
        plan@.materialised == checkout::intentions(plan.materialised@),
        state@.plan == state.plan@,
        state@.stage == state.stage,
        state@.records == checkout::landings(state.records@),
        state.demotion is None <==> state@.demotion is None,
        state.demotion matches Some(text) ==> state@.demotion == Some(text@),
{
}

} // verus!
