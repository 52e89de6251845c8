//! What a checkout would have left at a path, and how a clone is brought there.

use vstd::prelude::*;

use crate::bytes;
use crate::verify::EXECUTABLE_MODE;
use crate::verify::SYMLINK_MODE;
use crate::verify::Stat;
use crate::verify::Time;
use crate::verify::Timestamp;

verus! {

/// A path that is to be cloned.
#[derive(Debug, PartialEq, Eq)]
pub struct Planned {
    pub path: Vec<u8>,
    /// The mode in the target tree.
    pub mode: u32,
    pub oid: gix_hash::ObjectId,
    /// When the source file was last modified.
    pub mtime: Time,
}

/// The content of a [`Planned`].
pub struct Intended {
    pub path: Seq<u8>,
    pub mode: u32,
    pub oid: gix_hash::ObjectId,
    pub mtime: Time,
}

impl View for Planned {
    type V = Intended;

    open spec fn view(&self) -> Intended {
        Intended { path: self.path@, mode: self.mode, oid: self.oid, mtime: self.mtime }
    }
}

impl Clone for Planned {
    fn clone(&self) -> (copy: Self)
        ensures
            copy@ == self@,
    {
        Planned {
            path: bytes::copy(self.path.as_slice()),
            mode: self.mode,
            oid: self.oid,
            mtime: self.mtime,
        }
    }
}

/// The contents of a list of paths to clone.
pub open spec fn intentions(list: Seq<Planned>) -> Seq<Intended> {
    Seq::new(list.len(), |i: int| list[i]@)
}

/// The paths in a list of paths to clone.
pub open spec fn intended_paths(list: Seq<Intended>) -> Seq<Seq<u8>> {
    Seq::new(list.len(), |i: int| list[i].path)
}

/// A path that landed, with the stat data that describes it.
#[derive(Debug, PartialEq, Eq)]
pub struct Record {
    pub path: Vec<u8>,
    pub mode: u32,
    pub oid: gix_hash::ObjectId,
    pub stat: Stat,
}

/// The content of a [`Record`].
pub struct Landed {
    pub path: Seq<u8>,
    pub mode: u32,
    pub oid: gix_hash::ObjectId,
    pub stat: Stat,
}

impl View for Record {
    type V = Landed;

    open spec fn view(&self) -> Landed {
        Landed { path: self.path@, mode: self.mode, oid: self.oid, stat: self.stat }
    }
}

/// The contents of a list of records.
pub open spec fn landings(list: Seq<Record>) -> Seq<Landed> {
    Seq::new(list.len(), |i: int| list[i]@)
}

/// The record of a path that landed with this stat data.
pub open spec fn landed(planned: Intended, stat: Stat) -> Landed {
    Landed { path: planned.path, mode: planned.mode, oid: planned.oid, stat }
}

/// The permissions a checkout starts from: execution only where the tree says so.
pub open spec fn base_permissions(mode: u32) -> u32 {
    if mode == EXECUTABLE_MODE {
        0o777
    } else {
        0o666
    }
}

/// The permissions a checkout gives a path with this tree mode.
pub fn checkout_mode(mode: u32, umask: u32) -> (r: u32)
    ensures
        r == base_permissions(mode) & !umask,
{
    let base: u32 = if mode == EXECUTABLE_MODE {
        0o777
    } else {
        0o666
    };
    base & !umask
}

/// The permissions a checkout gives a directory it has to create.
pub fn directory_mode(umask: u32) -> (r: u32)
    ensures
        r == 0o777u32 & !umask,
{
    0o777 & !umask
}

/// Permissions come from the tree and the umask alone: none that the umask takes away, every
/// other one that the tree allows, and none beyond these.
pub proof fn permissions_respect_the_umask(mode: u32, umask: u32)
    ensures
        (base_permissions(mode) & !umask) & umask == 0,
        (base_permissions(mode) & !umask) | (base_permissions(mode) & umask) == base_permissions(
            mode,
        ),
        mode != EXECUTABLE_MODE ==> (base_permissions(mode) & !umask) & 0o111u32 == 0,
{
    let base = base_permissions(mode);
    assert((base & !umask) & umask == 0) by (bit_vector);
    assert((base & !umask) | (base & umask) == base) by (bit_vector);
    assert((0o666u32 & !umask) & 0o111u32 == 0) by (bit_vector);
}

/// How one path is materialised.
#[derive(Debug, Clone, Copy, PartialEq, Eq, Structural)]
pub enum Copying {
    /// Make a symlink with the same target; there are no blocks to share.
    Link,
    /// Clone the file. A platform that stores symlinks as plain files does so for them too.
    File,
}

/// How a path is materialised: a symlink in the source is recreated as a symlink.
pub fn copying(mode: u32, source_is_symlink: bool) -> (r: Copying)
    ensures
        r == Copying::Link <==> mode == SYMLINK_MODE && source_is_symlink,
{
    if mode == SYMLINK_MODE && source_is_symlink {
        Copying::Link
    } else {
        Copying::File
    }
}

/// What is left to do to give a clone the permissions and modification time that a checkout
/// would have produced.
///
/// A block clone copies the source's permission bits along with its blocks, but a checkout
/// derives them from the tree. So a source file somebody ran `chmod 600` on arrives with
/// permissions git would never have written.
///
/// The modification time is set for a different reason. Git treats an index entry whose
/// mtime is not older than the index file's own as racily clean and re-reads the file, which
/// would undo the whole point of cloning. A clone that carries the source's mtime is
/// comfortably older than the index that is about to be written.
///
/// Permissions are set first: changing them moves ctime, and the stat data has to describe
/// the file as it is finally left.
#[derive(Debug, Clone, Copy, PartialEq, Eq, Structural)]
pub enum Conform {
    /// Set the permissions. It does not matter whether that works.
    SetMode { mode: u32 },
    /// Take the stat data of the path itself.
    Inspect,
    /// Set access and modification time of the path itself.
    SetTimes { time: Timestamp },
    /// Take the stat data once more.
    Reinspect,
    /// The stat data that describes the path, or nothing where there is none.
    Done { stat: Option<Stat> },
}

/// A time in the index as a time relative to the Unix epoch.
pub open spec fn since_epoch(time: Time) -> Timestamp {
    Timestamp { seconds: time.secs as i64, nanoseconds: time.nsecs }
}

impl Conform {
    /// What comes first. A symlink has no permissions of its own.
    pub open spec fn first(mode: u32, umask: u32) -> Conform {
        if mode == SYMLINK_MODE {
            Conform::Inspect
        } else {
            Conform::SetMode { mode: base_permissions(mode) & !umask }
        }
    }

    /// The times are set only where they are not what they should be.
    pub open spec fn after_inspect(mtime: Time, found: Option<Stat>) -> Conform {
        match found {
            Some(stat) if stat.mtime != mtime => Conform::SetTimes { time: since_epoch(mtime) },
            _ => Conform::Done { stat: found },
        }
    }

    /// What comes first for a path with this tree mode.
    pub fn begin(mode: u32, umask: u32) -> (r: Conform)
        ensures
            r == Conform::first(mode, umask),
    {
        if mode != SYMLINK_MODE {
            Conform::SetMode { mode: checkout_mode(mode, umask) }
        } else {
            Conform::Inspect
        }
    }

    /// The permissions were set, or not.
    pub fn mode_set(self) -> (r: Conform)
        requires
            self is SetMode,
        ensures
            r == Conform::Inspect,
    {
        Conform::Inspect
    }

    /// The stat data was taken where that was possible.
    pub fn inspected(self, mtime: Time, found: Option<Stat>) -> (r: Conform)
        requires
            self is Inspect,
        ensures
            r == Conform::after_inspect(mtime, found),
    {
        match found {
            Some(stat) => if stat.mtime != mtime {
                let time = Timestamp { seconds: mtime.secs as i64, nanoseconds: mtime.nsecs };
                Conform::SetTimes { time }
            } else {
                Conform::Done { stat: found }
            },
            None => Conform::Done { stat: None },
        }
    }

    /// The times were set, or could not be.
    pub fn times_set(self, success: bool) -> (r: Conform)
        requires
            self is SetTimes,
        ensures
            r == if success {
                Conform::Reinspect
            } else {
                (Conform::Done { stat: None })
            },
    {
        if success {
            Conform::Reinspect
        } else {
            Conform::Done { stat: None }
        }
    }

    /// The stat data was taken once more, where that was possible.
    pub fn reinspected(self, found: Option<Stat>) -> (r: Conform)
        requires
            self is Reinspect,
        ensures
            r == (Conform::Done { stat: found }),
    {
        Conform::Done { stat: found }
    }
}

/// Everything that can come back while a clone is brought to what a checkout leaves.
pub struct Looks {
    pub found: Option<Stat>,
    pub times_set: bool,
    pub found_again: Option<Stat>,
}

/// The next state when this is what comes back.
pub open spec fn step(state: Conform, mtime: Time, looks: Looks) -> Conform {
    match state {
        Conform::SetMode { .. } => Conform::Inspect,
        Conform::Inspect => Conform::after_inspect(mtime, looks.found),
        Conform::SetTimes { .. } => if looks.times_set {
            Conform::Reinspect
        } else {
            Conform::Done { stat: None }
        },
        Conform::Reinspect => Conform::Done { stat: looks.found_again },
        Conform::Done { .. } => state,
    }
}

/// The states from one on, in at most so many steps.
pub open spec fn run(state: Conform, mtime: Time, looks: Looks, steps: nat) -> Seq<Conform>
    decreases steps,
{
    if state is Done || steps == 0 {
        seq![state]
    } else {
        seq![state] + run(step(state, mtime, looks), mtime, looks, (steps - 1) as nat)
    }
}

/// The stat data that describes a path in the end: what was found at first if the time was
/// right already, what was found after setting it otherwise, and nothing where anything on
/// the way failed.
pub open spec fn conformed(mtime: Time, looks: Looks) -> Option<Stat> {
    match looks.found {
        None => None,
        Some(stat) => if stat.mtime == mtime {
            Some(stat)
        } else if looks.times_set {
            looks.found_again
        } else {
            None
        },
    }
}

/// A clone ends with the stat data that describes it as it is finally left: permissions are
/// set before anything is looked at, and nothing is changed after the last look.
pub proof fn conforming_describes_what_is_left(
    mode: u32,
    umask: u32,
    mtime: Time,
    looks: Looks,
)
    ensures
        ({
            let states = run(Conform::first(mode, umask), mtime, looks, 4);
            &&& states.last() == (Conform::Done { stat: conformed(mtime, looks) })
            &&& forall|i: int| 0 < i < states.len() ==> !(#[trigger] states[i] is SetMode)
            &&& conformed(mtime, looks) is Some ==> states[states.len() - 2] is Inspect
                || states[states.len() - 2] is Reinspect
        }),
{
    reveal_with_fuel(run, 6);
}

/// A checkout gives what the tree calls executable all permissions, and anything else all but
/// those to execute, less those that the umask takes.
pub proof fn permissions_are_those_of_the_mode(mode: u32, umask: u32)
    ensures
        mode == 0o100755u32 ==> base_permissions(mode) == 0o777,
        mode != 0o100755u32 ==> base_permissions(mode) == 0o666,
        mode != 0o120000u32 ==> Conform::first(mode, umask) == (Conform::SetMode {
            mode: base_permissions(mode) & !umask,
        }),
        mode == 0o120000u32 ==> Conform::first(mode, umask) == Conform::Inspect,
{
}

/// A record stands for the path that was planned: under the same name, mode and blob, with
/// the stat data that was found.
pub proof fn a_record_is_that_of_its_path(planned: Intended, stat: Stat)
    ensures
        landed(planned, stat).path == planned.path,
        landed(planned, stat).mode == planned.mode,
        landed(planned, stat).oid == planned.oid,
        landed(planned, stat).stat == stat,
{
}

/// The contents of planned paths and records are all that they hold.
pub proof fn contents_leave_nothing_out(planned: Planned, record: Record)
    ensures
        planned@.path == planned.path@,
        planned@.mode == planned.mode,
        planned@.oid == planned.oid,
        planned@.mtime == planned.mtime,
        record@.path == record.path@,
        record@.mode == record.mode,
        record@.oid == record.oid,
        record@.stat == record.stat,
{
}

/// Whether a clone ends with stat data, and with which: a path that was not there has none;
/// one whose time is right keeps what was found; any other has what is found after its time
/// was set to the planned one, to the nanosecond, and none where that could not be done.
pub proof fn a_clone_gets_the_planned_time(mode: u32, umask: u32, mtime: Time, looks: Looks)
    ensures
        ({
            let states = run(Conform::first(mode, umask), mtime, looks, 4);
            let stamp = Timestamp { seconds: mtime.secs as i64, nanoseconds: mtime.nsecs };
            let ends = |stat: Option<Stat>| states.last() == (Conform::Done { stat });
            &&& looks.found is None ==> ends(None)
            &&& (looks.found matches Some(stat) ==> {
                let right = stat.mtime.secs == mtime.secs && stat.mtime.nsecs == mtime.nsecs;
                &&& right ==> ends(Some(stat)) && forall|i: int|
                    0 <= i < states.len() ==> !(#[trigger] states[i] is SetTimes)
                &&& !right ==> states.contains(Conform::SetTimes { time: stamp })
                &&& !right && !looks.times_set ==> ends(None)
                &&& !right && looks.times_set ==> ends(looks.found_again)
            })
        }),
{
    reveal_with_fuel(run, 6);
    let states = run(Conform::first(mode, umask), mtime, looks, 4);
    if let Some(stat) = looks.found {
        if stat.mtime != mtime {
            let at: int = if mode == SYMLINK_MODE {
                1
            } else {
                2
            };
            assert(states[at] == (Conform::SetTimes { time: since_epoch(mtime) }));
        }
    }
}

} // verus!
