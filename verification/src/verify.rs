//! Decides whether a source checkout's file may stand in for a fresh checkout.
//!
//! The rule is index-based, so working-tree conversions never have to be replayed.

use vstd::prelude::*;
use vstd::slice::slice_to_vec;

use crate::bytes;
use crate::tree;
use crate::tree::Blob;

verus! {

/// What may be done with one path from the target tree.
#[derive(Debug, Clone, Copy, PartialEq, Eq, Structural)]
pub enum Verdict {
    /// The source's bytes are, by git's own definition, what a checkout would write.
    Clone,
    /// The stat cache cannot settle it; git must compare the content before we trust it.
    AskGit,
    /// Not clonable. Git checks this path out itself.
    Reject,
}

/// A point in time as the index records it.
#[derive(Debug, Clone, Copy, PartialEq, Eq, Structural)]
pub struct Time {
    pub secs: u32,
    pub nsecs: u32,
}

/// The stat data of a file as the index records it.
#[derive(Debug, Clone, Copy, PartialEq, Eq, Structural)]
pub struct Stat {
    pub mtime: Time,
    pub ctime: Time,
    pub dev: u32,
    pub ino: u32,
    pub uid: u32,
    pub gid: u32,
    pub size: u32,
}

/// Which parts of the stat data a comparison looks at.
#[derive(Debug, Clone, Copy, PartialEq, Eq, Structural)]
pub struct StatOptions {
    pub trust_ctime: bool,
    pub check_stat: bool,
    pub use_nsec: bool,
    pub use_stdev: bool,
}

/// When the index file was written, relative to the Unix epoch.
#[derive(Debug, Clone, Copy, PartialEq, Eq, Structural)]
pub struct Timestamp {
    pub seconds: i64,
    pub nanoseconds: u32,
}

/// An index entry.
#[derive(Debug, Clone, Copy, PartialEq, Eq)]
pub struct Entry {
    /// The bits of `gix_index::entry::Flags`.
    pub flags: u32,
    pub mode: u32,
    pub id: gix_hash::ObjectId,
    pub stat: Stat,
}

/// What the filesystem reports about a path, without following a symlink.
#[derive(Debug, Clone, Copy, PartialEq, Eq, Structural)]
pub struct Metadata {
    pub directory: bool,
    /// The stat data in the form the index records, where the times allow it.
    pub stat: Option<Stat>,
}

/// The flag bits that hold an entry's stage.
pub const STAGE_MASK: u32 = 0x3000;

/// The flag bit of an entry that is assumed unchanged.
pub const ASSUME_VALID: u32 = 0x8000;

/// The flag bit of an entry that was added by intent only.
pub const INTENT_TO_ADD: u32 = 0x2000_0000;

/// The flag bit of an entry that is not kept in the working tree.
pub const SKIP_WORKTREE: u32 = 0x4000_0000;

/// A regular file.
pub const FILE_MODE: u32 = 0o100644;

/// A regular file that is executable.
pub const EXECUTABLE_MODE: u32 = 0o100755;

/// A symbolic link.
pub const SYMLINK_MODE: u32 = 0o120000;

/// The modes that the tool is willing to materialise.
pub open spec fn clonable(mode: u32) -> bool {
    mode == FILE_MODE || mode == EXECUTABLE_MODE || mode == SYMLINK_MODE
}

/// The stage of an entry with these flags; zero means that it is not in conflict.
pub open spec fn stage(flags: u32) -> u32 {
    (flags & STAGE_MASK) >> 12
}

/// Flags that mean git has stopped maintaining, or stopped trusting, an entry's stat data.
pub open spec fn untrustworthy(flags: u32) -> bool {
    flags & ASSUME_VALID != 0 || flags & SKIP_WORKTREE != 0 || flags & INTENT_TO_ADD != 0
}

/// Whether an index entry describes an unmodified checkout of the blob, as far as the index
/// alone can tell.
pub open spec fn can_stand_in(target: Blob, entry: Entry) -> bool {
    &&& clonable(target.mode)
    &&& stage(entry.flags) == 0
    &&& !untrustworthy(entry.flags)
    &&& entry.mode == target.mode
    &&& entry.id == target.oid
}

/// The stat comparison that git performs by default: whole-second mtime and ctime, size,
/// inode, uid and gid, and no device or nanosecond comparison.
pub open spec fn git_default() -> StatOptions {
    StatOptions { trust_ctime: true, check_stat: true, use_nsec: false, use_stdev: false }
}

/// Whether two times agree, to the nanosecond where that is asked for.
pub open spec fn times_agree(a: Time, b: Time, nanoseconds: bool) -> bool {
    a.secs == b.secs && (nanoseconds ==> a.nsecs == b.nsecs)
}

/// Whether stat data agrees in all that the options ask for.
pub open spec fn stats_agree(a: Stat, b: Stat, options: StatOptions) -> bool {
    let nanoseconds = options.check_stat && options.use_nsec;
    &&& times_agree(a.mtime, b.mtime, nanoseconds)
    &&& a.size == b.size
    &&& options.trust_ctime ==> times_agree(a.ctime, b.ctime, nanoseconds)
    &&& options.check_stat ==> a.ino == b.ino && a.gid == b.gid && a.uid == b.uid
    &&& options.check_stat && options.use_stdev ==> a.dev == b.dev
}

/// Whether a file was modified no earlier than the index was written, so that it may have
/// been modified again without its stat data showing it.
pub open spec fn racy(stat: Stat, written: Timestamp, options: StatOptions) -> bool {
    ||| written.seconds < stat.mtime.secs
    ||| written.seconds == stat.mtime.secs && (options.use_nsec && options.check_stat
        ==> written.nanoseconds <= stat.mtime.nsecs)
}

/// What the file on disk allows, given the index entry that describes it.
pub open spec fn verdict(entry: Entry, metadata: Metadata, written: Timestamp, windows: bool) -> Verdict {
    match metadata.stat {
        Some(on_disk) if !metadata.directory => if !stats_agree(
            on_disk,
            entry.stat,
            git_default(),
        ) {
            if windows {
                Verdict::AskGit
            } else {
                Verdict::Reject
            }
        } else if racy(entry.stat, written, git_default()) {
            Verdict::AskGit
        } else {
            Verdict::Clone
        },
        _ => Verdict::Reject,
    }
}

/// The options of git's default comparison.
///
/// Calls `gix_index::entry::stat::Options::default`, of which the contract gives the fields:
/// ctime is trusted, all stat fields are checked, nanoseconds and devices are not compared.
#[verifier::external_body]
fn stat_options() -> (options: StatOptions)
    ensures
        options == git_default(),
{
    let default = gix_index::entry::stat::Options::default();
    StatOptions {
        trust_ctime: default.trust_ctime,
        check_stat: default.check_stat,
        use_nsec: default.use_nsec,
        use_stdev: default.use_stdev,
    }
}

/// Whether stat data agrees in all that the options ask for.
///
/// Calls `gix_index::entry::Stat::matches`, of which the contract claims that it compares
/// the seconds of mtime, the size, with `trust_ctime` the seconds of ctime, with
/// `check_stat` inode, uid and gid, and besides these nanoseconds with `use_nsec` and the
/// device with `use_stdev`.
#[verifier::external_body]
fn stat_matches(on_disk: &Stat, recorded: &Stat, options: StatOptions) -> (r: bool)
    ensures
        r == stats_agree(*on_disk, *recorded, options),
{
    let stat = |s: &Stat| gix_index::entry::Stat {
        mtime: gix_index::entry::stat::Time { secs: s.mtime.secs, nsecs: s.mtime.nsecs },
        ctime: gix_index::entry::stat::Time { secs: s.ctime.secs, nsecs: s.ctime.nsecs },
        dev: s.dev,
        ino: s.ino,
        uid: s.uid,
        gid: s.gid,
        size: s.size,
    };
    let StatOptions { trust_ctime, check_stat, use_nsec, use_stdev } = options;
    let asked = gix_index::entry::stat::Options { trust_ctime, check_stat, use_nsec, use_stdev };
    stat(on_disk).matches(&stat(recorded), asked)
}

/// Whether a file was modified no earlier than the index was written.
///
/// Calls `gix_index::entry::Stat::is_racy` on a time made with
/// `filetime::FileTime::from_unix_time`, of which the contract claims that it compares the
/// seconds, and within the same second the nanoseconds if both `use_nsec` and `check_stat`
/// are set. Only the mtime of the stat data is looked at. The bounds keep the time to what
/// `FileTime` holds on every platform: it counts seconds from an earlier epoch on some, and
/// can be built to drop nanoseconds.
#[verifier::external_body]
fn stat_is_racy(stat: &Stat, written: Timestamp, options: StatOptions) -> (r: bool)
    requires
        written.seconds <= 0x1_0000_0000,
        options.use_nsec ==> written.nanoseconds == 0,
    ensures
        r == racy(*stat, written, options),
{
    let recorded = gix_index::entry::Stat {
        mtime: gix_index::entry::stat::Time { secs: stat.mtime.secs, nsecs: stat.mtime.nsecs },
        ctime: gix_index::entry::stat::Time { secs: stat.ctime.secs, nsecs: stat.ctime.nsecs },
        dev: stat.dev,
        ino: stat.ino,
        uid: stat.uid,
        gid: stat.gid,
        size: stat.size,
    };
    let timestamp = filetime::FileTime::from_unix_time(written.seconds, written.nanoseconds);
    let StatOptions { trust_ctime, check_stat, use_nsec, use_stdev } = options;
    let asked = gix_index::entry::stat::Options { trust_ctime, check_stat, use_nsec, use_stdev };
    recorded.is_racy(timestamp, asked)
}

/// Whether two sets of flags have one in common.
///
/// Calls `gix_index::entry::Flags::intersects`, of which the contract claims that it tests
/// whether any bit is set in both.
#[verifier::external_body]
fn flags_intersect(flags: u32, others: u32) -> (r: bool)
    ensures
        r == (flags & others != 0),
{
    let others = gix_index::entry::Flags::from_bits_retain(others);
    gix_index::entry::Flags::from_bits_retain(flags).intersects(others)
}

/// The stage that the flags of an entry hold.
///
/// Calls `gix_index::entry::Flags::stage`, of which the contract claims that it is the number
/// in the two stage bits.
#[verifier::external_body]
fn flags_stage(flags: u32) -> (r: u32)
    ensures
        r == stage(flags),
{
    gix_index::entry::Flags::from_bits_retain(flags).stage() as u32
}

/// The bit of `gix_index::entry::Flags::ASSUME_VALID`, which the contract gives.
#[verifier::external_body]
fn assume_valid_flag() -> (r: u32)
    ensures
        r == ASSUME_VALID,
{
    gix_index::entry::Flags::ASSUME_VALID.bits()
}

/// The bit of `gix_index::entry::Flags::SKIP_WORKTREE`, which the contract gives.
#[verifier::external_body]
fn skip_worktree_flag() -> (r: u32)
    ensures
        r == SKIP_WORKTREE,
{
    gix_index::entry::Flags::SKIP_WORKTREE.bits()
}

/// The bit of `gix_index::entry::Flags::INTENT_TO_ADD`, which the contract gives.
#[verifier::external_body]
fn intent_to_add_flag() -> (r: u32)
    ensures
        r == INTENT_TO_ADD,
{
    gix_index::entry::Flags::INTENT_TO_ADD.bits()
}

/// Flags that mean git has stopped maintaining, or stopped trusting, an entry's stat data.
pub fn entry_is_untrustworthy(flags: u32) -> (r: bool)
    ensures
        r == untrustworthy(flags),
{
    let a = assume_valid_flag();
    let s = skip_worktree_flag();
    let i = intent_to_add_flag();
    assert((flags & (a | s | i) != 0) == (flags & a != 0 || flags & s != 0 || flags & i != 0))
        by (bit_vector);
    flags_intersect(flags, a | s | i)
}

/// Whether a tree mode names something the tool is willing to materialise.
pub fn mode_is_clonable(mode: u32) -> (r: bool)
    ensures
        r == clonable(mode),
{
    mode == FILE_MODE || mode == EXECUTABLE_MODE || mode == SYMLINK_MODE
}

/// The checks that need nothing from the filesystem.
///
/// See [`stat_verdict`] for why this is index-based.
pub fn entry_can_stand_in(target: &Blob, entry: &Entry) -> (r: bool)
    ensures
        r == can_stand_in(*target, *entry),
{
    mode_is_clonable(target.mode) && flags_stage(entry.flags) == 0 && !entry_is_untrustworthy(
        entry.flags,
    ) && entry.mode == target.mode && tree::same_object(&entry.id, &target.oid)
}

/// Judges the source file on disk against the index entry that describes it.
///
/// # Why this is index-based and not a hash of the clone
///
/// A checked-out file holds the blob *after* `.gitattributes` processing: CRLF conversion,
/// `ident`, `working-tree-encoding`, clean/smudge filters. Hashing the source file and
/// comparing it to the target blob oid would therefore reject every converted path, which
/// on a repository with `core.autocrlf=true` is every text file.
///
/// Git's own answer to "is this file an unmodified checkout of this oid?" is the index stat
/// cache, and it is the answer git acts on for every `status` and every `checkout`. So if
/// the source's entry is stat-clean and its oid is the blob we want, then the source's
/// bytes are what a checkout at the destination would write, provided the attributes
/// governing the path are the same on both sides. [`poisoned_prefixes`] settles that, per
/// subtree.
///
/// # The racily-clean window
///
/// A file written in the same second as the index can be modified once more inside that
/// second and still stat identically. Git calls such an entry racily clean and looks at the
/// content before it believes the stat data, so git is asked. On Windows git is also asked
/// about stat data that differs, because Git for Windows records device, inode, uid and gid
/// where native metadata has zeros.
pub fn stat_verdict(
    entry: &Entry,
    metadata: &Metadata,
    index_timestamp: Timestamp,
    windows: bool,
) -> (r: Verdict)
    ensures
        r == verdict(*entry, *metadata, index_timestamp, windows),
{
    if metadata.directory {
        return Verdict::Reject;
    }
    let on_disk = match metadata.stat {
        Some(stat) => stat,
        None => {
            return Verdict::Reject;
        },
    };
    if !stat_matches(&on_disk, &entry.stat, stat_options()) {
        return if windows {
            Verdict::AskGit
        } else {
            Verdict::Reject
        };
    }
    // No entry records a time past this second, so a later index is like one from then.
    let latest: i64 = 0x1_0000_0000;
    let written = if index_timestamp.seconds > latest {
        Timestamp { seconds: latest, nanoseconds: index_timestamp.nanoseconds }
    } else {
        index_timestamp
    };
    if stat_is_racy(&entry.stat, written, stat_options()) {
        return Verdict::AskGit;
    }
    Verdict::Clone
}

/// The `.gitattributes` files of a tree, each with the id of its blob.
#[derive(Debug)]
pub struct AttributeFiles {
    entries: Vec<(Vec<u8>, gix_hash::ObjectId)>,
}

impl View for AttributeFiles {
    type V = Map<Seq<u8>, gix_hash::ObjectId>;

    closed spec fn view(&self) -> Map<Seq<u8>, gix_hash::ObjectId> {
        Map::new(
            |path: Seq<u8>| exists|i: int| names(self.entries@, path, i),
            |path: Seq<u8>| self.entries@[choose|i: int| names(self.entries@, path, i)].1,
        )
    }
}

/// Whether the entry at `i` is the one for `path`.
spec fn names(entries: Seq<(Vec<u8>, gix_hash::ObjectId)>, path: Seq<u8>, i: int) -> bool {
    0 <= i < entries.len() && entries[i].0@ == path
}

/// Whether no path occurs twice.
spec fn distinct(entries: Seq<(Vec<u8>, gix_hash::ObjectId)>) -> bool {
    forall|i: int, j: int|
        0 <= i < j < entries.len() ==> (#[trigger] entries[i]).0@ != (#[trigger] entries[j]).0@
}

impl AttributeFiles {
    /// No path occurs twice.
    #[verifier::type_invariant]
    spec fn well_formed(self) -> bool {
        distinct(self.entries@)
    }

    /// No files.
    pub fn new() -> (files: AttributeFiles)
        ensures
            files@ == Map::<Seq<u8>, gix_hash::ObjectId>::empty(),
    {
        let files = AttributeFiles { entries: Vec::new() };
        assert(files@ =~= Map::<Seq<u8>, gix_hash::ObjectId>::empty());
        files
    }

    /// The same files, with the one at `path` being `oid`.
    pub fn with(self, path: Vec<u8>, oid: gix_hash::ObjectId) -> (files: AttributeFiles)
        ensures
            files@ == self@.insert(path@, oid),
    {
        proof {
            use_type_invariant(&self);
        }
        let ghost prior = self@;
        let ghost before = self.entries@;
        let at = self.find(path.as_slice());
        let mut entries = self.entries;
        let ghost key = path@;
        match at {
            Some(i) => {
                entries.set(i, (path, oid));
            },
            None => {
                entries.push((path, oid));
            },
        }
        assert forall|i: int, j: int| 0 <= i < j < entries@.len() implies (#[trigger] entries@[i]).0@
            != (#[trigger] entries@[j]).0@ by {
            match at {
                Some(k) => {
                    assert(before[k as int].0@ == key);
                },
                None => {
                    assert(!names(before, key, i));
                },
            }
        }
        let files = AttributeFiles { entries };
        proof {
            let now = files.entries@;
            assert forall|p: Seq<u8>| files@.contains_key(p) <==> #[trigger] prior.insert(
                key,
                oid,
            ).contains_key(p) by {
                if exists|i: int| names(now, p, i) {
                    let i = choose|i: int| names(now, p, i);
                    if p != key {
                        assert(names(before, p, i));
                    }
                }
                if exists|i: int| names(before, p, i) {
                    let i = choose|i: int| names(before, p, i);
                    if p != key {
                        assert(names(now, p, i));
                    }
                }
                if p == key {
                    match at {
                        Some(i) => {
                            assert(names(now, p, i as int));
                        },
                        None => {
                            assert(names(now, p, before.len() as int));
                        },
                    }
                }
            }
            assert forall|p: Seq<u8>| #[trigger] files@.contains_key(p) implies files@[p]
                == prior.insert(key, oid)[p] by {
                let i = choose|i: int| names(now, p, i);
                assert(names(now, p, i));
                if p == key {
                    let k = match at {
                        Some(k) => k as int,
                        None => before.len() as int,
                    };
                    assert(names(now, p, k));
                    lemma_one_entry(now, p, i, k);
                } else {
                    assert(names(before, p, i));
                    let j = choose|j: int| names(before, p, j);
                    lemma_one_entry(before, p, i, j);
                }
            }
            assert(files@ =~= prior.insert(key, oid));
        }
        files
    }

    /// Where the entry for `path` is.
    fn find(&self, path: &[u8]) -> (r: Option<usize>)
        ensures
            match r {
                Some(i) => names(self.entries@, path@, i as int) && self@.contains_key(path@)
                    && self@[path@] == self.entries@[i as int].1,
                None => !self@.contains_key(path@) && forall|i: int|
                    !(#[trigger] names(self.entries@, path@, i)),
            },
    {
        proof {
            use_type_invariant(self);
        }
        let mut i: usize = 0;
        while i < self.entries.len()
            invariant
                i <= self.entries.len(),
                distinct(self.entries@),
                forall|j: int| 0 <= j < i ==> (#[trigger] self.entries@[j]).0@ != path@,
            decreases self.entries.len() - i,
        {
            if bytes::same_bytes(self.entries[i].0.as_slice(), path) {
                proof {
                    assert(names(self.entries@, path@, i as int));
                    let k = choose|k: int| names(self.entries@, path@, k);
                    lemma_one_entry(self.entries@, path@, i as int, k);
                }
                return Some(i);
            }
            i = i + 1;
        }
        None
    }

    /// The blob of the file at `path`, if there is one.
    pub fn get(&self, path: &[u8]) -> (r: Option<gix_hash::ObjectId>)
        ensures
            r == (if self@.contains_key(path@) {
                Some(self@[path@])
            } else {
                None
            }),
    {
        match self.find(path) {
            Some(i) => Some(self.entries[i].1),
            None => None,
        }
    }
}

proof fn lemma_one_entry(
    entries: Seq<(Vec<u8>, gix_hash::ObjectId)>,
    path: Seq<u8>,
    i: int,
    j: int,
)
    requires
        distinct(entries),
        names(entries, path, i),
        names(entries, path, j),
    ensures
        i == j,
{
    if i < j {
        assert(entries[i].0@ != entries[j].0@);
    }
    if j < i {
        assert(entries[j].0@ != entries[i].0@);
    }
}

/// Whether the attributes at `path` may differ between the two sides: a different blob,
/// present on one side only, or modified in the source working tree.
pub open spec fn disagree(
    target: Map<Seq<u8>, gix_hash::ObjectId>,
    source: Map<Seq<u8>, gix_hash::ObjectId>,
    dirty: Seq<Seq<u8>>,
    path: Seq<u8>,
) -> bool {
    ||| target.contains_key(path) != source.contains_key(path)
    ||| target.contains_key(path) && source.contains_key(path) && target[path] != source[path]
    ||| dirty.contains(path)
}

/// Whether a list is in order and holds nothing twice.
pub open spec fn ascending(list: Seq<Seq<u8>>) -> bool {
    forall|i: int, j: int|
        0 <= i < j < list.len() ==> bytes::before(#[trigger] list[i], #[trigger] list[j])
}

/// Adds an item to an ordered list, unless it is there.
fn note(list: &mut Vec<Vec<u8>>, item: &[u8])
    requires
        ascending(bytes::views(old(list)@)),
    ensures
        ascending(bytes::views(final(list)@)),
        forall|x: Seq<u8>|
            #[trigger] bytes::views(final(list)@).contains(x) <==> bytes::views(
                old(list)@,
            ).contains(x) || x == item@,
{
    let ghost prior = bytes::views(list@);
    let mut at: usize = 0;
    while at < list.len() && bytes::comes_before(list[at].as_slice(), item)
        invariant
            at <= list.len(),
            prior == bytes::views(list@),
            forall|k: int| 0 <= k < at ==> bytes::before(#[trigger] prior[k], item@),
        decreases list.len() - at,
    {
        at = at + 1;
    }
    if at < list.len() && bytes::same_bytes(list[at].as_slice(), item) {
        assert(prior[at as int] == item@);
        return;
    }
    list.insert(at, slice_to_vec(item));
    let ghost now = bytes::views(list@);
    assert(now =~= prior.insert(at as int, item@));
    proof {
        if at < prior.len() {
            bytes::lemma_before_total(prior[at as int], item@);
        }
    }
    assert forall|i: int, j: int| 0 <= i < j < now.len() implies bytes::before(
        #[trigger] now[i],
        #[trigger] now[j],
    ) by {
        if i < at && j < at {
            assert(now[i] == prior[i] && now[j] == prior[j]);
        } else if i < at && j == at {
            assert(now[i] == prior[i]);
        } else if i < at {
            assert(now[i] == prior[i] && now[j] == prior[j - 1]);
        } else if i == at {
            assert(now[j] == prior[j - 1]);
            if j - 1 > at {
                bytes::lemma_before_transitive(item@, prior[at as int], prior[j - 1]);
            }
        } else {
            assert(now[i] == prior[i - 1] && now[j] == prior[j - 1]);
        }
    }
    assert forall|x: Seq<u8>| #[trigger] now.contains(x) <==> prior.contains(x) || x == item@ by {
        if now.contains(x) {
            let k = choose|k: int| 0 <= k < now.len() && now[k] == x;
            if k < at {
                assert(prior[k] == x);
            } else if k > at {
                assert(prior[k - 1] == x);
            }
        }
        if prior.contains(x) {
            let k = choose|k: int| 0 <= k < prior.len() && prior[k] == x;
            if k < at {
                assert(now[k] == x);
            } else {
                assert(now[k + 1] == x);
            }
        }
        if x == item@ {
            assert(now[at as int] == x);
        }
    }
}

/// Directory prefixes whose attributes differ between the two sides.
///
/// A path may only be cloned when every `.gitattributes` on its ancestry is the same blob
/// in both commits, because those files decide the conversion applied on checkout. Any
/// difference disqualifies the whole directory it governs and everything below it. Prefixes
/// have their trailing slash; the empty prefix is the repository root and therefore
/// disqualifies everything.
pub fn poisoned_prefixes(
    target_attributes: &AttributeFiles,
    source_attributes: &AttributeFiles,
    dirty_attributes: &[Vec<u8>],
) -> (poisoned: Vec<Vec<u8>>)
    ensures
        ascending(bytes::views(poisoned@)),
        forall|d: Seq<u8>|
            #[trigger] bytes::views(poisoned@).contains(d) <==> exists|p: Seq<u8>|
                disagree(
                    target_attributes@,
                    source_attributes@,
                    bytes::views(dirty_attributes@),
                    p,
                ) && #[trigger] tree::directory(p) == d,
{
    let mut poisoned: Vec<Vec<u8>> = Vec::new();
    proof {
        use_type_invariant(target_attributes);
        use_type_invariant(source_attributes);
    }
    let ghost target = target_attributes@;
    let ghost source = source_attributes@;
    let ghost dirty = bytes::views(dirty_attributes@);
    let ghost in_target = target_attributes.entries@;
    let ghost in_source = source_attributes.entries@;

    let mut i: usize = 0;
    while i < target_attributes.entries.len()
        invariant
            i <= in_target.len(),
            in_target == target_attributes.entries@,
            target == target_attributes@,
            source == source_attributes@,
            distinct(in_target),
            ascending(bytes::views(poisoned@)),
            forall|d: Seq<u8>|
                #[trigger] bytes::views(poisoned@).contains(d) <==> exists|k: int|
                    0 <= k < i && unmatched(target, source, in_target[k].0@) && tree::directory(
                        (#[trigger] in_target[k]).0@,
                    ) == d,
        decreases in_target.len() - i,
    {
        let path = target_attributes.entries[i].0.as_slice();
        proof {
            lemma_entry(target_attributes, i as int);
        }
        let same = match source_attributes.get(path) {
            Some(oid) => tree::same_object(&oid, &target_attributes.entries[i].1),
            None => false,
        };
        assert(same == !unmatched(target, source, path@));
        let ghost prior = bytes::views(poisoned@);
        if !same {
            note(&mut poisoned, tree::directory_of(path));
        }
        proof {
            let now = bytes::views(poisoned@);
            assert forall|d: Seq<u8>| #[trigger] now.contains(d) <==> exists|k: int|
                0 <= k < i + 1 && unmatched(target, source, in_target[k].0@) && tree::directory(
                    (#[trigger] in_target[k]).0@,
                ) == d by {
                if now.contains(d) && !prior.contains(d) {
                    assert(in_target[i as int].0@ == path@);
                }
                if exists|k: int|
                    0 <= k < i + 1 && unmatched(target, source, in_target[k].0@)
                        && tree::directory((#[trigger] in_target[k]).0@) == d {
                    let k = choose|k: int|
                        0 <= k < i + 1 && unmatched(target, source, in_target[k].0@)
                            && tree::directory((#[trigger] in_target[k]).0@) == d;
                    if k < i {
                        assert(prior.contains(d));
                    }
                }
            }
        }
        i = i + 1;
    }
    let ghost from_target = bytes::views(poisoned@);

    let mut j: usize = 0;
    while j < source_attributes.entries.len()
        invariant
            j <= in_source.len(),
            in_source == source_attributes.entries@,
            target == target_attributes@,
            ascending(bytes::views(poisoned@)),
            forall|d: Seq<u8>|
                #[trigger] bytes::views(poisoned@).contains(d) <==> from_target.contains(d)
                    || exists|k: int|
                    0 <= k < j && !target.contains_key(in_source[k].0@) && tree::directory(
                        (#[trigger] in_source[k]).0@,
                    ) == d,
        decreases in_source.len() - j,
    {
        let path = source_attributes.entries[j].0.as_slice();
        let known = target_attributes.get(path).is_some();
        let ghost prior = bytes::views(poisoned@);
        if !known {
            note(&mut poisoned, tree::directory_of(path));
        }
        proof {
            let now = bytes::views(poisoned@);
            assert forall|d: Seq<u8>| #[trigger] now.contains(d) <==> from_target.contains(d)
                || exists|k: int|
                0 <= k < j + 1 && !target.contains_key(in_source[k].0@) && tree::directory(
                    (#[trigger] in_source[k]).0@,
                ) == d by {
                if now.contains(d) && !prior.contains(d) {
                    assert(in_source[j as int].0@ == path@);
                }
                if exists|k: int|
                    0 <= k < j + 1 && !target.contains_key(in_source[k].0@) && tree::directory(
                        (#[trigger] in_source[k]).0@,
                    ) == d {
                    let k = choose|k: int|
                        0 <= k < j + 1 && !target.contains_key(in_source[k].0@)
                            && tree::directory((#[trigger] in_source[k]).0@) == d;
                    if k < j {
                        assert(prior.contains(d));
                    }
                }
            }
        }
        j = j + 1;
    }
    let ghost from_both = bytes::views(poisoned@);

    let mut m: usize = 0;
    while m < dirty_attributes.len()
        invariant
            m <= dirty_attributes.len(),
            dirty == bytes::views(dirty_attributes@),
            ascending(bytes::views(poisoned@)),
            forall|d: Seq<u8>|
                #[trigger] bytes::views(poisoned@).contains(d) <==> from_both.contains(d)
                    || exists|k: int| 0 <= k < m && tree::directory(#[trigger] dirty[k]) == d,
        decreases dirty_attributes.len() - m,
    {
        let path = dirty_attributes[m].as_slice();
        let ghost prior = bytes::views(poisoned@);
        note(&mut poisoned, tree::directory_of(path));
        proof {
            let now = bytes::views(poisoned@);
            assert forall|d: Seq<u8>| #[trigger] now.contains(d) <==> from_both.contains(d)
                || exists|k: int| 0 <= k < m + 1 && tree::directory(#[trigger] dirty[k]) == d by {
                if now.contains(d) && !prior.contains(d) {
                    assert(dirty[m as int] == path@);
                }
                if exists|k: int| 0 <= k < m + 1 && tree::directory(#[trigger] dirty[k]) == d {
                    let k = choose|k: int|
                        0 <= k < m + 1 && tree::directory(#[trigger] dirty[k]) == d;
                    if k < m {
                        assert(prior.contains(d));
                    }
                }
            }
        }
        m = m + 1;
    }

    proof {
        let found = bytes::views(poisoned@);
        assert forall|d: Seq<u8>| #[trigger] found.contains(d) <==> exists|p: Seq<u8>|
            disagree(target, source, dirty, p) && #[trigger] tree::directory(p) == d by {
            if found.contains(d) {
                if from_target.contains(d) {
                    let k = choose|k: int|
                        0 <= k < i && unmatched(target, source, in_target[k].0@)
                            && tree::directory((#[trigger] in_target[k]).0@) == d;
                    lemma_entry(target_attributes, k);
                    assert(disagree(target, source, dirty, in_target[k].0@));
                } else if from_both.contains(d) {
                    let k = choose|k: int|
                        0 <= k < j && !target.contains_key(in_source[k].0@) && tree::directory(
                            (#[trigger] in_source[k]).0@,
                        ) == d;
                    lemma_entry(source_attributes, k);
                    assert(disagree(target, source, dirty, in_source[k].0@));
                } else {
                    let k = choose|k: int|
                        0 <= k < m && tree::directory(#[trigger] dirty[k]) == d;
                    assert(dirty.contains(dirty[k]));
                    assert(disagree(target, source, dirty, dirty[k]));
                }
            }
            if exists|p: Seq<u8>|
                disagree(target, source, dirty, p) && #[trigger] tree::directory(p) == d {
                let p = choose|p: Seq<u8>|
                    disagree(target, source, dirty, p) && #[trigger] tree::directory(p) == d;
                if dirty.contains(p) {
                    let k = choose|k: int| 0 <= k < dirty.len() && dirty[k] == p;
                    assert(tree::directory(dirty[k]) == d);
                } else if target.contains_key(p) {
                    let k = choose|k: int| names(in_target, p, k);
                    assert(names(in_target, p, k));
                    lemma_entry(target_attributes, k);
                    assert(unmatched(target, source, in_target[k].0@));
                    assert(from_target.contains(d));
                    assert(from_both.contains(d));
                } else {
                    let k = choose|k: int| names(in_source, p, k);
                    assert(names(in_source, p, k));
                    assert(!target.contains_key(in_source[k].0@));
                    assert(from_both.contains(d));
                }
            }
        }
    }
    poisoned
}

/// Whether the source lacks the target's attribute file, or has another blob for it.
spec fn unmatched(
    target: Map<Seq<u8>, gix_hash::ObjectId>,
    source: Map<Seq<u8>, gix_hash::ObjectId>,
    path: Seq<u8>,
) -> bool {
    !source.contains_key(path) || source[path] != target[path]
}

proof fn lemma_entry(files: &AttributeFiles, i: int)
    requires
        distinct(files.entries@),
        0 <= i < files.entries@.len(),
    ensures
        files@.contains_key(files.entries@[i].0@),
        files@[files.entries@[i].0@] == files.entries@[i].1,
{
    let path = files.entries@[i].0@;
    assert(names(files.entries@, path, i));
    let k = choose|k: int| names(files.entries@, path, k);
    lemma_one_entry(files.entries@, path, i, k);
}

/// Whether a path lies under any of the prefixes.
pub open spec fn under_any(path: Seq<u8>, prefixes: Seq<Seq<u8>>) -> bool {
    exists|i: int| 0 <= i < prefixes.len() && (#[trigger] prefixes[i]).is_prefix_of(path)
}

/// Whether a path lies under any disqualified directory.
pub fn is_poisoned(path: &[u8], poisoned: &[Vec<u8>]) -> (r: bool)
    ensures
        r == under_any(path@, bytes::views(poisoned@)),
{
    let ghost prefixes = bytes::views(poisoned@);
    let mut i: usize = 0;
    while i < poisoned.len()
        invariant
            i <= poisoned.len(),
            prefixes == bytes::views(poisoned@),
            forall|j: int| 0 <= j < i ==> !(#[trigger] prefixes[j]).is_prefix_of(path@),
        decreases poisoned.len() - i,
    {
        if bytes::begins_with(path, poisoned[i].as_slice()) {
            assert(prefixes[i as int].is_prefix_of(path@));
            return true;
        }
        i = i + 1;
    }
    false
}

/// A path is disqualified exactly when attributes that govern it disagree: when the
/// directory of an attribute file that is not the same on both sides leads to the path.
pub proof fn a_path_is_poisoned_by_what_governs_it(
    target: Map<Seq<u8>, gix_hash::ObjectId>,
    source: Map<Seq<u8>, gix_hash::ObjectId>,
    dirty: Seq<Seq<u8>>,
    poisoned: Seq<Seq<u8>>,
    path: Seq<u8>,
)
    requires
        forall|d: Seq<u8>|
            #[trigger] poisoned.contains(d) <==> exists|p: Seq<u8>|
                disagree(target, source, dirty, p) && #[trigger] tree::directory(p) == d,
    ensures
        under_any(path, poisoned) <==> exists|p: Seq<u8>|
            disagree(target, source, dirty, p) && (#[trigger] tree::directory(p)).is_prefix_of(path),
{
    if under_any(path, poisoned) {
        let i = choose|i: int|
            0 <= i < poisoned.len() && (#[trigger] poisoned[i]).is_prefix_of(path);
        assert(poisoned.contains(poisoned[i]));
    }
    if exists|p: Seq<u8>|
        disagree(target, source, dirty, p) && (#[trigger] tree::directory(p)).is_prefix_of(path) {
        let p = choose|p: Seq<u8>|
            disagree(target, source, dirty, p) && (#[trigger] tree::directory(p)).is_prefix_of(
                path,
            );
        assert(poisoned.contains(tree::directory(p)));
        let i = choose|i: int| 0 <= i < poisoned.len() && poisoned[i] == tree::directory(p);
        assert(poisoned[i].is_prefix_of(path));
    }
}

/// The same attributes on both sides, none of them modified, disqualify nothing.
pub proof fn identical_attributes_poison_nothing(
    both: Map<Seq<u8>, gix_hash::ObjectId>,
    path: Seq<u8>,
)
    ensures
        !disagree(both, both, Seq::empty(), path),
{
}

/// A disqualified repository root disqualifies every path.
pub proof fn a_poisoned_root_poisons_everything(poisoned: Seq<Seq<u8>>, path: Seq<u8>)
    requires
        poisoned.contains(Seq::<u8>::empty()),
    ensures
        under_any(path, poisoned),
{
    let i = choose|i: int| 0 <= i < poisoned.len() && poisoned[i] == Seq::<u8>::empty();
    assert(poisoned[i] =~= path.take(0));
    assert(poisoned[i].is_prefix_of(path));
}

/// The stat cache is trusted exactly as far as git trusts it: a clone takes agreement of
/// whole-second mtime and ctime, size, inode, uid and gid, and an index that was written in
/// a later second than the file.
pub proof fn a_clone_rests_on_the_stat_cache(
    entry: Entry,
    metadata: Metadata,
    written: Timestamp,
    windows: bool,
)
    ensures
        verdict(entry, metadata, written, windows) == Verdict::Clone <==> !metadata.directory && (
        metadata.stat matches Some(on_disk) && on_disk.mtime.secs == entry.stat.mtime.secs
            && on_disk.ctime.secs == entry.stat.ctime.secs && on_disk.size == entry.stat.size
            && on_disk.ino == entry.stat.ino && on_disk.uid == entry.stat.uid && on_disk.gid
            == entry.stat.gid) && entry.stat.mtime.secs < written.seconds,
{
}

/// What stands in for a file is a checkout of that very file: the same blob under the same
/// mode, which is one of a regular file, an executable or a symlink, in an entry that is not
/// in conflict, not assumed unchanged, not kept out of the working tree and not added by
/// intent only. Nothing else is asked of it.
pub proof fn only_the_very_same_file_stands_in(target: Blob, entry: Entry)
    ensures
        can_stand_in(target, entry) <==> {
            &&& entry.id == target.oid
            &&& entry.mode == target.mode
            &&& (entry.mode == 0o100644u32 || entry.mode == 0o100755u32 || entry.mode
                == 0o120000u32)
            &&& entry.flags & 0x3000u32 == 0
            &&& entry.flags & 0x8000u32 == 0
            &&& entry.flags & 0x4000_0000u32 == 0
            &&& entry.flags & 0x2000_0000u32 == 0
        },
{
    let flags = entry.flags;
    assert((flags & 0x3000u32) >> 12 == 0 <==> flags & 0x3000u32 == 0) by (bit_vector);
}

/// The stage of an entry is the number in its two stage bits, and a file is clonable by its
/// mode alone.
pub proof fn stages_and_modes_are_read_from_their_bits(flags: u32, mode: u32)
    ensures
        stage(flags) == (flags >> 12) & 3,
        stage(flags) <= 3,
        clonable(mode) <==> mode == 0o100644u32 || mode == 0o100755u32 || mode == 0o120000u32,
{
    assert((flags & 0x3000u32) >> 12 == (flags >> 12) & 3u32) by (bit_vector);
    assert((flags >> 12) & 3u32 <= 3) by (bit_vector);
}

/// An entry is trusted exactly when none of the flags is set by which git stops to maintain
/// or to trust its stat data.
pub proof fn trust_depends_on_three_flags(flags: u32)
    ensures
        untrustworthy(flags) <==> flags & 0xe000_8000u32 & !0x8000_0000u32 != 0,
{
    assert((flags & 0x8000u32 != 0 || flags & 0x4000_0000u32 != 0 || flags & 0x2000_0000u32 != 0)
        == (flags & 0xe000_8000u32 & !0x8000_0000u32 != 0)) by (bit_vector);
}

/// What cannot be cloned is left to git or rejected: a directory, and a path without stat
/// data, is rejected everywhere. Stat data that differs is rejected, save on Windows, where
/// git is asked. Git is also asked about a file that is as young as the index.
pub proof fn what_is_not_cloned_is_asked_about_or_rejected(
    entry: Entry,
    metadata: Metadata,
    written: Timestamp,
    windows: bool,
)
    ensures
        metadata.directory ==> verdict(entry, metadata, written, windows) == Verdict::Reject,
        metadata.stat is None ==> verdict(entry, metadata, written, windows) == Verdict::Reject,
        !metadata.directory ==> (metadata.stat matches Some(on_disk) ==> {
            let same = on_disk.mtime.secs == entry.stat.mtime.secs && on_disk.ctime.secs
                == entry.stat.ctime.secs && on_disk.size == entry.stat.size && on_disk.ino
                == entry.stat.ino && on_disk.uid == entry.stat.uid && on_disk.gid
                == entry.stat.gid;
            &&& !same && windows ==> verdict(entry, metadata, written, windows) == Verdict::AskGit
            &&& !same && !windows ==> verdict(entry, metadata, written, windows)
                == Verdict::Reject
            &&& same && entry.stat.mtime.secs >= written.seconds ==> verdict(
                entry,
                metadata,
                written,
                windows,
            ) == Verdict::AskGit
        }),
{
}

/// Attributes at a path are the same on both sides exactly when neither side has any there
/// or both have the same blob, and the source's file is not modified.
pub proof fn attributes_agree_where_they_are_the_same(
    target: Map<Seq<u8>, gix_hash::ObjectId>,
    source: Map<Seq<u8>, gix_hash::ObjectId>,
    dirty: Seq<Seq<u8>>,
    path: Seq<u8>,
    oid: gix_hash::ObjectId,
    other: gix_hash::ObjectId,
)
    requires
        oid != other,
    ensures
        disagree(target, source, dirty.push(path), path),
        disagree(target.insert(path, oid), source.insert(path, other), dirty, path),
        disagree(target.insert(path, oid), source.remove(path), dirty, path),
        disagree(target.remove(path), source.insert(path, oid), dirty, path),
        !dirty.contains(path) ==> !disagree(
            target.insert(path, oid),
            source.insert(path, oid),
            dirty,
            path,
        ),
        !dirty.contains(path) ==> !disagree(
            target.remove(path),
            source.remove(path),
            dirty,
            path,
        ),
{
    bytes::lemma_push_contains(dirty, path, path);
}

/// A path lies under a prefix exactly when it continues one of them.
pub proof fn a_path_continues_what_it_lies_under(
    path: Seq<u8>,
    prefixes: Seq<Seq<u8>>,
    prefix: Seq<u8>,
    rest: Seq<u8>,
)
    ensures
        prefixes.contains(prefix) ==> under_any(prefix + rest, prefixes),
        under_any(path, prefixes) ==> exists|i: int|
            0 <= i < prefixes.len() && (#[trigger] prefixes[i]).len() <= path.len() && path.take(
                prefixes[i].len() as int,
            ) == prefixes[i],
{
    if prefixes.contains(prefix) {
        let i = choose|i: int| 0 <= i < prefixes.len() && prefixes[i] == prefix;
        assert((prefix + rest).take(prefix.len() as int) =~= prefix);
        assert(prefixes[i].is_prefix_of(prefix + rest));
    }
}

/// Strictly ascending prefixes are in byte order and none occurs twice.
pub proof fn ascending_lists_are_in_byte_order(list: Seq<Seq<u8>>, i: int, j: int)
    requires
        ascending(list),
        0 <= i < j < list.len(),
    ensures
        bytes::before(list[i], list[j]),
        list[i] != list[j],
{
    bytes::lemma_before_irreflexive(list[i]);
}

/// Nanoseconds and devices count only where they are asked for: with them, times agree to the
/// nanosecond and a file of the index's own second is racy from the index's nanosecond on.
pub proof fn finer_comparisons_count_where_asked_for(
    a: Stat,
    b: Stat,
    written: Timestamp,
    options: StatOptions,
)
    ensures
        stats_agree(a, b, options) <==> {
            &&& a.mtime.secs == b.mtime.secs
            &&& a.size == b.size
            &&& options.trust_ctime ==> a.ctime.secs == b.ctime.secs
            &&& options.check_stat && options.use_nsec ==> a.mtime.nsecs == b.mtime.nsecs && (
            options.trust_ctime ==> a.ctime.nsecs == b.ctime.nsecs)
            &&& options.check_stat ==> a.ino == b.ino && a.gid == b.gid && a.uid == b.uid
            &&& options.check_stat && options.use_stdev ==> a.dev == b.dev
        },
        written.seconds < a.mtime.secs ==> racy(a, written, options),
        written.seconds > a.mtime.secs ==> !racy(a, written, options),
        written.seconds == a.mtime.secs ==> (racy(a, written, options) <==> !(options.use_nsec
            && options.check_stat) || written.nanoseconds <= a.mtime.nsecs),
{
}

} // verus!
