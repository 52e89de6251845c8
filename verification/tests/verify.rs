use git_sprout::tree::directory_of;
use git_sprout::tree::Blob;
use git_sprout::verify::entry_can_stand_in;
use git_sprout::verify::entry_is_untrustworthy;
use git_sprout::verify::is_poisoned;
use git_sprout::verify::mode_is_clonable;
use git_sprout::verify::poisoned_prefixes;
use git_sprout::verify::stat_verdict;
use git_sprout::verify::AttributeFiles;
use git_sprout::verify::Entry;
use git_sprout::verify::Metadata;
use git_sprout::verify::Stat;
use git_sprout::verify::Time;
use git_sprout::verify::Timestamp;
use git_sprout::verify::Verdict;

fn oid(byte: u8) -> gix_hash::ObjectId {
    gix_hash::ObjectId::from_hex(format!("{:02x}", byte).repeat(20).as_bytes()).unwrap()
}

fn attributes(entries: &[(&str, u8)]) -> AttributeFiles {
    let mut files = AttributeFiles::new();
    for (path, byte) in entries {
        files = files.with(path.as_bytes().to_vec(), oid(*byte));
    }
    files
}

fn stat() -> Stat {
    Stat {
        mtime: Time { secs: 1000, nsecs: 5 },
        ctime: Time { secs: 1001, nsecs: 6 },
        dev: 1,
        ino: 2,
        uid: 3,
        gid: 4,
        size: 5,
    }
}

fn entry() -> Entry {
    Entry { flags: 0, mode: 0o100644, id: oid(1), stat: stat() }
}

fn file(stat: Stat) -> Metadata {
    Metadata { directory: false, stat: Some(stat) }
}

fn at(seconds: i64) -> Timestamp {
    Timestamp { seconds, nanoseconds: 0 }
}

#[test]
fn only_regular_files_and_symlinks_are_clonable() {
    assert!(mode_is_clonable(0o100644));
    assert!(mode_is_clonable(0o100755));
    assert!(mode_is_clonable(0o120000));
    assert!(!mode_is_clonable(0o160000));
    assert!(!mode_is_clonable(0o040000));
}

#[test]
fn identical_attributes_disqualify_nothing() {
    let both = attributes(&[(".gitattributes", 1), ("src/.gitattributes", 2)]);
    assert!(poisoned_prefixes(&both, &both, &[]).is_empty());
}

#[test]
fn a_changed_attributes_file_disqualifies_its_directory() {
    let target = attributes(&[("src/.gitattributes", 1)]);
    let source = attributes(&[("src/.gitattributes", 2)]);
    let poisoned = poisoned_prefixes(&target, &source, &[]);
    assert_eq!(poisoned, vec![b"src/".to_vec()]);
    assert!(is_poisoned(b"src/a.txt", &poisoned));
    assert!(!is_poisoned(b"doc/a.txt", &poisoned));
}

#[test]
fn a_root_attributes_file_disqualifies_everything() {
    let target = attributes(&[(".gitattributes", 1)]);
    let poisoned = poisoned_prefixes(&target, &AttributeFiles::new(), &[]);
    assert!(is_poisoned(b"anything", &poisoned));
}

#[test]
fn an_attributes_file_only_the_source_has_disqualifies_its_directory() {
    let source = attributes(&[("src/.gitattributes", 1)]);
    let poisoned = poisoned_prefixes(&AttributeFiles::new(), &source, &[]);
    assert!(is_poisoned(b"src/a.txt", &poisoned));
}

#[test]
fn a_modified_attributes_file_disqualifies_its_directory() {
    let both = attributes(&[("src/.gitattributes", 1)]);
    let poisoned = poisoned_prefixes(&both, &both, &[b"src/.gitattributes".to_vec()]);
    assert!(is_poisoned(b"src/a.txt", &poisoned));
}

#[test]
fn poisoned_directories_are_listed_once_and_in_order() {
    let target = attributes(&[("b/.gitattributes", 1), ("a/.gitattributes", 1), ("c/x", 7)]);
    let source = attributes(&[("b/.gitattributes", 2), ("c/x", 7), ("b/other", 3)]);
    let dirty = vec![b"a/.gitattributes".to_vec(), b"top".to_vec()];
    assert_eq!(
        poisoned_prefixes(&target, &source, &dirty),
        vec![b"".to_vec(), b"a/".to_vec(), b"b/".to_vec()]
    );
}

#[test]
fn attribute_files_hold_the_last_blob_of_a_path() {
    let files = attributes(&[("a", 1), ("b", 2), ("a", 3)]);
    assert_eq!(files.get(b"a"), Some(oid(3)));
    assert_eq!(files.get(b"b"), Some(oid(2)));
    assert_eq!(files.get(b"c"), None);
}

#[test]
fn a_directory_ends_at_the_last_slash() {
    assert_eq!(directory_of(b"a/b/c"), b"a/b/");
    assert_eq!(directory_of(b"c"), b"");
    assert_eq!(directory_of(b"a/"), b"a/");
    assert_eq!(directory_of(b""), b"");
}

#[test]
fn an_entry_stands_in_for_its_own_blob_only() {
    let target = Blob { mode: 0o100644, oid: oid(1) };
    assert!(entry_can_stand_in(&target, &entry()));
    assert!(!entry_can_stand_in(&Blob { mode: 0o100644, oid: oid(2) }, &entry()));
    assert!(!entry_can_stand_in(&Blob { mode: 0o100755, oid: oid(1) }, &entry()));
    let submodule = Blob { mode: 0o160000, oid: oid(1) };
    assert!(!entry_can_stand_in(&submodule, &Entry { mode: 0o160000, ..entry() }));
}

#[test]
fn an_unmerged_entry_stands_in_for_nothing() {
    let target = Blob { mode: 0o100644, oid: oid(1) };
    for stage in [1, 2, 3] {
        assert!(!entry_can_stand_in(&target, &Entry { flags: stage << 12, ..entry() }));
    }
    assert!(entry_can_stand_in(&target, &Entry { flags: 0x0fff, ..entry() }));
}

#[test]
fn flags_that_void_the_stat_data_are_seen() {
    assert!(entry_is_untrustworthy(gix_index::entry::Flags::ASSUME_VALID.bits()));
    assert!(entry_is_untrustworthy(gix_index::entry::Flags::SKIP_WORKTREE.bits()));
    assert!(entry_is_untrustworthy(gix_index::entry::Flags::INTENT_TO_ADD.bits()));
    assert!(!entry_is_untrustworthy(gix_index::entry::Flags::EXTENDED.bits()));
    assert!(!entry_is_untrustworthy(0));
    let target = Blob { mode: 0o100644, oid: oid(1) };
    let flags = gix_index::entry::Flags::SKIP_WORKTREE.bits();
    assert!(!entry_can_stand_in(&target, &Entry { flags, ..entry() }));
}

#[test]
fn a_clean_file_older_than_the_index_is_cloned() {
    assert_eq!(stat_verdict(&entry(), &file(stat()), at(1001), false), Verdict::Clone);
    assert_eq!(stat_verdict(&entry(), &file(stat()), at(i64::MAX), false), Verdict::Clone);
}

#[test]
fn devices_and_nanoseconds_are_not_compared() {
    let mut other = stat();
    other.dev = 99;
    other.mtime.nsecs = 77;
    other.ctime.nsecs = 88;
    assert_eq!(stat_verdict(&entry(), &file(other), at(2000), false), Verdict::Clone);
}

#[test]
fn any_other_difference_is_a_rejection() {
    let mut differing = vec![stat(); 6];
    differing[0].mtime.secs += 1;
    differing[1].ctime.secs += 1;
    differing[2].size += 1;
    differing[3].ino += 1;
    differing[4].uid += 1;
    differing[5].gid += 1;
    for other in differing {
        assert_eq!(stat_verdict(&entry(), &file(other), at(2000), false), Verdict::Reject);
        assert_eq!(stat_verdict(&entry(), &file(other), at(2000), true), Verdict::AskGit);
    }
}

#[test]
fn a_racily_clean_file_is_left_to_git() {
    assert_eq!(stat_verdict(&entry(), &file(stat()), at(1000), false), Verdict::AskGit);
    assert_eq!(stat_verdict(&entry(), &file(stat()), at(999), false), Verdict::AskGit);
    assert_eq!(stat_verdict(&entry(), &file(stat()), at(-1), false), Verdict::AskGit);
    let later = Timestamp { seconds: 1000, nanoseconds: 999_999_999 };
    assert_eq!(stat_verdict(&entry(), &file(stat()), later, false), Verdict::AskGit);
}

#[test]
fn directories_and_files_without_stat_data_are_rejected() {
    let directory = Metadata { directory: true, stat: Some(stat()) };
    assert_eq!(stat_verdict(&entry(), &directory, at(2000), true), Verdict::Reject);
    let unknown = Metadata { directory: false, stat: None };
    assert_eq!(stat_verdict(&entry(), &unknown, at(2000), true), Verdict::Reject);
}
