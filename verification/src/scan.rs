//! The scan coordinator: which roots a scan starts from, and how the files
//! that the walkers report are folded into the store of the largest.

use vstd::prelude::*;
use crate::file_service::{
    FileRecord, Folder, LargeFile, TopKStore, first_min_index, lemma_all_kept_while_room,
    lemma_len_after, records, replace_smallest_file,
};
use crate::text::texts;
use crate::tree::{EnumerationError, FileEntry, FileMeta, FsNode, leaves, node_path, path_of};
use crate::walker::{ActiveTaskCounter, copy_entry, find_directories_for_path, sent_from};

verus! {

/// The bytes of one megabyte.
pub const BYTES_PER_MB: u64 = 1048576;

/// A length in bytes as whole megabytes, rounded down.
pub open spec fn whole_mb(bytes: u64) -> nat {
    (bytes as nat) / (BYTES_PER_MB as nat)
}

/// A length in bytes as whole megabytes: a file of less than one megabyte
/// counts as 0.
pub fn size_in_mb(bytes: u64) -> (mb: u64)
    ensures
        mb == whole_mb(bytes),
{
    bytes / 1024 / 1024
}

/// Whether the coordinator stores a reported file: its metadata could be
/// read and says that it is a regular file.
pub open spec fn is_counted(meta: Option<FileMeta>) -> bool {
    meta is Some && meta->0.is_file
}

/// The record under which a counted file is stored.
pub open spec fn record_of(entry: FileEntry) -> FileRecord {
    FileRecord { path: entry.path@, size_mb: whole_mb(entry.meta->0.len) }
}

/// The records that a row of reported files leaves in the store's input:
/// one for each counted file, in the order of the reports.
pub open spec fn counted_records(reports: Seq<FileEntry>) -> Seq<FileRecord>
    decreases reports.len(),
{
    if reports.len() == 0 {
        Seq::empty()
    } else if is_counted(reports.last().meta) {
        counted_records(reports.drop_last()).push(record_of(reports.last()))
    } else {
        counted_records(reports.drop_last())
    }
}

/// Takes one file that a walker reported, with what the lookup of its
/// metadata gave. A regular file goes into the store under its path and
/// its size in whole megabytes; anything else, and a file whose lookup
/// failed, leaves the store as it was. Returns whether the file was
/// counted.
pub fn receive(folder: &mut Folder, path: &str, meta: Option<FileMeta>) -> (counted: bool)
    requires
        old(folder).wf(),
        old(folder).folder_size > 0,
    ensures
        counted == is_counted(meta),
        counted ==> final(folder)@ == old(folder)@.inserted(
            FileRecord { path: path@, size_mb: whole_mb(meta->0.len) },
        ),
        !counted ==> *final(folder) == *old(folder),
        final(folder).wf(),
        final(folder).folder_size == old(folder).folder_size,
        final(folder).name == old(folder).name,
{
    match meta {
        Some(m) => {
            if m.is_file {
                folder.add_file(LargeFile::new(path.to_owned(), size_in_mb(m.len)));
                true
            } else {
                false
            }
        },
        None => false,
    }
}

/// What one wait on the channel gave.
#[derive(Debug, Clone, PartialEq, Eq)]
pub enum Received {
    /// A file that a walker reported.
    File(FileEntry),
    /// Nothing arrived within the waiting time.
    TimedOut,
}

/// `n` events were taken before the drain ended: none of them a timeout,
/// and the next one, if there is one, the first timeout.
pub open spec fn is_drain_end(events: Seq<Received>, n: int) -> bool {
    &&& 0 <= n <= events.len()
    &&& forall|k: int| 0 <= k < n ==> #[trigger] events[k] is File
    &&& n < events.len() ==> events[n] is TimedOut
}

/// The number of events that stand before the first timeout.
pub open spec fn drain_end(events: Seq<Received>) -> int
    decreases events.len(),
{
    if events.len() == 0 || events.first() is TimedOut {
        0
    } else {
        1 + drain_end(events.drop_first())
    }
}

/// `drain_end` names the place of the first timeout.
pub proof fn lemma_drain_end(events: Seq<Received>)
    ensures
        is_drain_end(events, drain_end(events)),
    decreases events.len(),
{
    if events.len() > 0 && events.first() is File {
        let rest = events.drop_first();
        lemma_drain_end(rest);
        let n = drain_end(rest);
        assert forall|k: int| 0 <= k < n + 1 implies #[trigger] events[k] is File by {
            if k > 0 {
                assert(rest[k - 1] is File);
            }
        }
        if n + 1 < events.len() {
            assert(rest[n] is TimedOut);
        }
    }
}

/// The drain can end at one place only.
pub proof fn lemma_drain_end_unique(events: Seq<Received>, m: int, n: int)
    requires
        is_drain_end(events, m),
        is_drain_end(events, n),
    ensures
        m == n,
{
    if m < n {
        assert(events[m] is File);
    } else if n < m {
        assert(events[n] is File);
    }
}

/// The files among the first `n` events, in their order. All of these
/// events are files where `n` is at most `drain_end(events)`.
pub open spec fn files_before(events: Seq<Received>, n: int) -> Seq<FileEntry>
    recommends
        0 <= n <= events.len(),
{
    Seq::new(n as nat, |k: int| events[k]->File_0)
}

/// Folds the files that arrive on the channel into the store, up to the
/// first wait that times out: that wait ends the scan, and what arrives
/// after it is not looked at. Returns the number of files counted.
pub fn drain(folder: &mut Folder, events: &Vec<Received>) -> (total: u64)
    requires
        old(folder).wf(),
        old(folder).folder_size > 0,
    ensures
        final(folder)@ == old(folder)@.after(
            counted_records(files_before(events@, drain_end(events@))),
        ),
        total == counted_records(files_before(events@, drain_end(events@))).len(),
        is_drain_end(events@, drain_end(events@)),
        final(folder).wf(),
        final(folder).folder_size == old(folder).folder_size,
        final(folder).name == old(folder).name,
{
    let mut total: u64 = 0;
    let mut i: usize = 0;
    proof {
        assert(files_before(events@, 0) == Seq::<FileEntry>::empty());
    }
    while i < events.len()
        invariant
            i <= events.len(),
            folder.wf(),
            folder.folder_size > 0,
            folder.folder_size == old(folder).folder_size,
            folder.name == old(folder).name,
            forall|k: int| 0 <= k < i ==> #[trigger] events@[k] is File,
            folder@ == old(folder)@.after(counted_records(files_before(events@, i as int))),
            total == counted_records(files_before(events@, i as int)).len(),
            total <= i,
        decreases events.len() - i,
    {
        match &events[i] {
            Received::File(entry) => {
                proof {
                    assert(files_before(events@, i + 1).drop_last() == files_before(
                        events@,
                        i as int,
                    ));
                    assert(files_before(events@, i + 1).last() == *entry);
                    let seen = counted_records(files_before(events@, i as int));
                    assert(seen.push(record_of(*entry)).drop_last() == seen);
                }
                if receive(folder, entry.path.as_str(), entry.meta) {
                    total = total + 1;
                }
            },
            Received::TimedOut => {
                proof {
                    lemma_drain_end(events@);
                    lemma_drain_end_unique(events@, i as int, drain_end(events@));
                }
                return total;
            },
        }
        i = i + 1;
    }
    proof {
        lemma_drain_end(events@);
        lemma_drain_end_unique(events@, i as int, drain_end(events@));
    }
    total
}

/// Whether the path `path` begins with the whole components of the path
/// `base`, as the standard library compares paths.
pub uninterp spec fn path_starts_with(path: Seq<char>, base: Seq<char>) -> bool;

/// `std::path::Path::starts_with`, on the two strings taken as paths. The
/// result depends on the two paths alone; it is known here only by its
/// name, `path_starts_with`.
#[verifier::external_body]
fn starts_with_path(path: &str, base: &str) -> (prefixed: bool)
    ensures
        prefixed == path_starts_with(path@, base@),
{
    std::path::Path::new(path).starts_with(base)
}

/// Whether a scan passes over the root `path`: it lies under one of the
/// mount points of the virtual machine's drivers and overlays, which are
/// unreadable or of no interest.
pub open spec fn excluded_mount(path: Seq<char>) -> bool {
    ||| path_starts_with(path, "/usr/lib/wsl/drivers"@)
    ||| path_starts_with(path, "/usr/lib/wsl/lib"@)
    ||| path_starts_with(path, "/mnt/wslg/distro"@)
    ||| path_starts_with(path, "/mnt/wslg/doc"@)
}

/// Whether a scan passes over the root `path`.
pub fn is_excluded_mount(path: &str) -> (excluded: bool)
    ensures
        excluded == excluded_mount(path@),
{
    starts_with_path(path, "/usr/lib/wsl/drivers") || starts_with_path(path, "/usr/lib/wsl/lib")
        || starts_with_path(path, "/mnt/wslg/distro") || starts_with_path(path, "/mnt/wslg/doc")
}

/// The roots of a scan: the path that the caller named, or every mounted
/// volume where the caller named none.
pub open spec fn roots_for(defined_path: Seq<char>, mounted: Seq<Seq<char>>) -> Seq<Seq<char>> {
    if defined_path.len() == 0 {
        mounted
    } else {
        seq![defined_path]
    }
}

/// The roots of a scan for the path `defined_path`, given the mount points
/// of the mounted volumes.
pub fn get_avaliable_disks(defined_path: &str, mounted: Vec<String>) -> (paths: Vec<String>)
    ensures
        texts(paths@) == roots_for(defined_path@, texts(mounted@)),
{
    if defined_path.is_empty() {
        mounted
    } else {
        let mut paths: Vec<String> = Vec::new();
        paths.push(defined_path.to_owned());
        assert(texts(paths@) == seq![defined_path@]);
        paths
    }
}

/// What a scan works with: its roots, and the counter that all its
/// walkers share.
pub struct SearchEngine {
    pub disks_to_search: Vec<String>,
    pub thread_pool: ActiveTaskCounter,
}

impl SearchEngine {
    /// An engine for a scan of `defined_path`, or of the mounted volumes
    /// where that is empty, with no task running.
    pub fn new(defined_path: &str, mounted: Vec<String>) -> (engine: SearchEngine)
        ensures
            texts(engine.disks_to_search@) == roots_for(defined_path@, texts(mounted@)),
            engine.thread_pool@ == 0,
    {
        SearchEngine {
            disks_to_search: get_avaliable_disks(defined_path, mounted),
            thread_pool: ActiveTaskCounter::new(),
        }
    }
}

/// The files that the walkers of a scan send: those below each root that
/// is not passed over, root after root.
pub open spec fn walked(roots: Seq<FsNode>) -> Seq<FileEntry>
    decreases roots.len(),
{
    if roots.len() == 0 {
        Seq::empty()
    } else if excluded_mount(path_of(roots.last())) {
        walked(roots.drop_last())
    } else {
        walked(roots.drop_last()) + sent_from(roots.last())
    }
}

/// The counted records of two rows of reports, one after the other.
pub proof fn lemma_counted_concat(a: Seq<FileEntry>, b: Seq<FileEntry>)
    ensures
        counted_records(a + b) == counted_records(a) + counted_records(b),
    decreases b.len(),
{
    if b.len() == 0 {
        assert(a + b == a);
        assert(counted_records(a) + counted_records(b) == counted_records(a));
    } else {
        assert((a + b).drop_last() == a + b.drop_last());
        lemma_counted_concat(a, b.drop_last());
        if is_counted(b.last().meta) {
            assert(counted_records(a) + counted_records(b.drop_last()).push(record_of(b.last()))
                == (counted_records(a) + counted_records(b.drop_last())).push(
                record_of(b.last()),
            ));
        }
    }
}

/// A file whose metadata cannot be read, or that is no regular file,
/// leaves no trace: the scan takes the files reported before and after it
/// as if it had not been reported.
pub proof fn lemma_uncounted_left_out(before: Seq<FileEntry>, entry: FileEntry, after: Seq<FileEntry>)
    requires
        !is_counted(entry.meta),
    ensures
        counted_records(before + seq![entry] + after) == counted_records(before + after),
{
    lemma_counted_concat(before + seq![entry], after);
    lemma_counted_concat(before, seq![entry]);
    lemma_counted_concat(before, after);
    assert(seq![entry].last() == entry);
    assert(seq![entry].drop_last().len() == 0);
    assert(counted_records(seq![entry].drop_last()) == Seq::<FileRecord>::empty());
    assert(counted_records(seq![entry]) == Seq::<FileRecord>::empty());
    assert(counted_records(before) + Seq::<FileRecord>::empty() == counted_records(before));
}

/// The events of a channel on which the files `reports` arrive one after
/// the other and no wait times out.
pub fn as_events(reports: &Vec<FileEntry>) -> (events: Vec<Received>)
    ensures
        events@.len() == reports@.len(),
        forall|k: int|
            0 <= k < reports@.len() ==> #[trigger] events@[k] == Received::File(reports@[k]),
        drain_end(events@) == reports@.len(),
        files_before(events@, reports@.len() as int) == reports@,
{
    let mut events: Vec<Received> = Vec::new();
    let mut i: usize = 0;
    while i < reports.len()
        invariant
            i <= reports.len(),
            events@.len() == i,
            forall|k: int| 0 <= k < i ==> #[trigger] events@[k] == Received::File(reports@[k]),
        decreases reports.len() - i,
    {
        events.push(Received::File(copy_entry(&reports[i])));
        i = i + 1;
    }
    proof {
        lemma_drain_end(events@);
        lemma_drain_end_unique(events@, reports@.len() as int, drain_end(events@));
        assert(files_before(events@, reports@.len() as int) == reports@);
    }
    events
}

/// Scans the trees listed at `roots` for their largest files: every root
/// that is not passed over is walked, and each file that the walkers send
/// is folded into a store named `name` with room for `count` files. Returns
/// the store and the number of files counted.
///
/// While no more files are counted than the store has room for, the store
/// holds exactly those files; once more are counted, it holds exactly
/// `count` of them.
pub fn scan(roots: &Vec<FsNode>, name: String, count: usize) -> (found: (Folder, u64))
    requires
        count > 0,
    ensures
        found.0@ == (TopKStore {
            label: name@,
            capacity: count as nat,
            entries: Seq::empty(),
        }).after(counted_records(walked(roots@))),
        found.0.wf(),
        found.1 == counted_records(walked(roots@)).len(),
        found.1 <= count ==> found.0@.entries == counted_records(walked(roots@)),
        found.1 > count ==> found.0@.entries.len() == count,
{
    let mut folder = Folder::new(name, count);
    let mut thread_pool = ActiveTaskCounter::new();
    let mut tx: Vec<FileEntry> = Vec::new();
    let mut i: usize = 0;
    proof {
        assert(roots@.take(0) == Seq::<FsNode>::empty());
    }
    while i < roots.len()
        invariant
            i <= roots.len(),
            tx@ == walked(roots@.take(i as int)),
            thread_pool@ == 0,
        decreases roots.len() - i,
    {
        proof {
            assert(roots@.take(i + 1).drop_last() == roots@.take(i as int));
            assert(roots@.take(i + 1).last() == roots@[i as int]);
        }
        if !is_excluded_mount(node_path(&roots[i])) {
            find_directories_for_path(&roots[i], &mut tx, &mut thread_pool);
        }
        i = i + 1;
    }
    proof {
        assert(roots@.take(i as int) == roots@);
        let empty = TopKStore { label: name@, capacity: count as nat, entries: Seq::empty() };
        assert(folder@ == empty);
        lemma_len_after(empty, counted_records(walked(roots@)));
        if counted_records(walked(roots@)).len() <= count {
            lemma_all_kept_while_room(
                empty,
                counted_records(walked(roots@)),
            );
            assert(Seq::<FileRecord>::empty() + counted_records(walked(roots@))
                == counted_records(walked(roots@)));
        }
    }
    let events = as_events(&tx);
    let total = drain(&mut folder, &events);
    (folder, total)
}

/// Scans the trees listed at `roots` for their ten largest files.
pub fn search_engine(roots: &Vec<FsNode>) -> (folder: Folder)
    ensures
        folder@ == (TopKStore { label: "Test"@, capacity: 10, entries: Seq::empty() }).after(
            counted_records(walked(roots@)),
        ),
        folder.wf(),
{
    scan(roots, "Test".to_owned(), 10).0
}

/// The most files that `find_largest_files` keeps.
pub const LARGEST_KEPT: usize = 10;

/// The records under which `find_largest_files` stores a row of files:
/// one for each file whose metadata could be read, under its bare name,
/// in the order of the row.
pub open spec fn named_records(files: Seq<FileEntry>) -> Seq<FileRecord>
    decreases files.len(),
{
    if files.len() == 0 {
        Seq::empty()
    } else if files.last().meta is Some {
        named_records(files.drop_last()).push(
            FileRecord {
                path: files.last().name@,
                size_mb: whole_mb(files.last().meta->0.len),
            },
        )
    } else {
        named_records(files.drop_last())
    }
}

/// What makes a walk of `root` fail: that `root` is no directory, or
/// cannot be listed. Nothing below it does.
pub open spec fn listing_failure(root: FsNode) -> Option<Seq<char>> {
    match root {
        FsNode::Dir { path, children } => None,
        _ => Some(path_of(root)),
    }
}

/// The vault as a store of `LARGEST_KEPT` files.
pub open spec fn vault_store(vault: Seq<LargeFile>) -> TopKStore {
    TopKStore { label: Seq::empty(), capacity: LARGEST_KEPT as nat, entries: records(vault) }
}

/// Takes one file into `storage`, which keeps `LARGEST_KEPT` files: it is
/// appended, or, where `storage` holds exactly `LARGEST_KEPT` files,
/// written over the earliest smallest of them.
pub fn store_largest(file: LargeFile, storage: &mut Vec<LargeFile>)
    ensures
        vault_store(final(storage)@) == vault_store(old(storage)@).inserted(file@),
        old(storage)@.len() != LARGEST_KEPT ==> final(storage)@ == old(storage)@.push(file),
        old(storage)@.len() == LARGEST_KEPT ==> final(storage)@ == old(storage)@.update(
            first_min_index(records(old(storage)@)),
            file,
        ),
{
    if storage.len() == LARGEST_KEPT {
        replace_smallest_file(file, storage);
        assert(records(storage@) == records(old(storage)@).update(
            first_min_index(records(old(storage)@)),
            file@,
        ));
    } else {
        storage.push(file);
        assert(records(storage@) == records(old(storage)@).push(file@));
    }
}

/// Folds the files of the tree `root` into `storage`, which keeps
/// `LARGEST_KEPT` files: each file whose metadata could be read comes in
/// under its bare name with its size in whole megabytes, in the order of a
/// depth-first walk. Returns the number of files that came in. A directory
/// below the root that could not be listed costs the files below it and
/// no others; the walk fails only where the root itself could not be
/// listed, and `storage` then stays as it was.
pub fn find_largest_files(root: &FsNode, storage: &mut Vec<LargeFile>) -> (done: Result<
    u64,
    EnumerationError,
>)
    ensures
        done is Ok <==> listing_failure(*root) is None,
        done is Ok ==> records(final(storage)@) == vault_store(old(storage)@).after(
            named_records(leaves(*root)),
        ).entries,
        done is Ok ==> done->Ok_0 == named_records(leaves(*root)).len(),
        done is Err ==> Some(done->Err_0.path@) == listing_failure(*root),
        done is Err ==> *final(storage) == *old(storage),
{
    match root {
        FsNode::Dir { path, children } => {},
        _ => {
            return Err(EnumerationError { path: node_path(root).to_owned() });
        },
    }
    let mut found: Vec<FileEntry> = Vec::new();
    let mut thread_pool = ActiveTaskCounter::new();
    find_directories_for_path(root, &mut found, &mut thread_pool);
    assert(found@ == leaves(*root)) by {
        assert(found@ == Seq::<FileEntry>::empty() + leaves(*root));
    }
    let mut total: u64 = 0;
    let mut i: usize = 0;
    proof {
        assert(found@.take(0) == Seq::<FileEntry>::empty());
    }
    while i < found.len()
        invariant
            i <= found.len(),
            total <= i,
            total == named_records(found@.take(i as int)).len(),
            vault_store(storage@) == vault_store(old(storage)@).after(
                named_records(found@.take(i as int)),
            ),
        decreases found.len() - i,
    {
        proof {
            assert(found@.take(i + 1).drop_last() == found@.take(i as int));
            assert(found@.take(i + 1).last() == found@[i as int]);
        }
        match found[i].meta {
            Some(meta) => {
                let large_file = LargeFile {
                    filename: found[i].name.clone(),
                    file_size: size_in_mb(meta.len),
                };
                let ghost seen = named_records(found@.take(i as int));
                let ghost record = large_file@;
                store_largest(large_file, storage);
                proof {
                    assert(seen.push(record).drop_last() == seen);
                }
                total = total + 1;
            },
            None => {},
        }
        i = i + 1;
    }
    assert(found@.take(i as int) == found@);
    Ok(total)
}

} // verus!
