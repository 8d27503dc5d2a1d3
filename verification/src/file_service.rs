//! The store of the largest files seen so far, with its eviction rule.

use vstd::prelude::*;
use crate::text::{decimal, texts, u64_text};

verus! {

/// What a stored file is to the contracts: its path and its size in whole
/// megabytes.
pub ghost struct FileRecord {
    pub path: Seq<char>,
    pub size_mb: nat,
}

/// The store as the contracts see it: a label, a capacity and the records
/// in the order of their slots.
pub ghost struct TopKStore {
    pub label: Seq<char>,
    pub capacity: nat,
    pub entries: Seq<FileRecord>,
}

/// `i` is the slot of the smallest record of `s`, the earliest one where
/// several share the smallest size.
pub open spec fn is_first_min(s: Seq<FileRecord>, i: int) -> bool {
    &&& 0 <= i < s.len()
    &&& forall|j: int| 0 <= j < s.len() ==> s[i].size_mb <= #[trigger] s[j].size_mb
    &&& forall|j: int| 0 <= j < i ==> s[i].size_mb < #[trigger] s[j].size_mb
}

/// The slot that an arrival takes over once the store is full.
pub open spec fn first_min_index(s: Seq<FileRecord>) -> int
    decreases s.len(),
{
    if s.len() <= 1 {
        0
    } else {
        let i = first_min_index(s.drop_last());
        if s.last().size_mb < s[i].size_mb {
            s.len() - 1
        } else {
            i
        }
    }
}

/// `first_min_index` names the earliest slot of minimal size.
pub proof fn lemma_first_min_index(s: Seq<FileRecord>)
    requires
        s.len() > 0,
    ensures
        is_first_min(s, first_min_index(s)),
    decreases s.len(),
{
    if s.len() > 1 {
        let t = s.drop_last();
        lemma_first_min_index(t);
        let i = first_min_index(t);
        assert(forall|j: int| 0 <= j < t.len() ==> t[j] == s[j]);
        assert(forall|j: int| 0 <= j < t.len() ==> t[i].size_mb <= #[trigger] t[j].size_mb);
    }
}

/// Two slots that both qualify as the earliest minimum are the same slot.
pub proof fn lemma_first_min_unique(s: Seq<FileRecord>, i: int, j: int)
    requires
        is_first_min(s, i),
        is_first_min(s, j),
    ensures
        i == j,
{
    if i < j {
        assert(s[j].size_mb < s[i].size_mb);
        assert(s[i].size_mb <= s[j].size_mb);
    } else if j < i {
        assert(s[i].size_mb < s[j].size_mb);
        assert(s[j].size_mb <= s[i].size_mb);
    }
}

impl TopKStore {
    /// No more records than the capacity allows.
    pub open spec fn wf(self) -> bool {
        self.entries.len() <= self.capacity
    }

    /// The store after one arrival: appended while there is room, else
    /// written over the earliest smallest record, whatever the sizes.
    pub open spec fn inserted(self, r: FileRecord) -> TopKStore {
        if self.entries.len() == self.capacity {
            TopKStore {
                entries: self.entries.update(first_min_index(self.entries), r),
                ..self
            }
        } else {
            TopKStore { entries: self.entries.push(r), ..self }
        }
    }
}

/// Sizes never grow from one slot to the next.
pub open spec fn non_increasing(s: Seq<FileRecord>) -> bool {
    forall|i: int, j: int| 0 <= i <= j < s.len() ==> s[i].size_mb >= s[j].size_mb
}

/// The records of `s` whose size is `size`, in the order in which `s` holds
/// them.
pub open spec fn of_size(s: Seq<FileRecord>, size: nat) -> Seq<FileRecord>
    decreases s.len(),
{
    if s.len() == 0 {
        Seq::empty()
    } else if s.last().size_mb == size {
        of_size(s.drop_last(), size).push(s.last())
    } else {
        of_size(s.drop_last(), size)
    }
}

/// `after` holds the records of `before`, and records of one size stand in
/// the order they had.
pub open spec fn stable_reorder(before: Seq<FileRecord>, after: Seq<FileRecord>) -> bool {
    &&& after.to_multiset() == before.to_multiset()
    &&& forall|size: nat| #[trigger] of_size(after, size) == of_size(before, size)
}

proof fn lemma_of_size_concat(a: Seq<FileRecord>, b: Seq<FileRecord>, size: nat)
    ensures
        of_size(a + b, size) == of_size(a, size) + of_size(b, size),
    decreases b.len(),
{
    if b.len() == 0 {
        assert(a + b == a);
        assert(of_size(a, size) + of_size(b, size) == of_size(a, size));
    } else {
        assert((a + b).drop_last() == a + b.drop_last());
        lemma_of_size_concat(a, b.drop_last(), size);
        if b.last().size_mb == size {
            assert(of_size(a, size) + of_size(b.drop_last(), size).push(b.last()) == (of_size(
                a,
                size,
            ) + of_size(b.drop_last(), size)).push(b.last()));
        }
    }
}

proof fn lemma_of_size_none(s: Seq<FileRecord>, size: nat)
    requires
        forall|k: int| 0 <= k < s.len() ==> s[k].size_mb != size,
    ensures
        of_size(s, size) == Seq::<FileRecord>::empty(),
    decreases s.len(),
{
    if s.len() > 0 {
        lemma_of_size_none(s.drop_last(), size);
    }
}

/// Moving a record forward past records of other sizes is a stable
/// reordering.
proof fn lemma_move_forward(s: Seq<FileRecord>, i: int, j: int)
    requires
        0 <= j <= i < s.len(),
        forall|k: int| j <= k < i ==> s[k].size_mb != s[i].size_mb,
    ensures
        stable_reorder(s, s.remove(i).insert(j, s[i])),
{
    broadcast use vstd::seq_lib::group_to_multiset_ensures;

    let x = s[i];
    let u = s.remove(i);
    let t = u.insert(j, x);
    let a = s.subrange(0, j);
    let m = s.subrange(j, i);
    let r = s.subrange(i + 1, s.len() as int);
    assert(s == a + m + seq![x] + r);
    assert(t == a + seq![x] + m + r);
    assert forall|size: nat| #[trigger] of_size(t, size) == of_size(s, size) by {
        lemma_of_size_concat(a + m + seq![x], r, size);
        lemma_of_size_concat(a + m, seq![x], size);
        lemma_of_size_concat(a, m, size);
        lemma_of_size_concat(a + seq![x] + m, r, size);
        lemma_of_size_concat(a + seq![x], m, size);
        lemma_of_size_concat(a, seq![x], size);
        if size == x.size_mb {
            lemma_of_size_none(m, size);
        } else {
            lemma_of_size_none(seq![x], size);
        }
    }
    assert(t.remove(j) == u);
    assert(t[j] == x);
    assert(u.to_multiset() == s.to_multiset().remove(x));
    assert(u.to_multiset() == t.to_multiset().remove(x));
    assert(s.contains(x));
    assert(t.contains(x));
    assert(t.to_multiset() =~= s.to_multiset()) by {
        assert forall|y: FileRecord| t.to_multiset().count(y) == s.to_multiset().count(y) by {
            assert(t.to_multiset().remove(x).count(y) == s.to_multiset().remove(x).count(y));
        }
    }
}

proof fn lemma_stable_reorder_trans(a: Seq<FileRecord>, b: Seq<FileRecord>, c: Seq<FileRecord>)
    requires
        stable_reorder(a, b),
        stable_reorder(b, c),
    ensures
        stable_reorder(a, c),
{
    assert forall|size: nat| #[trigger] of_size(c, size) == of_size(a, size) by {
        assert(of_size(c, size) == of_size(b, size));
        assert(of_size(b, size) == of_size(a, size));
    }
}

/// Where some record of `s` has the size `size`, `s` holds one at some
/// slot.
proof fn lemma_of_size_member(s: Seq<FileRecord>, size: nat)
    requires
        of_size(s, size).len() > 0,
    ensures
        exists|k: int| 0 <= k < s.len() && #[trigger] s[k].size_mb == size,
    decreases s.len(),
{
    if s.len() > 0 {
        if s.last().size_mb == size {
            assert(s[s.len() - 1].size_mb == size);
        } else {
            lemma_of_size_member(s.drop_last(), size);
            let k = choose|k: int| 0 <= k < s.drop_last().len() && #[trigger] s.drop_last()[k].size_mb == size;
            assert(s[k].size_mb == size);
        }
    }
}

/// Sorting is settled by its contract: two orders of the same records that
/// both never grow in size, and both keep records of one size in the order
/// they had, are the same order.
pub proof fn lemma_stable_sort_unique(before: Seq<FileRecord>, a: Seq<FileRecord>, b: Seq<FileRecord>)
    requires
        non_increasing(a),
        non_increasing(b),
        stable_reorder(before, a),
        stable_reorder(before, b),
    ensures
        a == b,
{
    broadcast use vstd::seq_lib::group_to_multiset_ensures;

    assert(a.len() == a.to_multiset().len());
    assert(b.len() == b.to_multiset().len());
    assert forall|size: nat| of_size(a, size) == of_size(b, size) by {
        assert(of_size(a, size) == of_size(before, size));
        assert(of_size(b, size) == of_size(before, size));
    }
    lemma_same_groups_same_order(a, b);
}

proof fn lemma_same_groups_same_order(a: Seq<FileRecord>, b: Seq<FileRecord>)
    requires
        non_increasing(a),
        non_increasing(b),
        a.len() == b.len(),
        forall|size: nat| of_size(a, size) == of_size(b, size),
    ensures
        a == b,
    decreases a.len(),
{
    if a.len() > 0 {
        let ma = a.last().size_mb;
        let mb = b.last().size_mb;
        assert(of_size(a, ma) == of_size(b, ma));
        assert(of_size(a, mb) == of_size(b, mb));
        assert(of_size(a, ma) == of_size(a.drop_last(), ma).push(a.last()));
        assert(of_size(b, mb) == of_size(b.drop_last(), mb).push(b.last()));
        lemma_of_size_member(b, ma);
        lemma_of_size_member(a, mb);
        let kb = choose|k: int| 0 <= k < b.len() && #[trigger] b[k].size_mb == ma;
        let ka = choose|k: int| 0 <= k < a.len() && #[trigger] a[k].size_mb == mb;
        assert(b[kb].size_mb >= b[b.len() - 1].size_mb);
        assert(a[ka].size_mb >= a[a.len() - 1].size_mb);
        assert(ma == mb);
        assert(of_size(a, ma).last() == a.last());
        assert(of_size(b, ma).last() == b.last());
        assert(a.last() == b.last());
        let a0 = a.drop_last();
        let b0 = b.drop_last();
        assert forall|size: nat| of_size(a0, size) == of_size(b0, size) by {
            assert(of_size(a, size) == of_size(b, size));
            if size == ma {
                assert(of_size(a0, size) == of_size(a, size).drop_last());
                assert(of_size(b0, size) == of_size(b, size).drop_last());
            }
        }
        assert(non_increasing(a0)) by {
            assert forall|i: int, j: int| 0 <= i <= j < a0.len() implies a0[i].size_mb >= a0[j].size_mb by {
                assert(a[i].size_mb >= a[j].size_mb);
            }
        }
        assert(non_increasing(b0)) by {
            assert forall|i: int, j: int| 0 <= i <= j < b0.len() implies b0[i].size_mb >= b0[j].size_mb by {
                assert(b[i].size_mb >= b[j].size_mb);
            }
        }
        lemma_same_groups_same_order(a0, b0);
        assert(a == a0.push(a.last()));
        assert(b == b0.push(b.last()));
    }
}

impl TopKStore {
    /// The store after the records of `arrivals` have come in, in that
    /// order.
    pub open spec fn after(self, arrivals: Seq<FileRecord>) -> TopKStore
        decreases arrivals.len(),
    {
        if arrivals.len() == 0 {
            self
        } else {
            self.after(arrivals.drop_last()).inserted(arrivals.last())
        }
    }
}

/// One arrival leaves label and capacity alone, keeps the store within its
/// capacity, and adds a record exactly while there is room.
pub proof fn lemma_inserted_len(store: TopKStore, r: FileRecord)
    requires
        store.wf(),
        store.capacity > 0,
    ensures
        store.inserted(r).wf(),
        store.inserted(r).capacity == store.capacity,
        store.inserted(r).label == store.label,
        store.inserted(r).entries.len() == if store.entries.len() < store.capacity {
            store.entries.len() + 1
        } else {
            store.capacity
        },
{
    if store.entries.len() == store.capacity {
        lemma_first_min_index(store.entries);
    }
}

/// While the files found fit into the store, it holds exactly those files,
/// in the order of their arrival.
pub proof fn lemma_all_kept_while_room(store: TopKStore, arrivals: Seq<FileRecord>)
    requires
        store.entries.len() + arrivals.len() <= store.capacity,
    ensures
        store.after(arrivals).entries == store.entries + arrivals,
        store.after(arrivals).capacity == store.capacity,
        store.after(arrivals).label == store.label,
    decreases arrivals.len(),
{
    if arrivals.len() > 0 {
        lemma_all_kept_while_room(store, arrivals.drop_last());
        assert(store.entries + arrivals == (store.entries + arrivals.drop_last()).push(
            arrivals.last(),
        ));
    } else {
        assert(store.entries + arrivals == store.entries);
    }
}

/// After any arrivals, in any order, the store holds as many records as
/// came in, up to its capacity: a store that more files reached than it
/// has room for is exactly full.
pub proof fn lemma_len_after(store: TopKStore, arrivals: Seq<FileRecord>)
    requires
        store.wf(),
        store.capacity > 0,
    ensures
        store.after(arrivals).wf(),
        store.after(arrivals).capacity == store.capacity,
        store.after(arrivals).label == store.label,
        store.after(arrivals).entries.len() == if store.entries.len() + arrivals.len()
            <= store.capacity {
            store.entries.len() + arrivals.len()
        } else {
            store.capacity
        },
    decreases arrivals.len(),
{
    if arrivals.len() > 0 {
        lemma_len_after(store, arrivals.drop_last());
        lemma_inserted_len(store.after(arrivals.drop_last()), arrivals.last());
    }
}

/// The sizes of a row of records, slot by slot.
pub open spec fn sizes_of(s: Seq<FileRecord>) -> Seq<nat> {
    s.map_values(|r: FileRecord| r.size_mb)
}

/// Sizes never shrink from one record to the next.
pub open spec fn non_decreasing(s: Seq<FileRecord>) -> bool {
    forall|i: int, j: int| 0 <= i <= j < s.len() ==> s[i].size_mb <= s[j].size_mb
}

/// The last `k` records of `s`, or all of `s` where it has fewer.
pub open spec fn last_of(s: Seq<FileRecord>, k: nat) -> Seq<FileRecord> {
    if s.len() <= k {
        s
    } else {
        s.subrange(s.len() - k, s.len() as int)
    }
}

/// Files that arrive in rising order of size leave the largest in the
/// store: an empty store then holds the sizes of the last arrivals, as many
/// as it has room for.
pub proof fn lemma_rising_arrivals_keep_largest(store: TopKStore, arrivals: Seq<FileRecord>)
    requires
        store.capacity > 0,
        store.entries.len() == 0,
        non_decreasing(arrivals),
    ensures
        sizes_of(store.after(arrivals).entries).to_multiset() == sizes_of(
            last_of(arrivals, store.capacity),
        ).to_multiset(),
    decreases arrivals.len(),
{
    broadcast use vstd::seq_lib::group_to_multiset_ensures;

    let n = arrivals.len();
    let k = store.capacity;
    if n <= k {
        lemma_all_kept_while_room(store, arrivals);
        assert(store.entries + arrivals == arrivals);
    } else {
        let head = arrivals.drop_last();
        let r = arrivals.last();
        assert(non_decreasing(head)) by {
            assert forall|i: int, j: int| 0 <= i <= j < head.len() implies head[i].size_mb
                <= head[j].size_mb by {
                assert(arrivals[i].size_mb <= arrivals[j].size_mb);
            }
        }
        lemma_rising_arrivals_keep_largest(store, head);
        lemma_len_after(store, head);
        let held = store.after(head).entries;
        let window = last_of(head, k);
        let i = first_min_index(held);
        lemma_first_min_index(held);
        assert(held.len() == k);
        assert(window.len() == k);
        assert(store.after(arrivals).entries == held.update(i, r));
        // the smallest size held is the size of the oldest record of the window
        let hs = sizes_of(held);
        let ws = sizes_of(window);
        assert(hs.to_multiset() == ws.to_multiset());
        assert(hs[i] == held[i].size_mb);
        assert(ws[0] == window[0].size_mb);
        assert(hs.contains(hs[i]));
        assert(ws.to_multiset().count(hs[i]) > 0);
        assert(ws.contains(hs[i]));
        let wk = choose|wk: int| 0 <= wk < ws.len() && ws[wk] == hs[i];
        assert(window[wk].size_mb == head[head.len() - k + wk].size_mb);
        assert(window[0].size_mb == head[head.len() - k].size_mb);
        assert(head[head.len() - k].size_mb <= head[head.len() - k + wk].size_mb);
        assert(ws.contains(ws[0]));
        assert(hs.to_multiset().count(ws[0]) > 0);
        assert(hs.contains(ws[0]));
        let hk = choose|hk: int| 0 <= hk < hs.len() && hs[hk] == ws[0];
        assert(held[hk].size_mb == ws[0]);
        assert(held[i].size_mb <= held[hk].size_mb);
        assert(hs[i] == ws[0]);
        // both rows lose that size and gain the arrival's
        let next = last_of(arrivals, k);
        assert(sizes_of(held.update(i, r)) == hs.update(i, r.size_mb));
        assert(next == window.drop_first().push(r));
        assert(sizes_of(next) == ws.remove(0).push(r.size_mb));
        assert(hs.update(i, r.size_mb).to_multiset() == hs.to_multiset().insert(r.size_mb).remove(
            hs[i],
        ));
        assert(ws.remove(0).push(r.size_mb).to_multiset() == ws.to_multiset().remove(ws[0]).insert(
            r.size_mb,
        ));
        assert(hs.to_multiset().insert(r.size_mb).remove(hs[i]) =~= ws.to_multiset().remove(
            ws[0],
        ).insert(r.size_mb));
    }
}

/// A full store gives up its earliest smallest record to the arrival,
/// whether the arrival is larger or smaller, and keeps every other slot.
pub proof fn lemma_eviction(store: TopKStore, r: FileRecord)
    requires
        store.capacity > 0,
        store.entries.len() == store.capacity,
    ensures
        is_first_min(store.entries, first_min_index(store.entries)),
        store.inserted(r).entries.len() == store.entries.len(),
        store.inserted(r).entries[first_min_index(store.entries)] == r,
        forall|j: int|
            0 <= j < store.entries.len() && j != first_min_index(store.entries)
                ==> store.inserted(r).entries[j] == store.entries[j],
{
    lemma_first_min_index(store.entries);
}

/// The line that heads the printed list of a store.
pub open spec fn header_line(label: Seq<char>) -> Seq<char> {
    "----------- Files in "@ + label + " -----------\n"@
}

/// The lines that show one file of the printed list.
pub open spec fn file_lines(r: FileRecord) -> Seq<char> {
    "File Name: "@ + r.path + "\nFile Size in Mb "@ + decimal(r.size_mb) + "\n"@
}

/// The printed list of a store: its heading, then its files slot by slot.
pub open spec fn printed(store: TopKStore) -> Seq<Seq<char>> {
    seq![header_line(store.label)] + store.entries.map_values(|r: FileRecord| file_lines(r))
}

/// One file found by a scan.
#[derive(Debug, Clone, PartialEq, Eq)]
pub struct LargeFile {
    pub filename: String,
    pub file_size: u64,
}

impl View for LargeFile {
    type V = FileRecord;

    open spec fn view(&self) -> FileRecord {
        FileRecord { path: self.filename@, size_mb: self.file_size as nat }
    }
}

impl LargeFile {
    pub fn new(name: String, size: u64) -> (file: LargeFile)
        ensures
            file.filename == name,
            file.file_size == size,
    {
        LargeFile { filename: name, file_size: size }
    }
}

/// The records of a vector of files, slot by slot.
pub open spec fn records(files: Seq<LargeFile>) -> Seq<FileRecord> {
    files.map_values(|f: LargeFile| f@)
}

/// Writes `file` over the earliest smallest file of `vault`.
pub fn replace_smallest_file(file: LargeFile, vault: &mut Vec<LargeFile>)
    requires
        old(vault).len() > 0,
    ensures
        final(vault)@ == old(vault)@.update(first_min_index(records(old(vault)@)), file),
        is_first_min(records(old(vault)@), first_min_index(records(old(vault)@))),
{
    let mut index: usize = 0;
    let mut i: usize = 1;
    proof {
        lemma_first_min_index(records(vault@));
    }
    while i < vault.len()
        invariant
            1 <= i <= vault.len(),
            *vault == *old(vault),
            is_first_min(records(vault@).take(i as int), index as int),
        decreases vault.len() - i,
    {
        if vault[i].file_size < vault[index].file_size {
            index = i;
        }
        i = i + 1;
    }
    proof {
        assert(records(vault@).take(i as int) == records(vault@));
        lemma_first_min_unique(records(vault@), index as int, first_min_index(records(vault@)));
    }
    vault[index] = file;
}

/// The largest files of one scan: at most `folder_size` of them.
#[derive(Debug, Clone, PartialEq, Eq)]
pub struct Folder {
    pub name: String,
    pub files: Vec<LargeFile>,
    pub folder_size: usize,
}

impl View for Folder {
    type V = TopKStore;

    open spec fn view(&self) -> TopKStore {
        TopKStore {
            label: self.name@,
            capacity: self.folder_size as nat,
            entries: records(self.files@),
        }
    }
}

impl Folder {
    /// The store holds no more files than its capacity.
    pub open spec fn wf(&self) -> bool {
        self@.wf()
    }

    /// An empty store for `folder_size` files.
    pub fn new(name: String, folder_size: usize) -> (folder: Folder)
        ensures
            folder.name == name,
            folder.folder_size == folder_size,
            folder.files@ == Seq::<LargeFile>::empty(),
            folder@.entries == Seq::<FileRecord>::empty(),
            folder.wf(),
    {
        Folder { name, files: Vec::new(), folder_size }
    }

    /// Takes one arrival: appended while there is room; once the store is
    /// full it takes the slot of the earliest smallest file, also when the
    /// arrival is smaller than every file held.
    pub fn add_file(&mut self, file: LargeFile)
        requires
            old(self).wf(),
            old(self).folder_size > 0,
        ensures
            final(self)@ == old(self)@.inserted(file@),
            final(self).wf(),
            final(self).name == old(self).name,
            final(self).folder_size == old(self).folder_size,
            old(self).files.len() < old(self).folder_size ==> final(self).files@ == old(
                self,
            ).files@.push(file),
            old(self).files.len() == old(self).folder_size ==> final(self).files@ == old(
                self,
            ).files@.update(first_min_index(old(self)@.entries), file),
            old(self).files.len() == old(self).folder_size ==> is_first_min(
                old(self)@.entries,
                first_min_index(old(self)@.entries),
            ),
    {
        if self.files.len() == self.folder_size {
            self.replace_smallest_file(file)
        } else {
            self.files.push(file);
            assert(records(self.files@) == records(old(self).files@).push(file@));
        }
    }

    /// Writes `file` over the earliest smallest file held.
    pub fn replace_smallest_file(&mut self, file: LargeFile)
        requires
            old(self).files.len() > 0,
        ensures
            final(self).files@ == old(self).files@.update(
                first_min_index(old(self)@.entries),
                file,
            ),
            final(self)@.entries == old(self)@.entries.update(
                first_min_index(old(self)@.entries),
                file@,
            ),
            is_first_min(old(self)@.entries, first_min_index(old(self)@.entries)),
            final(self).name == old(self).name,
            final(self).folder_size == old(self).folder_size,
    {
        self::replace_smallest_file(file, &mut self.files);
        assert(records(self.files@) == records(old(self).files@).update(
            first_min_index(records(old(self).files@)),
            file@,
        ));
    }
    /// Orders the files by size, largest first; files of one size keep the
    /// order they had.
    pub fn sort_files(&mut self)
        ensures
            non_increasing(final(self)@.entries),
            stable_reorder(old(self)@.entries, final(self)@.entries),
            final(self).files.len() == old(self).files.len(),
            final(self).name == old(self).name,
            final(self).folder_size == old(self).folder_size,
    {
        let n = self.files.len();
        let mut i: usize = 0;
        while i < n
            invariant
                i <= n,
                n == self.files.len(),
                self.name == old(self).name,
                self.folder_size == old(self).folder_size,
                non_increasing(self@.entries.take(i as int)),
                stable_reorder(old(self)@.entries, self@.entries),
            decreases n - i,
        {
            let ghost before = self@.entries;
            let size = self.files[i].file_size;
            let mut j: usize = 0;
            while j < i && self.files[j].file_size >= size
                invariant
                    j <= i < n,
                    n == self.files.len(),
                    self@.entries == before,
                    size == self.files[i as int].file_size,
                    forall|k: int| 0 <= k < j ==> before[k].size_mb >= size,
                decreases i - j,
            {
                j = j + 1;
            }
            proof {
                assert forall|k: int| j <= k < i implies before[k].size_mb < before[i as int].size_mb by {
                    assert(before.take(i as int)[j as int].size_mb >= before.take(i as int)[k].size_mb);
                }
                lemma_move_forward(before, i as int, j as int);
            }
            let file = self.files.remove(i);
            self.files.insert(j, file);
            proof {
                let after = self@.entries;
                assert(after == before.remove(i as int).insert(j as int, before[i as int]));
                lemma_stable_reorder_trans(old(self)@.entries, before, after);
                let done = after.take(i as int + 1);
                assert forall|p: int, q: int| 0 <= p <= q < done.len() implies done[p].size_mb
                    >= done[q].size_mb by {
                    let pre = before.take(i as int);
                    if p < j && q > j {
                        assert(pre[p].size_mb >= pre[q - 1].size_mb);
                    } else if p < j && q < j {
                        assert(pre[p].size_mb >= pre[q].size_mb);
                    } else if p > j {
                        assert(pre[p - 1].size_mb >= pre[q - 1].size_mb);
                    }
                }
            }
            i = i + 1;
        }
        proof {
            assert(self@.entries.take(n as int) == self@.entries);
        }
    }

    /// A copy of the files held, slot by slot.
    pub fn to_list(&self) -> (list: Vec<LargeFile>)
        ensures
            list@ == self.files@,
    {
        let mut list: Vec<LargeFile> = Vec::new();
        let mut i: usize = 0;
        while i < self.files.len()
            invariant
                i <= self.files.len(),
                list@ == self.files@.take(i as int),
            decreases self.files.len() - i,
        {
            list.push(
                LargeFile {
                    filename: self.files[i].filename.clone(),
                    file_size: self.files[i].file_size,
                },
            );
            assert(list@ == self.files@.take(i + 1));
            i = i + 1;
        }
        assert(self.files@.take(i as int) == self.files@);
        list
    }

    /// The printed list of the store, one string for each block of lines:
    /// the heading, then each file with its name and its size.
    pub fn print_files(self) -> (lines: Vec<String>)
        ensures
            texts(lines@) == printed(self@),
    {
        let mut lines: Vec<String> = Vec::new();
        let mut head = "----------- Files in ".to_owned();
        head.append(self.name.as_str());
        head.append(" -----------\n");
        lines.push(head);
        assert(texts(lines@) == seq![header_line(self@.label)]);
        let mut i: usize = 0;
        while i < self.files.len()
            invariant
                i <= self.files.len(),
                texts(lines@) == seq![header_line(self@.label)] + self@.entries.take(
                    i as int,
                ).map_values(|r: FileRecord| file_lines(r)),
            decreases self.files.len() - i,
        {
            let mut line = "File Name: ".to_owned();
            line.append(self.files[i].filename.as_str());
            line.append("\nFile Size in Mb ");
            line.append(u64_text(self.files[i].file_size).as_str());
            line.append("\n");
            let ghost before = texts(lines@);
            lines.push(line);
            proof {
                assert(line@ == file_lines(self@.entries[i as int]));
                assert(texts(lines@) == before.push(line@));
                assert(self@.entries.take(i + 1).map_values(|r: FileRecord| file_lines(r))
                    == self@.entries.take(i as int).map_values(|r: FileRecord| file_lines(r)).push(
                    file_lines(self@.entries[i as int]),
                ));
            }
            i = i + 1;
        }
        assert(self@.entries.take(i as int) == self@.entries);
        lines
    }
}

} // verus!
