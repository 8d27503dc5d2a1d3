//! The tree walker's admission control: how many subdirectories are walked
//! as tasks of their own at one time, and what becomes of each entry.

use vstd::prelude::*;
use crate::tree::{FileEntry, FsNode, Listed, leaves, leaves_of_all, node_kind};

verus! {

/// The most tasks that may walk subdirectories at one time, over all roots
/// of one scan.
pub const TASK_CEILING: u32 = 30;

/// The number of tasks that are walking a subdirectory right now. It never
/// exceeds `TASK_CEILING`.
pub struct ActiveTaskCounter {
    active: u32,
}

impl View for ActiveTaskCounter {
    type V = nat;

    closed spec fn view(&self) -> nat {
        self.active as nat
    }
}

impl ActiveTaskCounter {
    #[verifier::type_invariant]
    closed spec fn within_ceiling(&self) -> bool {
        self.active <= TASK_CEILING
    }

    /// A counter with no task running.
    pub fn new() -> (counter: ActiveTaskCounter)
        ensures
            counter@ == 0,
            counter@ <= TASK_CEILING,
    {
        ActiveTaskCounter { active: 0 }
    }

    /// The number of running tasks: at or below the ceiling, however the
    /// counter was reached.
    pub fn active(&self) -> (n: u32)
        ensures
            n == self@,
            n <= TASK_CEILING,
    {
        proof {
            use_type_invariant(self);
        }
        self.active
    }

    /// Asks for one more task: granted, and counted, exactly while fewer
    /// than `TASK_CEILING` are running.
    pub fn try_admit(&mut self) -> (admitted: bool)
        ensures
            admitted == (old(self)@ < TASK_CEILING),
            final(self)@ == if admitted {
                old(self)@ + 1
            } else {
                old(self)@
            },
            old(self)@ <= TASK_CEILING,
            final(self)@ <= TASK_CEILING,
    {
        proof {
            use_type_invariant(&*self);
        }
        if self.active < TASK_CEILING {
            self.active = self.active + 1;
            true
        } else {
            false
        }
    }

    /// Records that one task has ended.
    pub fn release(&mut self)
        requires
            old(self)@ > 0,
        ensures
            final(self)@ == old(self)@ - 1,
            final(self)@ < TASK_CEILING,
    {
        proof {
            use_type_invariant(&*self);
        }
        self.active = self.active - 1;
    }
}

/// What the walker does with one item of a directory's listing.
#[derive(Debug, Clone, Copy, PartialEq, Eq, Structural)]
pub enum Dispatch {
    /// A subdirectory that a new task walks; the task has been counted.
    Spawn,
    /// A subdirectory that the current task walks itself.
    Inline,
    /// A file whose path goes to the channel.
    Send,
    /// An item that is passed over; the walk goes on with the next.
    Skip,
}

/// The walker's rule: a file is sent; a subdirectory gets a task of its
/// own while fewer than `TASK_CEILING` are running, and is walked in place
/// otherwise; an error in place of an entry is passed over, and the
/// entries beside it are walked all the same.
pub open spec fn dispatch_of(listed: Listed, active: nat) -> Dispatch {
    match listed {
        Listed::File => Dispatch::Send,
        Listed::Failed => Dispatch::Skip,
        Listed::Directory => if active < TASK_CEILING {
            Dispatch::Spawn
        } else {
            Dispatch::Inline
        },
    }
}

/// Decides what becomes of one item of a listing, and counts the task
/// where one is to be spawned.
pub fn dispatch(listed: Listed, counter: &mut ActiveTaskCounter) -> (step: Dispatch)
    ensures
        step == dispatch_of(listed, old(counter)@),
        final(counter)@ == if step == Dispatch::Spawn {
            old(counter)@ + 1
        } else {
            old(counter)@
        },
        final(counter)@ <= TASK_CEILING,
{
    proof {
        use_type_invariant(&*counter);
    }
    match listed {
        Listed::File => Dispatch::Send,
        Listed::Failed => Dispatch::Skip,
        Listed::Directory => {
            if counter.try_admit() {
                Dispatch::Spawn
            } else {
                Dispatch::Inline
            }
        },
    }
}

/// How a task goes on after it has tried to send a path.
#[derive(Debug, Clone, Copy, PartialEq, Eq, Structural)]
pub enum AfterSend {
    /// The path was taken: the task walks on.
    WalkOn,
    /// The channel is closed, so the coordinator has ended the scan: the
    /// task stops, and nothing of this is told to the caller of the scan.
    Stop,
}

/// Decides how a task goes on after a send: it stops exactly where the
/// send failed.
pub fn after_send(delivered: bool) -> (next: AfterSend)
    ensures
        next == if delivered {
            AfterSend::WalkOn
        } else {
            AfterSend::Stop
        },
{
    if delivered {
        AfterSend::WalkOn
    } else {
        AfterSend::Stop
    }
}

/// A copy of `entry`.
pub fn copy_entry(entry: &FileEntry) -> (copy: FileEntry)
    ensures
        copy == *entry,
{
    FileEntry { name: entry.name.clone(), path: entry.path.clone(), meta: entry.meta }
}

/// Walks one entry of a listed tree in a single thread, taking the
/// decisions of the walker: a file goes to the channel `tx`; a subdirectory
/// that is admitted is walked as a task that runs at once and is released
/// when it ends, also where it could not be listed; one that is not
/// admitted is walked in place; an entry that the listing failed to give
/// is passed over. Every file below the entry is sent exactly once,
/// whatever the counter allowed.
pub fn walk_entry(node: &FsNode, tx: &mut Vec<FileEntry>, thread_pool: &mut ActiveTaskCounter)
    ensures
        final(tx)@ == old(tx)@ + leaves(*node),
        final(thread_pool)@ == old(thread_pool)@,
    decreases *node, 0nat,
{
    let step = dispatch(node_kind(node), thread_pool);
    match node {
        FsNode::File(entry) => {
            tx.push(copy_entry(entry));
            assert(tx@ == old(tx)@ + seq![*entry]);
        },
        FsNode::Dir { path, children } => {
            walk_listing(children, tx, thread_pool);
            if step == Dispatch::Spawn {
                thread_pool.release();
            }
        },
        FsNode::Unreadable { path } => {
            if step == Dispatch::Spawn {
                thread_pool.release();
            }
            assert(tx@ == old(tx)@ + Seq::<FileEntry>::empty());
        },
        FsNode::Failed { path } => {
            assert(tx@ == old(tx)@ + Seq::<FileEntry>::empty());
        },
    }
}

/// Walks the entries that the listing of one directory gave, in their
/// order.
pub fn walk_listing(
    children: &Vec<FsNode>,
    tx: &mut Vec<FileEntry>,
    thread_pool: &mut ActiveTaskCounter,
)
    ensures
        final(tx)@ == old(tx)@ + leaves_of_all(children@),
        final(thread_pool)@ == old(thread_pool)@,
    decreases children@, 1nat,
{
    let mut i: usize = 0;
    proof {
        assert(children@.take(0) == Seq::<FsNode>::empty());
        assert(tx@ == old(tx)@ + Seq::<FileEntry>::empty());
    }
    while i < children.len()
        invariant
            i <= children.len(),
            tx@ == old(tx)@ + leaves_of_all(children@.take(i as int)),
            thread_pool@ == old(thread_pool)@,
        decreases children.len() - i,
    {
        proof {
            assert(children@.take(i + 1).drop_last() == children@.take(i as int));
            assert(children@.take(i + 1).last() == children@[i as int]);
        }
        walk_entry(&children[i], tx, thread_pool);
        i = i + 1;
    }
    assert(children@.take(i as int) == children@);
}

/// What a walk that starts at `root` sends: the files below it, or nothing
/// where `root` is no directory that could be listed.
pub open spec fn sent_from(root: FsNode) -> Seq<FileEntry> {
    match root {
        FsNode::Dir { path, children } => leaves(root),
        _ => Seq::empty(),
    }
}

/// Walks the tree listed at one root of a scan. The root's own task is
/// not counted; each entry below it is dispatched by the walker's rule. A
/// root that could not be listed sends nothing; a failure below the root
/// costs the files below the failure and no others.
pub fn find_directories_for_path(
    root: &FsNode,
    tx: &mut Vec<FileEntry>,
    thread_pool: &mut ActiveTaskCounter,
)
    ensures
        final(tx)@ == old(tx)@ + sent_from(*root),
        final(thread_pool)@ == old(thread_pool)@,
{
    match root {
        FsNode::Dir { path, children } => {
            walk_listing(children, tx, thread_pool);
        },
        _ => {
            assert(tx@ == old(tx)@ + Seq::<FileEntry>::empty());
        },
    }
}

} // verus!
