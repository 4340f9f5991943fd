//! Small conversions shared by the capture and the background scan.
use vstd::prelude::*;

verus! {

/// A file's modification time in whole seconds since the Unix epoch, as
/// recorded with an item: 0 when it cannot be read (`secs` is `None`) and also
/// for times before the epoch (which the caller reports as `Some(0)`).
pub fn get_mtime(secs_since_epoch: Option<u64>) -> (t: i64)
    ensures
        t == match secs_since_epoch {
            Some(s) => s as i64,
            None => 0,
        },
{
    match secs_since_epoch {
        Some(s) => s as i64,
        None => 0,
    }
}

/// A running process: its id, its parent's id if known, and its resident memory in bytes.
pub struct ProcessInfo {
    pub pid: usize,
    pub parent: Option<usize>,
    pub memory: u64,
}

/// Memory of the processes that are `me` or children of `me`.
pub open spec fn tree_memory(procs: Seq<ProcessInfo>, me: usize) -> int
    decreases procs.len(),
{
    if procs.len() == 0 {
        0
    } else {
        let p = procs.last();
        tree_memory(procs.drop_last(), me) + if p.pid == me || p.parent == Some(me) {
            p.memory as int
        } else {
            0
        }
    }
}

proof fn lemma_tree_memory_prefix(procs: Seq<ProcessInfo>, me: usize, k: int)
    requires
        0 <= k <= procs.len(),
    ensures
        0 <= tree_memory(procs.subrange(0, k), me) <= tree_memory(procs, me),
    decreases procs.len() - k,
{
    if k < procs.len() {
        lemma_tree_memory_prefix(procs, me, k + 1);
        assert(procs.subrange(0, k + 1).drop_last() =~= procs.subrange(0, k));
        lemma_tree_memory_nonneg(procs.subrange(0, k), me);
    } else {
        assert(procs.subrange(0, k) =~= procs);
        lemma_tree_memory_nonneg(procs, me);
    }
}

proof fn lemma_tree_memory_nonneg(procs: Seq<ProcessInfo>, me: usize)
    ensures
        tree_memory(procs, me) >= 0,
    decreases procs.len(),
{
    if procs.len() > 0 {
        lemma_tree_memory_nonneg(procs.drop_last(), me);
    }
}

/// The memory use the status bar shows: the resident memory of this process
/// (`me`) and of its direct children.
pub fn memory_of_process_tree(procs: &Vec<ProcessInfo>, me: usize) -> (total: u64)
    requires
        tree_memory(procs@, me) <= u64::MAX,
    ensures
        total == tree_memory(procs@, me),
{
    let mut total: u64 = 0;
    let mut i: usize = 0;
    assert(procs@.subrange(0, 0) =~= Seq::<ProcessInfo>::empty());
    while i < procs.len()
        invariant
            i <= procs@.len(),
            tree_memory(procs@, me) <= u64::MAX,
            total == tree_memory(procs@.subrange(0, i as int), me),
        decreases procs@.len() - i,
    {
        proof {
            lemma_tree_memory_prefix(procs@, me, i + 1);
        }
        assert(procs@.subrange(0, i + 1).drop_last() =~= procs@.subrange(0, i as int));
        let p = &procs[i];
        if p.pid == me || p.parent == Some(me) {
            total = total + p.memory;
        }
        i += 1;
    }
    assert(procs@.subrange(0, i as int) =~= procs@);
    total
}

} // verus!
