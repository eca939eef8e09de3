//! The process queue of a core. A core has a single queue, which holds the
//! threads of execution of every warrior and decides which one runs next.

use std::collections::{BTreeMap, VecDeque};

use vstd::prelude::*;

use crate::load_file::Offset;

verus! {

broadcast use {
    vstd::laws_cmp::group_laws_cmp,
    vstd::std_specs::btree::group_btree_axioms,
    vstd::std_specs::vecdeque::group_vec_dequeue_axioms,
};

/// One thread of a warrior that waits for its turn.
#[derive(Copy, Clone, Debug, PartialEq, Eq, Structural)]
pub struct Entry {
    /// The warrior that the thread belongs to.
    pub id: usize,
    /// The number of the thread among those of its warrior.
    pub thread: usize,
    /// The cell that the thread executes next.
    pub offset: Offset,
}

/// A process-related error.
#[derive(Copy, Clone, Debug, PartialEq, Eq, Structural)]
pub enum Error {
    /// All processes terminated.
    NoRemainingProcesses,
    /// The warrior attempted to execute a `DAT` instruction.
    ExecuteDat(Offset),
    /// The warrior attempted to divide by zero.
    DivideByZero,
}

/// The process queue: a first-in, first-out queue of threads, with the
/// number of threads that each warrior has in it.
#[derive(Debug)]
pub struct Queue {
    /// The threads that wait to be executed.
    queue: VecDeque<Entry>,
    /// How many threads each warrior has in the queue.
    processes: BTreeMap<usize, usize>,
    /// The thread id that each warrior's next new thread gets.
    next_thread_id: BTreeMap<usize, usize>,
}

/// How many of the entries belong to the warrior `id`.
pub open spec fn count_of(entries: Seq<Entry>, id: usize) -> nat
    decreases entries.len(),
{
    if entries.len() == 0 {
        0
    } else {
        count_of(entries.drop_last(), id) + if entries.last().id == id {
            1nat
        } else {
            0nat
        }
    }
}

/// No warrior has more entries than there are.
pub proof fn lemma_count_at_most_len(entries: Seq<Entry>, id: usize)
    ensures
        count_of(entries, id) <= entries.len(),
    decreases entries.len(),
{
    if entries.len() > 0 {
        lemma_count_at_most_len(entries.drop_last(), id);
    }
}

/// A warrior with an entry in the queue has a positive count.
pub proof fn lemma_count_positive(entries: Seq<Entry>, i: int)
    requires
        0 <= i < entries.len(),
    ensures
        count_of(entries, entries[i].id) >= 1,
    decreases entries.len(),
{
    if i < entries.len() - 1 {
        lemma_count_positive(entries.drop_last(), i);
    }
}

/// Taking the first entry away lowers the count of its warrior by one and
/// leaves the other counts.
pub proof fn lemma_count_drop_first(entries: Seq<Entry>, id: usize)
    requires
        entries.len() > 0,
    ensures
        count_of(entries.drop_first(), id) + (if entries[0].id == id {
            1nat
        } else {
            0nat
        }) == count_of(entries, id),
    decreases entries.len(),
{
    if entries.len() == 1 {
        assert(entries.drop_first() =~= Seq::<Entry>::empty());
        assert(entries.drop_last() =~= Seq::<Entry>::empty());
    } else {
        lemma_count_drop_first(entries.drop_last(), id);
        assert(entries.drop_last().drop_first() =~= entries.drop_first().drop_last());
    }
}

impl Queue {
    /// The threads in the queue, the next one to run first.
    pub closed spec fn entries(self) -> Seq<Entry> {
        self.queue@
    }

    /// The number of threads that each warrior has in the queue, for every
    /// warrior that ever had one.
    pub closed spec fn thread_counts(self) -> Map<usize, usize> {
        self.processes@
    }

    /// The thread id that the next new thread of each warrior gets, for
    /// every warrior that ever was given one.
    pub closed spec fn next_thread_ids(self) -> Map<usize, usize> {
        self.next_thread_id@
    }

    /// The thread id that the next new thread of the warrior gets.
    pub open spec fn next_id(self, id: usize) -> usize {
        if self.next_thread_ids().contains_key(id) {
            self.next_thread_ids()[id]
        } else {
            0
        }
    }

    /// The bookkeeping agrees with the queue: each warrior that has an
    /// entry is counted, and each count is the number of entries of its
    /// warrior.
    pub open spec fn wf(self) -> bool {
        &&& forall|id: usize| #[trigger]
            self.thread_counts().contains_key(id) ==> self.thread_counts()[id] == count_of(
                self.entries(),
                id,
            )
        &&& forall|i: int|
            0 <= i < self.entries().len() ==> self.thread_counts().contains_key(
                #[trigger] self.entries()[i].id,
            )
    }

    /// Create an empty queue.
    pub fn new() -> (r: Self)
        ensures
            r.wf(),
            r.entries() == Seq::<Entry>::empty(),
            r.thread_counts() == Map::<usize, usize>::empty(),
            r.next_thread_ids() == Map::<usize, usize>::empty(),
    {
        Self { queue: VecDeque::new(), processes: BTreeMap::new(), next_thread_id: BTreeMap::new() }
    }

    /// Get the next thread for execution, removing it from the queue.
    pub fn pop(&mut self) -> (r: Result<Entry, Error>)
        requires
            old(self).wf(),
        ensures
            final(self).wf(),
            final(self).next_thread_ids() == old(self).next_thread_ids(),
            match r {
                Ok(entry) => {
                    &&& old(self).entries().len() > 0
                    &&& entry == old(self).entries()[0]
                    &&& final(self).entries() == old(self).entries().drop_first()
                    &&& old(self).thread_counts().contains_key(entry.id)
                    &&& old(self).thread_counts()[entry.id] >= 1
                    &&& final(self).thread_counts() == old(self).thread_counts().insert(
                        entry.id,
                        (old(self).thread_counts()[entry.id] - 1) as usize,
                    )
                },
                Err(e) => {
                    &&& e == Error::NoRemainingProcesses
                    &&& old(self).entries().len() == 0
                    &&& final(self).entries() == old(self).entries()
                    &&& final(self).thread_counts() == old(self).thread_counts()
                },
            },
    {
        match self.queue.pop_front() {
            None => {
                proof {
                    assert(self.entries() == old(self).entries());
                    assert(self.thread_counts() == old(self).thread_counts());
                    assert(self.wf());
                }
                Err(Error::NoRemainingProcesses)
            },
            Some(entry) => {
                let count: usize = match self.processes.get(&entry.id) {
                    Some(count) => *count,
                    None => 1,
                };
                proof {
                    lemma_count_positive(old(self).entries(), 0);
                }
                self.processes.insert(entry.id, count - 1);
                proof {
                    assert(self.entries() =~= old(self).entries().drop_first());
                    assert forall|id: usize| #[trigger]
                        self.thread_counts().contains_key(id) implies self.thread_counts()[id]
                        == count_of(self.entries(), id) by {
                        lemma_count_drop_first(old(self).entries(), id);
                    }
                    assert forall|i: int|
                        0 <= i < self.entries().len() implies self.thread_counts().contains_key(
                        #[trigger] self.entries()[i].id,
                    ) by {
                        assert(self.entries()[i] == old(self).entries()[i + 1]);
                    }
                    assert(self.wf());
                }
                Ok(entry)
            },
        }
    }

    /// Get the next thread for execution without modifying the queue.
    pub fn peek(&self) -> (r: Result<&Entry, Error>)
        ensures
            match r {
                Ok(entry) => self.entries().len() > 0 && *entry == self.entries()[0],
                Err(e) => e == Error::NoRemainingProcesses && self.entries().len() == 0,
            },
    {
        if self.queue.len() > 0 {
            Ok(&self.queue[0])
        } else {
            Err(Error::NoRemainingProcesses)
        }
    }

    /// Add a thread to the end of the queue. With a thread id it continues
    /// that thread; without one it is a new thread, which gets the next id
    /// of its warrior.
    pub fn push(&mut self, warrior_id: usize, offset: Offset, thread: Option<usize>)
        requires
            old(self).wf(),
            thread.is_none() ==> old(self).next_id(warrior_id) < usize::MAX,
        ensures
            final(self).wf(),
            final(self).entries() == old(self).entries().push(
                Entry {
                    id: warrior_id,
                    thread: match thread {
                        Some(t) => t,
                        None => old(self).next_id(warrior_id),
                    },
                    offset,
                },
            ),
            final(self).thread_counts() == old(self).thread_counts().insert(
                warrior_id,
                (count_of(old(self).entries(), warrior_id) + 1) as usize,
            ),
            final(self).next_thread_ids() == match thread {
                Some(_) => old(self).next_thread_ids(),
                None => old(self).next_thread_ids().insert(
                    warrior_id,
                    (old(self).next_id(warrior_id) + 1) as usize,
                ),
            },
    {
        let thread_id: usize = match thread {
            Some(t) => t,
            None => {
                let id: usize = match self.next_thread_id.get(&warrior_id) {
                    Some(next) => *next,
                    None => 0,
                };
                self.next_thread_id.insert(warrior_id, id + 1);
                id
            },
        };
        let count: usize = match self.processes.get(&warrior_id) {
            Some(count) => *count,
            None => 0,
        };
        self.queue.push_back(Entry { id: warrior_id, thread: thread_id, offset });
        proof {
            assert(self.queue@.drop_last() =~= old(self).entries());
            assert(self.queue@.len() == self.queue.len());
            lemma_count_at_most_len(self.queue@, warrior_id);
            assert forall|id: usize| true implies #[trigger] count_of(self.queue@, id) == count_of(
                old(self).entries(),
                id,
            ) + (if id == warrior_id {
                1nat
            } else {
                0nat
            }) by {}
            if !old(self).thread_counts().contains_key(warrior_id) {
                lemma_absent_count_is_zero(*old(self), warrior_id);
            }
        }
        self.processes.insert(warrior_id, count + 1);
        proof {
            assert forall|i: int|
                0 <= i < self.entries().len() implies self.thread_counts().contains_key(
                #[trigger] self.entries()[i].id,
            ) by {
                if i < old(self).entries().len() {
                    assert(self.entries()[i] == old(self).entries()[i]);
                }
            }
        }
    }

    /// The number of threads that a warrior has in the queue. The warrior
    /// must have had a thread in the queue at some time.
    pub fn thread_count(&self, warrior_id: usize) -> (n: usize)
        requires
            self.thread_counts().contains_key(warrior_id),
        ensures
            n == self.thread_counts()[warrior_id],
    {
        match self.processes.get(&warrior_id) {
            Some(count) => *count,
            None => 0,
        }
    }

    /// The thread at a place in the queue; the next one to run is at 0.
    pub fn get(&self, place: usize) -> (r: Option<&Entry>)
        ensures
            match r {
                Some(entry) => place < self.entries().len() && *entry
                    == self.entries()[place as int],
                None => place >= self.entries().len(),
            },
    {
        if place < self.queue.len() {
            Some(&self.queue[place])
        } else {
            None
        }
    }

    /// Whether the warrior ever had a thread in the queue.
    pub fn knows(&self, warrior_id: usize) -> (r: bool)
        ensures
            r == self.thread_counts().contains_key(warrior_id),
    {
        self.processes.contains_key(&warrior_id)
    }

    /// The number of threads in the queue.
    pub fn len(&self) -> (n: usize)
        ensures
            n == self.entries().len(),
    {
        self.queue.len()
    }
}

/// A warrior that is not counted has no entry in the queue.
pub proof fn lemma_absent_count_is_zero(queue: Queue, id: usize)
    requires
        queue.wf(),
        !queue.thread_counts().contains_key(id),
    ensures
        count_of(queue.entries(), id) == 0,
{
    lemma_no_entry_count_is_zero(queue.entries(), id);
}

/// A warrior that none of the entries belongs to has the count zero.
pub proof fn lemma_no_entry_count_is_zero(entries: Seq<Entry>, id: usize)
    requires
        forall|i: int| 0 <= i < entries.len() ==> (#[trigger] entries[i]).id != id,
    ensures
        count_of(entries, id) == 0,
    decreases entries.len(),
{
    if entries.len() > 0 {
        assert(entries.last() == entries[entries.len() - 1]);
        assert forall|i: int| 0 <= i < entries.drop_last().len() implies (
        #[trigger] entries.drop_last()[i]).id != id by {
            assert(entries.drop_last()[i] == entries[i]);
        }
        lemma_no_entry_count_is_zero(entries.drop_last(), id);
    }
}

} // verus!
