//! The task store: an ordered collection of tasks with insertion at the front
//! and removal from the back, bounded by a capacity fixed at construction.

use vstd::prelude::*;

verus! {

/// The capacity of a store made with `TaskStore::new`.
pub const DEFAULT_CAPACITY: usize = 10_000_000;

/// Why the store refused an operation.
#[derive(Debug, Clone, Copy, PartialEq, Eq)]
pub enum StoreError {
    /// The store already holds as many tasks as its capacity allows.
    QueueFull,
    /// The store holds no task.
    QueueEmpty,
}

/// The store as a mathematical value. `tasks[0]` is the task that came last,
/// `tasks.last()` the one that has waited longest.
pub struct Queue {
    pub tasks: Seq<Seq<char>>,
    pub capacity: nat,
}

impl Queue {
    /// Whether the store has room for no further task.
    pub open spec fn is_full(self) -> bool {
        self.tasks.len() >= self.capacity
    }

    /// Whether the store holds no task.
    pub open spec fn is_empty(self) -> bool {
        self.tasks.len() == 0
    }

    /// What an attempt to add a task answers.
    pub open spec fn enqueue_result(self) -> Result<(), StoreError> {
        if self.is_full() {
            Err(StoreError::QueueFull)
        } else {
            Ok(())
        }
    }

    /// The store after an attempt to add `task`: with `task` at the front, or
    /// unchanged where the store is full.
    pub open spec fn enqueue(self, task: Seq<char>) -> Queue {
        if self.is_full() {
            self
        } else {
            Queue { tasks: seq![task] + self.tasks, capacity: self.capacity }
        }
    }

    /// What an attempt to take a task answers: the task at the back.
    pub open spec fn dequeue_result(self) -> Result<Seq<char>, StoreError> {
        if self.is_empty() {
            Err(StoreError::QueueEmpty)
        } else {
            Ok(self.tasks.last())
        }
    }

    /// The store after an attempt to take a task: without the task at the
    /// back, or unchanged where the store is empty.
    pub open spec fn dequeue(self) -> Queue {
        if self.is_empty() {
            self
        } else {
            Queue { tasks: self.tasks.drop_last(), capacity: self.capacity }
        }
    }

    /// The store after attempts to add each of `tasks`, first to last.
    pub open spec fn enqueue_all(self, tasks: Seq<Seq<char>>) -> Queue
        decreases tasks.len(),
    {
        if tasks.len() == 0 {
            self
        } else {
            self.enqueue(tasks[0]).enqueue_all(tasks.drop_first())
        }
    }

    /// The answers to `n` attempts in a row to take a task.
    pub open spec fn dequeue_results(self, n: nat) -> Seq<Result<Seq<char>, StoreError>>
        decreases n,
    {
        if n == 0 {
            Seq::empty()
        } else {
            seq![self.dequeue_result()] + self.dequeue().dequeue_results((n - 1) as nat)
        }
    }

    /// The store after `n` attempts in a row to take a task.
    pub open spec fn dequeue_times(self, n: nat) -> Queue
        decreases n,
    {
        if n == 0 {
            self
        } else {
            self.dequeue().dequeue_times((n - 1) as nat)
        }
    }
}

/// What an attempt to take a task answered, the task as its characters.
pub open spec fn taken_view(taken: Result<String, StoreError>) -> Result<Seq<char>, StoreError> {
    match taken {
        Ok(task) => Ok(task@),
        Err(e) => Err(e),
    }
}

/// A bounded store of tasks. Every change goes through `&mut self`, so no
/// two changes can interleave; a server that shares a store among workers
/// keeps it behind a lock.
#[derive(Debug)]
pub struct TaskStore {
    tasks: Vec<String>,
    capacity: usize,
}

impl View for TaskStore {
    type V = Queue;

    closed spec fn view(&self) -> Queue {
        Queue { tasks: self.tasks@.map_values(|t: String| t@), capacity: self.capacity as nat }
    }
}

impl TaskStore {
    /// An empty store with the default capacity.
    pub fn new() -> (store: TaskStore)
        ensures
            store@.tasks.len() == 0,
            store@.capacity == DEFAULT_CAPACITY,
    {
        TaskStore { tasks: Vec::new(), capacity: DEFAULT_CAPACITY }
    }

    /// An empty store that holds at most `capacity` tasks.
    pub fn with_capacity(capacity: usize) -> (store: TaskStore)
        ensures
            store@.tasks.len() == 0,
            store@.capacity == capacity,
    {
        TaskStore { tasks: Vec::new(), capacity }
    }

    /// The number of tasks that the store holds.
    pub fn len(&self) -> (n: usize)
        ensures
            n == self@.tasks.len(),
    {
        self.tasks.len()
    }

    /// The number of tasks that the store can hold.
    pub fn capacity(&self) -> (n: usize)
        ensures
            n == self@.capacity,
    {
        self.capacity
    }

    /// Puts `task` at the front of the store, unless the store is full.
    pub fn enqueue(&mut self, task: String) -> (r: Result<(), StoreError>)
        ensures
            r == old(self)@.enqueue_result(),
            final(self)@ == old(self)@.enqueue(task@),
    {
        if self.tasks.len() < self.capacity {
            self.tasks.insert(0, task);
            assert(self@.tasks =~= seq![task@] + old(self)@.tasks);
            Ok(())
        } else {
            Err(StoreError::QueueFull)
        }
    }

    /// Takes the task at the back of the store, the one that has waited
    /// longest.
    pub fn dequeue(&mut self) -> (r: Result<String, StoreError>)
        ensures
            taken_view(r) == old(self)@.dequeue_result(),
            final(self)@ == old(self)@.dequeue(),
    {
        match self.tasks.pop() {
            Some(task) => {
                assert(self@.tasks =~= old(self)@.tasks.drop_last());
                Ok(task)
            },
            None => Err(StoreError::QueueEmpty),
        }
    }
}

/// A store that holds no more than its capacity still does so after any
/// attempt to add or to take a task.
pub proof fn lemma_stays_within_capacity(q: Queue, task: Seq<char>)
    requires
        q.tasks.len() <= q.capacity,
    ensures
        q.enqueue(task).tasks.len() <= q.enqueue(task).capacity,
        q.dequeue().tasks.len() <= q.dequeue().capacity,
        q.enqueue(task).capacity == q.capacity,
        q.dequeue().capacity == q.capacity,
{
}

/// Where the store has room for all of `tasks`, adding them one by one leaves
/// them in front of what was there, the last one added foremost.
pub proof fn lemma_enqueue_all(q: Queue, tasks: Seq<Seq<char>>)
    requires
        q.tasks.len() + tasks.len() <= q.capacity,
    ensures
        q.enqueue_all(tasks).tasks == tasks.reverse() + q.tasks,
        q.enqueue_all(tasks).capacity == q.capacity,
    decreases tasks.len(),
{
    if tasks.len() == 0 {
        assert(tasks.reverse() + q.tasks =~= q.tasks);
    } else {
        let next = q.enqueue(tasks[0]);
        let rest = tasks.drop_first();
        lemma_enqueue_all(next, rest);
        assert(rest.reverse() + next.tasks =~= tasks.reverse() + q.tasks);
    }
}

/// Taking `n` tasks from a store that holds at least `n` answers with its
/// last `n` tasks, the hindmost first, and leaves the others as they were.
pub proof fn lemma_dequeue_results(q: Queue, n: nat)
    requires
        n <= q.tasks.len(),
    ensures
        q.dequeue_results(n).len() == n,
        forall|i: int|
            0 <= i < n ==> q.dequeue_results(n)[i] == Ok::<Seq<char>, StoreError>(
                q.tasks[q.tasks.len() - 1 - i],
            ),
        q.dequeue_times(n).tasks == q.tasks.take(q.tasks.len() - n),
        q.dequeue_times(n).capacity == q.capacity,
    decreases n,
{
    if n == 0 {
        assert(q.tasks.take(q.tasks.len() as int) =~= q.tasks);
    } else {
        let next = q.dequeue();
        let m = (n - 1) as nat;
        lemma_dequeue_results(next, m);
        assert(next.tasks.take(next.tasks.len() - m) =~= q.tasks.take(q.tasks.len() - n));
        assert forall|i: int| 0 <= i < n implies q.dequeue_results(n)[i] == Ok::<
            Seq<char>,
            StoreError,
        >(q.tasks[q.tasks.len() - 1 - i]) by {
            if i > 0 {
                assert(q.dequeue_results(n)[i] == next.dequeue_results(m)[i - 1]);
            }
        }
    }
}

/// First in, first out: tasks added to an empty store that has room for them
/// are taken again in the order in which they were added, and the store is
/// empty afterwards.
pub proof fn lemma_first_in_first_out(q: Queue, payloads: Seq<Seq<char>>)
    requires
        q.is_empty(),
        payloads.len() <= q.capacity,
    ensures
        q.enqueue_all(payloads).dequeue_results(payloads.len()) == payloads.map_values(
            |p: Seq<char>| Ok::<Seq<char>, StoreError>(p),
        ),
        q.enqueue_all(payloads).dequeue_times(payloads.len()).is_empty(),
{
    let filled = q.enqueue_all(payloads);
    lemma_enqueue_all(q, payloads);
    assert(filled.tasks =~= payloads.reverse());
    lemma_dequeue_results(filled, payloads.len());
    assert(filled.dequeue_results(payloads.len()) =~= payloads.map_values(
        |p: Seq<char>| Ok::<Seq<char>, StoreError>(p),
    ));
}

/// Every attempt to take a task from an empty store answers `QueueEmpty`, and
/// the store stays as it is, however often the attempt is made.
pub proof fn lemma_empty_stays_empty(q: Queue, n: nat)
    requires
        q.is_empty(),
    ensures
        q.dequeue_results(n) == Seq::new(
            n,
            |i: int| Err::<Seq<char>, StoreError>(StoreError::QueueEmpty),
        ),
        q.dequeue_times(n) == q,
    decreases n,
{
    if n > 0 {
        lemma_empty_stays_empty(q, (n - 1) as nat);
    }
    assert(q.dequeue_results(n) =~= Seq::new(
        n,
        |i: int| Err::<Seq<char>, StoreError>(StoreError::QueueEmpty),
    ));
}

/// At the capacity boundary: the task that fills the store is accepted, the
/// next one is refused with `QueueFull` and changes nothing, and once a task
/// was taken there is room for one again.
pub proof fn lemma_capacity_boundary(q: Queue, filling: Seq<char>, refused: Seq<char>)
    requires
        q.tasks.len() + 1 == q.capacity,
    ensures
        q.enqueue_result() is Ok,
        q.enqueue(filling).tasks.len() == q.capacity,
        q.enqueue(filling).enqueue_result() == Err::<(), StoreError>(StoreError::QueueFull),
        q.enqueue(filling).enqueue(refused) == q.enqueue(filling),
        q.enqueue(filling).dequeue_result() is Ok,
        q.enqueue(filling).dequeue().enqueue_result() is Ok,
{
}

/// No update is lost and none is applied twice: after distinct payloads were
/// added to an empty store that has room for them, in whatever order, the
/// store holds as many tasks as there were payloads, each payload once and
/// nothing else.
pub proof fn lemma_each_payload_once(q: Queue, payloads: Seq<Seq<char>>)
    requires
        q.is_empty(),
        payloads.no_duplicates(),
        payloads.len() <= q.capacity,
    ensures
        q.enqueue_all(payloads).tasks.len() == payloads.len(),
        q.enqueue_all(payloads).tasks.no_duplicates(),
        forall|p: Seq<char>| q.enqueue_all(payloads).tasks.contains(p) <==> payloads.contains(p),
{
    let tasks = q.enqueue_all(payloads).tasks;
    lemma_enqueue_all(q, payloads);
    assert(tasks =~= payloads.reverse());
    assert forall|p: Seq<char>| tasks.contains(p) <==> payloads.contains(p) by {
        if tasks.contains(p) {
            let i = choose|i: int| 0 <= i < tasks.len() && tasks[i] == p;
            assert(payloads[payloads.len() - 1 - i] == p);
        }
        if payloads.contains(p) {
            let i = choose|i: int| 0 <= i < payloads.len() && payloads[i] == p;
            assert(tasks[payloads.len() - 1 - i] == p);
        }
    }
}

} // verus!
