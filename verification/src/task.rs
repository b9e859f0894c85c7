//! Cooperative task bookkeeping.
//!
//! A task records its name, identifier and scheduling state; the executor
//! keeps the spawned tasks, merges newly spawned ones in, and retires the
//! ones that have finished.  Polling a task's future is the runtime's
//! work: the runtime asks which tasks are runnable, polls them, and
//! reports each outcome back, so every scheduling decision here is
//! checked while the futures stay outside the library.

use vstd::prelude::*;

verus! {

/// A cooperative task: a named unit of work polled until it finishes.
pub struct Task {
    name: String,
    id: u64,
    ready: bool,
    blocked: bool,
}

impl Task {
    /// The task's name.
    pub closed spec fn spec_name(&self) -> Seq<char> {
        self.name@
    }

    /// The task's identifier.
    pub closed spec fn spec_id(&self) -> u64 {
        self.id
    }

    /// Whether the task has finished.
    pub closed spec fn spec_ready(&self) -> bool {
        self.ready
    }

    /// Whether the task waits to be woken.
    pub closed spec fn spec_blocked(&self) -> bool {
        self.blocked
    }

    /// A freshly spawned task: not finished, not blocked.
    pub fn new(name: String, id: u64) -> (r: Task)
        ensures
            r.spec_name() == name@,
            r.spec_id() == id,
            !r.spec_ready(),
            !r.spec_blocked(),
    {
        Task { name: name, id: id, ready: false, blocked: false }
    }

    /// Marks the task finished.
    pub fn ready(&mut self)
        ensures
            final(self).spec_ready(),
            final(self).spec_blocked() == old(self).spec_blocked(),
            final(self).spec_id() == old(self).spec_id(),
            final(self).spec_name() == old(self).spec_name(),
    {
        self.ready = true;
    }

    /// Wakes the task: it is no longer blocked.
    pub fn wake(&mut self)
        ensures
            !final(self).spec_blocked(),
            final(self).spec_ready() == old(self).spec_ready(),
            final(self).spec_id() == old(self).spec_id(),
            final(self).spec_name() == old(self).spec_name(),
    {
        self.blocked = false;
    }

    /// Records the outcome of polling the task's future: a finished task
    /// is marked ready, an unfinished one is blocked again until its
    /// waker runs.
    pub fn poll(&mut self, completed: bool)
        ensures
            final(self).spec_id() == old(self).spec_id(),
            final(self).spec_name() == old(self).spec_name(),
            completed ==> final(self).spec_ready() && final(self).spec_blocked() == old(
                self,
            ).spec_blocked(),
            !completed ==> final(self).spec_blocked() && final(self).spec_ready() == old(
                self,
            ).spec_ready(),
    {
        if completed {
            self.ready = true;
        } else {
            self.blocked = true;
        }
    }

    /// The task's identifier.
    pub fn id(&self) -> (r: u64)
        ensures
            r == self.spec_id(),
    {
        self.id
    }

    /// Whether the task has finished.
    pub fn is_ready(&self) -> (r: bool)
        ensures
            r == self.spec_ready(),
    {
        self.ready
    }

    /// Whether the task waits to be woken.
    pub fn is_blocked(&self) -> (r: bool)
        ensures
            r == self.spec_blocked(),
    {
        self.blocked
    }
}

/// The tasks of `s` that have not finished, in their original order.
pub open spec fn spec_pending(s: Seq<Task>) -> Seq<Task>
    decreases s.len(),
{
    if s.len() == 0 {
        Seq::empty()
    } else if !s[0].spec_ready() {
        seq![s[0]] + spec_pending(s.drop_first())
    } else {
        spec_pending(s.drop_first())
    }
}

/// Retiring distributes over appending one task at the end.
proof fn lemma_pending_push(s: Seq<Task>, t: Task)
    ensures
        spec_pending(s.push(t)) == if !t.spec_ready() {
            spec_pending(s).push(t)
        } else {
            spec_pending(s)
        },
    decreases s.len(),
{
    if s.len() == 0 {
        assert(s.push(t).drop_first() =~= Seq::<Task>::empty());
        assert(spec_pending(Seq::<Task>::empty()) == Seq::<Task>::empty());
        assert(spec_pending(s) == Seq::<Task>::empty());
        assert(s.push(t)[0] == t);
        if !t.spec_ready() {
            assert(spec_pending(s.push(t)) == seq![t] + Seq::<Task>::empty());
            assert(seq![t] + Seq::<Task>::empty() =~= spec_pending(s).push(t));
        } else {
            assert(spec_pending(s.push(t)) == Seq::<Task>::empty());
        }
    } else {
        assert(s.push(t).drop_first() =~= s.drop_first().push(t));
        assert(s.push(t)[0] == s[0]);
        lemma_pending_push(s.drop_first(), t);
        if !s[0].spec_ready() {
            assert(spec_pending(s.push(t)) == seq![s[0]] + spec_pending(s.drop_first().push(t)));
            assert(spec_pending(s) == seq![s[0]] + spec_pending(s.drop_first()));
            if !t.spec_ready() {
                assert(seq![s[0]] + spec_pending(s.drop_first()).push(t) =~= (seq![s[0]]
                    + spec_pending(s.drop_first())).push(t));
            }
        } else {
            assert(spec_pending(s.push(t)) == spec_pending(s.drop_first().push(t)));
            assert(spec_pending(s) == spec_pending(s.drop_first()));
        }
    }
}

/// The cooperative executor: the spawned tasks and the ones spawned since
/// the last merge.
pub struct SimpleExecutor {
    tasks: Vec<Task>,
    new_tasks: Vec<Task>,
}

impl SimpleExecutor {
    /// The tasks being run.
    pub closed spec fn spec_tasks(&self) -> Seq<Task> {
        self.tasks@
    }

    /// The tasks spawned since the last merge.
    pub closed spec fn spec_new_tasks(&self) -> Seq<Task> {
        self.new_tasks@
    }

    /// An executor with no tasks.  The capacity is advisory.
    pub fn new(_capacity: usize) -> (r: SimpleExecutor)
        ensures
            r.spec_tasks() == Seq::<Task>::empty(),
            r.spec_new_tasks() == Seq::<Task>::empty(),
    {
        SimpleExecutor { tasks: Vec::new(), new_tasks: Vec::new() }
    }

    /// Spawns a task; it joins the running tasks at the next merge, so
    /// spawning is safe while the executor runs.
    pub fn spawn(&mut self, task: Task)
        ensures
            final(self).spec_tasks() == old(self).spec_tasks(),
            final(self).spec_new_tasks() == old(self).spec_new_tasks().push(task),
    {
        self.new_tasks.push(task);
    }

    /// Merges the newly spawned tasks into the running tasks, in spawn
    /// order, and leaves none behind.
    pub fn update_tasks(&mut self)
        ensures
            final(self).spec_tasks() == old(self).spec_tasks() + old(self).spec_new_tasks(),
            final(self).spec_new_tasks() == Seq::<Task>::empty(),
    {
        let ghost t0 = self.tasks@;
        let ghost n0 = self.new_tasks@;
        while self.new_tasks.len() > 0
            invariant
                n0.len() >= self.new_tasks@.len(),
                self.tasks@ == t0 + n0.take(n0.len() - self.new_tasks@.len()),
                self.new_tasks@ == n0.skip(n0.len() - self.new_tasks@.len()),
            decreases self.new_tasks.len(),
        {
            let ghost done = n0.len() - self.new_tasks@.len();
            let task = self.new_tasks.remove(0);
            self.tasks.push(task);
            proof {
                assert(n0.skip(done)[0] == n0[done]);
                assert(self.tasks@ =~= t0 + n0.take(done + 1));
                assert(self.new_tasks@ =~= n0.skip(done + 1));
            }
        }
        proof {
            assert(self.tasks@ =~= t0 + n0);
        }
    }

    /// Retires every finished task, keeping the unfinished ones in
    /// order.
    pub fn retire_ready(&mut self)
        ensures
            final(self).spec_tasks() == spec_pending(old(self).spec_tasks()),
            final(self).spec_new_tasks() == old(self).spec_new_tasks(),
    {
        let ghost t0 = self.tasks@;
        let ghost n0 = self.new_tasks@;
        let mut kept: Vec<Task> = Vec::new();
        while self.tasks.len() > 0
            invariant
                t0.len() >= self.tasks@.len(),
                kept@ == spec_pending(t0.take(t0.len() - self.tasks@.len())),
                self.tasks@ == t0.skip(t0.len() - self.tasks@.len()),
                self.new_tasks@ == n0,
            decreases self.tasks.len(),
        {
            let ghost done = t0.len() - self.tasks@.len();
            let task = self.tasks.remove(0);
            proof {
                assert(t0.skip(done)[0] == t0[done]);
                assert(t0.take(done + 1) =~= t0.take(done).push(t0[done]));
                lemma_pending_push(t0.take(done), t0[done]);
            }
            if !task.is_ready() {
                kept.push(task);
            }
            proof {
                assert(self.tasks@ =~= t0.skip(done + 1));
            }
        }
        proof {
            assert(t0.take(t0.len() as int) =~= t0);
        }
        self.tasks = kept;
    }

    /// Number of running tasks.
    pub fn task_count(&self) -> (r: usize)
        ensures
            r == self.spec_tasks().len(),
    {
        self.tasks.len()
    }

    /// Whether the running task at `i` waits to be woken; a blocked task
    /// is not polled.
    pub fn task_blocked(&self, i: usize) -> (r: bool)
        requires
            i < self.spec_tasks().len(),
        ensures
            r == self.spec_tasks()[i as int].spec_blocked(),
    {
        self.tasks[i].blocked
    }

    /// Records the outcome of polling the running task at `i`.
    pub fn record_poll(&mut self, i: usize, completed: bool)
        requires
            i < old(self).spec_tasks().len(),
        ensures
            final(self).spec_new_tasks() == old(self).spec_new_tasks(),
            final(self).spec_tasks().len() == old(self).spec_tasks().len(),
            forall|j: int|
                0 <= j < old(self).spec_tasks().len() && j != i ==> final(self).spec_tasks()[j]
                    == old(self).spec_tasks()[j],
            ({
                let t0 = old(self).spec_tasks()[i as int];
                let t1 = final(self).spec_tasks()[i as int];
                &&& t1.spec_id() == t0.spec_id()
                &&& t1.spec_name() == t0.spec_name()
                &&& (completed ==> t1.spec_ready() && t1.spec_blocked() == t0.spec_blocked())
                &&& (!completed ==> t1.spec_blocked() && t1.spec_ready() == t0.spec_ready())
            }),
    {
        let ghost t0 = self.tasks@;
        let mut task = self.tasks.remove(i);
        task.poll(completed);
        self.tasks.insert(i, task);
        proof {
            assert forall|j: int|
                0 <= j < t0.len() && j != i implies final(self).spec_tasks()[j] == t0[j] by {
                if j < i {
                    assert(t0.remove(i as int)[j] == t0[j]);
                } else {
                    assert(t0.remove(i as int)[j - 1] == t0[j]);
                }
            }
        }
    }
}

} // verus!
