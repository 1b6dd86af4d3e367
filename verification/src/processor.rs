//! The processor's current task, the queue of ready tasks, and the way a
//! task leaves the processor through them.

use vstd::prelude::*;
use crate::task::{
    TaskControlBlock, TaskManager, TaskStatus, IDLE_PID, reparented, with_status,
    lemma_same_links_tree_wf,
};

verus! {

/// What one processor runs.
pub struct Processor {
    /// Pid of the task on the processor, if any.
    pub current: Option<usize>,
}

impl Processor {
    /// A processor that runs no task.
    pub fn new() -> (p: Processor)
        ensures
            p.current is None,
    {
        Processor { current: None }
    }

    /// Takes the current task off the processor.
    pub fn take_current(&mut self) -> (t: Option<usize>)
        ensures
            t == old(self).current,
            final(self).current is None,
    {
        let t = self.current;
        self.current = None;
        t
    }
}

/// The tasks waiting for a processor, in the order they are served.
pub struct ReadyQueue {
    /// Pids, front first.
    pub queue: Vec<usize>,
}

impl ReadyQueue {
    /// An empty queue.
    pub fn new() -> (q: ReadyQueue)
        ensures
            q.queue@ == Seq::<usize>::empty(),
    {
        ReadyQueue { queue: Vec::new() }
    }

    /// Puts task `pid` at the back of the queue.
    pub fn add_task(&mut self, pid: usize)
        ensures
            final(self).queue@ == old(self).queue@.push(pid),
    {
        self.queue.push(pid);
    }
}

/// Puts the initial process, pid `IDLE_PID`, at the back of the ready queue.
pub fn add_initproc(ready: &mut ReadyQueue)
    ensures
        final(ready).queue@ == old(ready).queue@.push(IDLE_PID),
{
    ready.add_task(IDLE_PID);
}

/// Takes the task `t` off the processor, marks it ready and puts it at the
/// back of the ready queue; `t` is returned so that the caller saves its
/// context while switching to the scheduler. There must be a task on the
/// processor.
pub fn suspend_current_and_run_next(
    tm: &mut TaskManager,
    processor: &mut Processor,
    ready: &mut ReadyQueue,
) -> (t: usize)
    requires
        old(tm).wf(),
        old(processor).current matches Some(t) && t < old(tm).tasks.len(),
    ensures
        final(tm).wf(),
        old(processor).current == Some(t),
        final(processor).current is None,
        final(tm).tasks@ == old(tm).tasks@.update(
            t as int,
            with_status(old(tm).tasks@[t as int], TaskStatus::Ready),
        ),
        final(tm).current == old(tm).current,
        final(ready).queue@ == old(ready).queue@.push(t),
{
    let task = processor.take_current().unwrap();
    let ghost o = tm.tasks@;
    tm.tasks[task].status = TaskStatus::Ready;
    proof {
        assert(tm.tasks@ =~= o.update(task as int, with_status(o[task as int], TaskStatus::Ready)));
        lemma_same_links_tree_wf(o, tm.tasks@);
    }
    ready.add_task(task);
    task
}

/// `f` is `o` after task `t` exited with `exit_code`: it is a zombie that
/// keeps the code, its children belong to the initial process, its user
/// pages are released, and no other task changed but in its links.
pub open spec fn exit_with_code_spec(
    o: Seq<TaskControlBlock>,
    f: Seq<TaskControlBlock>,
    t: int,
    exit_code: i32,
) -> bool {
    &&& reparented(o, f, t)
    &&& f[t] == (TaskControlBlock {
        status: TaskStatus::Zombie,
        exit_code,
        parent: f[t].parent,
        children: f[t].children,
        memory_set: f[t].memory_set,
        ..o[t]
    })
    &&& f[t].memory_set@ == Map::<usize, u8>::empty()
    &&& f[t].memory_set.root_ppn == o[t].memory_set.root_ppn
    &&& forall|s: int|
        0 <= s < o.len() && s != t ==> #[trigger] f[s] == (TaskControlBlock {
            parent: f[s].parent,
            children: f[s].children,
            ..o[s]
        })
}

/// Takes the task `t` off the processor for good: it becomes a zombie that
/// keeps `exit_code`, its children pass to the initial process and its user
/// pages are released; `t` is returned so that the caller switches to the
/// scheduler. There must be a task on the processor, and it must not be the
/// initial process, whose exit ends the system.
pub fn exit_current_and_run_next(
    tm: &mut TaskManager,
    processor: &mut Processor,
    exit_code: i32,
) -> (t: usize)
    requires
        old(tm).wf(),
        old(processor).current matches Some(t) && t < old(tm).tasks.len() && t != IDLE_PID,
    ensures
        final(tm).wf(),
        old(processor).current == Some(t),
        final(processor).current is None,
        final(tm).current == old(tm).current,
        exit_with_code_spec(old(tm).tasks@, final(tm).tasks@, t as int, exit_code),
{
    let task = processor.take_current().unwrap();
    let ghost o = tm.tasks@;
    tm.tasks[task].status = TaskStatus::Zombie;
    tm.tasks[task].exit_code = exit_code;
    let ghost s1 = tm.tasks@;
    proof {
        assert(s1 =~= o.update(
            task as int,
            TaskControlBlock { status: TaskStatus::Zombie, exit_code, ..o[task as int] },
        ));
        lemma_same_links_tree_wf(o, s1);
    }
    tm.move_children_to_initproc(task);
    let ghost s2 = tm.tasks@;
    tm.tasks[task].memory_set.recycle_data_pages();
    proof {
        let f = tm.tasks@;
        TaskManager::lemma_memory_edit_wf(s2, f, task as int);
        assert(reparented(o, f, task as int)) by {
            assert forall|s: int| 0 <= s < o.len() implies (#[trigger] f[s]).parent == (if o[task as int].children@.contains(
                s as usize,
            ) {
                Some(IDLE_PID)
            } else {
                o[s].parent
            }) by {
                assert(f[s].parent == s2[s].parent);
                assert(s1[s].parent == o[s].parent);
            }
            assert forall|s: int| 0 <= s < o.len() && s != IDLE_PID && s != task as int implies (#[trigger] f[s]).children@
                == o[s].children@ by {
                assert(f[s].children@ == s2[s].children@);
                assert(s1[s].children@ == o[s].children@);
            }
            assert(f[IDLE_PID as int].children@ == s2[IDLE_PID as int].children@);
        }
        assert forall|s: int| 0 <= s < o.len() && s != task as int implies #[trigger] f[s] == (TaskControlBlock {
            parent: f[s].parent,
            children: f[s].children,
            ..o[s]
        }) by {
            assert(f[s] == s2[s]);
            assert(s1[s] == o[s]);
        }
    }
    task
}

} // verus!
