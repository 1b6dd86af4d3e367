//! The system-call entry point: counts each call for the current task and
//! decides what it does.

use vstd::prelude::*;
use crate::task::{
    TaskManager, TraceAction, count_of, exit_current_and_run_next, suspend_current_and_run_next,
    suspend_spec, syscall_counted, counts_reset, other_ready, exited, next_ready, statuses,
    with_status, same_links, lemma_same_links_tree_wf, TaskControlBlock,
};
use crate::timeval::{TimeVal, MICRO_PER_SEC};
use crate::task::TaskStatus;

verus! {

/// write syscall
pub const SYSCALL_WRITE: usize = 64;
/// exit syscall
pub const SYSCALL_EXIT: usize = 93;
/// yield syscall
pub const SYSCALL_YIELD: usize = 124;
/// gettime syscall
pub const SYSCALL_GET_TIME: usize = 169;
/// trace syscall
pub const SYSCALL_TRACE: usize = 410;
/// resets the system-call counts of the current task
pub const SYSCALL_RESET_COUNTS: usize = 999;

/// The system calls that `syscall` handles.
pub open spec fn is_supported(syscall_id: usize) -> bool {
    ||| syscall_id == SYSCALL_RESET_COUNTS
    ||| syscall_id == SYSCALL_WRITE
    ||| syscall_id == SYSCALL_EXIT
    ||| syscall_id == SYSCALL_YIELD
    ||| syscall_id == SYSCALL_GET_TIME
    ||| syscall_id == SYSCALL_TRACE
}

/// Whether `syscall` handles system call `syscall_id`.
pub fn is_supported_syscall(syscall_id: usize) -> (b: bool)
    ensures
        b == is_supported(syscall_id),
{
    syscall_id == SYSCALL_RESET_COUNTS || syscall_id == SYSCALL_WRITE || syscall_id == SYSCALL_EXIT
        || syscall_id == SYSCALL_YIELD || syscall_id == SYSCALL_GET_TIME || syscall_id
        == SYSCALL_TRACE
}

/// What a system call leaves for the caller to do.
#[derive(Clone, Copy, PartialEq, Eq, Structural, Debug)]
pub enum SyscallAction {
    /// Return this value to user space.
    Return(isize),
    /// Write `len` bytes at user address `buf` to file `fd` and return the result.
    Write { fd: usize, buf: usize, len: usize },
    /// Store the current time at user address `ts` and return 0.
    GetTime { ts: usize, tz: usize },
    /// Carry out this trace request.
    Trace(TraceAction),
    /// Switch to task `next`; the call returns 0 when the caller runs again.
    Yield { next: usize },
    /// Switch to task `next_task` for good.
    Exit { next_task: usize },
}

/// What `sys_trace` decides on the current state.
pub open spec fn sys_trace_spec(tm: TaskManager, trace_request: usize, id: usize, data: usize) -> TraceAction {
    if trace_request == 0 {
        TraceAction::ReadByte(id)
    } else if trace_request == 1 {
        TraceAction::WriteWord(id, data)
    } else if trace_request == 2 {
        TraceAction::Done(count_of(tm.cur().syscall_times@, id) as isize)
    } else {
        TraceAction::Done(-1isize)
    }
}

/// The tasks after the current one exited with `exit_code`: it is marked
/// exited and keeps the code.
pub open spec fn exited_with_code(tm: TaskManager, exit_code: i32) -> Seq<TaskControlBlock> {
    tm.tasks@.update(
        tm.current as int,
        TaskControlBlock { status: TaskStatus::Exited, exit_code, ..tm.cur() },
    )
}

/// `f` is `o` after the current task exited with `exit_code` and task
/// `next`, the first ready one after it in round-robin order, was switched to.
pub open spec fn sys_exit_spec(o: TaskManager, f: TaskManager, exit_code: i32, next: usize) -> bool {
    &&& next_ready(statuses(exited_with_code(o, exit_code)), o.current as int) == Some(next as int)
    &&& f.tasks@ == exited_with_code(o, exit_code).update(
        next as int,
        with_status(exited_with_code(o, exit_code)[next as int], TaskStatus::Running),
    )
    &&& f.current == next
}

/// Ends the current task, which submits `exit_code`, and switches to the
/// next ready one, returned. Some other task must be ready: where none is,
/// all applications have completed and the system stops.
pub fn sys_exit(tm: &mut TaskManager, exit_code: i32) -> (next: usize)
    requires
        old(tm).wf(),
        old(tm).tasks.len() > 0,
        other_ready(*old(tm)),
    ensures
        final(tm).wf(),
        sys_exit_spec(*old(tm), *final(tm), exit_code, next),
        next != old(tm).current,
{
    let ghost o = *tm;
    let cur = tm.current;
    tm.tasks[cur].exit_code = exit_code;
    let ghost m = *tm;
    proof {
        assert(m.tasks@ =~= o.tasks@.update(
            cur as int,
            TaskControlBlock { exit_code, ..o.cur() },
        ));
        assert(same_links(o.tasks@, m.tasks@));
        lemma_same_links_tree_wf(o.tasks@, m.tasks@);
        let i = choose|i: int|
            0 <= i < o.tasks@.len() && i != o.current && #[trigger] o.tasks@[i].status
                == TaskStatus::Ready;
        assert(m.tasks@[i] == o.tasks@[i]);
        assert(exited(m) =~= exited_with_code(o, exit_code));
    }
    exit_current_and_run_next(tm)
}

/// The current task gives up the processor to the next ready task, returned.
pub fn sys_yield(tm: &mut TaskManager) -> (next: usize)
    requires
        old(tm).wf(),
        old(tm).tasks.len() > 0,
    ensures
        final(tm).wf(),
        suspend_spec(*old(tm), *final(tm), next),
{
    suspend_current_and_run_next(tm)
}

/// The time to store for a `get_time` call made `us` microseconds after boot.
pub fn sys_get_time(us: usize) -> (tv: TimeVal)
    ensures
        tv.sec == us / MICRO_PER_SEC,
        tv.usec == us % MICRO_PER_SEC,
{
    TimeVal::from_us(us)
}

/// Decides a trace request: 0 reads the byte at address `id`, 1 writes the
/// word `data` at address `id`, 2 returns how many times the current task
/// made system call `id`, any other request returns -1.
pub fn sys_trace(tm: &TaskManager, trace_request: usize, id: usize, data: usize) -> (a: TraceAction)
    requires
        tm.tasks.len() > 0,
        tm.current < tm.tasks.len(),
    ensures
        a == sys_trace_spec(*tm, trace_request, id, data),
{
    match trace_request {
        0 => TraceAction::ReadByte(id),
        1 => TraceAction::WriteWord(id, data),
        2 => TraceAction::Done(tm.get_syscall_times(id)),
        _ => TraceAction::Done(-1),
    }
}

/// What system call `syscall_id` with `args` does once it has been counted,
/// taking the manager from `mid` to `f` and returning `a`.
pub open spec fn dispatched(
    mid: TaskManager,
    f: TaskManager,
    syscall_id: usize,
    args: [usize; 3],
    a: SyscallAction,
) -> bool {
    if syscall_id == SYSCALL_RESET_COUNTS {
        &&& a == SyscallAction::Return(0)
        &&& counts_reset(mid, f)
    } else if syscall_id == SYSCALL_WRITE {
        &&& a == (SyscallAction::Write { fd: args[0], buf: args[1], len: args[2] })
        &&& f == mid
    } else if syscall_id == SYSCALL_EXIT {
        &&& a is Exit
        &&& sys_exit_spec(mid, f, args[0] as i32, a->next_task)
    } else if syscall_id == SYSCALL_YIELD {
        &&& a is Yield
        &&& suspend_spec(mid, f, a->next)
    } else if syscall_id == SYSCALL_GET_TIME {
        &&& a == (SyscallAction::GetTime { ts: args[0], tz: args[1] })
        &&& f == mid
    } else {
        &&& a == SyscallAction::Trace(sys_trace_spec(mid, args[0], args[1], args[2]))
        &&& f == mid
    }
}

/// Handles system call `syscall_id` with `args`: counts it for the current
/// task, then carries it out as far as the task state goes and returns what
/// is left for the caller to do.
pub fn syscall(tm: &mut TaskManager, syscall_id: usize, args: [usize; 3]) -> (a: SyscallAction)
    requires
        old(tm).wf(),
        old(tm).tasks.len() > 0,
        is_supported(syscall_id),
        count_of(old(tm).cur().syscall_times@, syscall_id) < usize::MAX,
        syscall_id == SYSCALL_EXIT ==> other_ready(*old(tm)),
    ensures
        final(tm).wf(),
        exists|mid: TaskManager|
            #![trigger syscall_counted(*old(tm), mid, syscall_id)]
            {
                &&& mid.wf()
                &&& syscall_counted(*old(tm), mid, syscall_id)
                &&& dispatched(mid, *final(tm), syscall_id, args, a)
            },
{
    let ghost o = *tm;
    tm.add_syscall_count(syscall_id);
    let ghost mid = *tm;
    proof {
        if syscall_id == SYSCALL_EXIT {
            let i = choose|i: int|
                0 <= i < o.tasks@.len() && i != o.current && #[trigger] o.tasks@[i].status
                    == TaskStatus::Ready;
            assert(mid.tasks@[i] == o.tasks@[i]);
        }
    }
    let a = match syscall_id {
        SYSCALL_RESET_COUNTS => {
            tm.reset_syscall_counts();
            SyscallAction::Return(0)
        },
        SYSCALL_WRITE => SyscallAction::Write { fd: args[0], buf: args[1], len: args[2] },
        SYSCALL_EXIT => SyscallAction::Exit { next_task: sys_exit(tm, args[0] as i32) },
        SYSCALL_YIELD => SyscallAction::Yield { next: sys_yield(tm) },
        SYSCALL_GET_TIME => SyscallAction::GetTime { ts: args[0], tz: args[1] },
        _ => SyscallAction::Trace(sys_trace(tm, args[0], args[1], args[2])),
    };
    assert(dispatched(mid, *tm, syscall_id, args, a));
    a
}

} // verus!
