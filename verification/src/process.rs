//! Creating a child process and loading a new program into a process.

use vstd::prelude::*;
use std::collections::HashMap;
use crate::mm::MemorySet;
use crate::task::{
    TaskControlBlock, TaskManager, TaskStatus, TrapContext, DEFAULT_PRIORITY, child_link,
    parent_link, lemma_same_links_tree_wf, same_links,
};

verus! {

broadcast use vstd::std_specs::hash::group_hash_axioms;

/// Creates a child of task `parent` and returns its pid, the next free one.
/// The child is ready, has no child and no recorded system call, and starts
/// from a copy of the parent: the same mapped pages (in a page table rooted
/// at `root_ppn`), the same trap context but for the kernel stack, which is
/// the one whose top is `kernel_stack_top`, and the same program sizes. The
/// parent lists the child last among its children.
pub fn fork(
    tm: &mut TaskManager,
    parent: usize,
    kernel_stack_top: usize,
    trap_cx_ppn: usize,
    root_ppn: usize,
) -> (child: usize)
    requires
        old(tm).wf(),
        parent < old(tm).tasks.len(),
        old(tm).tasks.len() < usize::MAX,
    ensures
        final(tm).wf(),
        final(tm).current == old(tm).current,
        child == old(tm).tasks.len(),
        final(tm).tasks@.len() == old(tm).tasks@.len() + 1,
        forall|t: int|
            0 <= t < old(tm).tasks.len() && t != parent ==> #[trigger] final(tm).tasks@[t]
                == old(tm).tasks@[t],
        final(tm).tasks@[parent as int] == (TaskControlBlock {
            children: final(tm).tasks@[parent as int].children,
            ..old(tm).tasks@[parent as int]
        }),
        final(tm).tasks@[parent as int].children@ == old(tm).tasks@[parent as int].children@.push(
            child,
        ),
        ({
            let c = final(tm).tasks@[child as int];
            let p = old(tm).tasks@[parent as int];
            &&& c.status == TaskStatus::Ready
            &&& c.parent == Some(parent)
            &&& c.children@ == Seq::<usize>::empty()
            &&& c.exit_code == 0
            &&& c.syscall_times@ == Map::<usize, usize>::empty()
            &&& c.memory_set@ == p.memory_set@
            &&& c.memory_set.root_ppn == root_ppn
            &&& c.trap_cx == (TrapContext { kernel_sp: kernel_stack_top, ..p.trap_cx })
            &&& c.trap_cx_ppn == trap_cx_ppn
            &&& c.kernel_stack_top == kernel_stack_top
            &&& c.base_size == p.base_size
            &&& c.heap_bottom == p.heap_bottom
            &&& c.program_brk == p.program_brk
            &&& c.priority == DEFAULT_PRIORITY
            &&& c.stride == 0
        }),
{
    let ghost o = tm.tasks@;
    let child_pid = tm.tasks.len();
    let memory_set = tm.tasks[parent].memory_set.duplicate(root_ppn);
    let parent_cx = tm.tasks[parent].trap_cx;
    let task_control_block = TaskControlBlock {
        status: TaskStatus::Ready,
        parent: Some(parent),
        children: Vec::new(),
        exit_code: 0,
        syscall_times: HashMap::new(),
        memory_set,
        trap_cx: TrapContext { kernel_sp: kernel_stack_top, ..parent_cx },
        trap_cx_ppn,
        kernel_stack_top,
        base_size: tm.tasks[parent].base_size,
        heap_bottom: tm.tasks[parent].heap_bottom,
        program_brk: tm.tasks[parent].program_brk,
        priority: DEFAULT_PRIORITY,
        stride: 0,
    };
    tm.tasks[parent].children.push(child_pid);
    tm.tasks.push(task_control_block);
    proof {
        let f = tm.tasks@;
        let n = o.len() as int;
        let pi = parent as int;
        assert(f.len() == n + 1);
        assert forall|t: int| 0 <= t < n && t != pi implies #[trigger] f[t] == o[t] by {}
        assert forall|k: int| 0 <= k < o[pi].children@.len() implies o[pi].children@[k] < n by {
            assert(child_link(o, pi, o[pi].children@[k]));
        }
        assert forall|i: int| 0 <= i < f.len() implies (#[trigger] f[i]).children@.no_duplicates() by {
            if i != pi && i < n {
                assert(f[i] == o[i]);
            }
            if i == pi {
                assert(o[pi].children@.no_duplicates());
                assert(f[pi].children@ == o[pi].children@.push(child_pid));
                assert forall|a: int, b: int|
                    0 <= a < f[pi].children@.len() && 0 <= b < f[pi].children@.len() && a != b implies f[pi].children@[a]
                    != f[pi].children@[b] by {
                    if a < o[pi].children@.len() && b < o[pi].children@.len() {
                        assert(f[pi].children@[a] == o[pi].children@[a]);
                        assert(f[pi].children@[b] == o[pi].children@[b]);
                    } else if a < o[pi].children@.len() {
                        assert(f[pi].children@[a] == o[pi].children@[a]);
                    } else {
                        assert(f[pi].children@[b] == o[pi].children@[b]);
                    }
                }
            }
        }
        assert forall|i: int, k: int|
            0 <= i < f.len() && 0 <= k < f[i].children@.len() implies child_link(
            f,
            i,
            #[trigger] f[i].children@[k],
        ) by {
            if i == pi {
                if k < o[pi].children@.len() {
                    assert(f[pi].children@[k] == o[pi].children@[k]);
                    assert(child_link(o, pi, o[pi].children@[k]));
                    let c = o[pi].children@[k] as int;
                    assert(c != pi);
                    assert(f[c] == o[c]);
                }
            } else if i < n {
                assert(f[i] == o[i]);
                assert(child_link(o, i, o[i].children@[k]));
                let c = o[i].children@[k] as int;
                if c != pi {
                    assert(f[c] == o[c]);
                }
            }
        }
        assert forall|c: int| 0 <= c < f.len() && (#[trigger] f[c]).parent is Some implies parent_link(
            f,
            c,
        ) by {
            if c == n {
                assert(f[pi].children@[o[pi].children@.len() as int] == child_pid);
            } else {
                assert(f[c].parent == o[c].parent);
                assert(parent_link(o, c));
                let q = o[c].parent.unwrap() as int;
                let kq = choose|kq: int|
                    0 <= kq < o[q].children@.len() && o[q].children@[kq] == c as usize;
                if q == pi {
                    assert(f[pi].children@[kq] == c as usize);
                } else {
                    assert(f[q] == o[q]);
                }
            }
        }
    }
    child_pid
}

/// Loads a new program into task `pid`: its address space becomes
/// `memory_set`, with the trap context in frame `trap_cx_ppn`, its base size
/// becomes `user_sp`, and its trap context is set to start at `entry_point`
/// on stack `user_sp`, returning to its own kernel stack. Nothing else changes.
pub fn exec(
    tm: &mut TaskManager,
    pid: usize,
    memory_set: MemorySet,
    user_sp: usize,
    entry_point: usize,
    trap_cx_ppn: usize,
    kernel_satp: u64,
    trap_handler: usize,
)
    requires
        old(tm).wf(),
        pid < old(tm).tasks.len(),
    ensures
        final(tm).wf(),
        final(tm).current == old(tm).current,
        final(tm).tasks@ == old(tm).tasks@.update(
            pid as int,
            TaskControlBlock {
                memory_set,
                trap_cx_ppn,
                base_size: user_sp,
                trap_cx: TrapContext {
                    sp: user_sp,
                    sepc: entry_point,
                    kernel_satp,
                    kernel_sp: old(tm).tasks@[pid as int].kernel_stack_top,
                    trap_handler,
                },
                ..old(tm).tasks@[pid as int]
            },
        ),
{
    let ghost o = tm.tasks@;
    tm.tasks[pid].memory_set = memory_set;
    tm.tasks[pid].trap_cx_ppn = trap_cx_ppn;
    tm.tasks[pid].base_size = user_sp;
    let kernel_sp = tm.tasks[pid].kernel_stack_top;
    tm.tasks[pid].trap_cx = TrapContext::app_init_context(
        entry_point,
        user_sp,
        kernel_satp,
        kernel_sp,
        trap_handler,
    );
    proof {
        let f = tm.tasks@;
        assert(f =~= o.update(
            pid as int,
            TaskControlBlock {
                memory_set,
                trap_cx_ppn,
                base_size: user_sp,
                trap_cx: TrapContext {
                    sp: user_sp,
                    sepc: entry_point,
                    kernel_satp,
                    kernel_sp: o[pid as int].kernel_stack_top,
                    trap_handler,
                },
                ..o[pid as int]
            },
        ));
        assert(same_links(o, f));
        lemma_same_links_tree_wf(o, f);
    }
}

} // verus!
