//! Task control blocks, the task manager and the scheduling decisions.

use vstd::prelude::*;
use std::collections::HashMap;
use crate::mm::{
    MemorySet, floor, ceil, aligned, floor_spec, ceil_spec, map_range_spec, unmap_range_spec,
    overlaps_spec, all_mapped_spec, token_spec, MAP_PERM_R, MAP_PERM_W, MAP_PERM_U, PTE_V, PTE_R,
    PTE_W, PAGE_SIZE,
};

verus! {

broadcast use vstd::std_specs::hash::group_hash_axioms;

/// Pid of the first process, the one that adopts orphans and whose exit
/// ends the system.
pub const IDLE_PID: usize = 0;

/// Priority given to a freshly created task.
pub const DEFAULT_PRIORITY: usize = 16;

/// The state of a task.
#[derive(Clone, Copy, PartialEq, Eq, Structural, Debug)]
pub enum TaskStatus {
    /// Not yet initialised.
    UnInit,
    /// Waiting to be scheduled.
    Ready,
    /// On the processor.
    Running,
    /// Exited; never scheduled again.
    Exited,
    /// Exited, waiting for its parent to collect its exit code.
    Zombie,
}

/// The saved user context that the trap handler restores.
#[derive(Clone, Copy, PartialEq, Eq, Structural, Debug)]
pub struct TrapContext {
    /// User stack pointer.
    pub sp: usize,
    /// User program counter to return to.
    pub sepc: usize,
    /// `satp` of the kernel address space.
    pub kernel_satp: u64,
    /// Stack pointer to load on entering the kernel.
    pub kernel_sp: usize,
    /// Address of the trap handler.
    pub trap_handler: usize,
}

impl TrapContext {
    /// The context in which a program starts: at `entry`, on stack `sp`.
    pub fn app_init_context(
        entry: usize,
        sp: usize,
        kernel_satp: u64,
        kernel_sp: usize,
        trap_handler: usize,
    ) -> (cx: TrapContext)
        ensures
            cx == (TrapContext { sp, sepc: entry, kernel_satp, kernel_sp, trap_handler }),
    {
        TrapContext { sp, sepc: entry, kernel_satp, kernel_sp, trap_handler }
    }
}

/// Everything the kernel keeps about one task; its pid is its index in the
/// task manager.
pub struct TaskControlBlock {
    /// Scheduling state.
    pub status: TaskStatus,
    /// Pid of the parent, if any.
    pub parent: Option<usize>,
    /// Pids of the children, in the order they were adopted.
    pub children: Vec<usize>,
    /// Exit code, meaningful once the task is a zombie.
    pub exit_code: i32,
    /// How many times the task made each system call.
    pub syscall_times: HashMap<usize, usize>,
    /// The task's address space.
    pub memory_set: MemorySet,
    /// The user context saved on a trap.
    pub trap_cx: TrapContext,
    /// Physical page that holds the trap context.
    pub trap_cx_ppn: usize,
    /// Top of the task's kernel stack.
    pub kernel_stack_top: usize,
    /// Size of the user program and stack.
    pub base_size: usize,
    /// Lowest address of the heap.
    pub heap_bottom: usize,
    /// Current end of the heap.
    pub program_brk: usize,
    /// Stride-scheduling priority.
    pub priority: usize,
    /// Stride-scheduling pass value.
    pub stride: usize,
}

/// How many times system call `id` was counted in `m`.
pub open spec fn count_of(m: Map<usize, usize>, id: usize) -> int {
    if m.contains_key(id) {
        m[id] as int
    } else {
        0
    }
}

impl TaskControlBlock {
    /// A fresh task that starts `entry_point` on stack `user_sp` in `memory_set`.
    pub fn new(
        memory_set: MemorySet,
        user_sp: usize,
        entry_point: usize,
        trap_cx_ppn: usize,
        kernel_stack_top: usize,
        kernel_satp: u64,
        trap_handler: usize,
    ) -> (t: TaskControlBlock)
        ensures
            t.status == TaskStatus::Ready,
            t.parent == None::<usize>,
            t.children@ == Seq::<usize>::empty(),
            t.exit_code == 0,
            t.syscall_times@ == Map::<usize, usize>::empty(),
            t.memory_set == memory_set,
            t.trap_cx == (TrapContext {
                sp: user_sp,
                sepc: entry_point,
                kernel_satp,
                kernel_sp: kernel_stack_top,
                trap_handler,
            }),
            t.trap_cx_ppn == trap_cx_ppn,
            t.kernel_stack_top == kernel_stack_top,
            t.base_size == user_sp,
            t.heap_bottom == user_sp,
            t.program_brk == user_sp,
            t.priority == DEFAULT_PRIORITY,
            t.stride == 0,
    {
        TaskControlBlock {
            status: TaskStatus::Ready,
            parent: None,
            children: Vec::new(),
            exit_code: 0,
            syscall_times: HashMap::new(),
            memory_set,
            trap_cx: TrapContext::app_init_context(
                entry_point,
                user_sp,
                kernel_satp,
                kernel_stack_top,
                trap_handler,
            ),
            trap_cx_ppn,
            kernel_stack_top,
            base_size: user_sp,
            heap_bottom: user_sp,
            program_brk: user_sp,
            priority: DEFAULT_PRIORITY,
            stride: 0,
        }
    }
}

/// The statuses of the tasks, in pid order.
pub open spec fn statuses(ts: Seq<TaskControlBlock>) -> Seq<TaskStatus> {
    Seq::new(ts.len(), |i: int| ts[i].status)
}

/// Task `c` is a child of `p`: it exists, has a larger pid and names `p` as parent.
pub open spec fn child_link(ts: Seq<TaskControlBlock>, p: int, c: usize) -> bool {
    &&& c < ts.len()
    &&& p < c
    &&& ts[c as int].parent == Some(p as usize)
}

/// The parent of task `c` exists, has a smaller pid and lists `c` among its children.
pub open spec fn parent_link(ts: Seq<TaskControlBlock>, c: int) -> bool {
    let p = ts[c].parent.unwrap();
    &&& p < c
    &&& ts[p as int].children@.contains(c as usize)
}

/// The parent and children fields agree, each child list is free of
/// repeats, and a parent's pid is always smaller than its child's, so the
/// process tree has no cycle.
pub open spec fn tree_wf(ts: Seq<TaskControlBlock>) -> bool {
    &&& forall|i: int| 0 <= i < ts.len() ==> (#[trigger] ts[i]).children@.no_duplicates()
    &&& forall|i: int, k: int|
        0 <= i < ts.len() && 0 <= k < ts[i].children@.len() ==> child_link(
            ts,
            i,
            #[trigger] ts[i].children@[k],
        )
    &&& forall|c: int| 0 <= c < ts.len() && (#[trigger] ts[c]).parent is Some ==> parent_link(ts, c)
}

/// Both sequences have the same length and the same parent and children in every task.
pub open spec fn same_links(a: Seq<TaskControlBlock>, b: Seq<TaskControlBlock>) -> bool {
    &&& a.len() == b.len()
    &&& forall|i: int|
        0 <= i < a.len() ==> (#[trigger] a[i]).parent == b[i].parent && a[i].children@
            == b[i].children@
}

/// Changing anything but the links keeps the process tree well formed.
pub proof fn lemma_same_links_tree_wf(a: Seq<TaskControlBlock>, b: Seq<TaskControlBlock>)
    requires
        tree_wf(a),
        same_links(a, b),
    ensures
        tree_wf(b),
{
    assert forall|i: int, k: int|
        0 <= i < b.len() && 0 <= k < b[i].children@.len() implies child_link(
        b,
        i,
        #[trigger] b[i].children@[k],
    ) by {
        assert(a[i].children@ == b[i].children@);
        assert(child_link(a, i, a[i].children@[k]));
        let c = b[i].children@[k];
        assert(a[c as int].parent == b[c as int].parent);
    }
    assert forall|c: int| 0 <= c < b.len() && (#[trigger] b[c]).parent is Some implies parent_link(
        b,
        c,
    ) by {
        assert(a[c].parent == b[c].parent);
        assert(parent_link(a, c));
        let p = a[c].parent.unwrap();
        assert(a[p as int].children@ == b[p as int].children@);
    }
    assert forall|i: int| 0 <= i < b.len() implies (#[trigger] b[i]).children@.no_duplicates() by {
        assert(a[i].children@ == b[i].children@);
    }
}

/// Index `k` steps after `cur` in round-robin order over `n` tasks.
pub open spec fn rr_index(cur: int, k: int, n: int) -> int {
    (cur + k) % n
}

/// The first task in `st`, looking `k`, `k + 1`, ... steps after `cur` and
/// at most `st.len()` steps, that is ready.
pub open spec fn next_ready_from(st: Seq<TaskStatus>, cur: int, k: int) -> Option<int>
    decreases st.len() + 1 - k,
{
    if k < 1 || k > st.len() {
        None
    } else if st[rr_index(cur, k, st.len() as int)] == TaskStatus::Ready {
        Some(rr_index(cur, k, st.len() as int))
    } else {
        next_ready_from(st, cur, k + 1)
    }
}

/// The task that runs after `cur`: the first ready one after it in
/// round-robin order, `cur` itself last.
pub open spec fn next_ready(st: Seq<TaskStatus>, cur: int) -> Option<int> {
    next_ready_from(st, cur, 1)
}

/// Some task of `st` is ready.
pub open spec fn some_ready(st: Seq<TaskStatus>) -> bool {
    exists|i: int| 0 <= i < st.len() && #[trigger] st[i] == TaskStatus::Ready
}

/// The round-robin index, written without `%`.
pub proof fn lemma_rr_index(cur: int, k: int, n: int)
    requires
        0 <= cur < n,
        1 <= k <= n,
    ensures
        rr_index(cur, k, n) == (if cur + k < n {
            cur + k
        } else {
            cur + k - n
        }),
{
    if cur + k < n {
        vstd::arithmetic::div_mod::lemma_small_mod((cur + k) as nat, n as nat);
    } else {
        vstd::arithmetic::div_mod::lemma_mod_add_multiples_vanish(cur + k - n, n);
        vstd::arithmetic::div_mod::lemma_small_mod((cur + k - n) as nat, n as nat);
    }
}

/// What the search from step `k` finds is ready and in range; where it
/// finds nothing, no task reached from step `k` on is ready.
pub proof fn lemma_next_ready_from(st: Seq<TaskStatus>, cur: int, k: int)
    requires
        0 <= cur < st.len(),
        1 <= k,
    ensures
        next_ready_from(st, cur, k) matches Some(j) ==> 0 <= j < st.len() && st[j]
            == TaskStatus::Ready,
        next_ready_from(st, cur, k) is None ==> forall|k2: int|
            k <= k2 <= st.len() ==> st[#[trigger] rr_index(cur, k2, st.len() as int)]
                != TaskStatus::Ready,
    decreases st.len() + 1 - k,
{
    if k <= st.len() {
        lemma_rr_index(cur, k, st.len() as int);
        lemma_next_ready_from(st, cur, k + 1);
    }
}

/// The round-robin search finds nothing exactly when no task is ready, and
/// what it finds is a ready task.
pub proof fn lemma_next_ready(st: Seq<TaskStatus>, cur: int)
    requires
        0 <= cur < st.len(),
    ensures
        next_ready(st, cur) matches Some(j) ==> 0 <= j < st.len() && st[j] == TaskStatus::Ready,
        next_ready(st, cur) is None <==> !some_ready(st),
{
    lemma_next_ready_from(st, cur, 1);
    let n = st.len() as int;
    if next_ready(st, cur) is None {
        assert forall|i: int| 0 <= i < n implies #[trigger] st[i] != TaskStatus::Ready by {
            let k = if i > cur {
                i - cur
            } else {
                i + n - cur
            };
            lemma_rr_index(cur, k, n);
            assert(st[rr_index(cur, k, n)] != TaskStatus::Ready);
        }
    }
}

/// All tasks of the system and which one is current.
pub struct TaskManager {
    /// The tasks; a task's pid is its index.
    pub tasks: Vec<TaskControlBlock>,
    /// Index of the current task.
    pub current: usize,
}

impl TaskManager {
    /// The current task is in range and the process tree is well formed.
    pub open spec fn wf(&self) -> bool {
        &&& (self.tasks.len() > 0 ==> self.current < self.tasks.len())
        &&& tree_wf(self.tasks@)
    }

    /// The current task.
    pub open spec fn cur(&self) -> TaskControlBlock {
        self.tasks@[self.current as int]
    }

    /// A manager with no task.
    pub fn new() -> (tm: TaskManager)
        ensures
            tm.wf(),
            tm.tasks@ == Seq::<TaskControlBlock>::empty(),
            tm.current == 0,
    {
        TaskManager { tasks: Vec::new(), current: 0 }
    }

    /// Enters a task with no parent and no child into the table and returns
    /// its pid, the next free one; the first task entered becomes current.
    pub fn insert_task(&mut self, task: TaskControlBlock) -> (pid: usize)
        requires
            old(self).wf(),
            task.parent is None,
            task.children@.len() == 0,
        ensures
            final(self).wf(),
            pid == old(self).tasks.len(),
            final(self).tasks@ == old(self).tasks@.push(task),
            final(self).current == (if old(self).tasks.len() == 0 {
                0
            } else {
                old(self).current
            }),
    {
        if self.tasks.len() == 0 {
            self.current = 0;
        }
        let pid = self.tasks.len();
        let ghost o = self.tasks@;
        self.tasks.push(task);
        let ghost ts = self.tasks@;
        assert forall|i: int, k: int|
            0 <= i < ts.len() && 0 <= k < ts[i].children@.len() implies child_link(
            ts,
            i,
            #[trigger] ts[i].children@[k],
        ) by {
            assert(ts[i] == o[i]);
            assert(child_link(o, i, o[i].children@[k]));
        }
        assert forall|c: int| 0 <= c < ts.len() && (#[trigger] ts[c]).parent is Some implies parent_link(
            ts,
            c,
        ) by {
            assert(ts[c] == o[c]);
            assert(parent_link(o, c));
        }
        assert forall|i: int| 0 <= i < ts.len() implies (#[trigger] ts[i]).children@.no_duplicates() by {
            if i < o.len() {
                assert(ts[i] == o[i]);
            }
        }
        pid
    }
}


/// `t` with status `s`.
pub open spec fn with_status(t: TaskControlBlock, s: TaskStatus) -> TaskControlBlock {
    TaskControlBlock { status: s, ..t }
}

impl TaskManager {
    /// Sets the status of task `i`.
    fn set_status(&mut self, i: usize, s: TaskStatus)
        requires
            i < old(self).tasks.len(),
        ensures
            final(self).tasks@ == old(self).tasks@.update(i as int, with_status(old(self).tasks@[i as int], s)),
            final(self).current == old(self).current,
            same_links(old(self).tasks@, final(self).tasks@),
    {
        self.tasks[i].status = s;
        assert(self.tasks@ =~= old(self).tasks@.update(i as int, with_status(old(self).tasks@[i as int], s)));
    }
}


impl TaskManager {
    /// Finds the task to run after the current one: the first ready task in
    /// round-robin order after it, the current task itself last.
    pub fn find_next_task(&self) -> (r: Option<usize>)
        requires
            self.tasks.len() > 0,
            self.current < self.tasks.len(),
        ensures
            match r {
                Some(j) => next_ready(statuses(self.tasks@), self.current as int) == Some(j as int),
                None => next_ready(statuses(self.tasks@), self.current as int) is None,
            },
    {
        let n = self.tasks.len();
        let cur = self.current;
        let ghost st = statuses(self.tasks@);
        let mut j: usize = 0;
        while j < n
            invariant
                j <= n,
                n == self.tasks.len(),
                cur == self.current,
                cur < n,
                st == statuses(self.tasks@),
                next_ready(st, cur as int) == next_ready_from(st, cur as int, j + 1),
            decreases n - j,
        {
            let idx = if j < n - 1 - cur {
                cur + j + 1
            } else {
                j + 1 - (n - cur)
            };
            proof {
                lemma_rr_index(cur as int, j + 1, n as int);
            }
            assert(idx == rr_index(cur as int, j + 1, n as int));
            if self.tasks[idx].status == TaskStatus::Ready {
                return Some(idx);
            }
            j = j + 1;
        }
        None
    }

    /// Gives the processor to the next ready task in round-robin order,
    /// which becomes running and current. Some task must be ready: where
    /// none is, all applications have completed and the system stops.
    pub fn run_next_task(&mut self) -> (next: usize)
        requires
            old(self).wf(),
            old(self).tasks.len() > 0,
            some_ready(statuses(old(self).tasks@)),
        ensures
            final(self).wf(),
            next_ready(statuses(old(self).tasks@), old(self).current as int) == Some(next as int),
            final(self).tasks@ == old(self).tasks@.update(
                next as int,
                with_status(old(self).tasks@[next as int], TaskStatus::Running),
            ),
            final(self).current == next,
    {
        proof {
            lemma_next_ready(statuses(self.tasks@), self.current as int);
        }
        match self.find_next_task() {
            Some(next) => {
                let ghost o = self.tasks@;
                proof {
                    lemma_next_ready(statuses(o), self.current as int);
                }
                self.set_status(next, TaskStatus::Running);
                self.current = next;
                proof {
                    lemma_same_links_tree_wf(o, self.tasks@);
                }
                next
            },
            None => {
                proof {
                    let st = statuses(self.tasks@);
                    let i = choose|i: int| 0 <= i < st.len() && st[i] == TaskStatus::Ready;
                    assert(st[i] == TaskStatus::Ready);
                }
                0
            },
        }
    }

    /// Marks the current task ready.
    pub fn mark_current_suspended(&mut self)
        requires
            old(self).wf(),
            old(self).tasks.len() > 0,
        ensures
            final(self).wf(),
            final(self).tasks@ == old(self).tasks@.update(
                old(self).current as int,
                with_status(old(self).cur(), TaskStatus::Ready),
            ),
            final(self).current == old(self).current,
    {
        let ghost o = self.tasks@;
        let cur = self.current;
        self.set_status(cur, TaskStatus::Ready);
        proof {
            lemma_same_links_tree_wf(o, self.tasks@);
        }
    }

    /// Marks the current task exited.
    pub fn mark_current_exited(&mut self)
        requires
            old(self).wf(),
            old(self).tasks.len() > 0,
        ensures
            final(self).wf(),
            final(self).tasks@ == old(self).tasks@.update(
                old(self).current as int,
                with_status(old(self).cur(), TaskStatus::Exited),
            ),
            final(self).current == old(self).current,
    {
        let ghost o = self.tasks@;
        let cur = self.current;
        self.set_status(cur, TaskStatus::Exited);
        proof {
            lemma_same_links_tree_wf(o, self.tasks@);
        }
    }

    /// Starts the first task: task 0 runs and becomes current.
    pub fn run_first_task(&mut self)
        requires
            old(self).wf(),
            old(self).tasks.len() > 0,
        ensures
            final(self).wf(),
            final(self).tasks@ == old(self).tasks@.update(
                0,
                with_status(old(self).tasks@[0], TaskStatus::Running),
            ),
            final(self).current == 0,
    {
        let ghost o = self.tasks@;
        self.set_status(0, TaskStatus::Running);
        self.current = 0;
        proof {
            lemma_same_links_tree_wf(o, self.tasks@);
        }
    }
}


/// `f` is `o` after the children of task `p` were handed to task `IDLE_PID`:
/// `p` has no child left, the adopter's list gains `p`'s children at its
/// end, each of them names the adopter as parent, and no other link moved.
pub open spec fn reparented(o: Seq<TaskControlBlock>, f: Seq<TaskControlBlock>, p: int) -> bool {
    &&& f.len() == o.len()
    &&& f[p].children@ == Seq::<usize>::empty()
    &&& f[IDLE_PID as int].children@ == o[IDLE_PID as int].children@ + o[p].children@
    &&& forall|t: int|
        0 <= t < o.len() && t != IDLE_PID && t != p ==> (#[trigger] f[t]).children@
            == o[t].children@
    &&& forall|t: int|
        0 <= t < o.len() ==> (#[trigger] f[t]).parent == (if o[p].children@.contains(t as usize) {
            Some(IDLE_PID)
        } else {
            o[t].parent
        })
}

/// Handing the children of a task other than the adopter to the adopter keeps
/// the process tree well formed.
pub proof fn lemma_reparent_tree_wf(o: Seq<TaskControlBlock>, f: Seq<TaskControlBlock>, p: int)
    requires
        tree_wf(o),
        0 < p < o.len(),
        reparented(o, f, p),
    ensures
        tree_wf(f),
{
    let z = IDLE_PID as int;
    let a = o[z].children@;
    let b = o[p].children@;
    // every child of `p` names `p` as parent, every child of the adopter names it
    assert forall|k: int| 0 <= k < b.len() implies o[b[k] as int].parent == Some(p as usize)
        && p < b[k] && b[k] < o.len() by {
        assert(child_link(o, p, o[p].children@[k]));
    }
    assert forall|k: int| 0 <= k < a.len() implies o[a[k] as int].parent == Some(IDLE_PID) && a[k]
        < o.len() && 0 < a[k] by {
        assert(child_link(o, z, o[z].children@[k]));
    }
    // no duplicates
    assert(o[z].children@.no_duplicates());
    assert(o[p].children@.no_duplicates());
    vstd::seq_lib::lemma_no_dup_in_concat(a, b);
    assert forall|i: int| 0 <= i < f.len() implies (#[trigger] f[i]).children@.no_duplicates() by {
        if i != z && i != p {
            assert(o[i].children@.no_duplicates());
        }
    }
    // children lists point back
    assert forall|i: int, k: int|
        0 <= i < f.len() && 0 <= k < f[i].children@.len() implies child_link(
        f,
        i,
        #[trigger] f[i].children@[k],
    ) by {
        let c = f[i].children@[k];
        if i == z {
            if k < a.len() {
                assert(c == a[k]);
                if b.contains(c) {
                    let kb = choose|kb: int| 0 <= kb < b.len() && b[kb] == c;
                    assert(o[b[kb] as int].parent == Some(p as usize));
                }
                assert(f[c as int].parent == o[c as int].parent);
            } else {
                assert(c == b[k - a.len()]);
                assert(b.contains(c));
            }
        } else {
            assert(i != p);
            assert(f[i].children@ == o[i].children@);
            assert(child_link(o, i, o[i].children@[k]));
            if b.contains(c) {
                let kb = choose|kb: int| 0 <= kb < b.len() && b[kb] == c;
                assert(o[b[kb] as int].parent == Some(p as usize));
            }
            assert(f[c as int].parent == o[c as int].parent);
        }
    }
    // parents list their children
    assert forall|c: int| 0 <= c < f.len() && (#[trigger] f[c]).parent is Some implies parent_link(
        f,
        c,
    ) by {
        if b.contains(c as usize) {
            let kb = choose|kb: int| 0 <= kb < b.len() && b[kb] == c as usize;
            assert(p < c);
            assert((a + b)[a.len() + kb] == c as usize);
            assert(f[z].children@.contains(c as usize));
        } else {
            assert(f[c].parent == o[c].parent);
            assert(parent_link(o, c));
            let q = o[c].parent.unwrap() as int;
            assert(o[q].children@.contains(c as usize));
            let kq = choose|kq: int| 0 <= kq < o[q].children@.len() && o[q].children@[kq] == c as usize;
            if q == p {
                assert(b[kq] == c as usize);
            } else if q == z {
                assert((a + b)[kq] == c as usize);
                assert(f[z].children@.contains(c as usize));
            } else {
                assert(f[q].children@ == o[q].children@);
            }
        }
    }
}

impl TaskManager {
    /// Hands every child of task `p` to task `IDLE_PID`, in order.
    pub fn move_children_to_initproc(&mut self, p: usize)
        requires
            old(self).wf(),
            0 < p < old(self).tasks.len(),
        ensures
            final(self).wf(),
            final(self).current == old(self).current,
            reparented(old(self).tasks@, final(self).tasks@, p as int),
            forall|t: int|
                0 <= t < old(self).tasks.len() ==> #[trigger] final(self).tasks@[t]
                    == (TaskControlBlock {
                    parent: final(self).tasks@[t].parent,
                    children: final(self).tasks@[t].children,
                    ..old(self).tasks@[t]
                }),
    {
        let ghost o = self.tasks@;
        let mut kids: Vec<usize> = Vec::new();
        std::mem::swap(&mut kids, &mut self.tasks[p].children);
        assert(kids@ == o[p as int].children@);
        proof {
            assert forall|k: int| 0 <= k < kids@.len() implies o[kids@[k] as int].parent == Some(p)
                && kids@[k] < o.len() && 0 < kids@[k] by {
                assert(child_link(o, p as int, o[p as int].children@[k]));
            }
        }
        let mut i: usize = 0;
        while i < kids.len()
            invariant
                0 < p < o.len(),
                o.len() <= usize::MAX,
                i <= kids@.len(),
                kids@ == o[p as int].children@,
                self.tasks@.len() == o.len(),
                self.current == old(self).current,
                forall|k: int| 0 <= k < kids@.len() ==> o[kids@[k] as int].parent == Some(p)
                    && kids@[k] < o.len() && 0 < kids@[k],
                self.tasks@[p as int].children@ == Seq::<usize>::empty(),
                self.tasks@[IDLE_PID as int].children@ == o[IDLE_PID as int].children@
                    + kids@.take(i as int),
                forall|t: int|
                    0 <= t < o.len() && t != IDLE_PID && t != p ==> (#[trigger] self.tasks@[t]).children@
                        == o[t].children@,
                forall|t: int|
                    0 <= t < o.len() ==> (#[trigger] self.tasks@[t]).parent == (if kids@.take(
                        i as int,
                    ).contains(t as usize) {
                        Some(IDLE_PID)
                    } else {
                        o[t].parent
                    }),
                forall|t: int|
                    0 <= t < o.len() ==> #[trigger] self.tasks@[t] == (TaskControlBlock {
                        parent: self.tasks@[t].parent,
                        children: self.tasks@[t].children,
                        ..o[t]
                    }),
            decreases kids@.len() - i,
        {
            let c = kids[i];
            let ghost before = self.tasks@;
            self.tasks[c].parent = Some(IDLE_PID);
            self.tasks[IDLE_PID].children.push(c);
            proof {
                assert(kids@.take(i + 1) =~= kids@.take(i as int).push(c));
                assert(self.tasks@[IDLE_PID as int].children@ =~= o[IDLE_PID as int].children@
                    + kids@.take(i + 1));
                assert forall|t: int| 0 <= t < o.len() implies (#[trigger] self.tasks@[t]).parent
                    == (if kids@.take(i + 1).contains(t as usize) {
                    Some(IDLE_PID)
                } else {
                    o[t].parent
                }) by {
                    if t == c as int {
                        assert(kids@.take(i + 1)[i as int] == c);
                    } else {
                        assert(self.tasks@[t].parent == before[t].parent);
                        let s1 = kids@.take(i + 1);
                        let s0 = kids@.take(i as int);
                        if s1.contains(t as usize) {
                            let w = choose|w: int| 0 <= w < s1.len() && s1[w] == t as usize;
                            assert(s1[i as int] == c);
                            assert(w < i);
                            assert(s0[w] == t as usize);
                        }
                        if s0.contains(t as usize) {
                            let w = choose|w: int| 0 <= w < s0.len() && s0[w] == t as usize;
                            assert(s1[w] == t as usize);
                        }
                    }
                }
            }
            i = i + 1;
        }
        proof {
            assert(kids@.take(kids@.len() as int) =~= kids@);
            assert(reparented(o, self.tasks@, p as int));
            lemma_reparent_tree_wf(o, self.tasks@, p as int);
        }
    }
}


/// `f` differs from `o` only in the address space.
pub open spec fn only_memory_changed(o: TaskControlBlock, f: TaskControlBlock) -> bool {
    f == (TaskControlBlock { memory_set: f.memory_set, ..o })
}

impl TaskManager {
    /// Changing only the current task's address space keeps the manager well formed.
    pub proof fn lemma_memory_edit_wf(o: Seq<TaskControlBlock>, f: Seq<TaskControlBlock>, cur: int)
        requires
            0 <= cur < o.len(),
            f.len() == o.len(),
            tree_wf(o),
            forall|t: int| 0 <= t < o.len() && t != cur ==> f[t] == o[t],
            only_memory_changed(o[cur], f[cur]),
        ensures
            tree_wf(f),
    {
        assert(same_links(o, f)) by {
            assert forall|i: int| 0 <= i < o.len() implies (#[trigger] o[i]).parent == f[i].parent
                && o[i].children@ == f[i].children@ by {
                if i == cur {
                } else {
                    assert(f[i] == o[i]);
                }
            }
        }
        lemma_same_links_tree_wf(o, f);
    }
}

/// Runs the first task in the task list.
pub fn run_first_task(tm: &mut TaskManager)
    requires
        old(tm).wf(),
        old(tm).tasks.len() > 0,
    ensures
        final(tm).wf(),
        final(tm).tasks@ == old(tm).tasks@.update(
            0,
            with_status(old(tm).tasks@[0], TaskStatus::Running),
        ),
        final(tm).current == 0,
{
    tm.run_first_task();
}

/// The tasks after the current one was marked ready.
pub open spec fn suspended(tm: TaskManager) -> Seq<TaskControlBlock> {
    tm.tasks@.update(tm.current as int, with_status(tm.cur(), TaskStatus::Ready))
}

/// `f` is `o` after the current task was suspended and task `next`, the
/// first ready one after it in round-robin order, was switched to.
pub open spec fn suspend_spec(o: TaskManager, f: TaskManager, next: usize) -> bool {
    &&& next_ready(statuses(suspended(o)), o.current as int) == Some(next as int)
    &&& f.tasks@ == suspended(o).update(
        next as int,
        with_status(suspended(o)[next as int], TaskStatus::Running),
    )
    &&& f.current == next
}

/// Suspends the current task and switches to the next ready one, returned;
/// as the current task is then ready itself, there always is one.
pub fn suspend_current_and_run_next(tm: &mut TaskManager) -> (next: usize)
    requires
        old(tm).wf(),
        old(tm).tasks.len() > 0,
    ensures
        final(tm).wf(),
        suspend_spec(*old(tm), *final(tm), next),
{
    tm.mark_current_suspended();
    proof {
        let st = statuses(tm.tasks@);
        assert(st[tm.current as int] == TaskStatus::Ready);
    }
    tm.run_next_task()
}

/// The tasks after the current one was marked exited.
pub open spec fn exited(tm: TaskManager) -> Seq<TaskControlBlock> {
    tm.tasks@.update(tm.current as int, with_status(tm.cur(), TaskStatus::Exited))
}

/// Some task other than the current one is ready.
pub open spec fn other_ready(tm: TaskManager) -> bool {
    exists|i: int|
        0 <= i < tm.tasks@.len() && i != tm.current && #[trigger] tm.tasks@[i].status
            == TaskStatus::Ready
}

/// `f` is `o` after the current task was marked exited and task `next`,
/// the first ready one after it in round-robin order, was switched to.
pub open spec fn exit_spec(o: TaskManager, f: TaskManager, next: usize) -> bool {
    &&& next_ready(statuses(exited(o)), o.current as int) == Some(next as int)
    &&& f.tasks@ == exited(o).update(
        next as int,
        with_status(exited(o)[next as int], TaskStatus::Running),
    )
    &&& f.current == next
}

/// Marks the current task exited and switches to the next ready task,
/// returned. Some other task must be ready: where none is, all
/// applications have completed and the system stops.
pub fn exit_current_and_run_next(tm: &mut TaskManager) -> (next: usize)
    requires
        old(tm).wf(),
        old(tm).tasks.len() > 0,
        other_ready(*old(tm)),
    ensures
        final(tm).wf(),
        exit_spec(*old(tm), *final(tm), next),
        next != old(tm).current,
{
    let ghost o = *tm;
    tm.mark_current_exited();
    proof {
        let i = choose|i: int|
            0 <= i < o.tasks@.len() && i != o.current && #[trigger] o.tasks@[i].status
                == TaskStatus::Ready;
        assert(statuses(tm.tasks@)[i] == TaskStatus::Ready);
    }
    let next = tm.run_next_task();
    proof {
        lemma_next_ready(statuses(exited(o)), o.current as int);
    }
    next
}

/// `f` differs from `o` only in the system-call counts.
pub open spec fn only_counts_changed(o: TaskControlBlock, f: TaskControlBlock) -> bool {
    f == (TaskControlBlock { syscall_times: f.syscall_times, ..o })
}

/// `f` is `o` with one more call of `id` counted for the current task.
pub open spec fn syscall_counted(o: TaskManager, f: TaskManager, id: usize) -> bool {
    &&& f.current == o.current
    &&& f.tasks@.len() == o.tasks@.len()
    &&& forall|t: int|
        0 <= t < o.tasks.len() && t != o.current ==> #[trigger] f.tasks@[t] == o.tasks@[t]
    &&& only_counts_changed(o.cur(), f.cur())
    &&& f.cur().syscall_times@ == o.cur().syscall_times@.insert(
        id,
        (count_of(o.cur().syscall_times@, id) + 1) as usize,
    )
}

/// `f` is `o` with every count of the current task forgotten.
pub open spec fn counts_reset(o: TaskManager, f: TaskManager) -> bool {
    &&& f.current == o.current
    &&& f.tasks@.len() == o.tasks@.len()
    &&& forall|t: int|
        0 <= t < o.tasks.len() && t != o.current ==> #[trigger] f.tasks@[t] == o.tasks@[t]
    &&& only_counts_changed(o.cur(), f.cur())
    &&& f.cur().syscall_times@ == Map::<usize, usize>::empty()
}

impl TaskManager {
    /// Changing only the current task's counts keeps the manager well formed.
    proof fn lemma_counts_edit_wf(o: Seq<TaskControlBlock>, f: Seq<TaskControlBlock>, cur: int)
        requires
            0 <= cur < o.len(),
            f.len() == o.len(),
            tree_wf(o),
            forall|t: int| 0 <= t < o.len() && t != cur ==> f[t] == o[t],
            only_counts_changed(o[cur], f[cur]),
        ensures
            tree_wf(f),
    {
        assert(same_links(o, f)) by {
            assert forall|i: int| 0 <= i < o.len() implies (#[trigger] o[i]).parent == f[i].parent
                && o[i].children@ == f[i].children@ by {
                if i != cur {
                    assert(f[i] == o[i]);
                }
            }
        }
        lemma_same_links_tree_wf(o, f);
    }

    /// Counts one more call of system call `syscall_id` by the current task.
    pub fn add_syscall_count(&mut self, syscall_id: usize)
        requires
            old(self).wf(),
            old(self).tasks.len() > 0,
            count_of(old(self).cur().syscall_times@, syscall_id) < usize::MAX,
        ensures
            final(self).wf(),
            syscall_counted(*old(self), *final(self), syscall_id),
    {
        let cur = self.current;
        let ghost o = self.tasks@;
        let c = match self.tasks[cur].syscall_times.get(&syscall_id) {
            Some(v) => *v,
            None => 0,
        };
        self.tasks[cur].syscall_times.insert(syscall_id, c + 1);
        proof {
            TaskManager::lemma_counts_edit_wf(o, self.tasks@, cur as int);
        }
    }

    /// Forgets every system-call count of the current task.
    pub fn reset_syscall_counts(&mut self)
        requires
            old(self).wf(),
            old(self).tasks.len() > 0,
        ensures
            final(self).wf(),
            counts_reset(*old(self), *final(self)),
    {
        let cur = self.current;
        let ghost o = self.tasks@;
        self.tasks[cur].syscall_times.clear();
        proof {
            TaskManager::lemma_counts_edit_wf(o, self.tasks@, cur as int);
        }
    }

    /// How many times the current task made system call `syscall_id`.
    pub fn get_syscall_times(&self, syscall_id: usize) -> (n: isize)
        requires
            self.tasks.len() > 0,
            self.current < self.tasks.len(),
        ensures
            n == count_of(self.cur().syscall_times@, syscall_id) as isize,
    {
        let cur = self.current;
        match self.tasks[cur].syscall_times.get(&syscall_id) {
            Some(v) => *v as isize,
            None => 0,
        }
    }

    /// The `satp` token of the current task's address space.
    pub fn get_current_token(&self) -> (t: u64)
        requires
            self.tasks.len() > 0,
            self.current < self.tasks.len(),
        ensures
            t == token_spec(self.cur().memory_set.root_ppn),
    {
        self.tasks[self.current].memory_set.token()
    }

    /// The current task's trap context, to be changed in place.
    pub fn get_current_trap_cx(&mut self) -> (cx: &mut TrapContext)
        requires
            old(self).tasks.len() > 0,
            old(self).current < old(self).tasks.len(),
        ensures
            *cx == old(self).cur().trap_cx,
            final(self).current == old(self).current,
            final(self).tasks@ == old(self).tasks@.update(
                old(self).current as int,
                TaskControlBlock { trap_cx: *final(cx), ..old(self).cur() },
            ),
    {
        let cur = self.current;
        &mut self.tasks[cur].trap_cx
    }
}

/// Moving the heap end from `old_brk` to `new_brk` fits address space `m`:
/// when shrinking, every page to release is mapped; when growing, no page
/// to add is mapped yet.
pub open spec fn heap_change_fits(m: Map<usize, u8>, old_brk: int, new_brk: int) -> bool {
    if new_brk < old_brk {
        all_mapped_spec(m, ceil_spec(new_brk), ceil_spec(old_brk))
    } else {
        !overlaps_spec(m, ceil_spec(old_brk), ceil_spec(new_brk))
    }
}

/// Permission of heap pages.
pub open spec fn heap_perm() -> u8 {
    (MAP_PERM_R | MAP_PERM_W | MAP_PERM_U) as u8
}

impl TaskControlBlock {
    /// Moves the end of the heap by `size` bytes and returns the old end;
    /// `None`, with nothing changed, where the new end would fall below the
    /// bottom of the heap. Growing maps the new heap pages readable and
    /// writable, shrinking releases the pages past the new end.
    pub fn change_program_brk(&mut self, size: i32) -> (r: Option<usize>)
        requires
            old(self).program_brk + size <= usize::MAX,
            old(self).program_brk + size >= old(self).heap_bottom ==> heap_change_fits(
                old(self).memory_set@,
                old(self).program_brk as int,
                old(self).program_brk + size,
            ),
        ensures
            old(self).program_brk + size < old(self).heap_bottom ==> r is None && *final(self)
                == *old(self),
            old(self).program_brk + size >= old(self).heap_bottom ==> {
                let new_brk = old(self).program_brk + size;
                &&& r == Some(old(self).program_brk)
                &&& final(self).program_brk == new_brk
                &&& final(self).memory_set.root_ppn == old(self).memory_set.root_ppn
                &&& final(self).memory_set@ == (if size < 0 {
                    unmap_range_spec(
                        old(self).memory_set@,
                        ceil_spec(new_brk),
                        ceil_spec(old(self).program_brk as int),
                    )
                } else {
                    map_range_spec(
                        old(self).memory_set@,
                        ceil_spec(old(self).program_brk as int),
                        ceil_spec(new_brk),
                        heap_perm(),
                    )
                })
                &&& *final(self) == (TaskControlBlock {
                    program_brk: final(self).program_brk,
                    memory_set: final(self).memory_set,
                    ..*old(self)
                })
            },
    {
        let old_break = self.program_brk;
        let new_brk: i128 = self.program_brk as i128 + size as i128;
        if new_brk < self.heap_bottom as i128 {
            return None;
        }
        let new_brk = new_brk as usize;
        let old_end = ceil(old_break);
        let new_end = ceil(new_brk);
        if size < 0 {
            self.memory_set.unmap_range(new_end, old_end);
        } else {
            self.memory_set.map_range(old_end, new_end, MAP_PERM_R | MAP_PERM_W | MAP_PERM_U);
        }
        self.program_brk = new_brk;
        Some(old_break)
    }
}

impl TaskManager {
    /// Moves the end of the current task's heap; see
    /// `TaskControlBlock::change_program_brk`.
    pub fn change_current_program_brk(&mut self, size: i32) -> (r: Option<usize>)
        requires
            old(self).wf(),
            old(self).tasks.len() > 0,
            old(self).cur().program_brk + size <= usize::MAX,
            old(self).cur().program_brk + size >= old(self).cur().heap_bottom ==> heap_change_fits(
                old(self).cur().memory_set@,
                old(self).cur().program_brk as int,
                old(self).cur().program_brk + size,
            ),
        ensures
            final(self).wf(),
            final(self).current == old(self).current,
            final(self).tasks@.len() == old(self).tasks@.len(),
            forall|t: int|
                0 <= t < old(self).tasks.len() && t != old(self).current ==> #[trigger] final(self).tasks@[t]
                    == old(self).tasks@[t],
            old(self).cur().program_brk + size < old(self).cur().heap_bottom ==> r is None
                && final(self).cur() == old(self).cur(),
            old(self).cur().program_brk + size >= old(self).cur().heap_bottom ==> {
                let new_brk = old(self).cur().program_brk + size;
                &&& r == Some(old(self).cur().program_brk)
                &&& final(self).cur().program_brk == new_brk
                &&& final(self).cur().memory_set.root_ppn == old(self).cur().memory_set.root_ppn
                &&& final(self).cur().memory_set@ == (if size < 0 {
                    unmap_range_spec(
                        old(self).cur().memory_set@,
                        ceil_spec(new_brk),
                        ceil_spec(old(self).cur().program_brk as int),
                    )
                } else {
                    map_range_spec(
                        old(self).cur().memory_set@,
                        ceil_spec(old(self).cur().program_brk as int),
                        ceil_spec(new_brk),
                        heap_perm(),
                    )
                })
                &&& final(self).cur() == (TaskControlBlock {
                    program_brk: final(self).cur().program_brk,
                    memory_set: final(self).cur().memory_set,
                    ..old(self).cur()
                })
            },
    {
        let cur = self.current;
        let ghost o = self.tasks@;
        let r = self.tasks[cur].change_program_brk(size);
        proof {
            let f = self.tasks@;
            assert(same_links(o, f)) by {
                assert forall|i: int| 0 <= i < o.len() implies (#[trigger] o[i]).parent == f[i].parent
                    && o[i].children@ == f[i].children@ by {
                    if i != cur as int {
                        assert(f[i] == o[i]);
                    }
                }
            }
            lemma_same_links_tree_wf(o, f);
        }
        r
    }
}

/// The current task's `satp` token.
pub fn current_user_token(tm: &TaskManager) -> (t: u64)
    requires
        tm.tasks.len() > 0,
        tm.current < tm.tasks.len(),
    ensures
        t == token_spec(tm.cur().memory_set.root_ppn),
{
    tm.get_current_token()
}

/// The current task's trap context, to be changed in place.
pub fn current_trap_cx(tm: &mut TaskManager) -> (cx: &mut TrapContext)
    requires
        old(tm).tasks.len() > 0,
        old(tm).current < old(tm).tasks.len(),
    ensures
        *cx == old(tm).cur().trap_cx,
        final(tm).current == old(tm).current,
        final(tm).tasks@ == old(tm).tasks@.update(
            old(tm).current as int,
            TaskControlBlock { trap_cx: *final(cx), ..old(tm).cur() },
        ),
{
    tm.get_current_trap_cx()
}

/// Moves the end of the current task's heap by `size` bytes; see
/// `TaskControlBlock::change_program_brk`.
pub fn change_program_brk(tm: &mut TaskManager, size: i32) -> (r: Option<usize>)
    requires
        old(tm).wf(),
        old(tm).tasks.len() > 0,
        old(tm).cur().program_brk + size <= usize::MAX,
        old(tm).cur().program_brk + size >= old(tm).cur().heap_bottom ==> heap_change_fits(
            old(tm).cur().memory_set@,
            old(tm).cur().program_brk as int,
            old(tm).cur().program_brk + size,
        ),
    ensures
        final(tm).wf(),
        final(tm).current == old(tm).current,
        final(tm).tasks@.len() == old(tm).tasks@.len(),
        forall|t: int|
            0 <= t < old(tm).tasks.len() && t != old(tm).current ==> #[trigger] final(tm).tasks@[t]
                == old(tm).tasks@[t],
        old(tm).cur().program_brk + size < old(tm).cur().heap_bottom ==> r is None
            && final(tm).cur() == old(tm).cur(),
        old(tm).cur().program_brk + size >= old(tm).cur().heap_bottom ==> {
            let new_brk = old(tm).cur().program_brk + size;
            &&& r == Some(old(tm).cur().program_brk)
            &&& final(tm).cur().program_brk == new_brk
            &&& final(tm).cur().memory_set.root_ppn == old(tm).cur().memory_set.root_ppn
            &&& final(tm).cur().memory_set@ == (if size < 0 {
                unmap_range_spec(
                    old(tm).cur().memory_set@,
                    ceil_spec(new_brk),
                    ceil_spec(old(tm).cur().program_brk as int),
                )
            } else {
                map_range_spec(
                    old(tm).cur().memory_set@,
                    ceil_spec(old(tm).cur().program_brk as int),
                    ceil_spec(new_brk),
                    heap_perm(),
                )
            })
            &&& final(tm).cur() == (TaskControlBlock {
                program_brk: final(tm).cur().program_brk,
                memory_set: final(tm).cur().memory_set,
                ..old(tm).cur()
            })
        },
{
    tm.change_current_program_brk(size)
}

/// Permission bits that `mmap` gives pages for protection `port`: the low
/// three bits of `port` as read, write and execute, plus user access.
pub open spec fn mmap_perm(port: usize) -> u8 {
    (2 * port + MAP_PERM_U) as u8
}

/// `mmap(start, len, port)` succeeds on address space `m`: `start` is page
/// aligned, `port` asks for some access and for nothing but read, write and
/// execute, `start + len` does not overflow, and no page of the range is
/// mapped yet.
pub open spec fn mmap_ok(m: Map<usize, u8>, start: usize, len: usize, port: usize) -> bool {
    &&& start % PAGE_SIZE == 0
    &&& 1 <= port <= 7
    &&& start + len <= usize::MAX
    &&& !overlaps_spec(m, floor_spec(start as int), ceil_spec(start + len))
}

/// `munmap(start, len)` succeeds on address space `m`: `start` is page
/// aligned and every page of the range is mapped.
pub open spec fn munmap_ok(m: Map<usize, u8>, start: usize, len: usize) -> bool {
    &&& start % PAGE_SIZE == 0
    &&& all_mapped_spec(m, floor_spec(start as int), ceil_spec(start + len))
}

/// `f` is `o` with the current task's address space possibly changed, and
/// its page-table root kept.
pub open spec fn memory_edit(o: TaskManager, f: TaskManager) -> bool {
    &&& f.current == o.current
    &&& f.tasks@.len() == o.tasks@.len()
    &&& forall|t: int|
        0 <= t < o.tasks.len() && t != o.current ==> #[trigger] f.tasks@[t] == o.tasks@[t]
    &&& only_memory_changed(o.cur(), f.cur())
    &&& f.cur().memory_set.root_ppn == o.cur().memory_set.root_ppn
}

/// Maps `[start, start + len)` into the current task with the access that
/// `port` asks for: 0 on success, -1, with nothing changed, where the
/// arguments are invalid or a page of the range is already mapped.
pub fn mmap(tm: &mut TaskManager, start: usize, len: usize, port: usize) -> (r: isize)
    requires
        old(tm).wf(),
        old(tm).tasks.len() > 0,
    ensures
        final(tm).wf(),
        memory_edit(*old(tm), *final(tm)),
        r == 0 || r == -1,
        r == 0 <==> mmap_ok(old(tm).cur().memory_set@, start, len, port),
        r == 0 ==> final(tm).cur().memory_set@ == map_range_spec(
            old(tm).cur().memory_set@,
            floor_spec(start as int),
            ceil_spec(start + len),
            mmap_perm(port),
        ),
        r != 0 ==> final(tm).tasks@ == old(tm).tasks@,
{
    if !aligned(start) {
        return -1;
    }
    proof {
        assert(((port & !0x7usize) != 0 || (port & 0x7usize) == 0) <==> !(1 <= port && port <= 7))
            by (bit_vector);
    }
    if (port & !0x7) != 0 || (port & 0x7) == 0 {
        return -1;
    }
    let end = match start.checked_add(len) {
        Some(val) => val,
        None => {
            return -1;
        },
    };
    let start_vpn = floor(start);
    let end_vpn = ceil(end);
    let cur = tm.current;
    if tm.tasks[cur].memory_set.is_overlap(start_vpn, end_vpn) {
        return -1;
    }
    let perm = ((port as u8) << 1u8) | MAP_PERM_U;
    proof {
        assert(port <= 7 ==> ((port as u8) << 1u8) | 16u8 == (2 * port + 16) as u8) by (bit_vector);
    }
    let ghost o = tm.tasks@;
    tm.tasks[cur].memory_set.mmap(start_vpn, end_vpn, perm);
    proof {
        TaskManager::lemma_memory_edit_wf(o, tm.tasks@, cur as int);
    }
    0
}

/// Unmaps `[start, start + len)` from the current task: 0 on success, -1,
/// with nothing changed, where `start` is not page aligned or a page of the
/// range is not mapped.
pub fn munmap(tm: &mut TaskManager, start: usize, len: usize) -> (r: isize)
    requires
        old(tm).wf(),
        old(tm).tasks.len() > 0,
        start % PAGE_SIZE == 0 ==> start + len <= usize::MAX,
    ensures
        final(tm).wf(),
        memory_edit(*old(tm), *final(tm)),
        r == 0 || r == -1,
        r == 0 <==> munmap_ok(old(tm).cur().memory_set@, start, len),
        r == 0 ==> final(tm).cur().memory_set@ == unmap_range_spec(
            old(tm).cur().memory_set@,
            floor_spec(start as int),
            ceil_spec(start + len),
        ),
        r != 0 ==> final(tm).cur().memory_set@ == old(tm).cur().memory_set@,
{
    if !aligned(start) {
        return -1;
    }
    let start_vpn = floor(start);
    let end_vpn = ceil(start + len);
    let cur = tm.current;
    let ghost o = tm.tasks@;
    let res = tm.tasks[cur].memory_set.munmap(start_vpn, end_vpn);
    proof {
        TaskManager::lemma_memory_edit_wf(o, tm.tasks@, cur as int);
    }
    match res {
        Ok(_) => 0,
        Err(_) => -1,
    }
}

/// What a trace request asks the caller to do.
#[derive(Clone, Copy, PartialEq, Eq, Structural, Debug)]
pub enum TraceAction {
    /// Return this value to user space.
    Done(isize),
    /// Read the user byte at this address and return it.
    ReadByte(usize),
    /// Write this word at this user address and return 0.
    WriteWord(usize, usize),
}

/// Highest address, exclusive, that a trace read may touch.
pub const TRACE_ADDR_MAX: usize = 0x8000_0000;

/// A trace read of `len` bytes at `id` is allowed: the range does not
/// overflow and ends at or below `TRACE_ADDR_MAX`, and where it is longer
/// than a page it stays within one page.
pub open spec fn valid_trace_range(id: usize, len: usize) -> bool {
    &&& id + len <= TRACE_ADDR_MAX
    &&& len > PAGE_SIZE ==> (id as int) / (PAGE_SIZE as int) == (id + len - 1) / (PAGE_SIZE as int)
}

/// Whether a trace read of `len` bytes at address `id` is allowed.
pub fn is_valid_id(id: usize, len: usize) -> (b: bool)
    ensures
        b == valid_trace_range(id, len),
{
    let end = match id.checked_add(len) {
        Some(val) => val,
        None => {
            return false;
        },
    };
    if end > TRACE_ADDR_MAX {
        return false;
    }
    if len > PAGE_SIZE {
        let strat_page = id / PAGE_SIZE;
        let end_page = (end - 1) / PAGE_SIZE;
        if strat_page != end_page {
            return false;
        }
    }
    true
}

/// Bytes in a machine word.
pub open spec fn word_bytes() -> int {
    usize::BITS as int / 8
}

/// The page-table flags of page `vpn` in `m`, as a translation gives them.
pub open spec fn pte_flags(m: Map<usize, u8>, vpn: usize) -> u8 {
    m[vpn] | PTE_V
}

/// A trace read of one byte at `id` in address space `m` is allowed: the
/// range is valid and the page is mapped readable.
pub open spec fn trace_read_ok(m: Map<usize, u8>, id: usize) -> bool {
    &&& valid_trace_range(id, 1)
    &&& m.contains_key((id / PAGE_SIZE) as usize)
    &&& pte_flags(m, (id / PAGE_SIZE) as usize) & PTE_R != 0
}

/// A trace write of one word at `id` in address space `m` is allowed: the
/// page is mapped readable and writable and the word does not cross into
/// the next page.
pub open spec fn trace_write_ok(m: Map<usize, u8>, id: usize) -> bool {
    &&& m.contains_key((id / PAGE_SIZE) as usize)
    &&& pte_flags(m, (id / PAGE_SIZE) as usize) & PTE_W != 0
    &&& pte_flags(m, (id / PAGE_SIZE) as usize) & PTE_R != 0
    &&& id + word_bytes() <= usize::MAX
    &&& (id as int) / (PAGE_SIZE as int) == (id + word_bytes() - 1) / (PAGE_SIZE as int)
}

/// Decides a trace request against the current task's page table: request 0
/// reads the byte at `id`, request 1 writes the word `data` at `id`, both
/// only where the current task may access that memory; request 2 returns how
/// many times the current task made system call `id`; any other request,
/// and a refused access, gives -1.
pub fn task_trace(tm: &TaskManager, trace_request: usize, id: usize, data: usize) -> (a: TraceAction)
    requires
        tm.tasks.len() > 0,
        tm.current < tm.tasks.len(),
    ensures
        trace_request == 0 ==> a == (if trace_read_ok(tm.cur().memory_set@, id) {
            TraceAction::ReadByte(id)
        } else {
            TraceAction::Done(-1isize)
        }),
        trace_request == 1 ==> a == (if trace_write_ok(tm.cur().memory_set@, id) {
            TraceAction::WriteWord(id, data)
        } else {
            TraceAction::Done(-1isize)
        }),
        trace_request == 2 ==> a == TraceAction::Done(
            count_of(tm.cur().syscall_times@, id) as isize,
        ),
        trace_request > 2 ==> a == TraceAction::Done(-1isize),
{
    let cur = tm.current;
    let page_table = &tm.tasks[cur].memory_set;
    if trace_request == 0 {
        if !is_valid_id(id, 1) {
            return TraceAction::Done(-1);
        }
        let vpn = floor(id);
        match page_table.translate(vpn) {
            Some(flags) => {
                proof {
                    assert(forall|x: u8| #[trigger] (x | 1u8) & 1u8 != 0u8) by (bit_vector);
                    assert((flags & PTE_V) != 0);
                }
                if (flags & PTE_V) == 0 || (flags & PTE_R) == 0 {
                    return TraceAction::Done(-1);
                }
                TraceAction::ReadByte(id)
            },
            None => TraceAction::Done(-1),
        }
    } else if trace_request == 1 {
        let vpn = floor(id);
        match page_table.translate(vpn) {
            Some(flags) => {
                proof {
                    assert(forall|x: u8| #[trigger] (x | 1u8) & 1u8 != 0u8) by (bit_vector);
                    assert((flags & PTE_V) != 0);
                }
                if (flags & PTE_V) == 0 || (flags & PTE_W) == 0 || (flags & PTE_R) == 0 {
                    return TraceAction::Done(-1);
                }
                let word = (usize::BITS / 8) as usize;
                let end = match id.checked_add(word) {
                    Some(val) => val,
                    None => {
                        return TraceAction::Done(-1);
                    },
                };
                if floor(id) != floor(end - 1) {
                    return TraceAction::Done(-1);
                }
                TraceAction::WriteWord(id, data)
            },
            None => TraceAction::Done(-1),
        }
    } else if trace_request == 2 {
        TraceAction::Done(tm.get_syscall_times(id))
    } else {
        TraceAction::Done(-1)
    }
}

} // verus!
