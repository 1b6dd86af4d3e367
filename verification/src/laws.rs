//! Properties that relate several operations of the library.

use vstd::prelude::*;
use crate::mm::{
    map_range_spec, unmap_range_spec, overlaps_spec, all_mapped_spec, floor_spec, ceil_spec,
};
use crate::task::{
    count_of, mmap_ok, munmap_ok, mmap_perm, parent_link, TaskManager, IDLE_PID, trace_read_ok,
    trace_write_ok, TraceAction,
};
use crate::syscall::{
    is_supported, sys_trace_spec, sys_exit_spec, dispatched, SyscallAction,
};
use crate::task::{
    next_ready, next_ready_from, rr_index, lemma_rr_index, lemma_next_ready, statuses,
    TaskStatus, suspend_spec, syscall_counted, counts_reset, valid_trace_range,
};
use crate::processor::exit_with_code_spec;
use crate::mm::token_spec;
use crate::task::{exit_spec, heap_perm, heap_change_fits, memory_edit};

verus! {

/// Unmapping a range right after mapping it, both with the same start and
/// length, succeeds and gives back the address space as it was before.
pub proof fn lemma_mmap_then_munmap_restores(m: Map<usize, u8>, start: usize, len: usize, port: usize)
    requires
        mmap_ok(m, start, len, port),
    ensures
        munmap_ok(
            map_range_spec(m, floor_spec(start as int), ceil_spec(start + len), mmap_perm(port)),
            start,
            len,
        ),
        unmap_range_spec(
            map_range_spec(m, floor_spec(start as int), ceil_spec(start + len), mmap_perm(port)),
            floor_spec(start as int),
            ceil_spec(start + len),
        ) == m,
{
    let s = floor_spec(start as int);
    let e = ceil_spec(start + len);
    let mapped = map_range_spec(m, s, e, mmap_perm(port));
    assert forall|v: usize| s <= v < e implies #[trigger] mapped.contains_key(v) by {}
    assert forall|v: usize| m.contains_key(v) implies !(s <= v < e) by {
        if s <= v < e {
            assert(overlaps_spec(m, s, e));
        }
    }
    assert(unmap_range_spec(mapped, s, e) =~= m);
}

/// A second `mmap` of a non-empty range that was just mapped fails, as the
/// range now overlaps mapped pages.
pub proof fn lemma_mmap_twice_fails(m: Map<usize, u8>, start: usize, len: usize, port: usize)
    requires
        mmap_ok(m, start, len, port),
        len > 0,
    ensures
        !mmap_ok(
            map_range_spec(m, floor_spec(start as int), ceil_spec(start + len), mmap_perm(port)),
            start,
            len,
            port,
        ),
{
    let s = floor_spec(start as int);
    let e = ceil_spec(start + len);
    let mapped = map_range_spec(m, s, e, mmap_perm(port));
    assert(s < e);
    let v = s as usize;
    assert(mapped.contains_key(v));
    assert(overlaps_spec(mapped, s, e));
}

/// A second `munmap` of a non-empty range that was just unmapped fails, as
/// its pages are no longer mapped.
pub proof fn lemma_munmap_twice_fails(m: Map<usize, u8>, start: usize, len: usize)
    requires
        munmap_ok(m, start, len),
        len > 0,
    ensures
        !munmap_ok(
            unmap_range_spec(m, floor_spec(start as int), ceil_spec(start + len)),
            start,
            len,
        ),
{
    let s = floor_spec(start as int);
    let e = ceil_spec(start + len);
    let unmapped = unmap_range_spec(m, s, e);
    assert(s < e);
    let v = s as usize;
    assert(!unmapped.contains_key(v));
    assert(!all_mapped_spec(unmapped, s, e));
}

/// Counting one more call of `id` raises the count of `id` by one and leaves
/// every other count as it was.
pub proof fn lemma_count_one_more(m: Map<usize, usize>, id: usize, other: usize)
    requires
        count_of(m, id) < usize::MAX,
    ensures
        count_of(m.insert(id, (count_of(m, id) + 1) as usize), id) == count_of(m, id) + 1,
        other != id ==> count_of(m.insert(id, (count_of(m, id) + 1) as usize), other) == count_of(
            m,
            other,
        ),
{
}

/// Growing the heap end from `brk` by `size` bytes and then shrinking it by
/// as much maps and then releases the same pages, so the address space ends
/// as it began where the grown pages were free.
pub proof fn lemma_brk_grow_then_shrink_restores(m: Map<usize, u8>, brk: int, size: int, perm: u8)
    requires
        0 <= brk,
        0 <= size,
        !overlaps_spec(m, ceil_spec(brk), ceil_spec(brk + size)),
    ensures
        all_mapped_spec(map_range_spec(m, ceil_spec(brk), ceil_spec(brk + size), perm), ceil_spec(brk), ceil_spec(brk + size)),
        unmap_range_spec(
            map_range_spec(m, ceil_spec(brk), ceil_spec(brk + size), perm),
            ceil_spec(brk),
            ceil_spec(brk + size),
        ) == m,
{
    let s = ceil_spec(brk);
    let e = ceil_spec(brk + size);
    let grown = map_range_spec(m, s, e, perm);
    assert forall|v: usize| m.contains_key(v) implies !(s <= v < e) by {
        if s <= v < e {
            assert(overlaps_spec(m, s, e));
        }
    }
    assert(unmap_range_spec(grown, s, e) =~= m);
}

/// Once a task other than the initial process has exited with a code, no
/// task names it as parent any more: every child it had now belongs to the
/// initial process.
pub proof fn lemma_exit_leaves_no_child(
    before: TaskManager,
    after: TaskManager,
    t: usize,
    exit_code: i32,
)
    requires
        before.wf(),
        t < before.tasks.len(),
        t != IDLE_PID,
        exit_with_code_spec(before.tasks@, after.tasks@, t as int, exit_code),
    ensures
        forall|s: int| 0 <= s < after.tasks@.len() ==> #[trigger] after.tasks@[s].parent != Some(t),
{
    let o = before.tasks@;
    let f = after.tasks@;
    assert forall|s: int| 0 <= s < f.len() implies #[trigger] f[s].parent != Some(t) by {
        if !o[t as int].children@.contains(s as usize) {
            if o[s].parent == Some(t) {
                assert(o[s].parent is Some);
                assert(parent_link(o, s));
            }
        }
    }
}

/// Page `v` lies in the page range of `[start, start + len)` exactly when
/// it starts at or after the page of `start` and before the range's end.
pub proof fn lemma_page_in_range(start: usize, len: usize, v: usize)
    ensures
        (floor_spec(start as int) <= v < ceil_spec(start + len)) <==> (start / 4096 <= v && v * 4096
            < start + len),
{
    let e = ceil_spec(start + len);
    if start + len != 0 {
        assert(e == (start + len - 1) / 4096 + 1);
        assert((v < e) <==> (v * 4096 < start + len)) by (nonlinear_arith)
            requires
                e == (start + len - 1) / 4096 + 1,
                start + len >= 1,
                v >= 0,
        ;
    }
}

/// `munmap(start, len)` succeeds exactly when `start` is a multiple of the
/// page size and every page from the one holding `start` up to the one
/// holding the last byte of the range is mapped; a range with a hole fails.
pub proof fn lemma_munmap_needs_every_page(m: Map<usize, u8>, start: usize, len: usize)
    ensures
        munmap_ok(m, start, len) <==> {
            &&& start % 4096 == 0
            &&& forall|v: usize|
                start / 4096 <= v && v * 4096 < start + len ==> #[trigger] m.contains_key(v)
        },
{
    let s = floor_spec(start as int);
    let e = ceil_spec(start + len);
    if start % 4096 == 0 && forall|v: usize|
        start / 4096 <= v && v * 4096 < start + len ==> #[trigger] m.contains_key(v) {
        assert forall|v: usize| s <= v < e implies #[trigger] m.contains_key(v) by {
            lemma_page_in_range(start, len, v);
        }
    }
    if munmap_ok(m, start, len) {
        assert forall|v: usize| start / 4096 <= v && v * 4096 < start + len implies #[trigger] m.contains_key(
            v,
        ) by {
            lemma_page_in_range(start, len, v);
        }
    }
}

/// A trace write at `id` is allowed only where the page holding `id` is
/// mapped readable and writable and the whole word at `id` lies in that page.
pub proof fn lemma_trace_write_needs_mapped_page(m: Map<usize, u8>, id: usize)
    ensures
        trace_write_ok(m, id) <==> {
            &&& m.contains_key(id / 4096)
            &&& m[id / 4096] & 4u8 != 0u8
            &&& m[id / 4096] & 2u8 != 0u8
            &&& id + usize::BITS / 8 <= usize::MAX
            &&& id / 4096 == (id + usize::BITS / 8 - 1) / 4096
        },
{
    let x = m[id / 4096];
    assert((x | 1u8) & 4u8 != 0u8 <==> x & 4u8 != 0u8) by (bit_vector);
    assert((x | 1u8) & 2u8 != 0u8 <==> x & 2u8 != 0u8) by (bit_vector);
}

/// A trace read at `id` is allowed only below address `0x8000_0000` and
/// where the page holding `id` is mapped readable.
pub proof fn lemma_trace_read_needs_mapped_page(m: Map<usize, u8>, id: usize)
    ensures
        trace_read_ok(m, id) <==> {
            &&& id < 0x8000_0000
            &&& m.contains_key(id / 4096)
            &&& m[id / 4096] & 2u8 != 0u8
        },
{
    let x = m[id / 4096];
    assert((x | 1u8) & 2u8 != 0u8 <==> x & 2u8 != 0u8) by (bit_vector);
}

/// `mmap` succeeds only for a protection with some of its three low bits
/// set and no other bit, on a page-aligned start whose range does not
/// overflow and meets no mapped page; it then maps with read, write and
/// execute taken from bits 0, 1 and 2 of `port`, plus user access.
pub proof fn lemma_mmap_ok_and_permission(m: Map<usize, u8>, start: usize, len: usize, port: usize)
    ensures
        mmap_ok(m, start, len, port) <==> {
            &&& start % 4096 == 0
            &&& port & !7usize == 0usize
            &&& port & 7usize != 0usize
            &&& start + len <= usize::MAX
            &&& forall|v: usize|
                start / 4096 <= v && v * 4096 < start + len ==> !#[trigger] m.contains_key(v)
        },
        mmap_ok(m, start, len, port) ==> {
            &&& (mmap_perm(port) & 2u8 != 0u8 <==> port & 1usize != 0usize)
            &&& (mmap_perm(port) & 4u8 != 0u8 <==> port & 2usize != 0usize)
            &&& (mmap_perm(port) & 8u8 != 0u8 <==> port & 4usize != 0usize)
            &&& mmap_perm(port) & 16u8 != 0u8
            &&& mmap_perm(port) & !30u8 == 0u8
        },
{
    assert((port & !7usize == 0usize && port & 7usize != 0usize) <==> (1 <= port && port <= 7))
        by (bit_vector);
    let s = floor_spec(start as int);
    let e = ceil_spec(start + len);
    if overlaps_spec(m, s, e) {
        let v = choose|v: usize| s <= v < e && #[trigger] m.contains_key(v);
        lemma_page_in_range(start, len, v);
    }
    if exists|v: usize| start / 4096 <= v && v * 4096 < start + len && #[trigger] m.contains_key(v) {
        let v = choose|v: usize| start / 4096 <= v && v * 4096 < start + len && #[trigger] m.contains_key(v);
        lemma_page_in_range(start, len, v);
    }
    if 1 <= port && port <= 7 {
        let p = port;
        assert(1 <= p && p <= 7 ==> {
            let q = (2 * p + 16) as u8;
            &&& (q & 2u8 != 0u8 <==> p & 1usize != 0usize)
            &&& (q & 4u8 != 0u8 <==> p & 2usize != 0usize)
            &&& (q & 8u8 != 0u8 <==> p & 4usize != 0usize)
            &&& q & 16u8 != 0u8
            &&& q & !30u8 == 0u8
        }) by (bit_vector);
    }
}

/// The system calls handled are exactly write (64), exit (93), yield (124),
/// get-time (169), trace (410) and the count reset (999).
pub proof fn lemma_supported_syscalls(id: usize)
    ensures
        is_supported(id) <==> (id == 64 || id == 93 || id == 124 || id == 169 || id == 410 || id
            == 999),
{
}

/// Trace request 0 reads the byte at `id`, request 1 writes `data` at `id`,
/// request 2 reports a count; only these two requests touch memory, and
/// every other request gives -1.
pub proof fn lemma_trace_requests(tm: TaskManager, trace_request: usize, id: usize, data: usize)
    ensures
        trace_request > 2 ==> sys_trace_spec(tm, trace_request, id, data) == TraceAction::Done(
            -1isize,
        ),
        sys_trace_spec(tm, trace_request, id, data) is ReadByte ==> trace_request == 0
            && sys_trace_spec(tm, trace_request, id, data) == TraceAction::ReadByte(id),
        sys_trace_spec(tm, trace_request, id, data) is WriteWord ==> trace_request == 1
            && sys_trace_spec(tm, trace_request, id, data) == TraceAction::WriteWord(id, data),
        trace_request == 0 ==> sys_trace_spec(tm, trace_request, id, data) is ReadByte,
        trace_request == 1 ==> sys_trace_spec(tm, trace_request, id, data) is WriteWord,
        trace_request == 2 ==> sys_trace_spec(tm, trace_request, id, data) == TraceAction::Done(
            count_of(tm.cur().syscall_times@, id) as isize,
        ),
{
}

/// No task reached `a`, `a + 1`, ..., `b - 1` steps after `cur` is ready.
pub open spec fn none_ready_between(st: Seq<TaskStatus>, cur: int, a: int, b: int) -> bool {
    forall|k2: int| a <= k2 < b ==> st[#[trigger] rr_index(cur, k2, st.len() as int)] != TaskStatus::Ready
}

/// The number of steps after `cur` at which the search from step `k` stops.
proof fn first_ready_offset(st: Seq<TaskStatus>, cur: int, k: int) -> (k1: int)
    requires
        0 <= cur < st.len(),
        1 <= k,
        next_ready_from(st, cur, k) is Some,
    ensures
        k <= k1 <= st.len(),
        next_ready_from(st, cur, k) == Some(rr_index(cur, k1, st.len() as int)),
        st[rr_index(cur, k1, st.len() as int)] == TaskStatus::Ready,
        none_ready_between(st, cur, k, k1),
    decreases st.len() + 1 - k,
{
    if st[rr_index(cur, k, st.len() as int)] == TaskStatus::Ready {
        k
    } else {
        let k1 = first_ready_offset(st, cur, k + 1);
        assert forall|k2: int| k <= k2 < k1 implies st[#[trigger] rr_index(
            cur,
            k2,
            st.len() as int,
        )] != TaskStatus::Ready by {
            if k2 > k {
                assert(k + 1 <= k2 < k1);
            }
        }
        k1
    }
}

/// The task run after `cur` is the first ready one in the order `cur + 1`,
/// `cur + 2`, ... (modulo the number of tasks), `cur` itself last: every
/// task passed over on the way is not ready.
pub proof fn lemma_next_ready_is_first(st: Seq<TaskStatus>, cur: int)
    requires
        0 <= cur < st.len(),
    ensures
        next_ready(st, cur) matches Some(j) ==> exists|k1: int|
            1 <= k1 <= st.len() && j == #[trigger] rr_index(cur, k1, st.len() as int)
                && st[j] == TaskStatus::Ready && none_ready_between(st, cur, 1, k1),
        next_ready(st, cur) is None ==> forall|i: int| 0 <= i < st.len() ==> st[i] != TaskStatus::Ready,
{
    lemma_next_ready(st, cur);
    if next_ready(st, cur) is Some {
        let k1 = first_ready_offset(st, cur, 1);
        assert(rr_index(cur, k1, st.len() as int) == rr_index(cur, k1, st.len() as int));
    }
    if next_ready(st, cur) is None {
        assert forall|i: int| 0 <= i < st.len() implies st[i] != TaskStatus::Ready by {
            if st[i] == TaskStatus::Ready {
                assert(crate::task::some_ready(st));
            }
        }
    }
}

/// After a yield, task `next` runs and is current; the task that yielded
/// is ready unless it is `next` itself; `next` was ready or is the one that
/// yielded; no other task changed.
pub proof fn lemma_yield_effect(o: TaskManager, f: TaskManager, next: usize)
    requires
        o.wf(),
        o.tasks.len() > 0,
        suspend_spec(o, f, next),
    ensures
        next < o.tasks.len(),
        f.current == next,
        f.tasks@.len() == o.tasks@.len(),
        f.tasks@[next as int].status == TaskStatus::Running,
        next != o.current ==> f.tasks@[o.current as int].status == TaskStatus::Ready,
        next != o.current ==> o.tasks@[next as int].status == TaskStatus::Ready,
        forall|t: int|
            0 <= t < o.tasks@.len() && t != next && t != o.current ==> #[trigger] f.tasks@[t]
                == o.tasks@[t],
{
    let st = statuses(o.tasks@.update(
        o.current as int,
        crate::task::with_status(o.cur(), TaskStatus::Ready),
    ));
    lemma_next_ready(st, o.current as int);
}

/// After `sys_exit(code)`, the task that exited is marked exited and keeps
/// `code`, and a different task `next`, which was ready, runs and is
/// current; no other task changed.
pub proof fn lemma_sys_exit_effect(o: TaskManager, f: TaskManager, exit_code: i32, next: usize)
    requires
        o.wf(),
        o.tasks.len() > 0,
        sys_exit_spec(o, f, exit_code, next),
    ensures
        next < o.tasks.len(),
        next != o.current,
        f.current == next,
        f.tasks@.len() == o.tasks@.len(),
        f.tasks@[o.current as int].status == TaskStatus::Exited,
        f.tasks@[o.current as int].exit_code == exit_code,
        o.tasks@[next as int].status == TaskStatus::Ready,
        f.tasks@[next as int].status == TaskStatus::Running,
        forall|t: int|
            0 <= t < o.tasks@.len() && t != next && t != o.current ==> #[trigger] f.tasks@[t]
                == o.tasks@[t],
{
    let st = statuses(crate::syscall::exited_with_code(o, exit_code));
    lemma_next_ready(st, o.current as int);
}

/// Counting a call raises that call's count by one for the current task and
/// changes no other count of any task; a reset leaves every count at zero.
pub proof fn lemma_counting(o: TaskManager, f: TaskManager, id: usize, other: usize)
    ensures
        syscall_counted(o, f, id) && count_of(o.cur().syscall_times@, id) < usize::MAX ==> {
            &&& count_of(f.cur().syscall_times@, id) == count_of(o.cur().syscall_times@, id) + 1
            &&& other != id ==> count_of(f.cur().syscall_times@, other) == count_of(
                o.cur().syscall_times@,
                other,
            )
            &&& forall|t: int|
                0 <= t < o.tasks@.len() && t != o.current ==> #[trigger] f.tasks@[t] == o.tasks@[t]
        },
        counts_reset(o, f) ==> count_of(f.cur().syscall_times@, other) == 0,
        count_of(o.cur().syscall_times@, other) >= 0,
        !o.cur().syscall_times@.contains_key(other) ==> count_of(o.cur().syscall_times@, other)
            == 0,
{
}

/// Mapping `[s, e)` makes exactly the pages of the range mapped, with
/// `perm`, and keeps every other page; unmapping it removes exactly those
/// pages and keeps the others as they were.
pub proof fn lemma_map_unmap_pages(m: Map<usize, u8>, s: int, e: int, perm: u8, v: usize)
    ensures
        map_range_spec(m, s, e, perm).contains_key(v) <==> (m.contains_key(v) || s <= v < e),
        s <= v < e ==> map_range_spec(m, s, e, perm)[v] == perm,
        !(s <= v < e) && m.contains_key(v) ==> map_range_spec(m, s, e, perm)[v] == m[v],
        unmap_range_spec(m, s, e).contains_key(v) <==> (m.contains_key(v) && !(s <= v < e)),
        unmap_range_spec(m, s, e).contains_key(v) ==> unmap_range_spec(m, s, e)[v] == m[v],
        all_mapped_spec(m, s, e) <==> forall|u: usize| s <= u < e ==> #[trigger] m.contains_key(u),
        overlaps_spec(m, s, e) <==> exists|u: usize| s <= u < e && #[trigger] m.contains_key(u),
{
}

/// A trace read of `len` bytes at `id` is allowed exactly when it ends at or
/// below `0x8000_0000` without overflow and, where longer than a page,
/// starts and ends in the same page.
pub proof fn lemma_valid_trace_range(id: usize, len: usize)
    ensures
        valid_trace_range(id, len) <==> {
            &&& id + len <= 0x8000_0000
            &&& len > 4096 ==> id / 4096 == (id + len - 1) / 4096
        },
{
}

/// The system call entry point hands each call to its handler with the
/// call's own arguments: write gets `args[0..3]` as descriptor, buffer and
/// length, get-time gets `args[0..2]`, trace gets `args[0..3]` as request,
/// address and data, reset answers 0, exit keeps `args[0]` as exit code.
pub proof fn lemma_dispatch_arguments(
    mid: TaskManager,
    f: TaskManager,
    syscall_id: usize,
    args: [usize; 3],
    a: SyscallAction,
)
    requires
        dispatched(mid, f, syscall_id, args, a),
    ensures
        syscall_id == 64 ==> a == (SyscallAction::Write { fd: args[0], buf: args[1], len: args[2] })
            && f == mid,
        syscall_id == 169 ==> a == (SyscallAction::GetTime { ts: args[0], tz: args[1] }) && f
            == mid,
        syscall_id == 410 ==> a == SyscallAction::Trace(
            sys_trace_spec(mid, args[0], args[1], args[2]),
        ) && f == mid,
        syscall_id == 999 ==> a == SyscallAction::Return(0) && counts_reset(mid, f),
        syscall_id == 93 ==> a is Exit && sys_exit_spec(mid, f, args[0] as i32, a->next_task),
        syscall_id == 124 ==> a is Yield && suspend_spec(mid, f, a->next),
{
}

/// The `satp` token selects Sv39 paging (mode 8 in the top four bits) and
/// carries the root frame number, which Sv39 limits to 44 bits, in its
/// low bits.
pub proof fn lemma_token(root_ppn: usize)
    requires
        root_ppn < 0x1000_0000_0000,
    ensures
        token_spec(root_ppn) >> 60u64 == 8u64,
        token_spec(root_ppn) & 0xfff_ffff_ffffu64 == root_ppn as u64,
{
    let r = root_ppn as u64;
    assert(r < 0x1000_0000_0000u64 ==> ((8u64 << 60u64) | r) >> 60u64 == 8u64) by (bit_vector);
    assert(r < 0x1000_0000_0000u64 ==> ((8u64 << 60u64) | r) & 0xfff_ffff_ffffu64 == r)
        by (bit_vector);
}

/// Heap pages are readable, writable and user-accessible, not executable;
/// a heap change fits when every page to release is mapped and no page to
/// add is.
pub proof fn lemma_heap(m: Map<usize, u8>, old_brk: int, new_brk: int)
    ensures
        heap_perm() == 2u8 + 4u8 + 16u8,
        new_brk < old_brk ==> (heap_change_fits(m, old_brk, new_brk) <==> forall|v: usize|
            ceil_spec(new_brk) <= v < ceil_spec(old_brk) ==> #[trigger] m.contains_key(v)),
        new_brk >= old_brk ==> (heap_change_fits(m, old_brk, new_brk) <==> forall|v: usize|
            ceil_spec(old_brk) <= v < ceil_spec(new_brk) ==> !#[trigger] m.contains_key(v)),
{
    assert(2u8 | 4u8 | 16u8 == 22u8) by (bit_vector);
}

/// After the task-table exit, the task that exited is marked exited, and a
/// different task `next`, which was ready, runs and is current; no other
/// task changed.
pub proof fn lemma_exit_effect(o: TaskManager, f: TaskManager, next: usize)
    requires
        o.wf(),
        o.tasks.len() > 0,
        exit_spec(o, f, next),
    ensures
        next < o.tasks.len(),
        next != o.current,
        f.current == next,
        f.tasks@.len() == o.tasks@.len(),
        f.tasks@[o.current as int].status == TaskStatus::Exited,
        o.tasks@[next as int].status == TaskStatus::Ready,
        f.tasks@[next as int].status == TaskStatus::Running,
        forall|t: int|
            0 <= t < o.tasks@.len() && t != next && t != o.current ==> #[trigger] f.tasks@[t]
                == o.tasks@[t],
{
    let st = statuses(crate::task::exited(o));
    lemma_next_ready(st, o.current as int);
}

/// After task `t` exits with a code, it is a zombie that keeps the code and
/// has no child and no mapped page; the initial process's children are its
/// old children followed by `t`'s; every other task keeps its status.
pub proof fn lemma_exit_with_code_effect(
    o: Seq<crate::task::TaskControlBlock>,
    f: Seq<crate::task::TaskControlBlock>,
    t: int,
    exit_code: i32,
)
    requires
        0 <= t < o.len(),
        t != IDLE_PID,
        exit_with_code_spec(o, f, t, exit_code),
    ensures
        f.len() == o.len(),
        f[t].status == TaskStatus::Zombie,
        f[t].exit_code == exit_code,
        f[t].children@.len() == 0,
        f[t].memory_set@.dom().len() == 0,
        f[IDLE_PID as int].children@ == o[IDLE_PID as int].children@ + o[t].children@,
        forall|s: int| 0 <= s < o.len() && s != t ==> #[trigger] f[s].status == o[s].status,
{
    assert forall|s: int| 0 <= s < o.len() && s != t implies #[trigger] f[s].status == o[s].status by {
        assert(f[s] == crate::task::TaskControlBlock {
            parent: f[s].parent,
            children: f[s].children,
            ..o[s]
        });
    }
    assert(f[t].memory_set@.dom() =~= Set::<usize>::empty());
}

/// `mmap` and `munmap` touch only the current task's address space.
pub proof fn lemma_memory_edit_only_current(o: TaskManager, f: TaskManager)
    requires
        memory_edit(o, f),
    ensures
        f.current == o.current,
        f.tasks@.len() == o.tasks@.len(),
        forall|t: int| 0 <= t < o.tasks@.len() && t != o.current ==> #[trigger] f.tasks@[t] == o.tasks@[t],
        f.cur().status == o.cur().status,
        f.cur().syscall_times@ == o.cur().syscall_times@,
        f.cur().program_brk == o.cur().program_brk,
        f.cur().memory_set.root_ppn == o.cur().memory_set.root_ppn,
{
}

} // verus!
