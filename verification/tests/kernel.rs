use os_kernel::mm::{aligned, ceil, floor, page_offset, MemorySet, MAP_PERM_R, MAP_PERM_U, MAP_PERM_W};
use os_kernel::process::{exec, fork};
use os_kernel::syscall::{
    sys_exit, sys_get_time, sys_trace, sys_yield, syscall, SyscallAction, SYSCALL_EXIT,
    SYSCALL_GET_TIME, SYSCALL_RESET_COUNTS, SYSCALL_TRACE, SYSCALL_WRITE, SYSCALL_YIELD,
};
use os_kernel::processor::{self, add_initproc, Processor, ReadyQueue};
use os_kernel::task::{
    change_program_brk, current_trap_cx, current_user_token,
    exit_current_and_run_next, is_valid_id, mmap, munmap, run_first_task,
    suspend_current_and_run_next, task_trace, TaskControlBlock, TaskManager, TaskStatus,
    TraceAction, TrapContext, IDLE_PID,
};
use os_kernel::timeval::TimeVal;

const USER_SP: usize = 0x10000;

fn task(root: usize) -> TaskControlBlock {
    TaskControlBlock::new(MemorySet::new(root), USER_SP, 0x1000, 0x80, 0x9000, 7, 0x2000)
}

/// A manager with the initial process running.
fn booted() -> TaskManager {
    let mut tm = TaskManager::new();
    assert_eq!(tm.insert_task(task(1)), IDLE_PID);
    run_first_task(&mut tm);
    tm
}

#[test]
fn page_arithmetic() {
    assert_eq!(floor(0), 0);
    assert_eq!(floor(4095), 0);
    assert_eq!(floor(4096), 1);
    assert_eq!(ceil(0), 0);
    assert_eq!(ceil(1), 1);
    assert_eq!(ceil(4096), 1);
    assert_eq!(ceil(4097), 2);
    assert_eq!(ceil(usize::MAX), usize::MAX / 4096 + 1);
    assert!(aligned(8192));
    assert!(!aligned(8193));
    assert_eq!(page_offset(8195), 3);
}

#[test]
fn memory_set_map_and_unmap() {
    let mut ms = MemorySet::new(5);
    ms.insert_framed_area(0x1000, 0x2800, MAP_PERM_R | MAP_PERM_U);
    assert!(ms.is_mapped(1));
    assert!(ms.is_mapped(2));
    assert!(!ms.is_mapped(3));
    assert_eq!(ms.translate(2), Some(MAP_PERM_R | MAP_PERM_U | 1));
    assert_eq!(ms.translate(3), None);
    assert!(ms.is_overlap(0, 2));
    assert!(!ms.is_overlap(3, 10));
    assert!(ms.all_mapped(1, 3));
    assert!(!ms.all_mapped(1, 4));
    assert_eq!(ms.munmap(1, 4), Err(()));
    assert!(ms.is_mapped(1));
    assert_eq!(ms.munmap(1, 2), Ok(()));
    assert!(!ms.is_mapped(1));
    assert!(ms.is_mapped(2));
    let copy = ms.duplicate(9);
    assert!(copy.is_mapped(2));
    assert_eq!(copy.root_ppn, 9);
    ms.recycle_data_pages();
    assert!(!ms.is_mapped(2));
    assert!(copy.is_mapped(2));
}

#[test]
fn token_selects_sv39() {
    let ms = MemorySet::new(0x80123);
    assert_eq!(ms.token(), (8u64 << 60) | 0x80123);
    let tm = booted();
    assert_eq!(current_user_token(&tm), (8u64 << 60) | 1);
}

#[test]
fn timeval_splits_microseconds() {
    let tv = TimeVal::from_us(3_250_001);
    assert_eq!(tv, TimeVal { sec: 3, usec: 250_001 });
    assert_eq!(sys_get_time(999_999), TimeVal { sec: 0, usec: 999_999 });
    assert_eq!(sys_get_time(1_000_000), TimeVal { sec: 1, usec: 0 });
}

#[test]
fn new_task_starts_at_entry() {
    let t = task(3);
    assert_eq!(t.status, TaskStatus::Ready);
    assert_eq!(t.parent, None);
    assert_eq!(t.base_size, USER_SP);
    assert_eq!(t.program_brk, USER_SP);
    assert_eq!(t.priority, 16);
    assert_eq!(
        t.trap_cx,
        TrapContext { sp: USER_SP, sepc: 0x1000, kernel_satp: 7, kernel_sp: 0x9000, trap_handler: 0x2000 }
    );
}

#[test]
fn first_task_runs() {
    let tm = booted();
    assert_eq!(tm.current, IDLE_PID);
    assert_eq!(tm.tasks[0].status, TaskStatus::Running);
}

#[test]
fn round_robin_scheduling() {
    let mut tm = booted();
    let a = fork(&mut tm, 0, 0xa000, 0x81, 2);
    let b = fork(&mut tm, 0, 0xb000, 0x82, 3);
    assert_eq!((a, b), (1, 2));
    assert_eq!(tm.find_next_task(), Some(1));
    assert_eq!(suspend_current_and_run_next(&mut tm), 1);
    assert_eq!(tm.current, 1);
    assert_eq!(tm.tasks[0].status, TaskStatus::Ready);
    assert_eq!(tm.tasks[1].status, TaskStatus::Running);
    assert_eq!(suspend_current_and_run_next(&mut tm), 2);
    assert_eq!(suspend_current_and_run_next(&mut tm), 0);
    assert_eq!(suspend_current_and_run_next(&mut tm), 1);
}

#[test]
fn lone_task_yields_to_itself() {
    let mut tm = booted();
    assert_eq!(sys_yield(&mut tm), 0);
    assert_eq!(tm.tasks[0].status, TaskStatus::Running);
}

#[test]
fn fork_copies_parent() {
    let mut tm = booted();
    tm.tasks[0].memory_set.insert_framed_area(0, 0x3000, MAP_PERM_R | MAP_PERM_U);
    tm.tasks[0].program_brk = USER_SP + 100;
    let c = fork(&mut tm, 0, 0xc000, 0x90, 4);
    assert_eq!(c, 1);
    assert_eq!(tm.tasks[0].children, vec![1]);
    let child = &tm.tasks[1];
    assert_eq!(child.parent, Some(0));
    assert_eq!(child.status, TaskStatus::Ready);
    assert!(child.children.is_empty());
    assert!(child.memory_set.is_mapped(2));
    assert_eq!(child.memory_set.root_ppn, 4);
    assert_eq!(child.trap_cx.kernel_sp, 0xc000);
    assert_eq!(child.trap_cx.sepc, 0x1000);
    assert_eq!(child.trap_cx_ppn, 0x90);
    assert_eq!(child.program_brk, USER_SP + 100);
    assert_eq!(child.priority, 16);
    assert_eq!(child.stride, 0);
}

#[test]
fn exec_replaces_program() {
    let mut tm = booted();
    let mut ms = MemorySet::new(11);
    ms.insert_framed_area(0x4000, 0x5000, MAP_PERM_R | MAP_PERM_U);
    exec(&mut tm, 0, ms, 0x20000, 0x4000, 0x70, 8, 0x3000);
    let t = &tm.tasks[0];
    assert!(t.memory_set.is_mapped(4));
    assert_eq!(t.memory_set.root_ppn, 11);
    assert_eq!(t.base_size, 0x20000);
    assert_eq!(t.trap_cx_ppn, 0x70);
    assert_eq!(
        t.trap_cx,
        TrapContext { sp: 0x20000, sepc: 0x4000, kernel_satp: 8, kernel_sp: 0x9000, trap_handler: 0x3000 }
    );
    assert_eq!(t.status, TaskStatus::Running);
}

#[test]
fn exit_with_code_hands_children_to_initproc() {
    let mut tm = booted();
    let p = fork(&mut tm, 0, 0xa000, 0x81, 2);
    let g1 = fork(&mut tm, p, 0xb000, 0x82, 3);
    let g2 = fork(&mut tm, p, 0xc000, 0x83, 4);
    tm.tasks[p].memory_set.insert_framed_area(0, 0x1000, MAP_PERM_R | MAP_PERM_U);
    let mut cpu = Processor::new();
    cpu.current = Some(p);
    assert_eq!(processor::exit_current_and_run_next(&mut tm, &mut cpu, 42), p);
    assert_eq!(cpu.current, None);
    assert_eq!(tm.tasks[p].status, TaskStatus::Zombie);
    assert_eq!(tm.tasks[p].exit_code, 42);
    assert!(tm.tasks[p].children.is_empty());
    assert!(!tm.tasks[p].memory_set.is_mapped(0));
    assert_eq!(tm.tasks[0].children, vec![p, g1, g2]);
    assert_eq!(tm.tasks[g1].parent, Some(0));
    assert_eq!(tm.tasks[g2].parent, Some(0));
    assert_eq!(tm.tasks[p].parent, Some(0));
    assert_eq!(tm.tasks[g1].status, TaskStatus::Ready);
    assert_eq!(tm.tasks[0].status, TaskStatus::Running);
}

#[test]
fn processor_suspend_queues_task_at_back() {
    let mut tm = booted();
    let c = fork(&mut tm, 0, 0xa000, 0x81, 2);
    let mut ready = ReadyQueue::new();
    ready.add_task(c);
    let mut cpu = Processor::new();
    cpu.current = Some(0);
    assert_eq!(processor::suspend_current_and_run_next(&mut tm, &mut cpu, &mut ready), 0);
    assert_eq!(cpu.current, None);
    assert_eq!(ready.queue, vec![c, 0]);
    assert_eq!(tm.tasks[0].status, TaskStatus::Ready);
}

#[test]
fn add_initproc_appends_to_ready_queue() {
    let mut ready = ReadyQueue::new();
    ready.add_task(3);
    add_initproc(&mut ready);
    assert_eq!(ready.queue, vec![3, IDLE_PID]);
}

#[test]
fn initproc_exits_like_any_task() {
    let mut tm = booted();
    let c = fork(&mut tm, 0, 0xa000, 0x81, 2);
    assert_eq!(sys_exit(&mut tm, -3), c);
    assert_eq!(tm.tasks[0].status, TaskStatus::Exited);
    assert_eq!(tm.tasks[0].exit_code, -3);
    assert_eq!(tm.tasks[c].status, TaskStatus::Running);
    assert_eq!(tm.current, c);
}

#[test]
fn exited_task_is_never_chosen_again() {
    let mut tm = booted();
    let a = fork(&mut tm, 0, 0xa000, 0x81, 2);
    let b = fork(&mut tm, 0, 0xb000, 0x82, 3);
    assert_eq!(exit_current_and_run_next(&mut tm), a);
    assert_eq!(tm.tasks[0].status, TaskStatus::Exited);
    assert_eq!(suspend_current_and_run_next(&mut tm), b);
    assert_eq!(suspend_current_and_run_next(&mut tm), a);
    assert_eq!(suspend_current_and_run_next(&mut tm), b);
    assert_eq!(tm.find_next_task(), Some(a));
}

#[test]
fn mmap_checks_arguments() {
    let mut tm = booted();
    assert_eq!(mmap(&mut tm, 0x1001, 0x1000, 3), -1);
    assert_eq!(mmap(&mut tm, 0x1000, 0x1000, 0), -1);
    assert_eq!(mmap(&mut tm, 0x1000, 0x1000, 8), -1);
    assert_eq!(mmap(&mut tm, 0x1000, 0x1000, 0xf), -1);
    assert_eq!(mmap(&mut tm, usize::MAX - 4095, 0x1000, 1), -1);
    assert!(!tm.tasks[0].memory_set.is_mapped(1));
}

#[test]
fn mmap_maps_with_port_permission() {
    let mut tm = booted();
    assert_eq!(mmap(&mut tm, 0x1000, 0x1001, 3), 0);
    let ms = &tm.tasks[0].memory_set;
    assert!(!ms.is_mapped(0));
    assert!(ms.is_mapped(1));
    assert!(ms.is_mapped(2));
    assert!(!ms.is_mapped(3));
    assert_eq!(ms.pages.get(&1), Some(&(2 * 3 + 16)));
    assert_eq!(mmap(&mut tm, 0x2000, 0x1000, 1), -1);
    assert_eq!(mmap(&mut tm, 0x3000, 0x1000, 7), 0);
    assert_eq!(tm.tasks[0].memory_set.pages.get(&3), Some(&(2 * 7 + 16)));
}

#[test]
fn munmap_needs_every_page_mapped() {
    let mut tm = booted();
    assert_eq!(mmap(&mut tm, 0x1000, 0x2000, 3), 0);
    assert_eq!(munmap(&mut tm, 0x1001, 0x1000), -1);
    assert_eq!(munmap(&mut tm, 0x1000, 0x3000), -1);
    assert!(tm.tasks[0].memory_set.is_mapped(1));
    assert_eq!(munmap(&mut tm, 0x2000, 0x1000), 0);
    assert!(tm.tasks[0].memory_set.is_mapped(1));
    assert!(!tm.tasks[0].memory_set.is_mapped(2));
    assert_eq!(munmap(&mut tm, 0x2000, 0x1000), -1);
}

#[test]
fn mmap_then_munmap_restores_address_space() {
    let mut tm = booted();
    tm.tasks[0].memory_set.insert_framed_area(0, 0x1000, MAP_PERM_R);
    let before = tm.tasks[0].memory_set.pages.clone();
    assert_eq!(mmap(&mut tm, 0x5000, 0x3000, 2), 0);
    assert_eq!(mmap(&mut tm, 0x5000, 0x3000, 2), -1);
    assert_eq!(munmap(&mut tm, 0x5000, 0x3000), 0);
    assert_eq!(tm.tasks[0].memory_set.pages, before);
    assert_eq!(munmap(&mut tm, 0x5000, 0x3000), -1);
}

#[test]
fn brk_grows_and_shrinks_heap() {
    let mut tm = booted();
    assert_eq!(change_program_brk(&mut tm, -1), None);
    assert_eq!(tm.tasks[0].program_brk, USER_SP);
    assert_eq!(change_program_brk(&mut tm, 0x1800), Some(USER_SP));
    assert_eq!(tm.tasks[0].program_brk, USER_SP + 0x1800);
    let hb = USER_SP / 4096;
    assert!(tm.tasks[0].memory_set.is_mapped(hb));
    assert!(tm.tasks[0].memory_set.is_mapped(hb + 1));
    assert!(!tm.tasks[0].memory_set.is_mapped(hb + 2));
    assert_eq!(
        tm.tasks[0].memory_set.pages.get(&hb),
        Some(&(MAP_PERM_R | MAP_PERM_W | MAP_PERM_U))
    );
    assert_eq!(change_program_brk(&mut tm, -0x1000), Some(USER_SP + 0x1800));
    assert!(tm.tasks[0].memory_set.is_mapped(hb));
    assert!(!tm.tasks[0].memory_set.is_mapped(hb + 1));
    assert_eq!(change_program_brk(&mut tm, -0x900), None);
    assert_eq!(change_program_brk(&mut tm, -0x800), Some(USER_SP + 0x800));
    assert!(!tm.tasks[0].memory_set.is_mapped(hb));
}

#[test]
fn trap_context_is_changed_in_place() {
    let mut tm = booted();
    current_trap_cx(&mut tm).sepc = 0x1234;
    assert_eq!(tm.tasks[0].trap_cx.sepc, 0x1234);
}

#[test]
fn trace_range_validity() {
    assert!(is_valid_id(0, 1));
    assert!(is_valid_id(0x7fff_ffff, 1));
    assert!(!is_valid_id(0x8000_0000, 1));
    assert!(!is_valid_id(usize::MAX, 1));
    assert!(is_valid_id(0x1000, 0x1000));
    assert!(is_valid_id(0x1000, 0x1001) == false);
    assert!(is_valid_id(0x1000, 0x2000) == false);
}

#[test]
fn task_trace_reads_and_writes_only_permitted_memory() {
    let mut tm = booted();
    assert_eq!(mmap(&mut tm, 0x1000, 0x1000, 1), 0);
    assert_eq!(mmap(&mut tm, 0x2000, 0x1000, 3), 0);
    assert_eq!(mmap(&mut tm, 0x3000, 0x1000, 2), 0);
    assert_eq!(task_trace(&tm, 0, 0x1010, 0), TraceAction::ReadByte(0x1010));
    assert_eq!(task_trace(&tm, 0, 0x3010, 0), TraceAction::Done(-1));
    assert_eq!(task_trace(&tm, 0, 0x5000, 0), TraceAction::Done(-1));
    assert_eq!(task_trace(&tm, 0, 0x8000_0000, 0), TraceAction::Done(-1));
    assert_eq!(task_trace(&tm, 1, 0x2008, 77), TraceAction::WriteWord(0x2008, 77));
    assert_eq!(task_trace(&tm, 1, 0x2ffc, 77), TraceAction::Done(-1));
    assert_eq!(task_trace(&tm, 1, 0x1008, 77), TraceAction::Done(-1));
    assert_eq!(task_trace(&tm, 1, 0x3008, 77), TraceAction::Done(-1));
    assert_eq!(task_trace(&tm, 2, SYSCALL_WRITE, 0), TraceAction::Done(0));
    assert_eq!(task_trace(&tm, 3, 0, 0), TraceAction::Done(-1));
}

#[test]
fn sys_trace_dispatches_requests() {
    let mut tm = booted();
    tm.add_syscall_count(SYSCALL_WRITE);
    tm.add_syscall_count(SYSCALL_WRITE);
    assert_eq!(sys_trace(&tm, 0, 0x42, 9), TraceAction::ReadByte(0x42));
    assert_eq!(sys_trace(&tm, 1, 0x42, 9), TraceAction::WriteWord(0x42, 9));
    assert_eq!(sys_trace(&tm, 2, SYSCALL_WRITE, 9), TraceAction::Done(2));
    assert_eq!(sys_trace(&tm, 2, SYSCALL_EXIT, 9), TraceAction::Done(0));
    assert_eq!(sys_trace(&tm, 7, 0x42, 9), TraceAction::Done(-1));
}

#[test]
fn syscall_counts_every_call() {
    let mut tm = booted();
    assert_eq!(
        syscall(&mut tm, SYSCALL_WRITE, [1, 0x1000, 5]),
        SyscallAction::Write { fd: 1, buf: 0x1000, len: 5 }
    );
    assert_eq!(
        syscall(&mut tm, SYSCALL_GET_TIME, [0x2000, 0, 0]),
        SyscallAction::GetTime { ts: 0x2000, tz: 0 }
    );
    assert_eq!(
        syscall(&mut tm, SYSCALL_TRACE, [2, SYSCALL_WRITE, 0]),
        SyscallAction::Trace(TraceAction::Done(1))
    );
    assert_eq!(
        syscall(&mut tm, SYSCALL_TRACE, [2, SYSCALL_TRACE, 0]),
        SyscallAction::Trace(TraceAction::Done(2))
    );
    assert_eq!(
        syscall(&mut tm, SYSCALL_TRACE, [1, 0x10, 3]),
        SyscallAction::Trace(TraceAction::WriteWord(0x10, 3))
    );
}

#[test]
fn syscall_reset_forgets_counts() {
    let mut tm = booted();
    syscall(&mut tm, SYSCALL_WRITE, [1, 0, 0]);
    assert_eq!(syscall(&mut tm, SYSCALL_RESET_COUNTS, [0, 0, 0]), SyscallAction::Return(0));
    assert_eq!(
        syscall(&mut tm, SYSCALL_TRACE, [2, SYSCALL_WRITE, 0]),
        SyscallAction::Trace(TraceAction::Done(0))
    );
    assert_eq!(
        syscall(&mut tm, SYSCALL_TRACE, [2, SYSCALL_RESET_COUNTS, 0]),
        SyscallAction::Trace(TraceAction::Done(0))
    );
}

#[test]
fn syscall_counts_are_per_task() {
    let mut tm = booted();
    let c = fork(&mut tm, 0, 0xa000, 0x81, 2);
    syscall(&mut tm, SYSCALL_WRITE, [1, 0, 0]);
    assert_eq!(syscall(&mut tm, SYSCALL_YIELD, [0, 0, 0]), SyscallAction::Yield { next: c });
    assert_eq!(
        syscall(&mut tm, SYSCALL_TRACE, [2, SYSCALL_WRITE, 0]),
        SyscallAction::Trace(TraceAction::Done(0))
    );
    assert_eq!(sys_trace(&tm, 2, SYSCALL_TRACE, 0), TraceAction::Done(1));
    assert_eq!(tm.tasks[0].syscall_times.get(&SYSCALL_YIELD), Some(&1));
}

#[test]
fn syscall_exit_keeps_low_bits_of_code_and_switches() {
    let mut tm = booted();
    let c = fork(&mut tm, 0, 0xa000, 0x81, 2);
    assert_eq!(syscall(&mut tm, SYSCALL_YIELD, [0, 0, 0]), SyscallAction::Yield { next: c });
    let code = 0x1_0000_0005usize;
    assert_eq!(
        syscall(&mut tm, SYSCALL_EXIT, [code, 0, 0]),
        SyscallAction::Exit { next_task: 0 }
    );
    assert_eq!(tm.tasks[c].status, TaskStatus::Exited);
    assert_eq!(tm.tasks[c].exit_code, 5);
    assert_eq!(tm.tasks[0].status, TaskStatus::Running);
    assert_eq!(tm.current, 0);
}

#[test]
fn brk_grow_then_shrink_restores_address_space() {
    let mut tm = booted();
    assert_eq!(mmap(&mut tm, 0x1000, 0x1000, 1), 0);
    let before = tm.tasks[0].memory_set.pages.clone();
    assert_eq!(change_program_brk(&mut tm, 0x2345), Some(USER_SP));
    assert_eq!(change_program_brk(&mut tm, -0x2345), Some(USER_SP + 0x2345));
    assert_eq!(tm.tasks[0].program_brk, USER_SP);
    assert_eq!(tm.tasks[0].memory_set.pages, before);
}
