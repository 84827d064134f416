use hay_os::task::{Scheduler, Task, TaskContext, FRAME_SIZE, STACK_SIZE};

fn word_at(stack: &[u8], off: usize) -> u64 {
    let mut b = [0u8; 8];
    b.copy_from_slice(&stack[off..off + 8]);
    u64::from_le_bytes(b)
}

#[test]
fn kernel_task_frame() {
    let stack = vec![0xAAu8; STACK_SIZE];
    let start: u64 = 0x10_0000;
    let t = Task::new(3, 0xDEAD_BEEF, stack, start);
    let top = start + STACK_SIZE as u64;
    assert_eq!(t.id, 3);
    assert_eq!(t.stack_pointer, top - 160);
    let s = &t._stack_mem;
    let base = STACK_SIZE - FRAME_SIZE;
    for i in 0..15 {
        assert_eq!(word_at(s, base + 8 * i), 0);
    }
    assert_eq!(word_at(s, STACK_SIZE - 40), 0xDEAD_BEEF);
    assert_eq!(word_at(s, STACK_SIZE - 32), 0x08);
    assert_eq!(word_at(s, STACK_SIZE - 24), 0x202);
    assert_eq!(word_at(s, STACK_SIZE - 16), top);
    assert_eq!(word_at(s, STACK_SIZE - 8), 0);
    assert!(s[..base].iter().all(|b| *b == 0xAA));
}

#[test]
fn user_task_frame() {
    let stack = vec![0u8; STACK_SIZE];
    let start: u64 = 0x20_0000;
    let t = Task::new_user(1, 0x4000, stack, start, 0x20, 0x18);
    let s = &t._stack_mem;
    assert_eq!(word_at(s, STACK_SIZE - 40), 0x4000);
    assert_eq!(word_at(s, STACK_SIZE - 32), 0x23);
    assert_eq!(word_at(s, STACK_SIZE - 24), 0x3202);
    assert_eq!(word_at(s, STACK_SIZE - 16), start + STACK_SIZE as u64);
    assert_eq!(word_at(s, STACK_SIZE - 8), 0x1B);
    assert_eq!(t.stack_pointer, start + STACK_SIZE as u64 - 160);
}

#[test]
fn scheduler_waits_for_both_tasks() {
    let mut s = Scheduler::new();
    assert_eq!(s.pick_next_task(77), 77);
    s.tasks[0] = Some(Task { id: 0, stack_pointer: 0, _stack_mem: vec![] });
    assert_eq!(s.pick_next_task(78), 78);
    assert_eq!(s.current_task, 0);
}

#[test]
fn scheduler_alternates_and_saves_stack_pointers() {
    let mut s = Scheduler::new();
    s.tasks[0] = Some(Task { id: 0, stack_pointer: 0, _stack_mem: vec![] });
    s.tasks[1] = Some(Task { id: 1, stack_pointer: 500, _stack_mem: vec![] });
    assert_eq!(s.pick_next_task(100), 500);
    assert_eq!(s.current_task, 1);
    assert_eq!(s.tasks[0].as_ref().unwrap().stack_pointer, 100);
    assert_eq!(s.pick_next_task(600), 100);
    assert_eq!(s.current_task, 0);
    assert_eq!(s.tasks[1].as_ref().unwrap().stack_pointer, 600);
    assert_eq!(s.pick_next_task(101), 600);
}

#[test]
fn task_context_is_plain_data() {
    let c = TaskContext { r15: 1, r14: 2, r13: 3, r12: 4, rbx: 5, rbp: 6, rip: 7 };
    let d = c;
    assert_eq!(d.rip, 7);
    assert_eq!(c.r15, 1);
}

#[test]
fn scheduler_with_empty_slot_ignores_current_index() {
    let mut s = Scheduler::new();
    s.current_task = 5;
    s.tasks[1] = Some(Task { id: 1, stack_pointer: 9, _stack_mem: vec![] });
    assert_eq!(s.pick_next_task(42), 42);
    assert_eq!(s.current_task, 5);
    assert_eq!(s.tasks[1].as_ref().unwrap().stack_pointer, 9);
}
