use vstd::prelude::*;
use crate::setup::{le_byte, le_u64, lemma_le_bytes_round_trip};

verus! {

/// The registers a task keeps across a call, in the order they sit on its stack.
#[derive(Debug, Clone, Copy)]
pub struct TaskContext {
    pub r15: u64,
    pub r14: u64,
    pub r13: u64,
    pub r12: u64,
    pub rbx: u64,
    pub rbp: u64,
    /// Where the task goes on running.
    pub rip: u64,
}

/// Size of a task's stack in bytes.
pub const STACK_SIZE: usize = 16384;

/// Number of 64-bit words in a new task's first frame: the five words that `iretq` pops and
/// the fifteen registers that the timer interrupt handler pops.
pub const FRAME_WORDS: usize = 20;

/// Size of a new task's first frame in bytes.
pub const FRAME_SIZE: usize = 160;

/// A task: its number, its saved stack pointer, and the memory of its stack (kept so that it
/// is not freed).
pub struct Task {
    pub id: usize,
    pub stack_pointer: u64,
    pub _stack_mem: Vec<u8>,
}

/// The little-endian bytes of a sequence of words, first word first.
pub open spec fn words_bytes(ws: Seq<u64>) -> Seq<u8> {
    Seq::new(8 * ws.len(), |i: int| le_byte(ws[i / 8], i % 8))
}

/// A first frame, lowest address first: fifteen zero registers, then `rip`, `cs`, `rflags`,
/// `rsp` and `ss` as `iretq` takes them.
pub open spec fn frame_words(ss: u64, rsp: u64, rflags: u64, cs: u64, rip: u64) -> Seq<u64> {
    Seq::new(15, |i: int| 0u64) + seq![rip, cs, rflags, rsp, ss]
}

/// A stack whose top `FRAME_SIZE` bytes are replaced by a frame.
pub open spec fn stack_with_frame(stack: Seq<u8>, frame: Seq<u64>) -> Seq<u8> {
    stack.subrange(0, (STACK_SIZE - FRAME_SIZE) as int) + words_bytes(frame)
}

/// Writes the frame's words into the top of the stack.
fn write_frame(stack: &mut Vec<u8>, frame: &[u64; 20])
    requires
        old(stack)@.len() == STACK_SIZE,
    ensures
        final(stack)@ == stack_with_frame(old(stack)@, frame@),
{
    let base: usize = STACK_SIZE - FRAME_SIZE;
    let mut i: usize = 0;
    while i < FRAME_SIZE
        invariant
            i <= FRAME_SIZE,
            base == STACK_SIZE - FRAME_SIZE,
            stack@.len() == STACK_SIZE,
            frame@.len() == 20,
            forall|j: int| 0 <= j < base ==> stack@[j] == old(stack)@[j],
            forall|j: int|
                0 <= j < i ==> #[trigger] stack@[base + j] == le_byte(frame@[j / 8], j % 8),
        decreases FRAME_SIZE - i,
    {
        let w = frame[i / 8];
        let b = ((w >> (8 * (i % 8)) as u64) & 0xff) as u8;
        stack.set(base + i, b);
        i = i + 1;
    }
    assert(stack@ =~= stack_with_frame(old(stack)@, frame@)) by {
        assert forall|j: int| base <= j < STACK_SIZE implies stack@[j] == stack_with_frame(
            old(stack)@,
            frame@,
        )[j] by {
            assert(stack@[base + (j - base)] == le_byte(frame@[(j - base) / 8], (j - base) % 8));
        }
    }
}

impl Task {
    /// A kernel-mode task that starts at `entry_point`, given its stack memory and the address
    /// where that memory lies: the top of the stack holds a frame that returns to the entry
    /// point with interrupts on (flags 0x202), kernel code selector 0x08 and stack segment 0,
    /// and the stack pointer points at it.
    pub fn new(id: usize, entry_point: u64, stack: Vec<u8>, stack_start: u64) -> (t: Task)
        requires
            stack@.len() == STACK_SIZE,
            stack_start + STACK_SIZE <= u64::MAX,
        ensures
            t.id == id,
            t.stack_pointer == stack_start + STACK_SIZE - FRAME_SIZE,
            t._stack_mem@ == stack_with_frame(
                stack@,
                frame_words(0, (stack_start + STACK_SIZE) as u64, 0x202, 0x08, entry_point),
            ),
    {
        let rsp_top = stack_start + STACK_SIZE as u64;
        let frame: [u64; 20] = [
            0,
            0,
            0,
            0,
            0,
            0,
            0,
            0,
            0,
            0,
            0,
            0,
            0,
            0,
            0,
            entry_point,
            0x08,
            0x202,
            rsp_top,
            0,
        ];
        assert(frame@ =~= frame_words(0, rsp_top, 0x202, 0x08, entry_point));
        let mut stack = stack;
        write_frame(&mut stack, &frame);
        Task { id, stack_pointer: rsp_top - FRAME_SIZE as u64, _stack_mem: stack }
    }

    /// A user-mode task (ring 3): as [`Task::new`], but the frame carries the user code and
    /// data selectors with privilege level 3 and flags 0x3202 (interrupts on, I/O privilege
    /// level 3).
    pub fn new_user(
        id: usize,
        entry_point: u64,
        stack: Vec<u8>,
        stack_start: u64,
        user_code_selector: u16,
        user_data_selector: u16,
    ) -> (t: Task)
        requires
            stack@.len() == STACK_SIZE,
            stack_start + STACK_SIZE <= u64::MAX,
        ensures
            t.id == id,
            t.stack_pointer == stack_start + STACK_SIZE - FRAME_SIZE,
            t._stack_mem@ == stack_with_frame(
                stack@,
                frame_words(
                    (user_data_selector as u64) | 3,
                    (stack_start + STACK_SIZE) as u64,
                    0x3202,
                    (user_code_selector as u64) | 3,
                    entry_point,
                ),
            ),
    {
        let rsp_top = stack_start + STACK_SIZE as u64;
        let ss = (user_data_selector as u64) | 3;
        let cs = (user_code_selector as u64) | 3;
        let frame: [u64; 20] = [
            0,
            0,
            0,
            0,
            0,
            0,
            0,
            0,
            0,
            0,
            0,
            0,
            0,
            0,
            0,
            entry_point,
            cs,
            0x3202,
            rsp_top,
            ss,
        ];
        assert(frame@ =~= frame_words(ss, rsp_top, 0x3202, cs, entry_point));
        let mut stack = stack;
        write_frame(&mut stack, &frame);
        Task { id, stack_pointer: rsp_top - FRAME_SIZE as u64, _stack_mem: stack }
    }
}

/// Round-robin scheduling of two tasks: 0 for the kernel, 1 for the shell.
pub struct Scheduler {
    pub tasks: [Option<Task>; 2],
    pub current_task: usize,
}

/// The abstract value of a task: its number, saved stack pointer and stack contents.
pub struct TaskView {
    pub id: usize,
    pub stack_pointer: u64,
    pub stack: Seq<u8>,
}

/// The abstract value of a scheduler.
pub struct SchedulerView {
    pub tasks: Seq<Option<TaskView>>,
    pub current_task: usize,
}

impl View for Task {
    type V = TaskView;

    open spec fn view(&self) -> TaskView {
        TaskView { id: self.id, stack_pointer: self.stack_pointer, stack: self._stack_mem@ }
    }
}

/// The abstract value of a task slot.
pub open spec fn slot_view(t: Option<Task>) -> Option<TaskView> {
    match t {
        Some(t) => Some(t@),
        None => None,
    }
}

impl View for Scheduler {
    type V = SchedulerView;

    open spec fn view(&self) -> SchedulerView {
        SchedulerView {
            tasks: seq![slot_view(self.tasks[0]), slot_view(self.tasks[1])],
            current_task: self.current_task,
        }
    }
}

/// One timer tick: while a task slot is empty nothing changes and the current stack pointer
/// is kept; otherwise the current task's stack pointer is saved, the other task becomes
/// current, and its saved stack pointer is the one to switch to.
pub open spec fn pick_spec(s: SchedulerView, rsp: u64) -> (SchedulerView, u64) {
    if s.tasks[0] is None || s.tasks[1] is None {
        (s, rsp)
    } else {
        let old_task = s.current_task as int;
        let next = ((s.current_task + 1) % 2) as usize;
        let saved = TaskView { stack_pointer: rsp, ..s.tasks[old_task]->0 };
        (
            SchedulerView { tasks: s.tasks.update(old_task, Some(saved)), current_task: next },
            s.tasks[next as int]->0.stack_pointer,
        )
    }
}

impl Scheduler {
    /// A scheduler with no tasks, running task 0.
    pub fn new() -> (s: Scheduler)
        ensures
            s.tasks[0] is None,
            s.tasks[1] is None,
            s.current_task == 0,
    {
        Scheduler { tasks: [None, None], current_task: 0 }
    }

    /// Saves the interrupted task's stack pointer and returns the stack pointer of the task to
    /// run next.
    pub fn pick_next_task(&mut self, current_rsp: u64) -> (r: u64)
        requires
            old(self).tasks[0] is Some && old(self).tasks[1] is Some ==> old(self).current_task < 2,
        ensures
            (final(self)@, r) == pick_spec(old(self)@, current_rsp),
    {
        if self.tasks[0].is_none() || self.tasks[1].is_none() {
            return current_rsp;
        }
        let old_task = self.current_task;
        let next_task = (old_task + 1) % 2;
        match &mut self.tasks[old_task] {
            Some(task) => {
                task.stack_pointer = current_rsp;
            },
            None => {},
        }
        self.current_task = next_task;
        let r = match &self.tasks[next_task] {
            Some(task) => task.stack_pointer,
            None => current_rsp,
        };
        proof {
            let (v, rr) = pick_spec(old(self)@, current_rsp);
            assert(self@.tasks =~= v.tasks);
        }
        r
    }
}

/// Two ticks in a row give the first task its stack pointer back: after a switch away from a
/// task at `rsp`, the next switch (whatever the other task's stack pointer) returns `rsp` and
/// makes that task current again.
pub proof fn lemma_switch_back(s: SchedulerView, rsp: u64, other_rsp: u64)
    requires
        s.tasks.len() == 2,
        s.current_task < 2,
        s.tasks[0] is Some,
        s.tasks[1] is Some,
    ensures
        ({
            let (s1, r1) = pick_spec(s, rsp);
            let (s2, r2) = pick_spec(s1, other_rsp);
            r2 == rsp && s2.current_task == s.current_task && r1 == s.tasks[(s.current_task + 1)
                % 2]->0.stack_pointer
        }),
{
}

/// The word stored little-endian at `off` in a frame-topped stack is the frame's word there.
proof fn lemma_frame_word(stack: Seq<u8>, frame: Seq<u64>, k: int)
    requires
        stack.len() == STACK_SIZE,
        frame.len() == 20,
        0 <= k < 20,
    ensures
        le_u64(stack_with_frame(stack, frame), (STACK_SIZE - FRAME_SIZE) + 8 * k) == frame[k],
{
    let s = stack_with_frame(stack, frame);
    let off = (STACK_SIZE - FRAME_SIZE) + 8 * k;
    lemma_le_bytes_round_trip(frame[k]);
    assert forall|b: int| 0 <= b < 8 implies s[off + b] == le_byte(frame[k], b) by {
        assert((8 * k + b) / 8 == k);
        assert((8 * k + b) % 8 == b);
    }
}

/// A new task's stack reads back as the frame that resumes it: reading 64-bit little-endian
/// words upward from its stack pointer gives fifteen zero registers, then the entry point, the
/// code selector, the flags, the stack top and the stack selector; everything below the frame
/// is the stack as it was given.
pub proof fn lemma_new_task_frame(
    stack: Seq<u8>,
    ss: u64,
    rsp: u64,
    rflags: u64,
    cs: u64,
    rip: u64,
)
    requires
        stack.len() == STACK_SIZE,
    ensures
        ({
            let s = stack_with_frame(stack, frame_words(ss, rsp, rflags, cs, rip));
            &&& s.len() == STACK_SIZE
            &&& forall|i: int| 0 <= i < STACK_SIZE - FRAME_SIZE ==> #[trigger] s[i] == stack[i]
            &&& forall|k: int|
                0 <= k < 15 ==> #[trigger] le_u64(s, (STACK_SIZE - FRAME_SIZE) + 8 * k) == 0
            &&& le_u64(s, STACK_SIZE - 40) == rip
            &&& le_u64(s, STACK_SIZE - 32) == cs
            &&& le_u64(s, STACK_SIZE - 24) == rflags
            &&& le_u64(s, STACK_SIZE - 16) == rsp
            &&& le_u64(s, STACK_SIZE - 8) == ss
        }),
{
    let f = frame_words(ss, rsp, rflags, cs, rip);
    assert forall|k: int| 0 <= k < 15 implies #[trigger] le_u64(
        stack_with_frame(stack, f),
        (STACK_SIZE - FRAME_SIZE) + 8 * k,
    ) == 0 by {
        lemma_frame_word(stack, f, k);
    }
    lemma_frame_word(stack, f, 15);
    lemma_frame_word(stack, f, 16);
    lemma_frame_word(stack, f, 17);
    lemma_frame_word(stack, f, 18);
    lemma_frame_word(stack, f, 19);
}

/// A tick with both tasks present saves the interrupted stack pointer in the task that was
/// running, switches to the other task and returns that task's saved stack pointer; the tasks'
/// numbers and stack memory never change.
pub proof fn lemma_tick_switches(s: SchedulerView, rsp: u64)
    requires
        s.tasks.len() == 2,
        s.current_task < 2,
        s.tasks[0] is Some,
        s.tasks[1] is Some,
    ensures
        ({
            let (s2, r) = pick_spec(s, rsp);
            let old_t = s.current_task as int;
            let new_t = 1 - old_t;
            &&& s2.current_task == new_t
            &&& r == s.tasks[new_t]->0.stack_pointer
            &&& s2.tasks[old_t]->0.stack_pointer == rsp
            &&& s2.tasks[new_t] == s.tasks[new_t]
            &&& forall|i: int|
                0 <= i < 2 ==> (s2.tasks[i] is Some) && #[trigger] s2.tasks[i]->0.id
                    == s.tasks[i]->0.id && s2.tasks[i]->0.stack == s.tasks[i]->0.stack
        }),
{
}

} // verus!
