//! Round-robin cooperative scheduler: the task table, the choice of the next
//! task, and the initial stacks that let a new task start on its first
//! switch-in.
use vstd::prelude::*;
use crate::gdt::{USER_CODE_SEL, USER_DATA_SEL};

verus! {

/// `RFLAGS` a user task starts with: interrupts enabled, reserved bit 1.
pub const USER_RFLAGS: u64 = 0x202;

/// Words that `context_switch` pops before its `ret`: `rbp`, `rbx`,
/// `r12`..`r15`.
pub const SAVED_REGISTERS: usize = 6;

#[derive(Clone, Copy, Debug, PartialEq, Eq, Structural)]
pub enum TaskStatus {
    Ready,
    Running,
    Terminated,
}

#[derive(Clone, Copy, Debug, PartialEq, Eq, Structural)]
pub struct Task {
    pub id: usize,
    /// Saved stack pointer while switched out.
    pub stack_top: u64,
    pub stack_bottom: u64,
    pub status: TaskStatus,
    pub kernel_stack_bottom: u64,
    /// Address of the task's `KernelGsBase` record, or 0.
    pub gs_base: u64,
}

/// The words to write below a new task's stack top: `words[0]` goes at
/// `rsp`, the next at `rsp + 8`, and so on upwards.
pub struct StackImage {
    pub rsp: u64,
    pub words: Vec<u64>,
}

/// What the caller must do after a scheduling decision.
#[derive(Clone, Copy, Debug, PartialEq, Eq, Structural)]
pub enum SwitchAction {
    /// Keep running the current task.
    Continue,
    /// No task can run: halt the CPU for good.
    Halt,
    /// Load `gs_base` into `GS_BASE` when non-zero, save the stack pointer
    /// into task `old_index`, and resume on `new_stack`.
    Switch { old_index: usize, new_index: usize, new_stack: u64, gs_base: u64 },
}

/// Offset `k` (1..=n) of the first Ready task after `cur`, looking at
/// `cur + k, cur + k + 1, ..., cur + n` (mod n); `n + 1` when none is.
pub open spec fn ready_offset(s: Seq<Task>, cur: int, k: int) -> int
    decreases s.len() + 1 - k,
{
    if k < 1 || k > s.len() {
        s.len() + 1int
    } else if s[(cur + k) % (s.len() as int)].status == TaskStatus::Ready {
        k
    } else {
        ready_offset(s, cur, k + 1)
    }
}

/// The decision the scheduler takes for table `s` with task `cur` running,
/// and the table afterwards.
pub open spec fn switch_result(s: Seq<Task>, cur: int) -> (SwitchAction, Seq<Task>, int) {
    let n = s.len() as int;
    let k = ready_offset(s, cur, 1);
    if k > n {
        (
            if s[cur].status == TaskStatus::Terminated {
                SwitchAction::Halt
            } else {
                SwitchAction::Continue
            },
            s,
            cur,
        )
    } else {
        let next = (cur + k) % n;
        if next == cur {
            (SwitchAction::Continue, s, cur)
        } else {
            let s1 = if s[cur].status == TaskStatus::Running {
                s.update(cur, Task { status: TaskStatus::Ready, ..s[cur] })
            } else {
                s
            };
            let s2 = s1.update(next, Task { status: TaskStatus::Running, ..s1[next] });
            (
                SwitchAction::Switch {
                    old_index: cur as usize,
                    new_index: next as usize,
                    new_stack: s[next].stack_top,
                    gs_base: s[next].gs_base,
                },
                s2,
                next,
            )
        }
    }
}

pub struct SchedulerView {
    pub tasks: Seq<Task>,
    pub current: int,
    pub next_id: int,
}

pub struct Scheduler {
    tasks: Vec<Task>,
    current_task_index: usize,
    next_task_id: usize,
}

impl View for Scheduler {
    type V = SchedulerView;

    closed spec fn view(&self) -> SchedulerView {
        SchedulerView {
            tasks: self.tasks@,
            current: self.current_task_index as int,
            next_id: self.next_task_id as int,
        }
    }
}

proof fn lemma_ready_offset(s: Seq<Task>, cur: int, k: int)
    requires
        s.len() > 0,
        1 <= k <= s.len() + 1,
    ensures
        k <= ready_offset(s, cur, k) <= s.len() + 1,
        ready_offset(s, cur, k) <= s.len() ==> s[(cur + ready_offset(s, cur, k)) % (s.len() as int)].status
            == TaskStatus::Ready,
    decreases s.len() + 1 - k,
{
    if k <= s.len() && s[(cur + k) % (s.len() as int)].status != TaskStatus::Ready {
        lemma_ready_offset(s, cur, k + 1);
    }
}

impl Scheduler {
    pub open spec fn wf(&self) -> bool {
        &&& self@.tasks.len() > 0
        &&& 0 <= self@.current < self@.tasks.len()
        &&& self@.next_id == self@.tasks.len()
        &&& self@.next_id < usize::MAX
    }

    /// A table holding task 0, the running bootstrap thread, whose
    /// `KernelGsBase` record is at `gs_base`.
    pub fn new(gs_base: u64) -> (r: Self)
        ensures
            r.wf(),
            r@.tasks == seq![
                Task {
                    id: 0,
                    stack_top: 0,
                    stack_bottom: 0,
                    status: TaskStatus::Running,
                    kernel_stack_bottom: 0,
                    gs_base,
                },
            ],
            r@.current == 0,
            r@.next_id == 1,
    {
        let mut tasks: Vec<Task> = Vec::new();
        tasks.push(
            Task {
                id: 0,
                stack_top: 0,
                stack_bottom: 0,
                status: TaskStatus::Running,
                kernel_stack_bottom: 0,
                gs_base,
            },
        );
        Scheduler { tasks, current_task_index: 0, next_task_id: 1 }
    }

    pub fn task_count(&self) -> (r: usize)
        ensures
            r == self@.tasks.len(),
    {
        self.tasks.len()
    }

    pub fn task(&self, i: usize) -> (r: Task)
        requires
            i < self@.tasks.len(),
        ensures
            r == self@.tasks[i as int],
    {
        self.tasks[i]
    }

    /// Id of the running task.
    pub fn current_task_id(&self) -> (r: usize)
        requires
            self.wf(),
        ensures
            r == self@.tasks[self@.current].id,
    {
        self.tasks[self.current_task_index].id
    }

    /// Where task `i` keeps its saved stack pointer, for the context switch
    /// to store into.
    pub fn stack_top_mut(&mut self, i: usize) -> (r: &mut u64)
        requires
            i < old(self)@.tasks.len(),
        ensures
            *r == old(self)@.tasks[i as int].stack_top,
            final(self)@.tasks == old(self)@.tasks.update(
                i as int,
                Task { stack_top: *final(r), ..old(self)@.tasks[i as int] },
            ),
            final(self)@.current == old(self)@.current,
            final(self)@.next_id == old(self)@.next_id,
    {
        &mut self.tasks[i].stack_top
    }

    /// Adds a kernel thread that starts at `entry` on the stack
    /// `[stack_bottom, stack_bottom + stack_size)`. Its stack holds, from the
    /// top down, one unused word (so that `rsp + 8` is 16-byte aligned on
    /// entry when the top is), `entry`, and six zeroed saved registers.
    pub fn add_new_task(&mut self, entry: u64, stack_bottom: u64, stack_size: usize) -> (r:
        StackImage)
        requires
            old(self).wf(),
            old(self)@.next_id + 1 < usize::MAX,
            stack_bottom + stack_size <= u64::MAX,
            stack_size >= 64,
        ensures
            final(self).wf(),
            final(self)@.current == old(self)@.current,
            final(self)@.next_id == old(self)@.next_id + 1,
            r.rsp == stack_bottom + stack_size - 64,
            r.words@ == seq![0u64, 0, 0, 0, 0, 0, entry],
            final(self)@.tasks == old(self)@.tasks.push(
                Task {
                    id: old(self)@.next_id as usize,
                    stack_top: r.rsp,
                    stack_bottom,
                    status: TaskStatus::Ready,
                    kernel_stack_bottom: 0,
                    gs_base: 0,
                },
            ),
    {
        let id = self.next_task_id;
        self.next_task_id = id + 1;
        let stack_top = stack_bottom + stack_size as u64;
        let rsp = stack_top - 8 - 7 * 8;
        let mut words: Vec<u64> = Vec::new();
        let mut i: usize = 0;
        while i < SAVED_REGISTERS
            invariant
                i <= SAVED_REGISTERS,
                words@ == Seq::new(i as nat, |j: int| 0u64),
            decreases SAVED_REGISTERS - i,
        {
            words.push(0);
            i = i + 1;
        }
        words.push(entry);
        assert(words@ =~= seq![0u64, 0, 0, 0, 0, 0, entry]);
        self.tasks.push(
            Task {
                id,
                stack_top: rsp,
                stack_bottom,
                status: TaskStatus::Ready,
                kernel_stack_bottom: 0,
                gs_base: 0,
            },
        );
        StackImage { rsp, words }
    }

    /// Adds a user task entering Ring 3 at `entry` with its user stack
    /// `[user_stack_bottom, user_stack_bottom + stack_size)`. The kernel
    /// stack (same size, at `kernel_stack_bottom`) holds, from the top down,
    /// the `IRETQ` frame (`SS`, `RSP`, `RFLAGS`, `CS`, `RIP`), the address of
    /// the `swapgs; iretq` trampoline, and six zeroed saved registers.
    /// `gs_base` is the task's own `KernelGsBase` record.
    pub fn add_new_user_task(
        &mut self,
        entry: u64,
        user_stack_bottom: u64,
        stack_size: usize,
        kernel_stack_bottom: u64,
        gs_base: u64,
        trampoline: u64,
    ) -> (r: StackImage)
        requires
            old(self).wf(),
            old(self)@.next_id + 1 < usize::MAX,
            user_stack_bottom + stack_size <= u64::MAX,
            kernel_stack_bottom + stack_size <= u64::MAX,
            stack_size >= 96,
        ensures
            final(self).wf(),
            final(self)@.current == old(self)@.current,
            final(self)@.next_id == old(self)@.next_id + 1,
            r.rsp == kernel_stack_bottom + stack_size - 96,
            r.words@ == seq![
                0u64,
                0,
                0,
                0,
                0,
                0,
                trampoline,
                entry,
                USER_CODE_SEL as u64,
                USER_RFLAGS,
                (user_stack_bottom + stack_size) as u64,
                USER_DATA_SEL as u64,
            ],
            final(self)@.tasks == old(self)@.tasks.push(
                Task {
                    id: old(self)@.next_id as usize,
                    stack_top: r.rsp,
                    stack_bottom: user_stack_bottom,
                    status: TaskStatus::Ready,
                    kernel_stack_bottom,
                    gs_base,
                },
            ),
    {
        let id = self.next_task_id;
        self.next_task_id = id + 1;
        let kernel_stack_top = kernel_stack_bottom + stack_size as u64;
        let user_rsp = user_stack_bottom + stack_size as u64;
        let rsp = kernel_stack_top - 12 * 8;
        let mut words: Vec<u64> = Vec::new();
        let mut i: usize = 0;
        while i < SAVED_REGISTERS
            invariant
                i <= SAVED_REGISTERS,
                words@ == Seq::new(i as nat, |j: int| 0u64),
            decreases SAVED_REGISTERS - i,
        {
            words.push(0);
            i = i + 1;
        }
        words.push(trampoline);
        words.push(entry);
        words.push(USER_CODE_SEL as u64);
        words.push(USER_RFLAGS);
        words.push(user_rsp);
        words.push(USER_DATA_SEL as u64);
        assert(words@ =~= seq![
            0u64,
            0,
            0,
            0,
            0,
            0,
            trampoline,
            entry,
            USER_CODE_SEL as u64,
            USER_RFLAGS,
            user_rsp,
            USER_DATA_SEL as u64,
        ]);
        self.tasks.push(
            Task {
                id,
                stack_top: rsp,
                stack_bottom: user_stack_bottom,
                status: TaskStatus::Ready,
                kernel_stack_bottom,
                gs_base,
            },
        );
        StackImage { rsp, words }
    }

    /// Index `(current + k) mod n`, for `1 <= k <= n`.
    fn slot_after(&self, k: usize) -> (r: usize)
        requires
            self.wf(),
            1 <= k <= self@.tasks.len(),
        ensures
            r == (self@.current + k) % (self@.tasks.len() as int),
    {
        let n = self.tasks.len();
        let cur = self.current_task_index;
        if k >= n - cur {
            proof {
                vstd::arithmetic::div_mod::lemma_fundamental_div_mod_converse(cur + k, n as int, 1, cur + k - n);
            }
            k - (n - cur)
        } else {
            proof {
                vstd::arithmetic::div_mod::lemma_fundamental_div_mod_converse(cur + k, n as int, 0, cur + k);
            }
            cur + k
        }
    }

    /// Offset of the first Ready task after the current one.
    fn find_ready(&self) -> (k: usize)
        requires
            self.wf(),
        ensures
            k == ready_offset(self@.tasks, self@.current, 1),
            1 <= k <= self@.tasks.len() + 1,
    {
        let n = self.tasks.len();
        let mut k: usize = 1;
        proof {
            lemma_ready_offset(self@.tasks, self@.current, 1);
        }
        while k <= n
            invariant
                self.wf(),
                n == self@.tasks.len(),
                1 <= k <= n + 1,
                ready_offset(self@.tasks, self@.current, k as int) == ready_offset(
                    self@.tasks,
                    self@.current,
                    1,
                ),
            decreases n + 1 - k,
        {
            let i = self.slot_after(k);
            if self.tasks[i].status == TaskStatus::Ready {
                return k;
            }
            k = k + 1;
        }
        k
    }

    /// Round-robin choice of the next task: the first Ready task after the
    /// current one, wrapping around. A running current task becomes Ready
    /// when another is chosen; the chosen one becomes Running and current.
    /// With nothing Ready the current task continues, or the CPU halts if it
    /// has terminated.
    pub fn switch_task(&mut self) -> (r: SwitchAction)
        requires
            old(self).wf(),
        ensures
            final(self).wf(),
            final(self)@.next_id == old(self)@.next_id,
            (r, final(self)@.tasks, final(self)@.current) == switch_result(
                old(self)@.tasks,
                old(self)@.current,
            ),
    {
        let n = self.tasks.len();
        let current_index = self.current_task_index;
        let k = self.find_ready();
        let found = k <= n;
        let next_index = if found {
            self.slot_after(k)
        } else {
            current_index
        };
        if !found {
            if self.tasks[current_index].status == TaskStatus::Terminated {
                return SwitchAction::Halt;
            }
            return SwitchAction::Continue;
        }
        if next_index == current_index {
            return SwitchAction::Continue;
        }
        let old_index = current_index;
        if self.tasks[old_index].status == TaskStatus::Running {
            let t = self.tasks[old_index];
            self.tasks.set(old_index, Task { status: TaskStatus::Ready, ..t });
        }
        let t = self.tasks[next_index];
        self.tasks.set(next_index, Task { status: TaskStatus::Running, ..t });
        self.current_task_index = next_index;
        SwitchAction::Switch {
            old_index,
            new_index: next_index,
            new_stack: t.stack_top,
            gs_base: t.gs_base,
        }
    }

    /// Marks the current task Terminated and picks the next one as
    /// `switch_task` does. Its stacks are not reclaimed.
    pub fn terminate_task(&mut self) -> (r: SwitchAction)
        requires
            old(self).wf(),
        ensures
            final(self).wf(),
            (r, final(self)@.tasks, final(self)@.current) == switch_result(
                old(self)@.tasks.update(
                    old(self)@.current,
                    Task { status: TaskStatus::Terminated, ..old(self)@.tasks[old(self)@.current] },
                ),
                old(self)@.current,
            ),
    {
        let i = self.current_task_index;
        let t = self.tasks[i];
        self.tasks.set(i, Task { status: TaskStatus::Terminated, ..t });
        self.switch_task()
    }
}

} // verus!
