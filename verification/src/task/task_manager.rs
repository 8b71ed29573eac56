//! The round-robin scheduler: which task runs next when the current one is switched out.
use vstd::prelude::*;
use vstd::multiset::Multiset;
use std::collections::VecDeque;
use crate::task::task::{State, Task};

verus! {

pub const MAX_THREAD: usize = 20;

pub struct TaskManager {
    pub task_list: VecDeque<Box<Task>>,
    pub current_task: Option<Box<Task>>,
}

/// A waiting task whose wake-up tick has come becomes ready.
pub open spec fn woken(t: Task, now: u64) -> Task {
    if t.state == State::Waiting && t.wake_on_tick > 0 && t.wake_on_tick <= now {
        Task { wake_on_tick: 0, state: State::Ready, ..t }
    } else {
        t
    }
}

/// A task that may be switched to: ready and not the idle task (id 0).
pub open spec fn runnable(t: Task) -> bool {
    t.state == State::Ready && t.id != 0
}

/// The running task, switched out, becomes ready; others keep their state.
pub open spec fn yielded(t: Task) -> Task {
    if t.state == State::Running { Task { state: State::Ready, ..t } } else { t }
}

/// The task, switched to.
pub open spec fn running(t: Task) -> Task {
    Task { state: State::Running, ..t }
}

/// Every task of the list after the wake-up check.
pub open spec fn wake_all(l: Seq<Box<Task>>, now: u64) -> Seq<Box<Task>> {
    l.map_values(|b: Box<Task>| Box::new(woken(*b, now)))
}

/// The first task of the list that is runnable after its wake-up check.
pub open spec fn first_runnable(l: Seq<Box<Task>>, now: u64) -> Option<int> {
    if exists|j: int| 0 <= j < l.len() && runnable(woken(*#[trigger] l[j], now)) {
        Some(choose|j: int| 0 <= j < l.len() && runnable(woken(*#[trigger] l[j], now))
            && forall|k: int| 0 <= k < j ==> !runnable(woken(*#[trigger] l[k], now)))
    } else {
        None
    }
}

/// The first idle task (id 0) of the list.
pub open spec fn first_idle(l: Seq<Box<Task>>) -> Option<int> {
    if exists|j: int| 0 <= j < l.len() && #[trigger] l[j].id == 0 {
        Some(choose|j: int| 0 <= j < l.len() && #[trigger] l[j].id == 0 && forall|k: int| 0 <= k < j ==> #[trigger] l[k].id != 0)
    } else {
        None
    }
}

/// When no task is runnable: the idle task takes over from `c` unless `c` is the idle task
/// itself or there is none.
pub open spec fn idle_switch(w: Seq<Box<Task>>, c: Task) -> (usize, Seq<Box<Task>>, Option<Box<Task>>) {
    match first_idle(w) {
        None => (c.saved_stack_pointer, w, Some(Box::new(c))),
        Some(i) => if c.id == 0 {
            (c.saved_stack_pointer, w, Some(Box::new(c)))
        } else {
            (w[i].saved_stack_pointer, w.remove(i) + seq![Box::new(yielded(c))], Some(Box::new(running(*w[i]))))
        },
    }
}

/// The stack pointer `rotate` returns, the task list and the current task afterwards.
pub open spec fn rotate_spec(l: Seq<Box<Task>>, cur: Option<Box<Task>>, old_rsp: usize, now: u64)
    -> (usize, Seq<Box<Task>>, Option<Box<Task>>)
{
    match cur {
        None => (0, l, cur),
        Some(c) => {
            let c1 = Task { saved_stack_pointer: old_rsp, ..*c };
            if l.len() == 0 {
                (old_rsp, l, Some(Box::new(c1)))
            } else {
                match first_runnable(l, now) {
                    Some(j) => {
                        let next = woken(*l[j], now);
                        (
                            next.saved_stack_pointer,
                            l.skip(j + 1) + wake_all(l.take(j), now) + seq![Box::new(yielded(c1))],
                            Some(Box::new(running(next))),
                        )
                    },
                    None => idle_switch(wake_all(l, now), c1),
                }
            }
        },
    }
}

proof fn lemma_first_runnable_at(l: Seq<Box<Task>>, now: u64, k: int)
    requires
        0 <= k < l.len(),
        runnable(woken(*l[k], now)),
        forall|m: int| 0 <= m < k ==> !runnable(woken(*#[trigger] l[m], now)),
    ensures
        first_runnable(l, now) == Some(k),
{
    let j = first_runnable(l, now).unwrap();
    if j < k {
        assert(!runnable(woken(*l[j], now)));
    } else if j > k {
        assert(!runnable(woken(*l[k], now)));
    }
}

proof fn lemma_first_idle_at(l: Seq<Box<Task>>, k: int)
    requires
        0 <= k < l.len(),
        l[k].id == 0,
        forall|m: int| 0 <= m < k ==> #[trigger] l[m].id != 0,
    ensures
        first_idle(l) == Some(k),
{
    let j = first_idle(l).unwrap();
    if j < k {
        assert(l[j].id != 0);
    } else if j > k {
        assert(l[k].id != 0);
    }
}

/// Applies the wake-up check to a task.
fn wake(t: &mut Box<Task>, now: u64)
    ensures
        **final(t) == woken(**old(t), now),
{
    if t.state == State::Waiting && t.wake_on_tick > 0 && t.wake_on_tick <= now {
        t.wake_on_tick = 0;
        t.state = State::Ready;
    }
}

/// Walks the list once in round-robin order, waking each task whose tick has come, and takes
/// out the first that is runnable; the tasks passed over go to the back.
fn take_runnable(list: &mut VecDeque<Box<Task>>, now: u64) -> (r: Option<Box<Task>>)
    ensures
        match first_runnable(old(list)@, now) {
            Some(j) => 0 <= j < old(list)@.len() && r == Some(Box::new(woken(*old(list)@[j], now)))
                && final(list)@ == old(list)@.skip(j + 1) + wake_all(old(list)@.take(j), now),
            None => r is None && final(list)@ == wake_all(old(list)@, now),
        },
{
    let ghost l = list@;
    let n = list.len();
    let mut k: usize = 0;
    assert(l.skip(0) + wake_all(l.take(0), now) =~= l);
    while k < n
        invariant
            k <= n,
            n == l.len(),
            l == old(list)@,
            list@ == l.skip(k as int) + wake_all(l.take(k as int), now),
            forall|m: int| 0 <= m < k ==> !runnable(woken(*#[trigger] l[m], now)),
        decreases n - k,
    {
        let mut next_task = match list.pop_front() {
            Some(t) => t,
            None => {
                assert(false);
                return None;
            },
        };
        assert(*next_task == *l[k as int]);
        wake(&mut next_task, now);
        if next_task.state == State::Ready && next_task.id != 0 {
            proof {
                lemma_first_runnable_at(l, now, k as int);
                assert(list@ =~= l.skip(k + 1) + wake_all(l.take(k as int), now));
            }
            return Some(next_task);
        }
        list.push_back(next_task);
        proof {
            assert(wake_all(l.take(k + 1), now) =~= wake_all(l.take(k as int), now).push(Box::new(woken(*l[k as int], now))));
            assert(list@ =~= l.skip(k + 1) + wake_all(l.take(k + 1), now));
        }
        k = k + 1;
    }
    proof {
        assert(l.skip(n as int) + wake_all(l.take(n as int), now) =~= wake_all(l, now));
    }
    None
}

/// The position of the first idle task of the list.
fn position_of_idle(list: &VecDeque<Box<Task>>) -> (r: Option<usize>)
    ensures
        match r {
            Some(i) => i < list@.len() && first_idle(list@) == Some(i as int),
            None => first_idle(list@) is None,
        },
{
    let n = list.len();
    let mut i: usize = 0;
    while i < n
        invariant
            i <= n,
            n == list@.len(),
            forall|m: int| 0 <= m < i ==> #[trigger] list@[m].id != 0,
        decreases n - i,
    {
        if list[i].id == 0 {
            proof {
                lemma_first_idle_at(list@, i as int);
            }
            return Some(i);
        }
        i = i + 1;
    }
    None
}

/// The identifiers of the tasks of a list, in order.
pub open spec fn task_ids(l: Seq<Box<Task>>) -> Seq<u8> {
    l.map_values(|b: Box<Task>| b.id)
}

/// The identifiers of the tasks the scheduler holds: those of the list and the current one.
pub open spec fn tasks_held(l: Seq<Box<Task>>, cur: Option<Box<Task>>) -> Multiset<u8> {
    match cur {
        Some(c) => task_ids(l).to_multiset().insert(c.id),
        None => task_ids(l).to_multiset(),
    }
}

proof fn lemma_one_to_multiset(x: u8)
    ensures
        seq![x].to_multiset() == Multiset::<u8>::empty().insert(x),
{
    broadcast use vstd::seq_lib::to_multiset_build;
    broadcast use vstd::multiset::group_multiset_axioms;
    assert(Seq::<u8>::empty().to_multiset() =~= Multiset::<u8>::empty()) by {
        Seq::<u8>::empty().to_multiset_ensures();
        vstd::multiset::lemma_multiset_empty_len(Seq::<u8>::empty().to_multiset());
    }
    assert(seq![x] =~= Seq::<u8>::empty().push(x));
}

proof fn lemma_runnable_min(l: Seq<Box<Task>>, now: u64, w: int)
    requires
        0 <= w < l.len(),
        runnable(woken(*l[w], now)),
    ensures
        first_runnable(l, now) matches Some(j) && 0 <= j < l.len() && runnable(woken(*l[j], now)),
    decreases w,
{
    if exists|k: int| 0 <= k < w && runnable(woken(*#[trigger] l[k], now)) {
        let k = choose|k: int| 0 <= k < w && runnable(woken(*#[trigger] l[k], now));
        lemma_runnable_min(l, now, k);
    } else {
        assert(forall|k: int| 0 <= k < w ==> !runnable(woken(*#[trigger] l[k], now)));
        lemma_first_runnable_at(l, now, w);
    }
}

proof fn lemma_idle_min(l: Seq<Box<Task>>, w: int)
    requires
        0 <= w < l.len(),
        l[w].id == 0,
    ensures
        first_idle(l) matches Some(j) && 0 <= j < l.len() && l[j].id == 0,
    decreases w,
{
    if exists|k: int| 0 <= k < w && #[trigger] l[k].id == 0 {
        let k = choose|k: int| 0 <= k < w && #[trigger] l[k].id == 0;
        lemma_idle_min(l, k);
    } else {
        lemma_first_idle_at(l, w);
    }
}

/// `rotate` switching to the first runnable task keeps the tasks held.
proof fn lemma_switch_keeps_tasks(l: Seq<Box<Task>>, c: Task, c1: Task, now: u64, j: int)
    requires
        0 <= j < l.len(),
        c1.id == c.id,
    ensures
        tasks_held(
            l.skip(j + 1) + wake_all(l.take(j), now) + seq![Box::new(yielded(c1))],
            Some(Box::new(running(woken(*l[j], now)))),
        ) == task_ids(l).to_multiset().insert(c.id),
{
    broadcast use vstd::multiset::group_multiset_axioms;
    let a = l.skip(j + 1);
    let b = l.take(j);
    let x = l[j].id;
    assert(task_ids(wake_all(b, now)) =~= task_ids(b));
    let l2 = a + wake_all(b, now) + seq![Box::new(yielded(c1))];
    assert(task_ids(l2) =~= task_ids(a) + task_ids(b) + seq![c.id]);
    assert(task_ids(l) =~= task_ids(b) + seq![x] + task_ids(a));
    vstd::seq_lib::lemma_multiset_commutative(task_ids(a) + task_ids(b), seq![c.id]);
    vstd::seq_lib::lemma_multiset_commutative(task_ids(a), task_ids(b));
    vstd::seq_lib::lemma_multiset_commutative(task_ids(b) + seq![x], task_ids(a));
    vstd::seq_lib::lemma_multiset_commutative(task_ids(b), seq![x]);
    lemma_one_to_multiset(x);
    lemma_one_to_multiset(c.id);
    assert(tasks_held(l2, Some(Box::new(running(woken(*l[j], now))))) =~= task_ids(l).to_multiset().insert(c.id));
}

/// Handing over to the idle task keeps the tasks held.
proof fn lemma_idle_keeps_tasks(w: Seq<Box<Task>>, c: Task, i: int)
    requires
        0 <= i < w.len(),
    ensures
        tasks_held(w.remove(i) + seq![Box::new(yielded(c))], Some(Box::new(running(*w[i])))) == task_ids(w).to_multiset().insert(c.id),
{
    broadcast use vstd::multiset::group_multiset_axioms;
    let l2 = w.remove(i) + seq![Box::new(yielded(c))];
    assert(task_ids(w.remove(i)) =~= task_ids(w).remove(i));
    assert(task_ids(l2) =~= task_ids(w).remove(i) + seq![c.id]);
    vstd::seq_lib::lemma_multiset_commutative(task_ids(w).remove(i), seq![c.id]);
    vstd::seq_lib::to_multiset_remove(task_ids(w), i);
    lemma_one_to_multiset(c.id);
    assert(task_ids(w)[i] == w[i].id);
    assert(task_ids(w).to_multiset().count(w[i].id) > 0) by {
        task_ids(w).to_multiset_ensures();
        assert(task_ids(w).contains(w[i].id));
    }
    assert(tasks_held(l2, Some(Box::new(running(*w[i])))) =~= task_ids(w).to_multiset().insert(c.id));
}

/// Switching tasks loses no task and makes up none: the tasks held before and after `rotate`
/// (the list and the current task) have the same identifiers, each as often.
pub proof fn lemma_rotate_keeps_tasks(l: Seq<Box<Task>>, cur: Option<Box<Task>>, old_rsp: usize, now: u64)
    ensures
        tasks_held(rotate_spec(l, cur, old_rsp, now).1, rotate_spec(l, cur, old_rsp, now).2) == tasks_held(l, cur),
{
    match cur {
        None => {},
        Some(c) => {
            let c1 = Task { saved_stack_pointer: old_rsp, ..*c };
            if l.len() > 0 {
                let w = wake_all(l, now);
                assert(task_ids(w) =~= task_ids(l));
                match first_runnable(l, now) {
                    Some(j) => {
                        let wit = choose|k: int| 0 <= k < l.len() && runnable(woken(*#[trigger] l[k], now));
                        lemma_runnable_min(l, now, wit);
                        lemma_switch_keeps_tasks(l, *c, c1, now, j);
                    },
                    None => {
                        match first_idle(w) {
                            None => {},
                            Some(i) => {
                                if c1.id != 0 {
                                    let wit = choose|k: int| 0 <= k < w.len() && #[trigger] w[k].id == 0;
                                    lemma_idle_min(w, wit);
                                    lemma_idle_keeps_tasks(w, c1, i);
                                }
                            },
                        }
                    },
                }
            }
        },
    }
}

/// A task may take over from the current one only if it is not asleep: it is ready, or
/// waiting with a wake-up tick that has come (`0 < wake_on_tick <= now`), or it is the idle
/// task (id 0).
pub open spec fn may_take_over(t: Task, now: u64) -> bool {
    t.id == 0 || t.state == State::Ready || (t.state == State::Waiting && 0 < t.wake_on_tick <= now)
}

/// The scheduling law of `rotate`: either the current task keeps running (with its saved
/// stack pointer updated, and `rotate` returning it), or it is switched out to the back of
/// the list keeping its state, except that a running task becomes ready (so a task put to
/// sleep stays waiting), and the task switched to, now running and whose stack pointer is
/// returned, was in the list and may take over (so a sleeping task never runs before its
/// wake-up tick).
pub proof fn lemma_rotate_respects_sleep(l: Seq<Box<Task>>, c: Task, old_rsp: usize, now: u64)
    ensures
        ({
            let (sp, l2, cur2) = rotate_spec(l, Some(Box::new(c)), old_rsp, now);
            let c1 = Task { saved_stack_pointer: old_rsp, ..c };
            ||| cur2 == Some(Box::new(c1)) && sp == old_rsp
            ||| {
                &&& l2.len() > 0
                &&& *l2.last() == Task { state: if c.state == State::Running { State::Ready } else { c.state }, ..c1 }
                &&& cur2 matches Some(n) && n.state == State::Running && sp == n.saved_stack_pointer
                    && exists|j: int| 0 <= j < l.len() && #[trigger] l[j].id == n.id
                        && l[j].saved_stack_pointer == n.saved_stack_pointer && may_take_over(*l[j], now)
            }
        }),
{
    let c1 = Task { saved_stack_pointer: old_rsp, ..c };
    if l.len() > 0 {
        let w = wake_all(l, now);
        match first_runnable(l, now) {
            Some(j) => {
                let wit = choose|k: int| 0 <= k < l.len() && runnable(woken(*#[trigger] l[k], now));
                lemma_runnable_min(l, now, wit);
                let (sp, l2, cur2) = rotate_spec(l, Some(Box::new(c)), old_rsp, now);
                assert(l2.last() == Box::new(yielded(c1)));
                assert(l[j].id == (*cur2.unwrap()).id);
            },
            None => {
                match first_idle(w) {
                    None => {},
                    Some(i) => {
                        if c1.id != 0 {
                            let wit = choose|k: int| 0 <= k < w.len() && #[trigger] w[k].id == 0;
                            lemma_idle_min(w, wit);
                            let (sp, l2, cur2) = rotate_spec(l, Some(Box::new(c)), old_rsp, now);
                            assert(l2.last() == Box::new(yielded(c1)));
                            assert(w[i] == Box::new(woken(*l[i], now)));
                            assert(l[i].id == (*cur2.unwrap()).id);
                        }
                    },
                }
            },
        }
    }
}

impl TaskManager {
    /// No tasks and no current task.
    pub fn new(max_thread: usize) -> (r: Self)
        ensures
            r.task_list@.len() == 0,
            r.current_task is None,
    {
        TaskManager { task_list: VecDeque::with_capacity(max_thread), current_task: None }
    }

    /// Switches tasks at tick `now`: saves `old_rsp` for the current task and returns the
    /// stack pointer to resume. The first task in round-robin order that is ready (after
    /// waking those whose tick has come) and is not the idle task takes over; failing that, the
    /// idle task does, unless it is the one running; the task switched out goes to the back.
    pub fn rotate(&mut self, old_rsp: usize, now: u64) -> (r: usize)
        ensures
            (r, final(self).task_list@, final(self).current_task) == rotate_spec(old(self).task_list@, old(self).current_task, old_rsp, now),
    {
        let mut cur = match self.current_task.take() {
            Some(c) => c,
            None => return 0,
        };
        cur.saved_stack_pointer = old_rsp;
        let ghost l = self.task_list@;
        let ghost c1 = *cur;
        if self.task_list.len() == 0 {
            self.current_task = Some(cur);
            return old_rsp;
        }
        match take_runnable(&mut self.task_list, now) {
            Some(mut next_task) => {
                let mut old_task = cur;
                if old_task.state == State::Running {
                    old_task.state = State::Ready;
                }
                next_task.state = State::Running;
                let new_ptr = next_task.saved_stack_pointer;
                let ghost mid = self.task_list@;
                self.task_list.push_back(old_task);
                self.current_task = Some(next_task);
                assert(self.task_list@ =~= mid + seq![Box::new(yielded(c1))]);
                new_ptr
            },
            None => self.switch_to_idle(cur),
        }
    }

    /// No task is runnable: hands over to the idle task unless `cur` is the idle task or
    /// there is none.
    fn switch_to_idle(&mut self, cur: Box<Task>) -> (r: usize)
        requires
            old(self).current_task is None,
        ensures
            (r, final(self).task_list@, final(self).current_task) == idle_switch(old(self).task_list@, *cur),
    {
        let ghost w = self.task_list@;
        match position_of_idle(&self.task_list) {
            Some(index) => {
                assert(first_idle(w) == Some(index as int));
                if cur.id == 0 {
                    let p = cur.saved_stack_pointer;
                    self.current_task = Some(cur);
                    assert(self.task_list@ == w);
                    return p;
                }
                let mut idle_task = match self.task_list.remove(index) {
                    Some(t) => t,
                    None => {
                        assert(false);
                        return 0;
                    },
                };
                let mut old_task = cur;
                if old_task.state == State::Running {
                    old_task.state = State::Ready;
                }
                idle_task.state = State::Running;
                let new_ptr = idle_task.saved_stack_pointer;
                self.task_list.push_back(old_task);
                self.current_task = Some(idle_task);
                assert(*idle_task == running(*w[index as int]));
                assert(self.task_list@ =~= w.remove(index as int) + seq![Box::new(yielded(*cur))]);
                new_ptr
            },
            None => {
                let p = cur.saved_stack_pointer;
                self.current_task = Some(cur);
                p
            },
        }
    }

    /// Marks the current task as waiting until tick `wake_on_tick` (the scheduler wakes it at
    /// the first switch from then on).
    pub fn block_current(&mut self, wake_on_tick: u64)
        ensures
            final(self).task_list@ == old(self).task_list@,
            match old(self).current_task {
                Some(c) => final(self).current_task == Some(Box::new(Task { state: State::Waiting, wake_on_tick, ..*c })),
                None => final(self).current_task is None,
            },
    {
        if let Some(mut task) = self.current_task.take() {
            task.state = State::Waiting;
            task.wake_on_tick = wake_on_tick;
            self.current_task = Some(task);
        }
    }
}

} // verus!
