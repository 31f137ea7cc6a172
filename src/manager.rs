use std::collections::VecDeque;
use vstd::prelude::*;

verus! {

/// The global FIFO of runnable threads (by handle).
pub struct TaskManager {
    ready_queue: VecDeque<usize>,
}

impl View for TaskManager {
    type V = Seq<usize>;

    closed spec fn view(&self) -> Seq<usize> {
        self.ready_queue@
    }
}

impl TaskManager {
    pub fn new() -> (r: TaskManager)
        ensures
            r@ == Seq::<usize>::empty(),
    {
        TaskManager { ready_queue: VecDeque::new() }
    }

    /// Appends a runnable thread at the back.
    pub fn add(&mut self, task: usize)
        ensures
            final(self)@ == old(self)@.push(task),
    {
        self.ready_queue.push_back(task);
    }

    /// Removes the thread at the front, if any.
    pub fn fetch(&mut self) -> (r: Option<usize>)
        ensures
            old(self)@.len() == 0 ==> r.is_none() && final(self)@ == old(self)@,
            old(self)@.len() > 0 ==> r == Some(old(self)@[0]) && final(self)@
                == old(self)@.drop_first(),
    {
        self.ready_queue.pop_front()
    }

    pub fn len(&self) -> (r: usize)
        ensures
            r == self@.len(),
    {
        self.ready_queue.len()
    }

    /// Drops every queued thread flagged in `gone`, keeping the order of
    /// the others.
    pub fn retain_not_in(&mut self, gone: &Vec<bool>)
        ensures
            final(self)@ == old(self)@.filter(|t: usize| !in_flags(gone@, t)),
            forall|i: int| 0 <= i < final(self)@.len() ==> old(self)@.contains(#[trigger] final(self)@[i]) && !in_flags(gone@, final(self)@[i]),
            old(self)@.no_duplicates() ==> final(self)@.no_duplicates(),
    {
        let old_q = Ghost(self.ready_queue@);
        let mut kept: VecDeque<usize> = VecDeque::new();
        let n = self.ready_queue.len();
        let mut i: usize = 0;
        while i < n
            invariant
                n == old_q@.len(),
                self.ready_queue@ == old_q@,
                i <= n,
                kept@ == old_q@.take(i as int).filter(|t: usize| !in_flags(gone@, t)),
                forall|j: int| 0 <= j < kept@.len() ==> old_q@.take(i as int).contains(#[trigger] kept@[j]) && !in_flags(gone@, kept@[j]),
                old_q@.no_duplicates() ==> kept@.no_duplicates(),
            decreases n - i,
        {
            let t = self.ready_queue[i];
            proof {
                assert(old_q@.take(i as int + 1).drop_last() == old_q@.take(i as int));
                reveal(Seq::filter);
            }
            let is_gone = t < gone.len() && gone[t];
            let ghost kept0 = kept@;
            if !is_gone {
                kept.push_back(t);
            }
            proof {
                let t0 = old_q@.take(i as int);
                let t1 = old_q@.take(i as int + 1);
                assert(t1 == t0.push(t));
                assert forall|j: int| 0 <= j < kept@.len() implies t1.contains(#[trigger] kept@[j]) && !in_flags(gone@, kept@[j]) by {
                    if j < kept0.len() {
                        assert(t0.contains(kept0[j]));
                        let m = choose|m: int| 0 <= m < t0.len() && t0[m] == kept0[j];
                        assert(t1[m] == kept0[j]);
                    } else {
                        assert(t1[i as int] == t);
                    }
                }
                if old_q@.no_duplicates() && !is_gone {
                    assert(!kept0.contains(t)) by {
                        if kept0.contains(t) {
                            let j = choose|j: int| 0 <= j < kept0.len() && kept0[j] == t;
                            assert(t0.contains(t));
                            let m = choose|m: int| 0 <= m < t0.len() && t0[m] == t;
                            assert(old_q@[m] == old_q@[i as int]);
                        }
                    }
                    assert forall|a: int, b: int| 0 <= a < b < kept@.len() implies kept@[a] != kept@[b] by {
                        if b == kept0.len() {
                            assert(kept0[a] == kept@[a]);
                        }
                    }
                }
            }
            i = i + 1;
        }
        proof {
            assert(old_q@.take(n as int) =~= old_q@);
        }
        self.ready_queue = kept;
    }
}

/// Whether thread `t` is flagged in `flags`.
pub open spec fn in_flags(flags: Seq<bool>, t: usize) -> bool {
    t < flags.len() && flags[t as int]
}

/// The single core: which thread runs on it, if any.
pub struct Processor {
    current: Option<usize>,
}

impl View for Processor {
    type V = Option<usize>;

    closed spec fn view(&self) -> Option<usize> {
        self.current
    }
}

impl Processor {
    pub fn new() -> (r: Processor)
        ensures
            r@.is_none(),
    {
        Processor { current: None }
    }

    /// Removes the running thread from the core.
    pub fn take_current(&mut self) -> (r: Option<usize>)
        ensures
            r == old(self)@,
            final(self)@.is_none(),
    {
        self.current.take()
    }

    /// The running thread.
    pub fn current(&self) -> (r: Option<usize>)
        ensures
            r == self@,
    {
        self.current
    }

    /// Puts a thread on the core.
    pub fn set_current(&mut self, task: usize)
        ensures
            final(self)@ == Some(task),
    {
        self.current = Some(task);
    }
}

} // verus!
