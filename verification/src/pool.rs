use vstd::prelude::*;

verus! {

/// One worker's place in its loop.
#[derive(Clone, Copy, PartialEq, Eq, Structural)]
pub enum WorkerState {
    Idle,
    Fetching,
    Extracting,
    Storing,
    Enqueueing,
    Stopped,
}

/// How many of the workers are idle.
pub open spec fn count_idle(states: Seq<WorkerState>) -> int
    decreases states.len(),
{
    if states.len() == 0 {
        0
    } else {
        count_idle(states.drop_last()) + (if states.last() is Idle {
            1int
        } else {
            0
        })
    }
}

/// The idle count never exceeds the worker count.
pub proof fn lemma_count_idle_bounds(states: Seq<WorkerState>)
    ensures
        0 <= count_idle(states) <= states.len(),
    decreases states.len(),
{
    if states.len() > 0 {
        lemma_count_idle_bounds(states.drop_last());
    }
}

/// Changing one worker's state moves the idle count by what that worker
/// contributed before and contributes now.
pub proof fn lemma_count_idle_update(states: Seq<WorkerState>, w: int, s: WorkerState)
    requires
        0 <= w < states.len(),
    ensures
        count_idle(states.update(w, s)) == count_idle(states) - (if states[w] is Idle {
            1int
        } else {
            0
        }) + (if s is Idle {
            1int
        } else {
            0
        }),
    decreases states.len(),
{
    let updated = states.update(w, s);
    if w == states.len() - 1 {
        assert(updated.drop_last() =~= states.drop_last());
    } else {
        assert(updated.drop_last() =~= states.drop_last().update(w, s));
        lemma_count_idle_update(states.drop_last(), w, s);
    }
}

/// All workers are idle exactly when the idle count reaches the worker count.
pub proof fn lemma_count_idle_full(states: Seq<WorkerState>)
    ensures
        count_idle(states) == states.len() <==> (forall|i: int|
            0 <= i < states.len() ==> states[i] is Idle),
    decreases states.len(),
{
    if states.len() > 0 {
        lemma_count_idle_full(states.drop_last());
        lemma_count_idle_bounds(states.drop_last());
        if count_idle(states) == states.len() {
            assert forall|i: int| 0 <= i < states.len() implies states[i] is Idle by {
                if i < states.len() - 1 {
                    assert(states.drop_last()[i] == states[i]);
                }
            }
        }
        if forall|i: int| 0 <= i < states.len() ==> states[i] is Idle {
            assert forall|i: int|
                0 <= i < states.drop_last().len() implies states.drop_last()[i] is Idle by {
                assert(states.drop_last()[i] == states[i]);
            }
        }
    }
}

/// The worker pool's shared termination state: each worker's current state
/// and a count of the idle ones. The crawl is complete exactly when every
/// worker is idle while the queue is empty, both checked under the same lock:
/// a plain "queue looked empty once" test is not enough, since a busy worker
/// may be about to enqueue more work.
pub struct WorkerPool {
    states: Vec<WorkerState>,
    idle: usize,
}

impl WorkerPool {
    pub closed spec fn states_view(&self) -> Seq<WorkerState> {
        self.states@
    }

    /// The idle counter always equals the number of idle workers.
    pub closed spec fn wf(&self) -> bool {
        self.idle as int == count_idle(self.states@)
    }

    /// A pool of `size` workers, all idle.
    pub fn new(size: usize) -> (p: WorkerPool)
        ensures
            p.wf(),
            p.states_view().len() == size,
            forall|i: int| 0 <= i < size ==> p.states_view()[i] is Idle,
    {
        let mut states: Vec<WorkerState> = Vec::new();
        let mut i: usize = 0;
        while i < size
            invariant
                i <= size,
                states@.len() == i,
                forall|j: int| 0 <= j < i ==> states@[j] is Idle,
                count_idle(states@) == i,
            decreases size - i,
        {
            let ghost pre = states@;
            states.push(WorkerState::Idle);
            proof {
                assert(states@.drop_last() =~= pre);
            }
            i += 1;
        }
        WorkerPool { states, idle: size }
    }

    /// Records that worker `w` moved to state `s`, keeping the idle counter
    /// exact.
    pub fn set_state(&mut self, w: usize, s: WorkerState)
        requires
            old(self).wf(),
            w < old(self).states_view().len(),
        ensures
            final(self).wf(),
            final(self).states_view() == old(self).states_view().update(w as int, s),
    {
        proof {
            lemma_count_idle_update(self.states@, w as int, s);
            lemma_count_idle_bounds(self.states@);
            lemma_count_idle_bounds(self.states@.update(w as int, s));
        }
        let was_idle = matches!(self.states[w], WorkerState::Idle);
        let now_idle = matches!(s, WorkerState::Idle);
        let worker_count = self.states.len();
        self.states.set(w, s);
        if was_idle && !now_idle {
            proof {
                assert(count_idle(self.states@) == self.idle - 1);
                assert(self.idle >= 1);
            }
            self.idle = self.idle - 1;
        } else if !was_idle && now_idle {
            proof {
                assert(count_idle(self.states@) == self.idle + 1);
                assert(self.idle + 1 <= worker_count);
            }
            self.idle = self.idle + 1;
        }
    }

    /// The pool-wide termination test, to be evaluated under the same lock
    /// that guards the queue: done exactly when the queue is empty and every
    /// worker is idle at once.
    pub fn crawl_done(&self, pending_empty: bool) -> (r: bool)
        requires
            self.wf(),
        ensures
            r == (pending_empty && forall|i: int|
                0 <= i < self.states_view().len() ==> self.states_view()[i] is Idle),
    {
        proof {
            lemma_count_idle_full(self.states@);
        }
        pending_empty && self.idle == self.states.len()
    }
}

} // verus!
