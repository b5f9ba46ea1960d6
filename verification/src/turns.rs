//! Dealing incoming connections out to the serve workers.

use vstd::prelude::*;

verus! {

/// Whose turn it is after `turn`, among `workers` workers.
pub open spec fn turn_after(turn: int, workers: int) -> int {
    (turn + 1) % workers
}

/// Whose turn it is `k` turns after `turn`, among `workers` workers.
pub open spec fn turn_in(turn: int, workers: int, k: nat) -> int
    decreases k,
{
    if k == 0 {
        turn
    } else {
        turn_after(turn_in(turn, workers, (k - 1) as nat), workers)
    }
}

/// Deals connection requests out to the serve workers, in turn.
pub struct RoundRobin {
    next: usize,
    workers: usize,
}

impl RoundRobin {
    /// There is a worker whose turn it is.
    pub closed spec fn wf(&self) -> bool {
        self.next < self.workers
    }

    /// Whose turn it is.
    pub closed spec fn turn(&self) -> int {
        self.next as int
    }

    /// How many workers there are.
    pub closed spec fn workers(&self) -> int {
        self.workers as int
    }

    /// Starts with worker 0 of `workers`.
    pub fn new(workers: usize) -> (r: Self)
        requires
            workers > 0,
        ensures
            r.wf(),
            r.turn() == 0,
            r.workers() == workers,
    {
        RoundRobin { next: 0, workers }
    }

    /// The worker to deal to now.
    pub fn pick(&mut self) -> (i: usize)
        requires
            old(self).wf(),
        ensures
            final(self).wf(),
            final(self).workers() == old(self).workers(),
            i == old(self).turn(),
            i < old(self).workers(),
            final(self).turn() == (old(self).turn() + 1) % old(self).workers(),
            final(self).turn() == turn_after(old(self).turn(), old(self).workers()),
    {
        let i = self.next;
        proof {
            if i + 1 == self.workers {
                vstd::arithmetic::div_mod::lemma_mod_self_0(self.workers as int);
            } else {
                vstd::arithmetic::div_mod::lemma_small_mod((i + 1) as nat, self.workers as nat);
            }
        }
        self.next = if i + 1 == self.workers {
            0
        } else {
            i + 1
        };
        i
    }
}

/// After `k` turns it is the turn of the worker `k` further on, going round once past
/// the last.
proof fn lemma_turn_in(turn: int, workers: int, k: nat)
    requires
        0 <= turn < workers,
        k <= workers,
    ensures
        turn_in(turn, workers, k) == (if turn + k < workers {
            turn + k
        } else {
            turn + k - workers
        }),
    decreases k,
{
    if k > 0 {
        lemma_turn_in(turn, workers, (k - 1) as nat);
        let last = turn_in(turn, workers, (k - 1) as nat);
        if last + 1 < workers {
            vstd::arithmetic::div_mod::lemma_small_mod((last + 1) as nat, workers as nat);
        } else {
            vstd::arithmetic::div_mod::lemma_mod_self_0(workers);
        }
    }
}

/// Turns go round: each worker has exactly one turn in any `workers` turns in a row,
/// here those from turn `start` on, and then it starts over.
pub proof fn law_every_worker_has_its_turn(workers: int, start: int, worker: int)
    requires
        0 <= worker < workers,
        0 <= start < workers,
    ensures
        exists|k: nat| k < workers && #[trigger] turn_in(start, workers, k) == worker,
        forall|j: nat, k: nat|
            j < k < workers ==> #[trigger] turn_in(start, workers, j) != #[trigger] turn_in(
                start,
                workers,
                k,
            ),
        turn_in(start, workers, workers as nat) == start,
        forall|k: nat|
            k < workers ==> #[trigger] turn_in(start, workers, k) == (start + k) % workers,
{
    assert forall|k: nat| k < workers implies #[trigger] turn_in(start, workers, k) == (start + k)
        % workers by {
        lemma_turn_in(start, workers, k);
        if start + k < workers {
            vstd::arithmetic::div_mod::lemma_small_mod((start + k) as nat, workers as nat);
        } else {
            vstd::arithmetic::div_mod::lemma_small_mod((start + k - workers) as nat, workers as nat);
            vstd::arithmetic::div_mod::lemma_mod_add_multiples_vanish(start + k - workers, workers);
        }
    }
    assert forall|j: nat, k: nat| j < k < workers implies #[trigger] turn_in(start, workers, j)
        != #[trigger] turn_in(start, workers, k) by {
        lemma_turn_in(start, workers, j);
        lemma_turn_in(start, workers, k);
    }
    let k = (if worker >= start {
        worker - start
    } else {
        worker + workers - start
    }) as nat;
    lemma_turn_in(start, workers, k);
    lemma_turn_in(start, workers, workers as nat);
    assert(turn_in(start, workers, k) == worker);
}

} // verus!
