use vstd::prelude::*;

verus! {

/// How many flags in `s` are set.
pub open spec fn count_true(s: Seq<bool>) -> nat
    decreases s.len(),
{
    if s.len() == 0 {
        0
    } else {
        count_true(s.drop_last()) + if s.last() {
            1nat
        } else {
            0nat
        }
    }
}

pub proof fn lemma_count_true_le_len(s: Seq<bool>)
    ensures
        count_true(s) <= s.len(),
    decreases s.len(),
{
    if s.len() > 0 {
        lemma_count_true_le_len(s.drop_last());
    }
}

/// The idle count reaches the worker count exactly when every worker has
/// reported idle: the pool declares quiescence only in that state.
pub proof fn lemma_quiescence(s: Seq<bool>)
    ensures
        count_true(s) == s.len() <==> (forall|i: int| 0 <= i < s.len() ==> s[i]),
    decreases s.len(),
{
    if s.len() > 0 {
        lemma_quiescence(s.drop_last());
        lemma_count_true_le_len(s.drop_last());
        if count_true(s) == s.len() {
            assert forall|i: int| 0 <= i < s.len() implies s[i] by {
                if i < s.len() - 1 {
                    assert(s.drop_last()[i]);
                }
            }
        } else {
            if forall|i: int| 0 <= i < s.len() ==> s[i] {
                assert forall|i: int| 0 <= i < s.drop_last().len() implies s.drop_last()[i] by {
                    assert(s[i]);
                }
                assert(s.last());
            }
        }
    }
}

/// One idle flag per worker.  A worker is counted busy until it polls the
/// task channel and finds it momentarily empty; any worker that dequeues
/// a task clears every flag, because new work may still be produced
/// downstream.  The pool is quiescent — and every worker may stop — only
/// when all flags are set at once.
pub struct IdleFlags {
    flags: Vec<bool>,
}

impl View for IdleFlags {
    type V = Seq<bool>;

    closed spec fn view(&self) -> Seq<bool> {
        self.flags@
    }
}

impl IdleFlags {
    /// A pool of `num_threads` flags, all initially busy.
    pub fn new(num_threads: usize) -> (f: IdleFlags)
        ensures
            f@.len() == num_threads,
            forall|i: int| 0 <= i < num_threads ==> !f@[i],
    {
        IdleFlags { flags: vec![false; num_threads] }
    }

    /// The number of workers the pool was built for.
    pub fn num_workers(&self) -> (n: usize)
        ensures
            n == self@.len(),
    {
        self.flags.len()
    }

    /// Clears every flag: a freshly dequeued task proves the pool is not
    /// quiescent, and this reset must be seen before anyone re-evaluates
    /// the stop condition.
    pub fn mark_all_busy(&mut self)
        ensures
            final(self)@.len() == old(self)@.len(),
            forall|i: int| 0 <= i < final(self)@.len() ==> !final(self)@[i],
    {
        let n = self.flags.len();
        self.flags = vec![false; n];
    }

    /// Records that worker `idx` polled the channel and found nothing.
    pub fn mark_idle(&mut self, idx: usize)
        requires
            idx < old(self)@.len(),
        ensures
            final(self)@ == old(self)@.update(idx as int, true),
    {
        self.flags[idx] = true;
        proof {
            assert(final(self)@ =~= old(self)@.update(idx as int, true));
        }
    }

    /// How many workers currently report idle.
    #[verifier::loop_isolation(false)]
    pub fn count_idle(&self) -> (n: usize)
        ensures
            n == count_true(self@),
    {
        let mut acc: usize = 0;
        let mut i: usize = 0;
        while i < self.flags.len()
            invariant
                i <= self@.len(),
                acc == count_true(self@.take(i as int)),
                acc <= i,
            decreases self@.len() - i,
        {
            proof {
                assert(self@.take(i as int + 1).drop_last() =~= self@.take(i as int));
                assert(self@.take(i as int + 1).last() == self@[i as int]);
            }
            if self.flags[i] {
                acc += 1;
            }
            i += 1;
        }
        proof {
            assert(self@.take(self@.len() as int) =~= self@);
        }
        acc
    }

    /// Whether every worker is idle at once: the stop condition of the
    /// crawl, evaluated by a worker right after marking itself idle.
    pub fn all_idle(&self) -> (r: bool)
        ensures
            r <==> (forall|i: int| 0 <= i < self@.len() ==> self@[i]),
    {
        let n = self.count_idle();
        proof {
            lemma_quiescence(self@);
        }
        n == self.flags.len()
    }
}

} // verus!
