use vstd::prelude::*;

verus! {

/// A message on the pool's shared queue.
#[derive(Clone, Copy, Debug, PartialEq, Eq, Structural)]
pub enum Message {
    /// Run the job with this number.
    NewJob(u64),
    /// Stop the worker that takes it.
    Terminate,
}

/// What an idle worker is told to do.
#[derive(Clone, Copy, Debug, PartialEq, Eq, Structural)]
pub enum Action {
    Run(u64),
    Exit,
    Wait,
}

/// The pool's bookkeeping as mathematical values.
pub struct PoolView {
    pub size: nat,
    pub queue: Seq<Message>,
    pub running: Seq<Option<u64>>,
    pub exited: Seq<bool>,
    pub accepting: bool,
}

/// Whether no job message stands after a terminate message.
pub open spec fn jobs_first(q: Seq<Message>) -> bool {
    forall|i: int, j: int|
        0 <= i < j < q.len() && #[trigger] q[i] == Message::Terminate ==> #[trigger] q[j]
            == Message::Terminate
}

/// Whether the queue holds no job.
pub open spec fn no_jobs(q: Seq<Message>) -> bool {
    forall|i: int| 0 <= i < q.len() ==> #[trigger] q[i] == Message::Terminate
}

/// The number of workers running a job.
pub open spec fn busy(running: Seq<Option<u64>>) -> nat
    decreases running.len(),
{
    if running.len() == 0 {
        0
    } else {
        busy(running.drop_last()) + if running.last() is Some {
            1nat
        } else {
            0nat
        }
    }
}

impl PoolView {
    pub open spec fn wf(self) -> bool {
        &&& self.size > 0
        &&& self.running.len() == self.size
        &&& self.exited.len() == self.size
        &&& forall|w: int| 0 <= w < self.size && #[trigger] self.exited[w] ==> self.running[w] is None
        &&& self.accepting ==> forall|w: int| 0 <= w < self.size ==> !#[trigger] self.exited[w]
        &&& self.accepting ==> no_terminates(self.queue)
        &&& jobs_first(self.queue)
        &&& (exists|w: int| 0 <= w < self.size && #[trigger] self.exited[w]) ==> no_jobs(self.queue)
    }

    /// Worker `w` exists, has not stopped and runs no job.
    pub open spec fn idle(self, w: int) -> bool {
        0 <= w < self.size && !self.exited[w] && self.running[w] is None
    }

    /// Every worker has stopped.
    pub open spec fn finished(self) -> bool {
        forall|w: int| 0 <= w < self.size ==> #[trigger] self.exited[w]
    }
}

pub open spec fn no_terminates(q: Seq<Message>) -> bool {
    forall|i: int| 0 <= i < q.len() ==> #[trigger] q[i] != Message::Terminate
}

proof fn lemma_busy_bound(running: Seq<Option<u64>>)
    ensures
        busy(running) <= running.len(),
    decreases running.len(),
{
    if running.len() > 0 {
        lemma_busy_bound(running.drop_last());
    }
}

/// A pool of `size` workers never runs more than `size` jobs at once.
pub proof fn lemma_at_most_size_busy(p: PoolView)
    requires
        p.wf(),
    ensures
        busy(p.running) <= p.size,
{
    lemma_busy_bound(p.running);
}

/// Once every worker has stopped, no job waits on the queue and none runs:
/// each job taken in before the shutdown has run to its end.
pub proof fn lemma_finished_drained(p: PoolView)
    requires
        p.wf(),
        p.finished(),
    ensures
        no_jobs(p.queue),
        forall|w: int| 0 <= w < p.size ==> #[trigger] p.running[w] is None,
{
    assert(p.exited[0]);
    assert forall|w: int| 0 <= w < p.size implies #[trigger] p.running[w] is None by {
        assert(p.exited[w]);
    }
}

/// The decisions of a fixed-size worker pool that takes jobs from one queue.
pub struct Pool {
    size: usize,
    queue: Vec<Message>,
    running: Vec<Option<u64>>,
    exited: Vec<bool>,
    accepting: bool,
}

impl View for Pool {
    type V = PoolView;

    closed spec fn view(&self) -> PoolView {
        PoolView {
            size: self.size as nat,
            queue: self.queue@,
            running: self.running@,
            exited: self.exited@,
            accepting: self.accepting,
        }
    }
}

impl Pool {
    /// A pool of `size` idle workers that takes jobs; `None` for no workers.
    pub fn new(size: usize) -> (r: Option<Pool>)
        ensures
            size == 0 <==> r is None,
            r matches Some(p) ==> {
                &&& p@.wf()
                &&& p@.size == size
                &&& p@.queue.len() == 0
                &&& p@.accepting
                &&& forall|w: int| 0 <= w < size ==> #[trigger] p@.running[w] is None
            },
    {
        if size == 0 {
            return None;
        }
        let mut running: Vec<Option<u64>> = Vec::new();
        let mut exited: Vec<bool> = Vec::new();
        let mut i: usize = 0;
        while i < size
            invariant
                i <= size,
                running@.len() == i,
                exited@.len() == i,
                forall|w: int| 0 <= w < i ==> #[trigger] running@[w] is None,
                forall|w: int| 0 <= w < i ==> !#[trigger] exited@[w],
            decreases size - i,
        {
            running.push(None);
            exited.push(false);
            i += 1;
        }
        Some(Pool { size, queue: Vec::new(), running, exited, accepting: true })
    }

    pub fn size(&self) -> (r: usize)
        ensures
            r == self@.size,
    {
        self.size
    }

    /// Queues job `id` while the pool takes jobs; says whether it did.
    pub fn submit(&mut self, id: u64) -> (r: bool)
        requires
            old(self)@.wf(),
        ensures
            final(self)@.wf(),
            r == old(self)@.accepting,
            r ==> final(self)@ == (PoolView {
                queue: old(self)@.queue.push(Message::NewJob(id)),
                ..old(self)@
            }),
            !r ==> final(self)@ == old(self)@,
    {
        if !self.accepting {
            return false;
        }
        self.queue.push(Message::NewJob(id));
        true
    }

    /// Stops taking jobs and queues one terminate message for each worker,
    /// after every job already queued.
    pub fn shutdown(&mut self)
        requires
            old(self)@.wf(),
        ensures
            final(self)@.wf(),
            !final(self)@.accepting,
            old(self)@.accepting ==> final(self)@.queue == old(self)@.queue + Seq::new(
                old(self)@.size,
                |i: int| Message::Terminate,
            ),
            !old(self)@.accepting ==> final(self)@ == old(self)@,
            final(self)@.size == old(self)@.size,
            final(self)@.running == old(self)@.running,
            final(self)@.exited == old(self)@.exited,
    {
        if !self.accepting {
            return;
        }
        self.accepting = false;
        let ghost q0 = self.queue@;
        let mut i: usize = 0;
        while i < self.size
            invariant
                old(self)@.wf(),
                old(self)@.accepting,
                self.size == old(self)@.size,
                self.running@ == old(self)@.running,
                self.exited@ == old(self)@.exited,
                !self.accepting,
                i <= self.size,
                self.queue@ == q0 + Seq::new(i as nat, |k: int| Message::Terminate),
                no_terminates(q0),
            decreases self.size - i,
        {
            self.queue.push(Message::Terminate);
            proof {
                assert(self.queue@ =~= q0 + Seq::new((i + 1) as nat, |k: int| Message::Terminate));
            }
            i += 1;
        }
        proof {
            let q = self.queue@;
            assert forall|a: int, b: int|
                0 <= a < b < q.len() && #[trigger] q[a] == Message::Terminate implies #[trigger] q[b]
                == Message::Terminate by {
                if a < q0.len() {
                    assert(q[a] == q0[a]);
                }
            }
        }
    }

    /// What idle worker `w` does next: run the job at the front of the queue,
    /// stop where a terminate message is there, or wait on an empty queue.
    pub fn next(&mut self, w: usize) -> (r: Action)
        requires
            old(self)@.wf(),
        ensures
            final(self)@.wf(),
            final(self)@.size == old(self)@.size,
            final(self)@.accepting == old(self)@.accepting,
            !old(self)@.idle(w as int) ==> final(self)@ == old(self)@,
            (w >= old(self)@.size || old(self)@.exited[w as int]) ==> r == Action::Exit,
            (w < old(self)@.size && !old(self)@.exited[w as int] && old(self)@.running[w as int] is Some)
                ==> r == Action::Wait,
            old(self)@.idle(w as int) && old(self)@.queue.len() == 0 ==> r == Action::Wait
                && final(self)@ == old(self)@,
            old(self)@.idle(w as int) && old(self)@.queue.len() > 0 ==> final(self)@.queue == old(
                self,
            )@.queue.drop_first(),
            old(self)@.idle(w as int) && old(self)@.queue.len() > 0 && old(self)@.queue[0] is NewJob
                ==> {
                &&& r == Action::Run(old(self)@.queue[0]->NewJob_0)
                &&& final(self)@.running == old(self)@.running.update(
                    w as int,
                    Some(old(self)@.queue[0]->NewJob_0),
                )
                &&& final(self)@.exited == old(self)@.exited
            },
            old(self)@.idle(w as int) && old(self)@.queue.len() > 0 && old(self)@.queue[0]
                == Message::Terminate ==> {
                &&& r == Action::Exit
                &&& final(self)@.running == old(self)@.running
                &&& final(self)@.exited == old(self)@.exited.update(w as int, true)
            },
    {
        if w >= self.size || self.exited[w] {
            return Action::Exit;
        }
        if self.running[w].is_some() {
            return Action::Wait;
        }
        if self.queue.len() == 0 {
            return Action::Wait;
        }
        let ghost q = self.queue@;
        let m = self.queue.remove(0);
        assert(self.queue@ =~= q.drop_first());
        match m {
            Message::NewJob(id) => {
                self.running.set(w, Some(id));
                Action::Run(id)
            },
            Message::Terminate => {
                proof {
                    assert forall|i: int| 0 <= i < self.queue@.len() implies #[trigger] self.queue@[i]
                        == Message::Terminate by {
                        assert(q[0] == Message::Terminate);
                        assert(q[i + 1] == self.queue@[i]);
                    }
                }
                self.exited.set(w, true);
                assert(self.exited@[w as int]);
                Action::Exit
            },
        }
    }

    /// Worker `w` has finished its job.
    pub fn done(&mut self, w: usize)
        requires
            old(self)@.wf(),
        ensures
            final(self)@.wf(),
            w < old(self)@.size ==> final(self)@ == (PoolView {
                running: old(self)@.running.update(w as int, None),
                ..old(self)@
            }),
            w >= old(self)@.size ==> final(self)@ == old(self)@,
    {
        if w >= self.size {
            return;
        }
        self.running.set(w, None);
    }

    /// Whether every worker has stopped.
    pub fn is_finished(&self) -> (r: bool)
        requires
            self@.wf(),
        ensures
            r == self@.finished(),
    {
        let mut w: usize = 0;
        while w < self.size
            invariant
                self@.wf(),
                w <= self.size,
                forall|k: int| 0 <= k < w ==> #[trigger] self.exited@[k],
            decreases self.size - w,
        {
            if !self.exited[w] {
                return false;
            }
            w += 1;
        }
        true
    }
}

} // verus!
