//! The books of a worker pool: which jobs wait, in what order, and how many
//! workers are at work.
//!
//! The pool itself, with its threads, is the caller's. It keeps one `Pool`
//! behind a lock. A submitter enters a job with `execute`; a worker that is
//! free asks for the next job with `next`, runs it, and reports with `done`.

use vstd::prelude::*;
use std::collections::VecDeque;

verus! {

/// The books of a pool with a fixed number of workers.
pub struct Pool<T> {
    workers: usize,
    running: usize,
    waiting: VecDeque<T>,
    accepted: Ghost<Seq<T>>,
    started: Ghost<Seq<T>>,
    finished: Ghost<nat>,
}

impl<T> Pool<T> {
    /// What holds of the books at all times: `new` makes them sound, and
    /// every method keeps them so.
    pub closed spec fn sound(self) -> bool {
        &&& 1 <= self.workers
        &&& self.running <= self.workers
        &&& self.accepted@ == self.started@ + self.waiting@
        &&& self.started@.len() == self.finished@ + self.running
    }

    /// The number of workers.
    pub closed spec fn workers(self) -> nat {
        self.workers as nat
    }

    /// The number of workers that are running a job.
    pub closed spec fn running(self) -> nat {
        self.running as nat
    }

    /// The jobs that no worker has taken yet, oldest first.
    pub closed spec fn waiting(self) -> Seq<T> {
        self.waiting@
    }

    /// Every job that was ever entered, in the order of entry.
    pub closed spec fn accepted(self) -> Seq<T> {
        self.accepted@
    }

    /// Every job that a worker has taken, in the order of taking.
    pub closed spec fn started(self) -> Seq<T> {
        self.started@
    }

    /// The number of jobs that were reported done.
    pub closed spec fn finished(self) -> nat {
        self.finished@
    }

    /// In sound books every job that was entered stands once, at its place in
    /// the order of entry: among the jobs taken, or behind them among those
    /// that wait. No more jobs run than there are workers, and the jobs taken
    /// are those done and those running.
    pub proof fn lemma_sound(self)
        requires
            self.sound(),
        ensures
            self.accepted() == self.started() + self.waiting(),
            1 <= self.workers(),
            self.running() <= self.workers(),
            self.started().len() == self.finished() + self.running(),
            self.waiting().len() == 0 && self.running() == 0 ==> self.finished()
                == self.accepted().len(),
    {
    }

    /// The books of a pool of `workers` workers, with no job entered yet. A
    /// pool without workers is refused.
    pub fn new(workers: usize) -> (r: Option<Self>)
        ensures
            r is None <==> workers == 0,
            r matches Some(pool) ==> {
                &&& pool.sound()
                &&& pool.workers() == workers
                &&& pool.running() == 0
                &&& pool.finished() == 0
                &&& pool.accepted() == Seq::<T>::empty()
                &&& pool.started() == Seq::<T>::empty()
                &&& pool.waiting() == Seq::<T>::empty()
            },
    {
        if workers == 0 {
            return None;
        }
        let pool = Pool {
            workers,
            running: 0,
            waiting: VecDeque::new(),
            accepted: Ghost(Seq::empty()),
            started: Ghost(Seq::empty()),
            finished: Ghost(0),
        };
        Some(pool)
    }

    /// Enters `job` behind the jobs that wait. This never waits for a worker.
    pub fn execute(&mut self, job: T)
        requires
            old(self).sound(),
        ensures
            final(self).sound(),
            final(self).accepted() == old(self).accepted().push(job),
            final(self).waiting() == old(self).waiting().push(job),
            final(self).started() == old(self).started(),
            final(self).running() == old(self).running(),
            final(self).finished() == old(self).finished(),
            final(self).workers() == old(self).workers(),
    {
        self.waiting.push_back(job);
        self.accepted = Ghost(self.accepted@.push(job));
    }

    /// Hands the oldest waiting job to a worker that is free. There is none
    /// to hand out where no job waits, or where every worker is at work.
    pub fn next(&mut self) -> (r: Option<T>)
        requires
            old(self).sound(),
        ensures
            final(self).sound(),
            final(self).accepted() == old(self).accepted(),
            final(self).finished() == old(self).finished(),
            final(self).workers() == old(self).workers(),
            r is Some <==> old(self).waiting().len() > 0 && old(self).running() < old(
                self,
            ).workers(),
            match r {
                Some(job) => {
                    &&& job == old(self).waiting()[0]
                    &&& job == old(self).accepted()[old(self).started().len() as int]
                    &&& final(self).waiting() == old(self).waiting().drop_first()
                    &&& final(self).started() == old(self).started().push(job)
                    &&& final(self).running() == old(self).running() + 1
                },
                None => {
                    &&& final(self).waiting() == old(self).waiting()
                    &&& final(self).started() == old(self).started()
                    &&& final(self).running() == old(self).running()
                },
            },
    {
        if self.running >= self.workers {
            return None;
        }
        match self.waiting.pop_front() {
            Some(job) => {
                self.running = self.running + 1;
                self.started = Ghost(self.started@.push(job));
                proof {
                    assert(self.started@ + self.waiting@ =~= old(self).started@ + old(
                        self,
                    ).waiting@);
                }
                Some(job)
            },
            None => None,
        }
    }

    /// Books that a worker is free again. Returns whether any was at work.
    pub fn done(&mut self) -> (r: bool)
        requires
            old(self).sound(),
        ensures
            final(self).sound(),
            r == (old(self).running() > 0),
            final(self).running() == if r {
                old(self).running() - 1
            } else {
                0
            },
            final(self).finished() == if r {
                old(self).finished() + 1
            } else {
                old(self).finished()
            },
            final(self).accepted() == old(self).accepted(),
            final(self).waiting() == old(self).waiting(),
            final(self).started() == old(self).started(),
            final(self).workers() == old(self).workers(),
    {
        if self.running == 0 {
            return false;
        }
        self.running = self.running - 1;
        self.finished = Ghost(self.finished@ + 1);
        true
    }
}

} // verus!
