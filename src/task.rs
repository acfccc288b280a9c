//! Work run off the host thread. `SuccessTask` is the work and its
//! completion. `Dispatcher` models the hand-back of results to the host:
//! each scheduled task moves once through its states and its result is
//! handed over exactly once, one at a time. It is a model that a host loop
//! can drive; a host whose own task queue does the hand-back does not use it.
use vstd::prelude::*;

verus! {

/// What the host's completion callback receives: an error message, or the
/// value produced.
pub enum Completion {
    Value(i32),
    Failed(String),
}

pub open spec fn completion_spec(result: Result<i32, String>, c: Completion) -> bool {
    match result {
        Ok(n) => c == Completion::Value(n),
        Err(m) => c is Failed && c->Failed_0@ == m@,
    }
}

/// The value handed to the host for a task's result.
pub fn completion_of(result: Result<i32, String>) -> (c: Completion)
    ensures
        completion_spec(result, c),
{
    match result {
        Ok(n) => Completion::Value(n),
        Err(m) => Completion::Failed(m),
    }
}

/// The value that the demonstration task always produces.
pub const SUCCESS_VALUE: i32 = 17;

/// Work that always succeeds with `SUCCESS_VALUE`.
pub struct SuccessTask;

impl SuccessTask {
    pub fn perform(&self) -> (r: Result<i32, String>)
        ensures
            r == Ok::<i32, String>(SUCCESS_VALUE),
    {
        Ok(SUCCESS_VALUE)
    }

    pub fn complete(self, result: Result<i32, String>) -> (c: Completion)
        ensures
            completion_spec(result, c),
    {
        completion_of(result)
    }
}

#[derive(PartialEq, Eq, Structural, Clone, Copy, Debug)]
pub enum TaskState {
    Scheduled,
    Running,
    /// The result waits for the host.
    Finished,
    /// The result has been handed to the host.
    Delivered,
}

/// Tracks every task scheduled so far, by index, and the finished results
/// that wait to be handed to the host.
pub struct Dispatcher {
    states: Vec<TaskState>,
    ready: Vec<(usize, Completion)>,
}

impl Dispatcher {
    pub closed spec fn states(&self) -> Seq<TaskState> {
        self.states@
    }

    pub closed spec fn ready(&self) -> Seq<(usize, Completion)> {
        self.ready@
    }

    /// Every waiting result belongs to a finished task, each finished task
    /// has exactly one waiting result.
    pub closed spec fn wf(&self) -> bool {
        &&& forall|k: int|
            0 <= k < self.ready@.len() ==> (#[trigger] self.ready@[k]).0 < self.states@.len()
                && self.states@[self.ready@[k].0 as int] == TaskState::Finished
        &&& forall|k: int, l: int|
            0 <= k < l < self.ready@.len() ==> (#[trigger] self.ready@[k]).0 != (
            #[trigger] self.ready@[l]).0
        &&& forall|id: int|
            0 <= id < self.states@.len() && #[trigger] self.states@[id] == TaskState::Finished
                ==> exists|k: int| 0 <= k < self.ready@.len() && (#[trigger] self.ready@[k]).0 == id
    }

    pub fn new() -> (d: Dispatcher)
        ensures
            d.wf(),
            d.states().len() == 0,
            d.ready().len() == 0,
    {
        Dispatcher { states: Vec::new(), ready: Vec::new() }
    }

    /// Registers a new task and returns its index. Nothing is handed to the
    /// host here: completions only come out of `dispatch_next`.
    pub fn schedule(&mut self) -> (id: usize)
        requires
            old(self).wf(),
            old(self).states().len() < usize::MAX,
        ensures
            final(self).wf(),
            id == old(self).states().len(),
            final(self).states() == old(self).states().push(TaskState::Scheduled),
            final(self).ready() == old(self).ready(),
    {
        let id = self.states.len();
        self.states.push(TaskState::Scheduled);
        proof {
            assert forall|i: int|
                0 <= i < self.states@.len() && #[trigger] self.states@[i] == TaskState::Finished
                    implies exists|k: int|
                0 <= k < self.ready@.len() && (#[trigger] self.ready@[k]).0 == i by {
                assert(i < old(self).states@.len());
                assert(old(self).states@[i] == TaskState::Finished);
                let k = choose|k: int|
                    0 <= k < old(self).ready@.len() && (#[trigger] old(self).ready@[k]).0 == i;
                assert(self.ready@[k].0 == i);
            }
        }
        id
    }

    /// A worker takes up task `id`; only a scheduled task can start.
    pub fn start(&mut self, id: usize) -> (ok: bool)
        requires
            old(self).wf(),
        ensures
            final(self).wf(),
            ok == (id < old(self).states().len() && old(self).states()[id as int]
                == TaskState::Scheduled),
            ok ==> final(self).states() == old(self).states().update(id as int, TaskState::Running),
            !ok ==> final(self).states() == old(self).states(),
            final(self).ready() == old(self).ready(),
    {
        if id < self.states.len() && self.states[id] == TaskState::Scheduled {
            self.states.set(id, TaskState::Running);
            proof {
                assert forall|i: int|
                    0 <= i < self.states@.len() && #[trigger] self.states@[i] == TaskState::Finished
                        implies exists|k: int|
                    0 <= k < self.ready@.len() && (#[trigger] self.ready@[k]).0 == i by {
                    assert(old(self).states@[i] == TaskState::Finished);
                }
            }
            true
        } else {
            false
        }
    }

    /// Task `id` has produced `result`, which now waits for the host; only
    /// a running task can finish.
    pub fn finish(&mut self, id: usize, result: Result<i32, String>) -> (ok: bool)
        requires
            old(self).wf(),
        ensures
            final(self).wf(),
            ok == (id < old(self).states().len() && old(self).states()[id as int]
                == TaskState::Running),
            ok ==> final(self).states() == old(self).states().update(id as int, TaskState::Finished)
                && final(self).ready().len() == old(self).ready().len() + 1
                && final(self).ready().drop_last() == old(self).ready()
                && final(self).ready().last().0 == id
                && completion_spec(result, final(self).ready().last().1),
            !ok ==> final(self).states() == old(self).states() && final(self).ready() == old(self).ready(),
    {
        if id < self.states.len() && self.states[id] == TaskState::Running {
            self.states.set(id, TaskState::Finished);
            self.ready.push((id, completion_of(result)));
            proof {
                let n = old(self).ready@.len() as int;
                assert(self.ready@.drop_last() =~= old(self).ready@);
                assert forall|k: int| 0 <= k < self.ready@.len() implies (#[trigger] self.ready@[k]).0
                    < self.states@.len() && self.states@[self.ready@[k].0 as int]
                    == TaskState::Finished by {
                    if k < n {
                        assert(self.ready@[k] == old(self).ready@[k]);
                    }
                }
                assert forall|k: int, l: int| 0 <= k < l < self.ready@.len() implies (
                #[trigger] self.ready@[k]).0 != (#[trigger] self.ready@[l]).0 by {
                    assert(self.ready@[k] == old(self).ready@[k]);
                    if l < n {
                        assert(self.ready@[l] == old(self).ready@[l]);
                    }
                }
                assert forall|i: int|
                    0 <= i < self.states@.len() && #[trigger] self.states@[i] == TaskState::Finished
                        implies exists|k: int|
                    0 <= k < self.ready@.len() && (#[trigger] self.ready@[k]).0 == i by {
                    if i == id {
                        assert(self.ready@[n].0 == i);
                    } else {
                        assert(old(self).states@[i] == TaskState::Finished);
                        let k = choose|k: int|
                            0 <= k < old(self).ready@.len() && (#[trigger] old(self).ready@[k]).0 == i;
                        assert(self.ready@[k] == old(self).ready@[k]);
                    }
                }
            }
            true
        } else {
            false
        }
    }

    /// Hands one waiting result to the host, if there is one, and marks its
    /// task delivered.
    pub fn dispatch_next(&mut self) -> (r: Option<(usize, Completion)>)
        requires
            old(self).wf(),
        ensures
            final(self).wf(),
            r is None <==> old(self).ready().len() == 0,
            r is None ==> final(self).states() == old(self).states() && final(self).ready() == old(self).ready(),
            r is Some ==> {
                let (id, c) = r->Some_0;
                &&& (id, c) == old(self).ready().last()
                &&& old(self).states()[id as int] == TaskState::Finished
                &&& final(self).ready() == old(self).ready().drop_last()
                &&& final(self).states() == old(self).states().update(id as int, TaskState::Delivered)
            },
    {
        match self.ready.pop() {
            None => None,
            Some((id, c)) => {
                proof {
                    let n = self.ready@.len() as int;
                    assert(old(self).ready@[n].0 == id);
                }
                self.states.set(id, TaskState::Delivered);
                proof {
                    let n = self.ready@.len() as int;
                    assert forall|k: int| 0 <= k < self.ready@.len() implies (
                    #[trigger] self.ready@[k]).0 < self.states@.len() && self.states@[self.ready@[k].0 as int]
                        == TaskState::Finished by {
                        assert(self.ready@[k] == old(self).ready@[k]);
                        assert(old(self).ready@[k].0 != old(self).ready@[n].0);
                    }
                    assert forall|k: int, l: int| 0 <= k < l < self.ready@.len() implies (
                    #[trigger] self.ready@[k]).0 != (#[trigger] self.ready@[l]).0 by {
                        assert(self.ready@[k] == old(self).ready@[k]);
                        assert(self.ready@[l] == old(self).ready@[l]);
                    }
                    assert forall|i: int|
                        0 <= i < self.states@.len() && #[trigger] self.states@[i] == TaskState::Finished
                            implies exists|k: int|
                        0 <= k < self.ready@.len() && (#[trigger] self.ready@[k]).0 == i by {
                        assert(old(self).states@[i] == TaskState::Finished);
                        let k = choose|k: int|
                            0 <= k < old(self).ready@.len() && (#[trigger] old(self).ready@[k]).0 == i;
                        assert(k != n);
                        assert(self.ready@[k] == old(self).ready@[k]);
                    }
                }
                Some((id, c))
            },
        }
    }

    /// Hands every waiting result to the host, one after another, the most
    /// recently finished first.
    pub fn drain(&mut self) -> (r: Vec<(usize, Completion)>)
        requires
            old(self).wf(),
        ensures
            final(self).wf(),
            r@ == old(self).ready().reverse(),
            final(self).ready().len() == 0,
            final(self).states().len() == old(self).states().len(),
            forall|id: int|
                0 <= id < old(self).states().len() ==> #[trigger] final(self).states()[id] == if old(
                    self,
                ).states()[id] == TaskState::Finished {
                    TaskState::Delivered
                } else {
                    old(self).states()[id]
                },
    {
        let ghost orig = *self;
        let ghost n = self.ready@.len();
        let mut out: Vec<(usize, Completion)> = Vec::new();
        while self.ready.len() > 0
            invariant
                self.wf(),
                orig.wf(),
                n == orig.ready@.len(),
                out@.len() <= n,
                self.ready@ == orig.ready@.subrange(0, n - out@.len()),
                out@ == orig.ready@.subrange(n - out@.len(), n as int).reverse(),
                self.states@.len() == orig.states@.len(),
                forall|id: int|
                    0 <= id < orig.states@.len() ==> #[trigger] self.states@[id] == if orig.states@[id]
                        == TaskState::Finished {
                        if self.states@[id] == TaskState::Finished {
                            TaskState::Finished
                        } else {
                            TaskState::Delivered
                        }
                    } else {
                        orig.states@[id]
                    },
            decreases self.ready@.len(),
        {
            let ghost before = *self;
            let item = self.dispatch_next();
            match item {
                Some(x) => {
                    proof {
                        let m = out@.len();
                        assert(x == orig.ready@[n - m - 1]);
                        assert(self.ready@ =~= orig.ready@.subrange(0, n - m - 1));
                        assert(orig.ready@.subrange(n - m - 1, n as int) =~= seq![x]
                            + orig.ready@.subrange(n - m, n as int));
                        assert forall|id: int| 0 <= id < orig.states@.len() implies #[trigger] self.states@[id]
                            == if orig.states@[id] == TaskState::Finished {
                            if self.states@[id] == TaskState::Finished {
                                TaskState::Finished
                            } else {
                                TaskState::Delivered
                            }
                        } else {
                            orig.states@[id]
                        } by {
                            assert(before.states@[id] == self.states@[id] || id == x.0);
                        }
                    }
                    out.push(x);
                    proof {
                        let m = out@.len();
                        assert(out@ =~= orig.ready@.subrange(n - m, n as int).reverse());
                    }
                },
                None => {},
            }
        }
        proof {
            assert(orig.ready@.subrange(0, n as int) =~= orig.ready@);
            assert forall|id: int| 0 <= id < orig.states@.len() implies #[trigger] self.states@[id]
                != TaskState::Finished by {
                if self.states@[id] == TaskState::Finished {
                    let k = choose|k: int| 0 <= k < self.ready@.len() && (#[trigger] self.ready@[k]).0 == id;
                }
            }
        }
        out
    }

    /// The state of task `id`, if it was ever scheduled.
    pub fn state(&self, id: usize) -> (r: Option<TaskState>)
        ensures
            r == (if id < self.states().len() {
                Some(self.states()[id as int])
            } else {
                None
            }),
    {
        if id < self.states.len() {
            Some(self.states[id])
        } else {
            None
        }
    }

    /// How many results wait for the host.
    pub fn waiting(&self) -> (r: usize)
        ensures
            r == self.ready().len(),
    {
        self.ready.len()
    }
}

/// A finished task's result waits for the host exactly once.
pub proof fn lemma_finished_waits_once(d: Dispatcher, id: usize)
    requires
        d.wf(),
        id < d.states().len(),
        d.states()[id as int] == TaskState::Finished,
    ensures
        exists|k: int| 0 <= k < d.ready().len() && (#[trigger] d.ready()[k]).0 == id,
        forall|k: int, l: int|
            0 <= k < d.ready().len() && 0 <= l < d.ready().len() && (#[trigger] d.ready()[k]).0 == id
                && (#[trigger] d.ready()[l]).0 == id ==> k == l,
{
    assert(d.states@[id as int] == TaskState::Finished);
    let w = choose|k: int| 0 <= k < d.ready@.len() && (#[trigger] d.ready@[k]).0 == id;
    assert(d.ready()[w].0 == id);
    assert forall|k: int, l: int|
        0 <= k < d.ready().len() && 0 <= l < d.ready().len() && (#[trigger] d.ready()[k]).0 == id
            && (#[trigger] d.ready()[l]).0 == id implies k == l by {
        if k < l {
            assert(d.ready@[k].0 != d.ready@[l].0);
        } else if l < k {
            assert(d.ready@[l].0 != d.ready@[k].0);
        }
    }
}

/// A task whose result the host has received has nothing left waiting, so
/// it is never handed over a second time.
pub proof fn lemma_delivered_once(d: Dispatcher, id: usize)
    requires
        d.wf(),
        id < d.states().len(),
        d.states()[id as int] == TaskState::Delivered,
    ensures
        forall|k: int| 0 <= k < d.ready().len() ==> (#[trigger] d.ready()[k]).0 != id,
{
}

/// The demonstration task hands the host no error and the value 17.
pub proof fn lemma_success_completion(c: Completion)
    requires
        completion_spec(Ok::<i32, String>(SUCCESS_VALUE), c),
    ensures
        c == Completion::Value(17),
{
}

} // verus!
