use vstd::prelude::*;

use crate::error::{Error, ErrorKind};
use crate::project::{loc_text_view, restart_delay_view, Loc, RunConfig};
use crate::fs::opt_view;
use crate::text::{push_str, string_of};

verus! {

/// Relies on `rand::random_range`: a draw from `0..hi`, which it refuses
/// (panics on) when empty.
#[verifier::external_body]
pub(crate) fn random_below(hi: u32) -> (r: u32)
    requires
        hi > 0,
    ensures
        r < hi,
{
    rand::random_range(0..hi)
}

/// Seconds to wait, drawn below `max` when it is set and positive, else none.
pub fn draw_delay(max: Option<u32>) -> (r: u32)
    ensures
        match max {
            Some(d) => if d > 0 {
                r < d
            } else {
                r == 0
            },
            None => r == 0,
        },
{
    match max {
        Some(d) => if d > 0 {
            random_below(d)
        } else {
            0
        },
        None => 0,
    }
}

/// What to do after a run of a job under a run configuration.
#[derive(Debug)]
pub enum JobStep {
    /// The job succeeded: run its on-success command and go on.
    Done,
    /// Wait some seconds below `max_delay` (when set), then run it again.
    Retry { max_delay: Option<u32> },
    /// Stop with this error.
    Fail(Error),
}

impl RunConfig {
    /// Seconds to wait before the first job: below the configured maximum
    /// when it is set and positive, else none.
    pub fn initial_delay(&self) -> (r: u16)
        ensures
            match self.max_initial_delay_secs {
                Some(d) => if d > 0 {
                    r < d
                } else {
                    r == 0
                },
                None => r == 0,
            },
    {
        match self.max_initial_delay_secs {
            Some(d) => if d > 0 {
                random_below(d as u32) as u16
            } else {
                0
            },
            None => 0,
        }
    }

    /// The step after run number `attempt` (from 0) of a job, given whether
    /// it exited with success (`None` when it could not be run): success
    /// ends the job; a failed exit is retried while `attempt` is below the
    /// restart cap; anything else fails.
    pub fn job_step(&self, job_loc: &Loc, attempt: usize, outcome: Option<bool>) -> (r: JobStep)
        ensures
            outcome == Some(true) ==> r is Done,
            outcome == Some(false) && (attempt as int) < (match self.max_restart_count {
                Some(c) => c as int,
                None => 0,
            }) ==> (r matches JobStep::Retry { max_delay } && match max_delay {
                Some(d) => restart_delay_view(
                    self.restart_delay_secs@,
                    self.max_restart_jitter,
                    attempt as int,
                ) == Some(d as int),
                None => restart_delay_view(
                    self.restart_delay_secs@,
                    self.max_restart_jitter,
                    attempt as int,
                ) is None,
            }),
            outcome == Some(false) && (attempt as int) >= (match self.max_restart_count {
                Some(c) => c as int,
                None => 0,
            }) ==> (r matches JobStep::Fail(e) && e.kind == ErrorKind::Other),
            outcome is None ==> (r matches JobStep::Fail(e) && e.kind == ErrorKind::Other),
    {
        match outcome {
            Some(true) => JobStep::Done,
            Some(false) => {
                let cap: usize = match self.max_restart_count {
                    Some(c) => c as usize,
                    None => 0,
                };
                if attempt < cap {
                    JobStep::Retry { max_delay: self.restart_delay(attempt) }
                } else if self.max_restart_count.is_some() {
                    JobStep::Fail(Error::new(ErrorKind::Other, loc_message(job_loc, " max restarts reached")))
                } else {
                    JobStep::Fail(Error::new(ErrorKind::Other, loc_message(job_loc, " exited with failure")))
                }
            },
            None => JobStep::Fail(Error::new(ErrorKind::Other, loc_message(job_loc, " could not be run, giving up"))),
        }
    }
}

/// The place as it reads in messages, followed by `what`.
fn loc_message(loc: &Loc, what: &str) -> (r: String)
    ensures
        r@ == loc_text_view(opt_view(loc.task_name), loc.job_num, loc.proj_name@) + what@,
{
    let text = loc.to_text();
    let mut buf: Vec<char> = Vec::new();
    push_str(&mut buf, text.as_str());
    push_str(&mut buf, what);
    string_of(&buf)
}

/// The result of running a job once without a run configuration, given
/// whether it exited with success (`None` when it could not be run). On
/// success the caller runs the job's on-success command.
pub fn run_job_no_config(job_loc: &Loc, outcome: Option<bool>) -> (r: Result<(), Error>)
    ensures
        r is Ok <==> outcome == Some(true),
        r matches Err(e) ==> e.kind == ErrorKind::Other,
{
    match outcome {
        Some(true) => Ok(()),
        Some(false) => Err(Error::new(ErrorKind::Other, loc_message(job_loc, " exited with failure"))),
        None => Err(Error::new(ErrorKind::Other, loc_message(job_loc, " could not be run, giving up"))),
    }
}

/// The position of `task` among the counters.
pub open spec fn counter_at(v: Seq<(String, usize)>, task: Seq<char>, i: int) -> bool {
    0 <= i < v.len() && v[i].0@ == task
}

/// Counters with distinct tasks, each above zero.
pub open spec fn counters_wf(v: Seq<(String, usize)>) -> bool {
    &&& forall|i: int, j: int| 0 <= i < j < v.len() ==> v[i].0@ != v[j].0@
    &&& forall|i: int| 0 <= i < v.len() ==> v[i].1 > 0
}

/// The number of children of `task` still running, when it has a hook.
pub open spec fn pending_of(v: Seq<(String, usize)>, task: Seq<char>) -> nat {
    if exists|i: int| counter_at(v, task, i) {
        v[choose|i: int| counter_at(v, task, i)].1 as nat
    } else {
        0
    }
}

/// Counts, for each parallel task with an on-success hook, its children
/// that still run; the hook runs when the last one exits with success, and
/// never once one has failed.
pub struct Pending {
    pub counts: Vec<(String, usize)>,
}

proof fn lemma_pending_at(v: Seq<(String, usize)>, task: Seq<char>, i: int)
    requires
        counters_wf(v),
        counter_at(v, task, i),
    ensures
        pending_of(v, task) == v[i].1,
{
    let j = choose|j: int| counter_at(v, task, j);
    if i != j {
        if i < j {
            assert(v[i].0@ != v[j].0@);
        } else {
            assert(v[j].0@ != v[i].0@);
        }
    }
}

/// The position of `task` among the counters, if it has one.
fn find_counter(v: &Vec<(String, usize)>, task: &String) -> (r: Option<usize>)
    ensures
        r matches Some(i) ==> counter_at(v@, task@, i as int),
        r is None ==> forall|i: int| !counter_at(v@, task@, i),
{
    let mut i: usize = 0;
    while i < v.len()
        invariant
            0 <= i <= v.len(),
            forall|j: int| 0 <= j < i ==> v@[j].0@ != task@,
        decreases v.len() - i,
    {
        if v[i].0 == *task {
            return Some(i);
        }
        i = i + 1;
    }
    None
}

impl Pending {
    pub fn new() -> (r: Pending)
        ensures
            r.counts@.len() == 0,
    {
        Pending { counts: Vec::new() }
    }

    /// A child of `task`, whose task has an on-success hook, was started.
    pub fn started(&mut self, task: &String)
        requires
            counters_wf(old(self).counts@),
            pending_of(old(self).counts@, task@) < usize::MAX,
        ensures
            counters_wf(final(self).counts@),
            pending_of(final(self).counts@, task@) == pending_of(old(self).counts@, task@) + 1,
            forall|t: Seq<char>|
                t != task@ ==> pending_of(final(self).counts@, t) == pending_of(old(self).counts@, t),
    {
        let ghost old_v = self.counts@;
        match find_counter(&self.counts, task) {
            Some(i) => {
                proof {
                    lemma_pending_at(old_v, task@, i as int);
                }
                let (name, n) = self.counts.remove(i);
                self.counts.insert(i, (name, n + 1));
                let ghost new_v = self.counts@;
                assert(new_v =~= old_v.update(i as int, (name, (n + 1) as usize)));
                assert(counters_wf(new_v));
                proof {
                    lemma_pending_at(new_v, task@, i as int);
                    assert forall|t: Seq<char>| t != task@ implies pending_of(new_v, t) == pending_of(old_v, t) by {
                        if exists|k: int| counter_at(old_v, t, k) {
                            let k = choose|k: int| counter_at(old_v, t, k);
                            assert(k != i);
                            assert(counter_at(new_v, t, k));
                            lemma_pending_at(old_v, t, k);
                            lemma_pending_at(new_v, t, k);
                        } else {
                            assert forall|k: int| !counter_at(new_v, t, k) by {
                                if counter_at(new_v, t, k) {
                                    assert(counter_at(old_v, t, k));
                                }
                            }
                        }
                    }
                }
            },
            None => {
                self.counts.push((task.clone(), 1));
                let ghost new_v = self.counts@;
                let ghost last = (new_v.len() - 1) as int;
                assert(counter_at(new_v, task@, last));
                assert(counters_wf(new_v)) by {
                    assert forall|i: int, j: int| 0 <= i < j < new_v.len() implies new_v[i].0@ != new_v[j].0@ by {
                        if j == last {
                            assert(!counter_at(old_v, task@, i));
                        }
                    }
                }
                proof {
                    lemma_pending_at(new_v, task@, last);
                    assert forall|t: Seq<char>| t != task@ implies pending_of(new_v, t) == pending_of(old_v, t) by {
                        if exists|k: int| counter_at(old_v, t, k) {
                            let k = choose|k: int| counter_at(old_v, t, k);
                            assert(counter_at(new_v, t, k));
                            lemma_pending_at(old_v, t, k);
                            lemma_pending_at(new_v, t, k);
                        } else {
                            assert forall|k: int| !counter_at(new_v, t, k) by {
                                if counter_at(new_v, t, k) && k < last {
                                    assert(counter_at(old_v, t, k));
                                }
                            }
                        }
                    }
                }
            },
        }
    }

    /// A child of `task` exited. A failure drops the task's count, so its
    /// hook never runs; a success lowers it. Returns whether the hook is to
    /// run now: the count of a task with a hook reached zero.
    pub fn finished(&mut self, task: &String, success: bool) -> (r: bool)
        requires
            counters_wf(old(self).counts@),
        ensures
            counters_wf(final(self).counts@),
            r == (success && pending_of(old(self).counts@, task@) == 1),
            pending_of(final(self).counts@, task@) == if success && pending_of(
                old(self).counts@,
                task@,
            ) > 0 {
                (pending_of(old(self).counts@, task@) - 1) as nat
            } else {
                0
            },
            forall|t: Seq<char>|
                t != task@ ==> pending_of(final(self).counts@, t) == pending_of(old(self).counts@, t),
    {
        let ghost old_v = self.counts@;
        match find_counter(&self.counts, task) {
            Some(i) => {
                proof {
                    lemma_pending_at(old_v, task@, i as int);
                }
                let (name, n) = self.counts.remove(i);
                let ghost mid = self.counts@;
                assert(mid =~= old_v.remove(i as int));
                if success && n > 1 {
                    self.counts.insert(i, (name, n - 1));
                    let ghost new_v = self.counts@;
                    assert(new_v =~= old_v.update(i as int, (name, (n - 1) as usize)));
                    proof {
                        lemma_pending_at(new_v, task@, i as int);
                        assert forall|t: Seq<char>| t != task@ implies pending_of(new_v, t) == pending_of(old_v, t) by {
                            if exists|k: int| counter_at(old_v, t, k) {
                                let k = choose|k: int| counter_at(old_v, t, k);
                                assert(counter_at(new_v, t, k));
                                lemma_pending_at(old_v, t, k);
                                lemma_pending_at(new_v, t, k);
                            } else {
                                assert forall|k: int| !counter_at(new_v, t, k) by {
                                    if counter_at(new_v, t, k) {
                                        assert(counter_at(old_v, t, k));
                                    }
                                }
                            }
                        }
                    }
                    false
                } else {
                    let ghost new_v = self.counts@;
                    proof {
                        assert forall|k: int| !counter_at(new_v, task@, k) by {
                            if counter_at(new_v, task@, k) {
                                if k < i {
                                    assert(old_v[k].0@ != old_v[i as int].0@);
                                } else {
                                    assert(old_v[k + 1].0@ != old_v[i as int].0@);
                                }
                            }
                        }
                        assert forall|t: Seq<char>| t != task@ implies pending_of(new_v, t) == pending_of(old_v, t) by {
                            if exists|k: int| counter_at(old_v, t, k) {
                                let k = choose|k: int| counter_at(old_v, t, k);
                                let k2 = if k < i { k } else { k - 1 };
                                assert(counter_at(new_v, t, k2));
                                lemma_pending_at(old_v, t, k);
                                lemma_pending_at(new_v, t, k2);
                            } else {
                                assert forall|k: int| !counter_at(new_v, t, k) by {
                                    if counter_at(new_v, t, k) {
                                        if k < i {
                                            assert(counter_at(old_v, t, k));
                                        } else {
                                            assert(counter_at(old_v, t, k + 1));
                                        }
                                    }
                                }
                            }
                        }
                    }
                    success
                }
            },
            None => {
                false
            },
        }
    }
}

} // verus!
