use vstd::prelude::*;

use crate::fs::opt_view;
use crate::project::{Loc, NormalizedJob, NormalizedProject, NormalizedTask};
use crate::tags::{filter_matches, string_views, tag_set, FilterView, TagFilter};

verus! {

/// The view of an optional tag filter.
pub open spec fn opt_filter_view(tags: Option<&TagFilter>) -> Option<FilterView> {
    match tags {
        Some(f) => Some(f@),
        None => None,
    }
}

/// Whether a filter is present that rejects the tags.
pub open spec fn filtered_out(tags: Seq<String>, f: Option<FilterView>) -> bool {
    match f {
        Some(fv) => !filter_matches(fv, tag_set(tags)),
        None => false,
    }
}

/// A job that runs: admitted by the filter and not disabled.
pub open spec fn job_enabled(job: NormalizedJob, f: Option<FilterView>) -> bool {
    !filtered_out(job.tags@, f) && !job.disabled
}

/// The numbers of the jobs that run, in order.
pub open spec fn enabled_job_nums(jobs: Seq<NormalizedJob>, f: Option<FilterView>) -> Seq<usize>
    decreases jobs.len(),
{
    if jobs.len() == 0 {
        Seq::empty()
    } else {
        enabled_job_nums(jobs.drop_last(), f) + if job_enabled(jobs.last(), f) {
            seq![(jobs.len() - 1) as usize]
        } else {
            Seq::empty()
        }
    }
}

/// A place as its task name and job number.
pub open spec fn loc_view(l: Loc) -> (Option<Seq<char>>, Option<usize>) {
    (opt_view(l.task_name), l.job_num)
}

/// The places of the jobs that run in a task, in order.
pub open spec fn enabled_job_locs(name: Seq<char>, task: NormalizedTask, f: Option<FilterView>) -> Seq<
    (Option<Seq<char>>, Option<usize>),
> {
    enabled_job_nums(task.jobs@, f).map_values(|n: usize| (Some(name), Some(n)))
}

/// What a task contributes to a run of the whole project: nothing when it
/// is disabled; each enabled job of a parallel task; a sequential task
/// admitted by the filter as a whole.
pub open spec fn task_units(name: Seq<char>, task: NormalizedTask, f: Option<FilterView>) -> Seq<
    (Option<Seq<char>>, Option<usize>),
> {
    if task.disabled {
        Seq::empty()
    } else if task.parallel {
        enabled_job_locs(name, task, f)
    } else if filtered_out(task.tags@, f) {
        Seq::empty()
    } else {
        seq![(Some(name), None)]
    }
}

/// What the tasks contribute to a run of the whole project, in order.
pub open spec fn project_units(tasks: Seq<(String, NormalizedTask)>, f: Option<FilterView>) -> Seq<
    (Option<Seq<char>>, Option<usize>),
>
    decreases tasks.len(),
{
    if tasks.len() == 0 {
        Seq::empty()
    } else {
        project_units(tasks.drop_last(), f) + task_units(tasks.last().0@, tasks.last().1, f)
    }
}

/// Either a group of jobs or a task.
#[derive(Debug)]
pub enum TaskOrJob<J, T> {
    Job(J),
    Task(T),
}

/// The items of a list of groups and single items, in order.
pub open spec fn flatten_view<S>(items: Seq<TaskOrJob<Vec<S>, S>>) -> Seq<S>
    decreases items.len(),
{
    if items.len() == 0 {
        Seq::empty()
    } else {
        flatten_view(items.drop_last()) + match items.last() {
            TaskOrJob::Job(v) => v@,
            TaskOrJob::Task(s) => seq![s],
        }
    }
}

/// Walks groups of jobs and single tasks as one list.
pub struct TaskOrJobIter<S> {
    pub items: Vec<TaskOrJob<Vec<S>, S>>,
}

impl<S> TaskOrJobIter<S> {
    pub fn new(items: Vec<TaskOrJob<Vec<S>, S>>) -> (r: TaskOrJobIter<S>)
        ensures
            r.items == items,
    {
        TaskOrJobIter { items }
    }

    /// Every item: those of each group, and each single one, in order.
    pub fn collect_all(self) -> (r: Vec<S>)
        ensures
            r@ == flatten_view(self.items@),
    {
        let mut out: Vec<S> = Vec::new();
        let mut items = self.items;
        let ghost all = items@;
        let mut rev: Vec<TaskOrJob<Vec<S>, S>> = Vec::new();
        while items.len() > 0
            invariant
                all == items@ + rev@.reverse(),
            decreases items.len(),
        {
            let x = items.pop().unwrap();
            let ghost before = rev@;
            rev.push(x);
            assert(before.push(x).reverse() =~= seq![x] + before.reverse());
            assert(items@.push(x) + before.reverse() =~= items@ + (seq![x] + before.reverse()));
        }
        assert(items@ =~= Seq::<TaskOrJob<Vec<S>, S>>::empty());
        assert(all =~= rev@.reverse());
        let ghost mut done: Seq<TaskOrJob<Vec<S>, S>> = Seq::empty();
        while rev.len() > 0
            invariant
                all == done + rev@.reverse(),
                out@ == flatten_view(done),
            decreases rev.len(),
        {
            let x = rev.pop().unwrap();
            let ghost before = done;
            proof {
                done = done.push(x);
                assert(done.drop_last() =~= before);
                assert(rev@.push(x).reverse() =~= seq![x] + rev@.reverse());
                assert(before + (seq![x] + rev@.reverse()) =~= done + rev@.reverse());
            }
            match x {
                TaskOrJob::Job(mut v) => {
                    let ghost vs = v@;
                    let mut k: usize = 0;
                    let mut tmp: Vec<S> = Vec::new();
                    while v.len() > 0
                        invariant
                            vs == v@ + tmp@.reverse(),
                        decreases v.len(),
                    {
                        let y = v.pop().unwrap();
                        let ghost b = tmp@;
                        tmp.push(y);
                        assert(b.push(y).reverse() =~= seq![y] + b.reverse());
                        assert(v@.push(y) + b.reverse() =~= v@ + (seq![y] + b.reverse()));
                    }
                    assert(v@ =~= Seq::<S>::empty());
                    let ghost start = out@;
                    let ghost total = tmp@.reverse();
                    assert(total =~= vs);
                    while tmp.len() > 0
                        invariant
                            start + vs == out@ + tmp@.reverse(),
                        decreases tmp.len(),
                    {
                        let y = tmp.pop().unwrap();
                        let ghost b = out@;
                        out.push(y);
                        assert(tmp@.push(y).reverse() =~= seq![y] + tmp@.reverse());
                        assert(b + (seq![y] + tmp@.reverse()) =~= b.push(y) + tmp@.reverse());
                    }
                    assert(tmp@.reverse() =~= Seq::<S>::empty());
                    assert(out@ =~= start + vs);
                },
                TaskOrJob::Task(s) => {
                    out.push(s);
                },
            }
        }
        assert(rev@.reverse() =~= Seq::<TaskOrJob<Vec<S>, S>>::empty());
        assert(done =~= all);
        out
    }
}

impl NormalizedJob {
    /// The program and its arguments, then the source and the target when
    /// they are set.
    pub fn get_command(&self) -> (r: Vec<String>)
        ensures
            string_views(r@) == string_views(self.command@) + (match self.source {
                Some(s) => seq![s@],
                None => Seq::empty(),
            }) + (match self.target {
                Some(t) => seq![t@],
                None => Seq::empty(),
            }),
    {
        let mut r: Vec<String> = Vec::new();
        let mut i: usize = 0;
        while i < self.command.len()
            invariant
                0 <= i <= self.command.len(),
                string_views(r@) == string_views(self.command@.subrange(0, i as int)),
            decreases self.command.len() - i,
        {
            let ghost before = r@;
            r.push(self.command[i].clone());
            assert(string_views(r@) =~= string_views(before).push(self.command@[i as int]@));
            assert(string_views(self.command@.subrange(0, i + 1)) =~= string_views(
                self.command@.subrange(0, i as int),
            ).push(self.command@[i as int]@));
            i = i + 1;
        }
        assert(self.command@.subrange(0, self.command.len() as int) =~= self.command@);
        let ghost base = string_views(r@);
        if let Some(s) = &self.source {
            r.push(s.clone());
        }
        let ghost mid = string_views(r@);
        assert(mid =~= base + match self.source {
            Some(s) => seq![s@],
            None => Seq::empty(),
        });
        if let Some(t) = &self.target {
            r.push(t.clone());
        }
        assert(string_views(r@) =~= mid + match self.target {
            Some(t) => seq![t@],
            None => Seq::empty(),
        });
        r
    }

    /// Whether a filter is present that rejects the tags of a job.
    pub fn doesnt_match(&self, tags: Option<&TagFilter>) -> (r: bool)
        ensures
            r == filtered_out(self.tags@, opt_filter_view(tags)),
    {
        match tags {
            Some(f) => !f.matches(&self.tags),
            None => false,
        }
    }
}

impl NormalizedTask {
    /// Whether a filter is present that rejects the tags of a task.
    pub fn doesnt_match(&self, tags: Option<&TagFilter>) -> (r: bool)
        ensures
            r == filtered_out(self.tags@, opt_filter_view(tags)),
    {
        match tags {
            Some(f) => !f.matches(&self.tags),
            None => false,
        }
    }

    /// The numbers of the jobs that run: those the filter admits and that
    /// are not disabled, in order.
    pub fn enabled_job_numbers(&self, tags: Option<&TagFilter>) -> (r: Vec<usize>)
        ensures
            r@ == enabled_job_nums(self.jobs@, opt_filter_view(tags)),
    {
        let ghost f = opt_filter_view(tags);
        let mut out: Vec<usize> = Vec::new();
        let mut j: usize = 0;
        while j < self.jobs.len()
            invariant
                f == opt_filter_view(tags),
                0 <= j <= self.jobs.len(),
                out@ == enabled_job_nums(self.jobs@.subrange(0, j as int), f),
            decreases self.jobs.len() - j,
        {
            let job = &self.jobs[j];
            let ghost sub = self.jobs@.subrange(0, j + 1);
            assert(sub.drop_last() =~= self.jobs@.subrange(0, j as int));
            assert(sub.last() == *job);
            assert(enabled_job_nums(sub, f) == enabled_job_nums(sub.drop_last(), f) + if job_enabled(
                sub.last(),
                f,
            ) {
                seq![j]
            } else {
                Seq::empty()
            });
            if !job.doesnt_match(tags) && !job.disabled {
                out.push(j);
            }
            assert(out@ =~= enabled_job_nums(sub, f));
            j = j + 1;
        }
        assert(self.jobs@.subrange(0, self.jobs.len() as int) =~= self.jobs@);
        out
    }

    /// The places of the jobs that run: those the filter admits and that
    /// are not disabled, in order.
    pub fn get_enabled_jobs(&self, task_loc: &Loc, tags: Option<&TagFilter>) -> (r: Vec<Loc>)
        ensures
            r.len() == enabled_job_nums(self.jobs@, opt_filter_view(tags)).len(),
            forall|k: int|
                0 <= k < r.len() ==> (#[trigger] r@[k]).job_num == Some(
                    enabled_job_nums(self.jobs@, opt_filter_view(tags))[k],
                ) && r@[k].task_name == task_loc.task_name && r@[k].proj_name == task_loc.proj_name,
    {
        let nums = self.enabled_job_numbers(tags);
        let mut out: Vec<Loc> = Vec::new();
        let mut k: usize = 0;
        while k < nums.len()
            invariant
                0 <= k <= nums.len(),
                out.len() == k,
                forall|q: int|
                    0 <= q < k ==> (#[trigger] out@[q]).job_num == Some(nums@[q])
                        && out@[q].task_name == task_loc.task_name && out@[q].proj_name
                        == task_loc.proj_name,
            decreases nums.len() - k,
        {
            out.push(task_loc.extend_job(nums[k]));
            k = k + 1;
        }
        out
    }
}

impl NormalizedProject {
    pub fn get_loc(&self) -> (r: Loc)
        ensures
            r.task_name is None,
            r.job_num is None,
            r.proj_name@ == self.name@,
    {
        Loc::new(self.name.as_str())
    }

    /// The places to run for the whole project: each enabled job of an
    /// enabled parallel task, and each enabled sequential task that the
    /// filter admits, in the order of the tasks.
    pub fn get_enabled_tasks_or_jobs(&self, tags: Option<&TagFilter>) -> (r: Vec<Loc>)
        ensures
            r@.map_values(|l: Loc| loc_view(l)) == project_units(self.tasks@, opt_filter_view(tags)),
            forall|k: int| 0 <= k < r.len() ==> (#[trigger] r@[k]).proj_name@ == self.name@,
    {
        let ghost f = opt_filter_view(tags);
        let proj_loc = self.get_loc();
        let mut out: Vec<Loc> = Vec::new();
        let mut t: usize = 0;
        while t < self.tasks.len()
            invariant
                f == opt_filter_view(tags),
                0 <= t <= self.tasks.len(),
                proj_loc.task_name is None,
                proj_loc.job_num is None,
                proj_loc.proj_name@ == self.name@,
                out@.map_values(|l: Loc| loc_view(l)) == project_units(
                    self.tasks@.subrange(0, t as int),
                    f,
                ),
                forall|k: int| 0 <= k < out.len() ==> (#[trigger] out@[k]).proj_name@ == self.name@,
            decreases self.tasks.len() - t,
        {
            let entry = &self.tasks[t];
            let name = &entry.0;
            let task = &entry.1;
            let ghost before = out@.map_values(|l: Loc| loc_view(l));
            proof {
                let sub = self.tasks@.subrange(0, t + 1);
                assert(sub.drop_last() =~= self.tasks@.subrange(0, t as int));
                assert(sub.last() == self.tasks@[t as int]);
            }
            if task.disabled {
                assert(task_units(name@, *task, f) =~= Seq::empty());
            } else if task.parallel {
                let task_loc = proj_loc.extend_task(name.as_str());
                let nums = task.enabled_job_numbers(tags);
                let mut k: usize = 0;
                while k < nums.len()
                    invariant
                        0 <= k <= nums.len(),
                        opt_view(task_loc.task_name) == Some(name@),
                        task_loc.proj_name@ == self.name@,
                        out@.map_values(|l: Loc| loc_view(l)) == before + nums@.subrange(
                            0,
                            k as int,
                        ).map_values(|n: usize| (Some(name@), Some(n))),
                        forall|q: int|
                            0 <= q < out.len() ==> (#[trigger] out@[q]).proj_name@ == self.name@,
                    decreases nums.len() - k,
                {
                    let ghost b = out@;
                    let l = task_loc.extend_job(nums[k]);
                    out.push(l);
                    assert(out@.map_values(|l: Loc| loc_view(l)) =~= b.map_values(
                        |l: Loc| loc_view(l),
                    ).push((Some(name@), Some(nums@[k as int]))));
                    assert(nums@.subrange(0, k + 1).map_values(|n: usize| (Some(name@), Some(n)))
                        =~= nums@.subrange(0, k as int).map_values(
                        |n: usize| (Some(name@), Some(n)),
                    ).push((Some(name@), Some(nums@[k as int]))));
                    k = k + 1;
                }
                assert(nums@.subrange(0, nums.len() as int) =~= nums@);
                assert(task_units(name@, *task, f) == enabled_job_locs(name@, *task, f));
            } else if task.doesnt_match(tags) {
                assert(task_units(name@, *task, f) =~= Seq::empty());
            } else {
                let l = proj_loc.extend_task(name.as_str());
                out.push(l);
                assert(out@.map_values(|l: Loc| loc_view(l)) =~= before.push((Some(name@), None)));
            }
            t = t + 1;
        }
        assert(self.tasks@.subrange(0, self.tasks.len() as int) =~= self.tasks@);
        out
    }
}

/// The numbers of the jobs a listing shows: those the filter admits, less
/// the disabled ones when they are skipped.
pub open spec fn listed_job_nums(jobs: Seq<NormalizedJob>, skip: bool, f: Option<FilterView>) -> Seq<
    usize,
>
    decreases jobs.len(),
{
    if jobs.len() == 0 {
        Seq::empty()
    } else {
        listed_job_nums(jobs.drop_last(), skip, f) + if !(skip && jobs.last().disabled)
            && !filtered_out(jobs.last().tags@, f) {
            seq![(jobs.len() - 1) as usize]
        } else {
            Seq::empty()
        }
    }
}

/// Every job of the list is disabled.
pub open spec fn all_disabled(jobs: Seq<NormalizedJob>) -> bool {
    forall|j: int| 0 <= j < jobs.len() ==> (#[trigger] jobs[j]).disabled
}

/// A listing entry as the task's position and, for a parallel task, the
/// numbers of its listed jobs.
pub open spec fn entry_view(e: TaskOrJob<(usize, Vec<usize>), usize>) -> (usize, Option<Seq<usize>>) {
    match e {
        TaskOrJob::Job((t, v)) => (t, Some(v@)),
        TaskOrJob::Task(t) => (t, None),
    }
}

/// What task number `t` adds to a listing: nothing when disabled tasks are
/// skipped and it is disabled or all its jobs are, or when it is sequential
/// and the filter does not admit it; else its listed jobs when parallel, or
/// itself.
pub open spec fn task_listing(t: int, task: NormalizedTask, skip: bool, f: Option<FilterView>) -> Seq<
    (usize, Option<Seq<usize>>),
> {
    if (skip && (task.disabled || all_disabled(task.jobs@))) || (!task.parallel && filtered_out(
        task.tags@,
        f,
    )) {
        Seq::empty()
    } else if task.parallel {
        seq![(t as usize, Some(listed_job_nums(task.jobs@, skip, f)))]
    } else {
        seq![(t as usize, None)]
    }
}

/// The listing of the tasks, in order.
pub open spec fn project_listing(tasks: Seq<(String, NormalizedTask)>, skip: bool, f: Option<FilterView>) -> Seq<
    (usize, Option<Seq<usize>>),
>
    decreases tasks.len(),
{
    if tasks.len() == 0 {
        Seq::empty()
    } else {
        project_listing(tasks.drop_last(), skip, f) + task_listing(
            tasks.len() - 1,
            tasks.last().1,
            skip,
            f,
        )
    }
}

impl NormalizedTask {
    /// The numbers of the jobs a listing shows.
    pub fn listed_jobs(&self, skip_disabled: bool, tags: Option<&TagFilter>) -> (r: Vec<usize>)
        ensures
            r@ == listed_job_nums(self.jobs@, skip_disabled, opt_filter_view(tags)),
    {
        let ghost f = opt_filter_view(tags);
        let mut out: Vec<usize> = Vec::new();
        let mut j: usize = 0;
        while j < self.jobs.len()
            invariant
                f == opt_filter_view(tags),
                0 <= j <= self.jobs.len(),
                out@ == listed_job_nums(self.jobs@.subrange(0, j as int), skip_disabled, f),
            decreases self.jobs.len() - j,
        {
            let job = &self.jobs[j];
            let ghost sub = self.jobs@.subrange(0, j + 1);
            assert(sub.drop_last() =~= self.jobs@.subrange(0, j as int));
            assert(sub.last() == *job);
            if !(skip_disabled && job.disabled) && !job.doesnt_match(tags) {
                out.push(j);
            }
            assert(out@ =~= listed_job_nums(sub, skip_disabled, f));
            j = j + 1;
        }
        assert(self.jobs@.subrange(0, self.jobs.len() as int) =~= self.jobs@);
        out
    }

    /// Whether every job is disabled.
    pub fn all_jobs_disabled(&self) -> (r: bool)
        ensures
            r == all_disabled(self.jobs@),
    {
        let mut j: usize = 0;
        while j < self.jobs.len()
            invariant
                0 <= j <= self.jobs.len(),
                forall|q: int| 0 <= q < j ==> (#[trigger] self.jobs@[q]).disabled,
            decreases self.jobs.len() - j,
        {
            if !self.jobs[j].disabled {
                return false;
            }
            j = j + 1;
        }
        true
    }
}

impl NormalizedProject {
    /// What a listing shows, task by task: each sequential task as a whole,
    /// and the listed jobs of each parallel task.
    pub fn list_independents(&self, skip_disabled: bool, tags: Option<&TagFilter>) -> (r: Vec<
        TaskOrJob<(usize, Vec<usize>), usize>,
    >)
        ensures
            r@.map_values(|e: TaskOrJob<(usize, Vec<usize>), usize>| entry_view(e))
                == project_listing(self.tasks@, skip_disabled, opt_filter_view(tags)),
    {
        let ghost f = opt_filter_view(tags);
        let mut out: Vec<TaskOrJob<(usize, Vec<usize>), usize>> = Vec::new();
        let mut t: usize = 0;
        while t < self.tasks.len()
            invariant
                f == opt_filter_view(tags),
                0 <= t <= self.tasks.len(),
                out@.map_values(|e: TaskOrJob<(usize, Vec<usize>), usize>| entry_view(e))
                    == project_listing(self.tasks@.subrange(0, t as int), skip_disabled, f),
            decreases self.tasks.len() - t,
        {
            let task = &self.tasks[t].1;
            let ghost sub = self.tasks@.subrange(0, t + 1);
            assert(sub.drop_last() =~= self.tasks@.subrange(0, t as int));
            assert(sub.last().1 == *task);
            let ghost before = out@.map_values(|e: TaskOrJob<(usize, Vec<usize>), usize>| entry_view(e));
            if (skip_disabled && (task.disabled || task.all_jobs_disabled())) || (!task.parallel
                && task.doesnt_match(tags)) {
                assert(task_listing(t as int, *task, skip_disabled, f) =~= Seq::empty());
            } else if task.parallel {
                let jobs = task.listed_jobs(skip_disabled, tags);
                let e = TaskOrJob::Job((t, jobs));
                assert(entry_view(e) == (t, Some(listed_job_nums(task.jobs@, skip_disabled, f))));
                out.push(e);
                assert(out@.map_values(|e: TaskOrJob<(usize, Vec<usize>), usize>| entry_view(e))
                    =~= before.push(entry_view(e)));
            } else {
                let e = TaskOrJob::Task(t);
                out.push(e);
                assert(out@.map_values(|e: TaskOrJob<(usize, Vec<usize>), usize>| entry_view(e))
                    =~= before.push(entry_view(e)));
            }
            t = t + 1;
        }
        assert(self.tasks@.subrange(0, self.tasks.len() as int) =~= self.tasks@);
        out
    }
}

} // verus!
