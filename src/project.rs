use vstd::prelude::*;

use crate::error::{Error, ErrorKind};
use crate::fs::opt_view;
use crate::tags::{is_reserved_word, reserved_word, string_views};
use crate::text::{chars_of, decimal_view, is_white_space, push_decimal, push_str, string_of, white_space};

verus! {

/// A place in a project: the project, perhaps a task, perhaps a job by its
/// number in the task.
#[derive(Clone, Debug)]
pub struct Loc {
    pub task_name: Option<String>,
    pub job_num: Option<usize>,
    pub proj_name: String,
}

/// The label of a place: `task`, `task.job`, or empty for the project.
pub open spec fn label_view(task: Option<Seq<char>>, job: Option<usize>) -> Seq<char> {
    (match task {
        Some(t) => t,
        None => Seq::empty(),
    }) + (match job {
        Some(n) => seq!['.'] + decimal_view(n as nat),
        None => Seq::empty(),
    })
}

/// How a place reads in messages: `task t job n in project p`.
pub open spec fn loc_text_view(task: Option<Seq<char>>, job: Option<usize>, proj: Seq<char>) -> Seq<
    char,
> {
    (match task {
        Some(t) => "task "@ + t + seq![' '],
        None => Seq::empty(),
    }) + (match job {
        Some(n) => "job "@ + decimal_view(n as nat) + seq![' '],
        None => Seq::empty(),
    }) + (if task is Some || job is Some {
        "in "@
    } else {
        Seq::empty()
    }) + "project "@ + proj
}

/// The pid file of a place: one per project, or one per task or job label
/// in the project's directory.
pub open spec fn pidfile_view(task: Option<Seq<char>>, job: Option<usize>, proj: Seq<char>) -> Seq<
    char,
> {
    if task is Some {
        "/var/run/chithi/"@ + proj + seq!['/'] + label_view(task, job) + ".pid"@
    } else {
        "/var/run/chithi/"@ + proj + ".pid"@
    }
}

impl Loc {
    pub fn new(proj_name: &str) -> (r: Loc)
        ensures
            r.task_name is None,
            r.job_num is None,
            r.proj_name@ == proj_name@,
    {
        Loc { task_name: None, job_num: None, proj_name: proj_name.to_owned() }
    }

    pub fn extend_task(&self, task_name: &str) -> (r: Loc)
        ensures
            opt_view(r.task_name) == Some(task_name@),
            r.job_num == self.job_num,
            r.proj_name == self.proj_name,
    {
        Loc {
            task_name: Some(task_name.to_owned()),
            job_num: self.job_num,
            proj_name: self.proj_name.clone(),
        }
    }

    pub fn extend_job(&self, job_num: usize) -> (r: Loc)
        ensures
            r.task_name == self.task_name,
            r.job_num == Some(job_num),
            r.proj_name == self.proj_name,
    {
        Loc {
            task_name: self.task_name.clone(),
            job_num: Some(job_num),
            proj_name: self.proj_name.clone(),
        }
    }

    /// `task`, `task.job`, or empty for the project itself.
    pub fn display_label(&self) -> (r: String)
        ensures
            r@ == label_view(opt_view(self.task_name), self.job_num),
    {
        let mut buf: Vec<char> = Vec::new();
        if let Some(t) = &self.task_name {
            push_str(&mut buf, t.as_str());
        }
        if let Some(n) = self.job_num {
            buf.push('.');
            push_decimal(&mut buf, n as u64);
        }
        assert(buf@ =~= label_view(opt_view(self.task_name), self.job_num));
        string_of(&buf)
    }

    /// The place as it reads in messages.
    pub fn to_text(&self) -> (r: String)
        ensures
            r@ == loc_text_view(opt_view(self.task_name), self.job_num, self.proj_name@),
    {
        let mut buf: Vec<char> = Vec::new();
        if let Some(t) = &self.task_name {
            push_str(&mut buf, "task ");
            push_str(&mut buf, t.as_str());
            buf.push(' ');
        }
        if let Some(n) = self.job_num {
            push_str(&mut buf, "job ");
            push_decimal(&mut buf, n as u64);
            buf.push(' ');
        }
        if self.task_name.is_some() || self.job_num.is_some() {
            push_str(&mut buf, "in ");
        }
        push_str(&mut buf, "project ");
        push_str(&mut buf, self.proj_name.as_str());
        assert(buf@ =~= loc_text_view(opt_view(self.task_name), self.job_num, self.proj_name@));
        string_of(&buf)
    }

    /// Where the pid file of this place lives.
    pub fn pidfile_path(&self) -> (r: String)
        ensures
            r@ == pidfile_view(opt_view(self.task_name), self.job_num, self.proj_name@),
    {
        let mut buf: Vec<char> = Vec::new();
        push_str(&mut buf, "/var/run/chithi/");
        push_str(&mut buf, self.proj_name.as_str());
        if self.task_name.is_some() {
            buf.push('/');
            let label = self.display_label();
            push_str(&mut buf, label.as_str());
        }
        push_str(&mut buf, ".pid");
        assert(buf@ =~= pidfile_view(opt_view(self.task_name), self.job_num, self.proj_name@));
        string_of(&buf)
    }
}

/// Delays and restarts for jobs run in sequence.
#[derive(Clone, Debug)]
pub struct RunConfig {
    pub max_initial_delay_secs: Option<u16>,
    pub max_restart_count: Option<u8>,
    pub restart_delay_secs: Vec<u16>,
    pub max_restart_jitter: Option<u16>,
}

/// The delay before restart number `i`: the listed delay for `i` (the last
/// one past the end of the list) plus the jitter when both are set, the one
/// that is set when only one is, none when neither is.
pub open spec fn restart_delay_view(delays: Seq<u16>, jitter: Option<u16>, i: int) -> Option<int> {
    let listed: Option<int> = if delays.len() == 0 {
        None
    } else if i < delays.len() {
        Some(delays[i] as int)
    } else {
        Some(delays.last() as int)
    };
    match (listed, jitter) {
        (Some(d), Some(j)) => Some(d + j),
        (Some(d), None) => Some(d),
        (None, Some(j)) => Some(j as int),
        (None, None) => None,
    }
}

impl View for RunConfig {
    type V = (Option<u16>, Option<u8>, Seq<u16>, Option<u16>);

    open spec fn view(&self) -> Self::V {
        (
            self.max_initial_delay_secs,
            self.max_restart_count,
            self.restart_delay_secs@,
            self.max_restart_jitter,
        )
    }
}

impl RunConfig {
    /// No delays and no restarts.
    pub fn new() -> (r: RunConfig)
        ensures
            r.max_initial_delay_secs is None,
            r.max_restart_count is None,
            r.restart_delay_secs@.len() == 0,
            r.max_restart_jitter is None,
    {
        RunConfig {
            max_initial_delay_secs: None,
            max_restart_count: None,
            restart_delay_secs: Vec::new(),
            max_restart_jitter: None,
        }
    }

    /// The longest delay before restart number `run_idx`, in seconds.
    pub fn restart_delay(&self, run_idx: usize) -> (r: Option<u32>)
        ensures
            match r {
                Some(d) => restart_delay_view(
                    self.restart_delay_secs@,
                    self.max_restart_jitter,
                    run_idx as int,
                ) == Some(d as int),
                None => restart_delay_view(
                    self.restart_delay_secs@,
                    self.max_restart_jitter,
                    run_idx as int,
                ) is None,
            },
    {
        let n = self.restart_delay_secs.len();
        let listed: Option<u32> = if n == 0 {
            None
        } else if run_idx < n {
            Some(self.restart_delay_secs[run_idx] as u32)
        } else {
            Some(self.restart_delay_secs[n - 1] as u32)
        };
        match (listed, self.max_restart_jitter) {
            (Some(d), Some(j)) => Some(d + j as u32),
            (Some(d), None) => Some(d),
            (None, Some(j)) => Some(j as u32),
            (None, None) => None,
        }
    }
}

/// A job as the configuration file gives it.
#[derive(Clone, Debug)]
pub struct Job {
    pub command: Option<Vec<String>>,
    pub on_success: Option<Vec<String>>,
    pub disabled: bool,
    pub source: Option<String>,
    pub target: Option<String>,
    pub tags: Vec<String>,
}

/// A task as the configuration file gives it.
#[derive(Clone, Debug)]
pub struct Task {
    pub default_task_command: Option<Vec<String>>,
    pub disabled: bool,
    pub parallel: bool,
    pub jobs: Vec<Job>,
    pub on_success: Option<Vec<String>>,
    pub tags: Vec<String>,
}

/// A project as the configuration file gives it; tasks by name, each name
/// once.
#[derive(Clone, Debug)]
pub struct Project {
    pub default_project_command: Option<Vec<String>>,
    pub disabled: bool,
    pub run: Option<RunConfig>,
    pub tasks: Vec<(String, Task)>,
}

/// A job with its effective command, disabled flag and tags.
#[derive(Clone, Debug)]
pub struct NormalizedJob {
    pub command: Vec<String>,
    pub on_success: Option<Vec<String>>,
    pub disabled: bool,
    pub source: Option<String>,
    pub target: Option<String>,
    /// A set: repeats carry no meaning.
    pub tags: Vec<String>,
}

/// A task with normalized jobs.
#[derive(Clone, Debug)]
pub struct NormalizedTask {
    pub disabled: bool,
    pub parallel: bool,
    pub on_success: Option<Vec<String>>,
    pub jobs: Vec<NormalizedJob>,
    /// A set: repeats carry no meaning.
    pub tags: Vec<String>,
}

/// A project whose every job has a command and whose tags are checked.
#[derive(Clone, Debug)]
pub struct NormalizedProject {
    pub name: String,
    pub disabled: bool,
    pub run_config: RunConfig,
    pub tasks: Vec<(String, NormalizedTask)>,
}

/// The view of an optional command.
pub open spec fn opt_command_view(c: Option<Vec<String>>) -> Option<Seq<Seq<char>>> {
    match c {
        Some(v) => Some(string_views(v@)),
        None => None,
    }
}

/// The word `chithi`.
pub open spec fn chithi_word() -> Seq<char> {
    seq!['c', 'h', 'i', 't', 'h', 'i']
}

/// A command names a program, and a `chithi` command names a subcommand.
pub open spec fn command_ok(c: Seq<Seq<char>>) -> bool {
    c.len() > 0 && !(c[0] == chithi_word() && c.len() < 2)
}

/// An optional command is absent or acceptable.
pub open spec fn opt_command_ok(c: Option<Seq<Seq<char>>>) -> bool {
    match c {
        Some(v) => command_ok(v),
        None => true,
    }
}

/// A character that a tag cannot hold.
pub open spec fn tag_forbidden(c: char) -> bool {
    c == ',' || c == '(' || c == ')' || c == '"' || c == '\'' || white_space(c)
}

/// A tag that a project can give a task or a job.
pub open spec fn project_tag_ok(t: Seq<char>) -> bool {
    &&& t.len() > 0
    &&& t[0] != '/' && t[0] != '!'
    &&& !reserved_word(t)
    &&& forall|i: int| 0 <= i < t.len() ==> !tag_forbidden(#[trigger] t[i])
}

/// Every tag is acceptable.
pub open spec fn tags_ok(tags: Seq<Seq<char>>) -> bool {
    forall|i: int| 0 <= i < tags.len() ==> project_tag_ok(#[trigger] tags[i])
}

/// A task without tags and with a single job takes that job's tags.
pub open spec fn lifts_tags(task: Task) -> bool {
    task.tags@.len() == 0 && task.jobs@.len() == 1
}

/// The tags of a task after it took those of its single job.
pub open spec fn task_tags(task: Task) -> Seq<Seq<char>> {
    if lifts_tags(task) {
        string_views(task.jobs@[0].tags@)
    } else {
        string_views(task.tags@)
    }
}

/// The tags a job keeps for itself: none when its task took them.
pub open spec fn own_tags(task: Task, job: Job) -> Seq<Seq<char>> {
    if lifts_tags(task) {
        Seq::empty()
    } else {
        string_views(job.tags@)
    }
}

/// A job's command, else its task's, else the project's.
pub open spec fn effective_command(p: Project, task: Task, job: Job) -> Option<Seq<Seq<char>>> {
    match opt_command_view(job.command) {
        Some(c) => Some(c),
        None => match opt_command_view(task.default_task_command) {
            Some(c) => Some(c),
            None => opt_command_view(p.default_project_command),
        },
    }
}

/// A `chithi sync` job names both a source and a target.
pub open spec fn sync_ok(c: Seq<Seq<char>>, job: Job) -> bool {
    !(c.len() >= 2 && c[0] == chithi_word() && c[1] == seq!['s', 'y', 'n', 'c'] && !(
    job.source is Some && job.target is Some))
}

/// The rules a job of a task must meet.
pub open spec fn job_ok(p: Project, task: Task, job: Job) -> bool {
    &&& opt_command_ok(opt_command_view(job.command))
    &&& tags_ok(own_tags(task, job))
    &&& effective_command(p, task, job) is Some
    &&& sync_ok(effective_command(p, task, job)->0, job)
    &&& !(!task.parallel && own_tags(task, job).len() > 0)
    &&& !(task.parallel && task.on_success is Some && own_tags(task, job).len() > 0)
}

/// The rules a task must meet.
pub open spec fn task_ok(p: Project, task: Task) -> bool {
    &&& opt_command_ok(opt_command_view(task.default_task_command))
    &&& tags_ok(task_tags(task))
    &&& forall|j: int| 0 <= j < task.jobs@.len() ==> job_ok(p, task, #[trigger] task.jobs@[j])
}

/// The rules a project must meet to be normalized.
pub open spec fn project_ok(p: Project) -> bool {
    &&& opt_command_ok(opt_command_view(p.default_project_command))
    &&& forall|t: int| 0 <= t < p.tasks@.len() ==> task_ok(p, (#[trigger] p.tasks@[t]).1)
}

/// `nj` is job `job` of task `task` normalized.
pub open spec fn job_normalized(p: Project, task: Task, job: Job, nj: NormalizedJob) -> bool {
    &&& string_views(nj.command@) == effective_command(p, task, job)->0
    &&& opt_command_view(nj.on_success) == opt_command_view(job.on_success)
    &&& nj.disabled == (job.disabled || task.disabled || p.disabled)
    &&& opt_view(nj.source) == opt_view(job.source)
    &&& opt_view(nj.target) == opt_view(job.target)
    &&& string_views(nj.tags@) == own_tags(task, job) + task_tags(task)
}

/// `nt` is task `task` normalized.
pub open spec fn task_normalized(p: Project, task: Task, nt: NormalizedTask) -> bool {
    &&& nt.disabled == (task.disabled || p.disabled)
    &&& nt.parallel == task.parallel
    &&& opt_command_view(nt.on_success) == opt_command_view(task.on_success)
    &&& string_views(nt.tags@) == task_tags(task)
    &&& nt.jobs@.len() == task.jobs@.len()
    &&& forall|j: int|
        0 <= j < task.jobs@.len() ==> job_normalized(p, task, task.jobs@[j], #[trigger] nt.jobs@[j])
}

/// Whether `c` is the word `chithi`.
fn is_chithi(c: &String) -> (r: bool)
    ensures
        r == (c@ == chithi_word()),
{
    let w = "chithi".to_owned();
    proof {
        reveal_strlit("chithi");
    }
    assert(w@ =~= chithi_word());
    *c == w
}

/// Whether `c` is the word `sync`.
fn is_sync(c: &String) -> (r: bool)
    ensures
        r == (c@ == seq!['s', 'y', 'n', 'c']),
{
    let w = "sync".to_owned();
    proof {
        reveal_strlit("sync");
    }
    assert(w@ =~= seq!['s', 'y', 'n', 'c']);
    *c == w
}

/// A copy of an optional command.
fn copy_command(c: &Option<Vec<String>>) -> (r: Option<Vec<String>>)
    ensures
        opt_command_view(r) == opt_command_view(*c),
{
    match c {
        Some(v) => Some(copy_strings(v)),
        None => None,
    }
}

/// A copy of a list of strings.
fn copy_strings(v: &Vec<String>) -> (r: Vec<String>)
    ensures
        string_views(r@) == string_views(v@),
{
    let mut r: Vec<String> = Vec::new();
    let mut i: usize = 0;
    while i < v.len()
        invariant
            0 <= i <= v.len(),
            string_views(r@) == string_views(v@.subrange(0, i as int)),
        decreases v.len() - i,
    {
        let ghost before = r@;
        r.push(v[i].clone());
        assert(string_views(r@) =~= string_views(before).push(v@[i as int]@));
        assert(string_views(v@.subrange(0, i + 1)) =~= string_views(v@.subrange(0, i as int)).push(
            v@[i as int]@,
        ));
        i = i + 1;
    }
    assert(v@.subrange(0, v.len() as int) =~= v@);
    r
}

/// The strings of `a` followed by those of `b`.
fn concat_strings(a: &Vec<String>, b: &Vec<String>) -> (r: Vec<String>)
    ensures
        string_views(r@) == string_views(a@) + string_views(b@),
{
    let mut r = copy_strings(a);
    let ghost start = string_views(r@);
    let mut i: usize = 0;
    while i < b.len()
        invariant
            0 <= i <= b.len(),
            string_views(r@) == start + string_views(b@.subrange(0, i as int)),
        decreases b.len() - i,
    {
        let ghost before = r@;
        r.push(b[i].clone());
        assert(string_views(r@) =~= string_views(before).push(b@[i as int]@));
        assert(string_views(b@.subrange(0, i + 1)) =~= string_views(b@.subrange(0, i as int)).push(
            b@[i as int]@,
        ));
        i = i + 1;
    }
    assert(b@.subrange(0, b.len() as int) =~= b@);
    r
}

impl Project {
    /// Accepts a tag of a task or a job, or says why it cannot be one.
    pub fn check_tag(tag: &str) -> (r: Result<(), Error>)
        ensures
            r is Ok <==> project_tag_ok(tag@),
            r matches Err(e) ==> e.kind == ErrorKind::Other,
    {
        let cs = chars_of(tag);
        if cs.len() == 0 {
            return Err(Error::other("found empty string tag in project"));
        }
        if cs[0] == '/' || cs[0] == '!' {
            return Err(Error::other("found tag in project that starts with '/' or '!'"));
        }
        if is_reserved_word(&cs) {
            return Err(Error::other("use a reserved word as a tag in project"));
        }
        let mut i: usize = 0;
        while i < cs.len()
            invariant
                0 <= i <= cs.len(),
                cs@ == tag@,
                forall|j: int| 0 <= j < i ==> !tag_forbidden(#[trigger] cs@[j]),
            decreases cs.len() - i,
        {
            let c = cs[i];
            if c == ',' || c == '(' || c == ')' || c == '"' || c == '\'' || is_white_space(c) {
                assert(tag_forbidden(cs@[i as int]));
                return Err(Error::other("invalid tag in project"));
            }
            i = i + 1;
        }
        Ok(())
    }

    /// Accepts every tag of a list.
    fn check_tags(tags: &Vec<String>) -> (r: Result<(), Error>)
        ensures
            r is Ok <==> tags_ok(string_views(tags@)),
            r matches Err(e) ==> e.kind == ErrorKind::Other,
    {
        let mut i: usize = 0;
        while i < tags.len()
            invariant
                0 <= i <= tags.len(),
                forall|j: int| 0 <= j < i ==> project_tag_ok(#[trigger] string_views(tags@)[j]),
            decreases tags.len() - i,
        {
            assert(string_views(tags@)[i as int] == tags@[i as int]@);
            if let Err(e) = Self::check_tag(tags[i].as_str()) {
                return Err(e);
            }
            i = i + 1;
        }
        Ok(())
    }

    /// Accepts an absent command, or a present one that `check_command`
    /// accepts.
    pub fn check_command_maybe(command: &Option<Vec<String>>, loc: &Loc) -> (r: Result<(), Error>)
        ensures
            r is Ok <==> opt_command_ok(opt_command_view(*command)),
            r matches Err(e) ==> e.kind == ErrorKind::Other,
    {
        if let Some(c) = command {
            return Self::check_command(c, loc);
        }
        Ok(())
    }

    /// Accepts a command that names a program, and names a subcommand when
    /// the program is `chithi`.
    pub fn check_command(command: &Vec<String>, loc: &Loc) -> (r: Result<(), Error>)
        ensures
            r is Ok <==> command_ok(string_views(command@)),
            r matches Err(e) ==> e.kind == ErrorKind::Other,
    {
        if command.len() == 0 {
            return Err(Error::other("invalid 0 length command, set at least the command name"));
        }
        assert(string_views(command@)[0] == command@[0]@);
        if is_chithi(&command[0]) && command.len() < 2 {
            return Err(Error::other("invalid chithi command found with no args, set a subcommand"));
        }
        Ok(())
    }

    /// Refuses a `chithi sync` command of a job without both a source and a
    /// target.
    pub fn check_sync_job(command: &Vec<String>, loc: &Loc, source_target_is_some: bool) -> (r:
        Result<(), Error>)
        ensures
            r is Ok <==> !(string_views(command@).len() >= 2 && string_views(command@)[0]
                == chithi_word() && string_views(command@)[1] == seq!['s', 'y', 'n', 'c']
                && !source_target_is_some),
            r matches Err(e) ==> e.kind == ErrorKind::Other,
    {
        if command.len() >= 2 && is_chithi(&command[0]) && is_sync(&command[1])
            && !source_target_is_some {
            assert(string_views(command@)[0] == command@[0]@);
            assert(string_views(command@)[1] == command@[1]@);
            return Err(
                Error::other("chithi sync command found, but job did not have source and target"),
            );
        }
        proof {
            if command.len() >= 2 {
                assert(string_views(command@)[0] == command@[0]@);
                assert(string_views(command@)[1] == command@[1]@);
            }
        }
        Ok(())
    }

    /// Normalizes one job of a task whose tags are `tags`.
    fn normalize_job(&self, task: &Task, job: &Job, tags: &Vec<String>, loc: &Loc) -> (r: Result<
        NormalizedJob,
        Error,
    >)
        requires
            string_views(tags@) == task_tags(*task),
            opt_command_ok(opt_command_view(task.default_task_command)),
        ensures
            r is Ok <==> job_ok(*self, *task, *job),
            r matches Ok(nj) ==> job_normalized(*self, *task, *job, nj),
            r matches Err(e) ==> e.kind == ErrorKind::Other,
    {
        if let Err(e) = Self::check_command_maybe(&job.command, loc) {
            return Err(e);
        }
        let lifted = task.tags.len() == 0 && task.jobs.len() == 1;
        let own: Vec<String> = if lifted {
            Vec::new()
        } else {
            copy_strings(&job.tags)
        };
        assert(string_views(own@) =~= own_tags(*task, *job));
        if let Err(e) = Self::check_tags(&own) {
            return Err(e);
        }
        let command = match &job.command {
            Some(c) => copy_strings(c),
            None => match &task.default_task_command {
                Some(c) => copy_strings(c),
                None => match &self.default_project_command {
                    Some(c) => copy_strings(c),
                    None => {
                        return Err(Error::other("command not set at the job, task, or project level"));
                    },
                },
            },
        };
        assert(string_views(command@) == effective_command(*self, *task, *job)->0);
        let both = job.source.is_some() && job.target.is_some();
        if let Err(e) = Self::check_sync_job(&command, loc, both) {
            return Err(e);
        }
        if !task.parallel && own.len() > 0 {
            return Err(Error::other("jobs in sequential tasks with more than 1 job should not have tags"));
        }
        if task.parallel && task.on_success.is_some() && own.len() > 0 {
            return Err(
                Error::other("jobs in parallel tasks with an on-success command should not have tags"),
            );
        }
        let all_tags = concat_strings(&own, tags);
        Ok(NormalizedJob {
            command,
            on_success: copy_command(&job.on_success),
            disabled: job.disabled || task.disabled || self.disabled,
            source: job.source.clone(),
            target: job.target.clone(),
            tags: all_tags,
        })
    }

    /// Normalizes one task.
    fn normalize_task(&self, task: &Task, loc: &Loc) -> (r: Result<NormalizedTask, Error>)
        ensures
            r is Ok <==> task_ok(*self, *task),
            r matches Ok(nt) ==> task_normalized(*self, *task, nt),
            r matches Err(e) ==> e.kind == ErrorKind::Other,
    {
        if let Err(e) = Self::check_command_maybe(&task.default_task_command, loc) {
            return Err(e);
        }
        let tags = if task.tags.len() == 0 && task.jobs.len() == 1 {
            copy_strings(&task.jobs[0].tags)
        } else {
            copy_strings(&task.tags)
        };
        assert(string_views(tags@) == task_tags(*task));
        if let Err(e) = Self::check_tags(&tags) {
            return Err(e);
        }
        let mut jobs: Vec<NormalizedJob> = Vec::new();
        let mut j: usize = 0;
        while j < task.jobs.len()
            invariant
                0 <= j <= task.jobs.len(),
                string_views(tags@) == task_tags(*task),
                opt_command_ok(opt_command_view(task.default_task_command)),
                jobs.len() == j,
                forall|q: int| 0 <= q < j ==> job_ok(*self, *task, #[trigger] task.jobs@[q]),
                forall|q: int|
                    0 <= q < j ==> job_normalized(*self, *task, task.jobs@[q], #[trigger] jobs@[q]),
            decreases task.jobs.len() - j,
        {
            let job_loc = loc.extend_job(j);
            let nj = match self.normalize_job(task, &task.jobs[j], &tags, &job_loc) {
                Ok(nj) => nj,
                Err(e) => return Err(e),
            };
            jobs.push(nj);
            j = j + 1;
        }
        Ok(NormalizedTask {
            disabled: task.disabled || self.disabled,
            parallel: task.parallel,
            on_success: copy_command(&task.on_success),
            jobs,
            tags,
        })
    }

    /// Checks the project and gives every job its effective command,
    /// disabled flag and tags: a job's command falls back to its task's and
    /// then to the project's; a task without tags and with one job takes
    /// that job's tags; tags carry over from a task to its jobs.
    pub fn normalize(&self, proj_name: &str) -> (r: Result<NormalizedProject, Error>)
        ensures
            r is Ok <==> project_ok(*self),
            r matches Ok(np) ==> {
                &&& np.name@ == proj_name@
                &&& np.disabled == self.disabled
                &&& np.tasks@.len() == self.tasks@.len()
                &&& forall|t: int|
                    0 <= t < self.tasks@.len() ==> (#[trigger] np.tasks@[t]).0@ == self.tasks@[t].0@
                        && task_normalized(*self, self.tasks@[t].1, np.tasks@[t].1)
                &&& match self.run {
                    Some(rc) => np.run_config@ == rc@,
                    None => np.run_config.max_initial_delay_secs is None
                        && np.run_config.max_restart_count is None
                        && np.run_config.restart_delay_secs@.len() == 0
                        && np.run_config.max_restart_jitter is None,
                }
            },
            r matches Err(e) ==> e.kind == ErrorKind::Other,
    {
        let proj_loc = Loc::new(proj_name);
        if let Err(e) = Self::check_command_maybe(&self.default_project_command, &proj_loc) {
            return Err(e);
        }
        let mut tasks: Vec<(String, NormalizedTask)> = Vec::new();
        let mut t: usize = 0;
        while t < self.tasks.len()
            invariant
                0 <= t <= self.tasks.len(),
                opt_command_ok(opt_command_view(self.default_project_command)),
                tasks.len() == t,
                forall|q: int| 0 <= q < t ==> task_ok(*self, (#[trigger] self.tasks@[q]).1),
                forall|q: int|
                    0 <= q < t ==> (#[trigger] tasks@[q]).0@ == self.tasks@[q].0@ && task_normalized(
                        *self,
                        self.tasks@[q].1,
                        tasks@[q].1,
                    ),
            decreases self.tasks.len() - t,
        {
            let (name, task) = &self.tasks[t];
            let task_loc = proj_loc.extend_task(name.as_str());
            let nt = match self.normalize_task(task, &task_loc) {
                Ok(nt) => nt,
                Err(e) => return Err(e),
            };
            tasks.push((name.clone(), nt));
            t = t + 1;
        }
        let run_config = match &self.run {
            Some(rc) => copy_run_config(rc),
            None => RunConfig::new(),
        };
        Ok(NormalizedProject {
            name: proj_name.to_owned(),
            disabled: self.disabled,
            run_config,
            tasks,
        })
    }
}

/// A copy of a run configuration.
fn copy_run_config(rc: &RunConfig) -> (r: RunConfig)
    ensures
        r@ == rc@,
{
    let mut delays: Vec<u16> = Vec::new();
    let mut i: usize = 0;
    while i < rc.restart_delay_secs.len()
        invariant
            0 <= i <= rc.restart_delay_secs.len(),
            delays@ == rc.restart_delay_secs@.subrange(0, i as int),
        decreases rc.restart_delay_secs.len() - i,
    {
        delays.push(rc.restart_delay_secs[i]);
        i = i + 1;
    }
    assert(delays@ =~= rc.restart_delay_secs@);
    RunConfig {
        max_initial_delay_secs: rc.max_initial_delay_secs,
        max_restart_count: rc.max_restart_count,
        restart_delay_secs: delays,
        max_restart_jitter: rc.max_restart_jitter,
    }
}

} // verus!
