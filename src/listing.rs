use vstd::prelude::*;

use crate::fs::opt_view;
use crate::project::{label_view, NormalizedJob, NormalizedProject};
use crate::select::{entry_view, TaskOrJob};
use crate::tags::string_views;
use crate::text::{push_str, string_of};
use crate::util::spaced_view;

verus! {

/// One line of a listing: its label, whether it is disabled, and the job
/// it shows, as a task and a job number.
#[derive(Debug)]
pub struct ListingLine {
    pub label: String,
    pub disabled: bool,
    pub job: Option<(usize, usize)>,
}

/// A line as label, disabled flag and job.
pub open spec fn line_view(l: ListingLine) -> (Seq<char>, bool, Option<(usize, usize)>) {
    (l.label@, l.disabled, l.job)
}

/// The lines of one listing entry: a sequential task shows as one line,
/// with its single job's flag and job when it has exactly one; a group
/// shows a line for each listed job.
pub open spec fn entry_lines(p: NormalizedProject, e: (usize, Option<Seq<usize>>)) -> Seq<
    (Seq<char>, bool, Option<(usize, usize)>),
> {
    let (t, jobs) = e;
    let name = p.tasks@[t as int].0@;
    let task = p.tasks@[t as int].1;
    match jobs {
        None => if task.jobs@.len() == 1 {
            seq![(label_view(Some(name), None), task.jobs@[0].disabled, Some((t, 0usize)))]
        } else {
            seq![(label_view(Some(name), None), task.disabled, None)]
        },
        Some(nums) => nums.map_values(
            |n: usize|
                (label_view(Some(name), Some(n)), task.jobs@[n as int].disabled, Some((t, n))),
        ),
    }
}

/// The lines of a listing.
pub open spec fn listing_view(p: NormalizedProject, entries: Seq<(usize, Option<Seq<usize>>)>) -> Seq<
    (Seq<char>, bool, Option<(usize, usize)>),
>
    decreases entries.len(),
{
    if entries.len() == 0 {
        Seq::empty()
    } else {
        listing_view(p, entries.drop_last()) + entry_lines(p, entries.last())
    }
}

/// The entries name tasks and jobs of the project.
pub open spec fn entries_valid(p: NormalizedProject, entries: Seq<(usize, Option<Seq<usize>>)>) -> bool {
    forall|k: int|
        0 <= k < entries.len() ==> {
            let (t, jobs) = #[trigger] entries[k];
            &&& (t as int) < p.tasks@.len()
            &&& jobs matches Some(nums) ==> forall|q: int|
                0 <= q < nums.len() ==> (nums[q] as int) < p.tasks@[t as int].1.jobs@.len()
        }
}

/// Relies on `str::escape_default`: each character as `char::escape_default`
/// writes it.
#[verifier::external_body]
fn escape_default(s: &str) -> (r: String)
    ensures
        r@ == escape_default_view(s@),
{
    s.escape_default().to_string()
}

/// `n` in lowercase hexadecimal, without leading zeros.
pub open spec fn hex_view(n: nat) -> Seq<char>
    decreases n,
{
    let d = n % 16;
    let c = if d < 10 {
        ((48 + d) as u8) as char
    } else {
        ((87 + d) as u8) as char
    };
    if n < 16 {
        seq![c]
    } else {
        hex_view(n / 16).push(c)
    }
}

/// How `char::escape_default` writes a character: tab, carriage return,
/// line feed, quotes and backslash with a backslash; other printable ASCII
/// as it is; anything else as `\u{hex}`.
pub open spec fn escape_char_view(c: char) -> Seq<char> {
    if c == '\t' {
        seq!['\\', 't']
    } else if c == '\r' {
        seq!['\\', 'r']
    } else if c == '\n' {
        seq!['\\', 'n']
    } else if c == '\'' || c == '"' || c == '\\' {
        seq!['\\', c]
    } else if ' ' <= c && c <= '~' {
        seq![c]
    } else {
        seq!['\\', 'u', '{'] + hex_view(c as nat) + seq!['}']
    }
}

/// How `str::escape_default` writes a text.
pub open spec fn escape_default_view(s: Seq<char>) -> Seq<char>
    decreases s.len(),
{
    if s.len() == 0 {
        Seq::empty()
    } else {
        escape_default_view(s.drop_last()) + escape_char_view(s.last())
    }
}

/// Each word escaped and in double quotes.
pub open spec fn quoted_words(v: Seq<Seq<char>>) -> Seq<Seq<char>> {
    v.map_values(|w: Seq<char>| seq!['"'] + escape_default_view(w) + seq!['"'])
}

/// One row of a long listing: label, disabled flag, source, target and the
/// quoted command, separated by tabs.
pub open spec fn row_view(label: Seq<char>, disabled: bool, job: Option<NormalizedJob>) -> Seq<char> {
    label + seq!['\t'] + (if disabled {
        "true"@
    } else {
        "false"@
    }) + seq!['\t'] + (match job {
        Some(j) => match j.source {
            Some(s) => s@,
            None => Seq::empty(),
        },
        None => Seq::empty(),
    }) + seq!['\t'] + (match job {
        Some(j) => match j.target {
            Some(t) => t@,
            None => Seq::empty(),
        },
        None => Seq::empty(),
    }) + seq!['\t'] + (match job {
        Some(j) => spaced_view(quoted_words(string_views(j.command@))),
        None => Seq::empty(),
    })
}

/// One row of a long listing.
pub fn long_listing_row(label: &str, disabled: bool, job: Option<&NormalizedJob>) -> (r: String)
    ensures
        r@ == row_view(
            label@,
            disabled,
            match job {
                Some(j) => Some(*j),
                None => None,
            },
        ),
{
    let mut buf: Vec<char> = Vec::new();
    push_str(&mut buf, label);
    buf.push('\t');
    if disabled {
        push_str(&mut buf, "true");
    } else {
        push_str(&mut buf, "false");
    }
    buf.push('\t');
    if let Some(j) = job {
        if let Some(s) = &j.source {
            push_str(&mut buf, s.as_str());
        }
    }
    buf.push('\t');
    if let Some(j) = job {
        if let Some(t) = &j.target {
            push_str(&mut buf, t.as_str());
        }
    }
    buf.push('\t');
    let ghost b = buf@;
    if let Some(j) = job {
        let ghost words = quoted_words(string_views(j.command@));
        let mut i: usize = 0;
        while i < j.command.len()
            invariant
                0 <= i <= j.command.len(),
                words == quoted_words(string_views(j.command@)),
                buf@ == b + spaced_view(words.subrange(0, i as int)),
            decreases j.command.len() - i,
        {
            let ghost before = buf@;
            if i > 0 {
                buf.push(' ');
            }
            buf.push('"');
            let e = escape_default(j.command[i].as_str());
            push_str(&mut buf, e.as_str());
            buf.push('"');
            proof {
                let sub = words.subrange(0, i + 1);
                assert(sub.drop_last() =~= words.subrange(0, i as int));
                assert(string_views(j.command@)[i as int] == j.command@[i as int]@);
                assert(sub.last() == seq!['"'] + e@ + seq!['"']);
                if i == 0 {
                    assert(buf@ =~= b + sub[0]);
                } else {
                    assert(buf@ =~= before + seq![' '] + sub.last());
                }
            }
            i = i + 1;
        }
        assert(words.subrange(0, j.command.len() as int) =~= words);
    }
    proof {
        reveal_strlit("true");
        reveal_strlit("false");
    }
    assert(buf@ =~= row_view(
        label@,
        disabled,
        match job {
            Some(j) => Some(*j),
            None => None,
        },
    ));
    string_of(&buf)
}

impl NormalizedProject {
    /// The lines that listing entries show, in order.
    pub fn listing_lines(&self, entries: &Vec<TaskOrJob<(usize, Vec<usize>), usize>>) -> (r: Vec<
        ListingLine,
    >)
        requires
            entries_valid(
                *self,
                entries@.map_values(|e: TaskOrJob<(usize, Vec<usize>), usize>| entry_view(e)),
            ),
        ensures
            r@.map_values(|l: ListingLine| line_view(l)) == listing_view(
                *self,
                entries@.map_values(|e: TaskOrJob<(usize, Vec<usize>), usize>| entry_view(e)),
            ),
    {
        let ghost ev = entries@.map_values(|e: TaskOrJob<(usize, Vec<usize>), usize>| entry_view(e));
        let proj_loc = self.get_loc();
        let mut out: Vec<ListingLine> = Vec::new();
        let mut k: usize = 0;
        while k < entries.len()
            invariant
                0 <= k <= entries.len(),
                ev == entries@.map_values(
                    |e: TaskOrJob<(usize, Vec<usize>), usize>| entry_view(e),
                ),
                entries_valid(*self, ev),
                proj_loc.task_name is None,
                proj_loc.job_num is None,
                out@.map_values(|l: ListingLine| line_view(l)) == listing_view(
                    *self,
                    ev.subrange(0, k as int),
                ),
            decreases entries.len() - k,
        {
            let ghost sub = ev.subrange(0, k + 1);
            assert(sub.drop_last() =~= ev.subrange(0, k as int));
            assert(sub.last() == ev[k as int]);
            let ghost before = out@.map_values(|l: ListingLine| line_view(l));
            match &entries[k] {
                TaskOrJob::Task(t) => {
                    let t = *t;
                    assert(ev[k as int] == (t, None::<Seq<usize>>));
                    let entry = &self.tasks[t];
                    let task_loc = proj_loc.extend_task(entry.0.as_str());
                    let label = task_loc.display_label();
                    let line = if entry.1.jobs.len() == 1 {
                        ListingLine { label, disabled: entry.1.jobs[0].disabled, job: Some((t, 0)) }
                    } else {
                        ListingLine { label, disabled: entry.1.disabled, job: None }
                    };
                    out.push(line);
                    assert(out@.map_values(|l: ListingLine| line_view(l)) =~= before + entry_lines(
                        *self,
                        ev[k as int],
                    ));
                },
                TaskOrJob::Job((t, nums)) => {
                    let t = *t;
                    assert(ev[k as int] == (t, Some(nums@)));
                    let entry = &self.tasks[t];
                    let task_loc = proj_loc.extend_task(entry.0.as_str());
                    let ghost lines = entry_lines(*self, ev[k as int]);
                    let mut q: usize = 0;
                    while q < nums.len()
                        invariant
                            0 <= q <= nums.len(),
                            (t as int) < self.tasks@.len(),
                            *entry == self.tasks@[t as int],
                            forall|x: int|
                                0 <= x < nums.len() ==> (nums@[x] as int)
                                    < entry.1.jobs@.len(),
                            opt_view(task_loc.task_name) == Some(entry.0@),
                            task_loc.job_num is None,
                            lines == nums@.map_values(
                                |n: usize|
                                    (
                                        label_view(Some(entry.0@), Some(n)),
                                        entry.1.jobs@[n as int].disabled,
                                        Some((t, n)),
                                    ),
                            ),
                            out@.map_values(|l: ListingLine| line_view(l)) == before + lines.subrange(
                                0,
                                q as int,
                            ),
                        decreases nums.len() - q,
                    {
                        let n = nums[q];
                        let label = task_loc.extend_job(n).display_label();
                        let ghost b = out@.map_values(|l: ListingLine| line_view(l));
                        out.push(ListingLine { label, disabled: entry.1.jobs[n].disabled, job: Some((t, n)) });
                        assert(out@.map_values(|l: ListingLine| line_view(l)) =~= b.push(lines[q as int]));
                        assert(lines.subrange(0, q + 1) =~= lines.subrange(0, q as int).push(
                            lines[q as int],
                        ));
                        q = q + 1;
                    }
                    assert(lines.subrange(0, nums.len() as int) =~= lines);
                },
            }
            k = k + 1;
        }
        assert(ev.subrange(0, entries.len() as int) =~= ev);
        out
    }
}

} // verus!
