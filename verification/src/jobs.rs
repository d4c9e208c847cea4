//! Background-job bookkeeping: numbering, status, the `jobs` listing and
//! the reaping of completed jobs before a prompt.

use vstd::prelude::*;

use crate::text::{
    decimal, decimal_string, join, join_strings, pad_right, push_padded_right, words_view,
};

verus! {

/// Whether a background job still runs.
#[derive(Clone, Copy, PartialEq, Eq, Structural)]
pub enum JobStatus {
    Running,
    Done,
}

/// One background job.
pub struct Job {
    pub number: usize,
    pub pid: u32,
    pub command: String,
    pub status: JobStatus,
}

/// The abstract value of a job.
pub struct JobSpec {
    pub number: nat,
    pub pid: u32,
    pub command: Seq<char>,
    pub done: bool,
}

impl View for Job {
    type V = JobSpec;

    open spec fn view(&self) -> JobSpec {
        JobSpec {
            number: self.number as nat,
            pid: self.pid,
            command: self.command@,
            done: self.status == JobStatus::Done,
        }
    }
}

/// The background jobs, oldest first.
pub struct JobTable {
    pub jobs: Vec<Job>,
}

impl View for JobTable {
    type V = Seq<JobSpec>;

    open spec fn view(&self) -> Seq<JobSpec> {
        self.jobs@.map_values(|j: Job| j@)
    }
}

/// Job numbers start at one and grow from the oldest job to the newest.
pub open spec fn numbered(jobs: Seq<JobSpec>) -> bool {
    &&& forall|i: int| 0 <= i < jobs.len() ==> #[trigger] jobs[i].number >= 1
    &&& forall|i: int, j: int|
        0 <= i < j < jobs.len() ==> #[trigger] jobs[i].number < #[trigger] jobs[j].number
}

/// The highest job number in use, or zero.
pub open spec fn highest_number(jobs: Seq<JobSpec>) -> nat
    decreases jobs.len(),
{
    if jobs.len() == 0 {
        0
    } else {
        let rest = highest_number(jobs.drop_last());
        if jobs.last().number > rest {
            jobs.last().number
        } else {
            rest
        }
    }
}

/// The number a new job gets: one more than the highest in use, so numbers
/// are reused once the newest jobs are gone.
pub open spec fn next_number(jobs: Seq<JobSpec>) -> nat {
    highest_number(jobs) + 1
}

/// How a job's command line is shown: the command and its arguments.
pub open spec fn display_spec(command: Seq<char>, arguments: Seq<Seq<char>>) -> Seq<char> {
    if arguments.len() == 0 {
        command
    } else {
        command + " "@ + join(arguments, " "@)
    }
}

/// The marker after the number: `+` for the newest job, `-` for the one
/// before it.
pub open spec fn marker_spec(index: nat, total: nat) -> char {
    if total == index + 1 {
        '+'
    } else if total == index + 2 {
        '-'
    } else {
        ' '
    }
}

pub open spec fn status_text(done: bool) -> Seq<char> {
    if done {
        "Done"@
    } else {
        "Running"@
    }
}

/// The line with which `jobs` shows the job at `index` of `total`.
pub open spec fn job_line(job: JobSpec, index: nat, total: nat) -> Seq<char> {
    "["@ + decimal(job.number) + "]"@ + seq![marker_spec(index, total)] + "  "@ + pad_right(
        status_text(job.done),
        24,
    ) + job.command + (if job.done {
        seq![]
    } else {
        " &"@
    }) + "\n"@
}

/// The lines for the jobs from `first` on; `only_done` keeps the finished
/// ones only.
pub open spec fn report_from(jobs: Seq<JobSpec>, first: int, only_done: bool) -> Seq<char>
    decreases jobs.len() - first,
{
    if first < 0 || first >= jobs.len() {
        seq![]
    } else {
        (if !only_done || jobs[first].done {
            job_line(jobs[first], first as nat, jobs.len())
        } else {
            seq![]
        }) + report_from(jobs, first + 1, only_done)
    }
}

/// The jobs with the statuses observed: a job is done once its process has
/// exited.
pub open spec fn refreshed(jobs: Seq<JobSpec>, exited: Seq<bool>) -> Seq<JobSpec> {
    Seq::new(jobs.len(), |i: int| JobSpec { done: jobs[i].done || exited[i], ..jobs[i] })
}

/// The jobs that still run, in order.
pub open spec fn still_running(jobs: Seq<JobSpec>) -> Seq<JobSpec>
    decreases jobs.len(),
{
    if jobs.len() == 0 {
        seq![]
    } else if jobs.last().done {
        still_running(jobs.drop_last())
    } else {
        still_running(jobs.drop_last()).push(jobs.last())
    }
}

pub proof fn lemma_highest_is_last(jobs: Seq<JobSpec>)
    requires
        numbered(jobs),
    ensures
        jobs.len() == 0 ==> highest_number(jobs) == 0,
        jobs.len() > 0 ==> highest_number(jobs) == jobs.last().number,
        forall|i: int| 0 <= i < jobs.len() ==> #[trigger] jobs[i].number <= highest_number(jobs),
    decreases jobs.len(),
{
    if jobs.len() > 0 {
        let rest = jobs.drop_last();
        assert(numbered(rest));
        lemma_highest_is_last(rest);
        if rest.len() > 0 {
            assert(rest.last() == jobs[jobs.len() - 2]);
        }
        assert forall|i: int| 0 <= i < jobs.len() implies #[trigger] jobs[i].number
            <= highest_number(jobs) by {
            if i < jobs.len() - 1 {
                assert(rest[i] == jobs[i]);
            }
        }
    }
}

/// Keeping only running jobs keeps the numbering.
pub proof fn lemma_still_running_numbered(jobs: Seq<JobSpec>)
    requires
        numbered(jobs),
    ensures
        numbered(still_running(jobs)),
        forall|k: int|
            0 <= k < still_running(jobs).len() ==> exists|i: int|
                0 <= i < jobs.len() && #[trigger] still_running(jobs)[k] == jobs[i],
        forall|k: int|
            0 <= k < still_running(jobs).len() ==> !(#[trigger] still_running(jobs)[k]).done,
    decreases jobs.len(),
{
    if jobs.len() > 0 {
        let rest = jobs.drop_last();
        assert(numbered(rest));
        lemma_still_running_numbered(rest);
        let r = still_running(rest);
        assert forall|k: int| 0 <= k < r.len() implies exists|i: int|
            0 <= i < jobs.len() && #[trigger] r[k] == jobs[i] by {
            let i = choose|i: int| 0 <= i < rest.len() && r[k] == rest[i];
            assert(rest[i] == jobs[i]);
        }
        if !jobs.last().done {
            let s = r.push(jobs.last());
            assert forall|k: int| 0 <= k < s.len() implies exists|i: int|
                0 <= i < jobs.len() && #[trigger] s[k] == jobs[i] by {
                if k < r.len() {
                    assert(s[k] == r[k]);
                } else {
                    assert(s[k] == jobs[jobs.len() - 1]);
                }
            }
            assert forall|a: int, b: int| 0 <= a < b < s.len() implies #[trigger] s[a].number
                < #[trigger] s[b].number by {
                if b == s.len() - 1 {
                    let i = choose|i: int| 0 <= i < rest.len() && r[a] == rest[i];
                    assert(rest[i] == jobs[i]);
                } else {
                    assert(s[a] == r[a] && s[b] == r[b]);
                }
            }
            assert forall|a: int| 0 <= a < s.len() implies #[trigger] s[a].number >= 1 by {
                if a < r.len() {
                    assert(s[a] == r[a]);
                }
            }
            assert forall|k: int| 0 <= k < s.len() implies !(#[trigger] s[k]).done by {
                if k < r.len() {
                    assert(s[k] == r[k]);
                }
            }
        }
    }
}

/// What waiting on a job's process reported: whether it succeeded, and its
/// exit code (none when a signal ended it).
#[derive(Clone, Copy, PartialEq, Eq, Structural)]
pub struct ExitReport {
    pub success: bool,
    pub code: Option<i32>,
}

/// Whether a job counts as finished: its process has stopped and did so by
/// exiting (successfully or with an exit code).
pub fn exited_normally(status: Option<ExitReport>) -> (result: bool)
    ensures
        result == (status matches Some(s) && (s.success || s.code is Some)),
{
    match status {
        Some(report) => report.success || report.code.is_some(),
        None => false,
    }
}

impl JobStatus {
    /// The word `jobs` shows for the status.
    pub fn as_str(self) -> (result: &'static str)
        ensures
            result@ == status_text(self == JobStatus::Done),
    {
        match self {
            JobStatus::Running => "Running",
            JobStatus::Done => "Done",
        }
    }
}

/// The marker shown after the job number (see `marker_spec`).
pub fn marker_for(index: usize, total_jobs: usize) -> (result: char)
    ensures
        result == marker_spec(index as nat, total_jobs as nat),
{
    let distance = if total_jobs > index {
        total_jobs - index
    } else {
        0
    };
    match distance {
        1 => '+',
        2 => '-',
        _ => ' ',
    }
}

/// How a command line is shown in job listings (see `display_spec`).
pub fn display_command(command: &str, arguments: &Vec<String>) -> (result: String)
    ensures
        result@ == display_spec(command@, words_view(arguments@)),
{
    let mut display = command.to_owned();
    if arguments.len() > 0 {
        display.append(" ");
        let rest = join_strings(arguments, " ");
        display.append(rest.as_str());
    }
    display
}

impl Job {
    /// A copy of this job.
    fn duplicate(&self) -> (result: Job)
        ensures
            result@ == self@,
    {
        Job {
            number: self.number,
            pid: self.pid,
            command: self.command.clone(),
            status: self.status,
        }
    }

    /// Appends this job's `jobs` line.
    fn push_line(&self, out: &mut String, index: usize, total: usize)
        ensures
            final(out)@ == old(out)@ + job_line(self@, index as nat, total as nat),
    {
        out.append("[");
        let number = decimal_string(self.number);
        out.append(number.as_str());
        out.append("]");
        out.push(marker_for(index, total));
        out.append("  ");
        push_padded_right(out, self.status.as_str(), 24);
        out.append(self.command.as_str());
        if self.status == JobStatus::Running {
            out.append(" &");
        }
        out.append("\n");
        assert(final(out)@ =~= old(out)@ + job_line(self@, index as nat, total as nat));
    }
}

impl JobTable {
    pub open spec fn wf(&self) -> bool {
        numbered(self@)
    }

    /// No jobs.
    pub fn new() -> (result: JobTable)
        ensures
            result.wf(),
            result@ == Seq::<JobSpec>::empty(),
    {
        let result = JobTable { jobs: Vec::new() };
        assert(result@ =~= Seq::<JobSpec>::empty());
        result
    }

    /// The number the next job gets (see `next_number`).
    pub fn next_job_number(&self) -> (result: usize)
        requires
            self.wf(),
            self@.len() == 0 || self@.last().number < usize::MAX,
        ensures
            result == next_number(self@),
    {
        proof {
            lemma_highest_is_last(self@);
        }
        if self.jobs.len() == 0 {
            1
        } else {
            assert(self@.last() == self.jobs@.last()@);
            self.jobs[self.jobs.len() - 1].number + 1
        }
    }

    /// The process ids of the jobs, in order.
    pub fn pids(&self) -> (result: Vec<u32>)
        ensures
            result@.len() == self@.len(),
            forall|i: int| 0 <= i < result@.len() ==> result@[i] == #[trigger] self@[i].pid,
    {
        let mut result: Vec<u32> = Vec::new();
        let mut i: usize = 0;
        while i < self.jobs.len()
            invariant
                i <= self.jobs.len(),
                result@.len() == i,
                forall|k: int| 0 <= k < i ==> result@[k] == #[trigger] self@[k].pid,
            decreases self.jobs.len() - i,
        {
            result.push(self.jobs[i].pid);
            i = i + 1;
        }
        result
    }

    /// Starts tracking a background job and returns its number.
    pub fn track_job(&mut self, pid: u32, command: &str, arguments: &Vec<String>) -> (result:
        usize)
        requires
            old(self).wf(),
            old(self)@.len() == 0 || old(self)@.last().number < usize::MAX,
        ensures
            final(self).wf(),
            result == next_number(old(self)@),
            final(self)@ == old(self)@.push(
                JobSpec {
                    number: result as nat,
                    pid,
                    command: display_spec(command@, words_view(arguments@)),
                    done: false,
                },
            ),
    {
        proof {
            lemma_highest_is_last(self@);
        }
        let number = self.next_job_number();
        let display = display_command(command, arguments);
        let ghost before = self@;
        self.jobs.push(Job { number, pid, command: display, status: JobStatus::Running });
        assert(self@ =~= before.push(
            JobSpec {
                number: number as nat,
                pid,
                command: display_spec(command@, words_view(arguments@)),
                done: false,
            },
        ));
        assert(numbered(self@)) by {
            assert forall|i: int, j: int| 0 <= i < j < self@.len() implies #[trigger] self@[i].number
                < #[trigger] self@[j].number by {
                if j == self@.len() - 1 {
                    assert(self@[i] == before[i]);
                } else {
                    assert(self@[i] == before[i] && self@[j] == before[j]);
                }
            }
        }
        number
    }

    /// Marks as done every job whose process has exited.
    fn refresh_job_statuses(&mut self, exited: &Vec<bool>)
        requires
            exited.len() == old(self).jobs.len(),
            old(self).wf(),
        ensures
            final(self).wf(),
            final(self)@ == refreshed(old(self)@, exited@),
    {
        let ghost start = self@;
        let mut i: usize = 0;
        while i < self.jobs.len()
            invariant
                exited.len() == self.jobs.len(),
                start == old(self)@,
                i <= self.jobs.len(),
                self@.len() == start.len(),
                forall|k: int|
                    0 <= k < i ==> #[trigger] self@[k] == (JobSpec {
                        done: start[k].done || exited@[k],
                        ..start[k]
                    }),
                forall|k: int| i <= k < self@.len() ==> #[trigger] self@[k] == start[k],
            decreases self.jobs.len() - i,
        {
            if exited[i] {
                let ghost before = self@;
                let mut job = self.jobs.remove(i);
                assert(job@ == before[i as int]);
                job.status = JobStatus::Done;
                let ghost updated = job@;
                self.jobs.insert(i, job);
                assert(self@[i as int] == updated);
                assert forall|k: int| 0 <= k < self@.len() && k != i implies #[trigger] self@[k]
                    == before[k] by {}
            }
            assert(self@[i as int].number == start[i as int].number);
            assert(self@[i as int].pid == start[i as int].pid);
            assert(self@[i as int].command == start[i as int].command);
            assert(self@[i as int].done == (start[i as int].done || exited@[i as int]));
            i = i + 1;
        }
        assert(self@ =~= refreshed(start, exited@));
        assert(numbered(self@)) by {
            assert forall|a: int, b: int| 0 <= a < b < self@.len() implies #[trigger] self@[a].number
                < #[trigger] self@[b].number by {
                assert(self@[a].number == start[a].number);
                assert(self@[b].number == start[b].number);
            }
        }
    }

    /// The lines for the jobs (all, or the finished ones only).
    fn report(&self, only_done: bool) -> (result: String)
        ensures
            result@ == report_from(self@, 0, only_done),
    {
        let ghost jobs = self@;
        let total = self.jobs.len();
        let mut result = String::new();
        let mut i: usize = 0;
        while i < total
            invariant
                total == self.jobs.len(),
                jobs == self@,
                i <= total,
                result@ + report_from(jobs, i as int, only_done) == report_from(jobs, 0, only_done),
            decreases total - i,
        {
            let ghost before = result@;
            if !only_done || self.jobs[i].status == JobStatus::Done {
                self.jobs[i].push_line(&mut result, i, total);
            }
            assert(jobs[i as int] == self.jobs@[i as int]@);
            i = i + 1;
            assert(before + report_from(jobs, i - 1, only_done) =~= result@ + report_from(
                jobs,
                i as int,
                only_done,
            ));
        }
        assert(result@ =~= result@ + report_from(jobs, i as int, only_done));
        result
    }

    /// Forgets the jobs that are done.
    fn remove_done(&mut self)
        requires
            old(self).wf(),
        ensures
            final(self).wf(),
            final(self)@ == still_running(old(self)@),
    {
        let ghost start = self@;
        let mut kept: Vec<Job> = Vec::new();
        let n = self.jobs.len();
        let mut i: usize = 0;
        while i < n
            invariant
                n == self.jobs.len(),
                start == self@,
                i <= n,
                kept@.map_values(|j: Job| j@) == still_running(start.take(i as int)),
            decreases n - i,
        {
            assert(start.take(i + 1).drop_last() =~= start.take(i as int));
            assert(start.take(i + 1).last() == start[i as int]);
            assert(start[i as int] == self.jobs@[i as int]@);
            if self.jobs[i].status == JobStatus::Running {
                let ghost before = kept@;
                let copy = self.jobs[i].duplicate();
                kept.push(copy);
                assert(kept@.map_values(|j: Job| j@) =~= before.map_values(|j: Job| j@).push(
                    copy@,
                ));
            }
            i = i + 1;
        }
        assert(start.take(n as int) =~= start);
        self.jobs = kept;
        proof {
            lemma_still_running_numbered(start);
        }
    }

    /// The `jobs` builtin: refreshes the statuses with the exits observed,
    /// lists every job, then forgets the finished ones.
    pub fn execute_jobs(&mut self, exited: &Vec<bool>) -> (result: String)
        requires
            old(self).wf(),
            exited.len() == old(self).jobs.len(),
        ensures
            final(self).wf(),
            result@ == report_from(refreshed(old(self)@, exited@), 0, false),
            final(self)@ == still_running(refreshed(old(self)@, exited@)),
    {
        self.refresh_job_statuses(exited);
        let result = self.report(false);
        self.remove_done();
        result
    }

    /// Reports the jobs that finished (with markers counted over all jobs)
    /// and forgets them.
    pub fn reap(&mut self, exited: &Vec<bool>) -> (result: String)
        requires
            old(self).wf(),
            exited.len() == old(self).jobs.len(),
        ensures
            final(self).wf(),
            result@ == report_from(refreshed(old(self)@, exited@), 0, true),
            final(self)@ == still_running(refreshed(old(self)@, exited@)),
    {
        self.refresh_job_statuses(exited);
        let result = self.report(true);
        self.remove_done();
        result
    }
}


// ---------------------------------------------------------------------------
// Laws of the job table
// ---------------------------------------------------------------------------

/// Law: a new job's number is higher than every number in use, so no two
/// jobs share a number, and the table stays numbered with it added last.
pub proof fn lemma_next_number_fresh(jobs: Seq<JobSpec>, job: JobSpec)
    requires
        numbered(jobs),
        job.number == next_number(jobs),
    ensures
        forall|i: int| 0 <= i < jobs.len() ==> #[trigger] jobs[i].number < job.number,
        numbered(jobs.push(job)),
{
    lemma_highest_is_last(jobs);
    let after = jobs.push(job);
    assert forall|i: int, j: int| 0 <= i < j < after.len() implies #[trigger] after[i].number
        < #[trigger] after[j].number by {
        assert(after[i] == jobs[i]);
        if j < jobs.len() {
            assert(after[j] == jobs[j]);
        }
    }
}

/// Law: once every job has finished and been reaped, numbering starts again
/// at one.
pub proof fn lemma_numbers_recycle(jobs: Seq<JobSpec>, exited: Seq<bool>)
    requires
        exited.len() == jobs.len(),
        forall|i: int| 0 <= i < exited.len() ==> #[trigger] exited[i],
    ensures
        still_running(refreshed(jobs, exited)).len() == 0,
        next_number(still_running(refreshed(jobs, exited))) == 1,
{
    let r = refreshed(jobs, exited);
    lemma_still_running_all_done(r);
}

pub proof fn lemma_still_running_all_done(jobs: Seq<JobSpec>)
    requires
        forall|i: int| 0 <= i < jobs.len() ==> (#[trigger] jobs[i]).done,
    ensures
        still_running(jobs) == Seq::<JobSpec>::empty(),
    decreases jobs.len(),
{
    if jobs.len() > 0 {
        assert(jobs.last() == jobs[jobs.len() - 1]);
        assert forall|i: int| 0 <= i < jobs.drop_last().len() implies (
        #[trigger] jobs.drop_last()[i]).done by {
            assert(jobs.drop_last()[i] == jobs[i]);
        }
        lemma_still_running_all_done(jobs.drop_last());
    }
}

/// Nothing is reported when no job is done.
pub proof fn lemma_no_done_reports_nothing(jobs: Seq<JobSpec>, first: int)
    requires
        forall|i: int| 0 <= i < jobs.len() ==> !(#[trigger] jobs[i]).done,
    ensures
        report_from(jobs, first, true) == Seq::<char>::empty(),
    decreases jobs.len() - first,
{
    if 0 <= first < jobs.len() {
        lemma_no_done_reports_nothing(jobs, first + 1);
        assert(!jobs[first].done);
    }
}

/// Law: a finished job is reported once: reaping again, when no other job
/// has exited since, reports nothing and keeps the table as it is.
pub proof fn lemma_done_reported_once(jobs: Seq<JobSpec>, exited: Seq<bool>, none: Seq<bool>)
    requires
        numbered(jobs),
        exited.len() == jobs.len(),
        none.len() == still_running(refreshed(jobs, exited)).len(),
        forall|i: int| 0 <= i < none.len() ==> !#[trigger] none[i],
    ensures
        ({
            let kept = still_running(refreshed(jobs, exited));
            &&& report_from(refreshed(kept, none), 0, true) == Seq::<char>::empty()
            &&& still_running(refreshed(kept, none)) == kept
        }),
{
    let r = refreshed(jobs, exited);
    assert(numbered(r)) by {
        assert forall|a: int, b: int| 0 <= a < b < r.len() implies #[trigger] r[a].number
            < #[trigger] r[b].number by {}
    }
    lemma_still_running_numbered(r);
    let kept = still_running(r);
    let again = refreshed(kept, none);
    assert(again =~= kept);
    lemma_no_done_reports_nothing(kept, 0);
    lemma_still_running_none_done(kept);
}

pub proof fn lemma_still_running_none_done(jobs: Seq<JobSpec>)
    requires
        forall|i: int| 0 <= i < jobs.len() ==> !(#[trigger] jobs[i]).done,
    ensures
        still_running(jobs) == jobs,
    decreases jobs.len(),
{
    if jobs.len() > 0 {
        assert(jobs.last() == jobs[jobs.len() - 1]);
        assert forall|i: int| 0 <= i < jobs.drop_last().len() implies !(
        #[trigger] jobs.drop_last()[i]).done by {
            assert(jobs.drop_last()[i] == jobs[i]);
        }
        lemma_still_running_none_done(jobs.drop_last());
        assert(jobs.drop_last().push(jobs.last()) =~= jobs);
    }
}

} // verus!
