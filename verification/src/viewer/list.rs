//! The list of jobs, with the one that is shown.

use crate::model::{CodePage, CommandType, PrinterState};
use crate::viewer::history::{
    fresh, is_numbered, is_young, kept, lemma_filter_of_wanted, lemma_new_job_is_shown,
    lemma_place_of, lemma_pruned_wf, lemma_with_job_numbered, newest, no_jobs, place_of, printed, printed_to, pruned,
    with_active_printed, with_active_printed_to, with_job, without_job, young, History, Limits,
};
use crate::viewer::job::{copy_bytes, time_since, JobEntry, JobView, SECOND};
use vstd::prelude::*;

verus! {

/// The jobs, the oldest first, which of them is shown, and the number of the next.
#[derive(Clone, Debug)]
pub struct JobList {
    pub jobs: Vec<JobEntry>,
    pub active: Option<usize>,
    pub next_id: u64,
}

/// The views of some jobs.
pub open spec fn jobs_view(jobs: Seq<JobEntry>) -> Seq<JobView> {
    jobs.map_values(|job: JobEntry| job@)
}

/// Whether all jobs are well formed.
pub open spec fn all_wf(jobs: Seq<JobEntry>) -> bool {
    forall|k: int| 0 <= k < jobs.len() ==> (#[trigger] jobs[k]).wf()
}

/// Whether the commands of all jobs are what `parse` makes of their printed bytes, and none where
/// there are no such bytes.
pub open spec fn all_parsed<F>(jobs: Seq<JobEntry>, parse: F, codepage: CodePage) -> bool where
    F: Fn(&Vec<u8>, CodePage) -> Vec<(PrinterState, CommandType)>,
 {
    forall|k: int| 0 <= k < jobs.len() ==> (#[trigger] jobs[k]).is_parsed(parse, codepage)
}

/// Whether the commands of all jobs are what `parse` makes of their printed bytes.
pub open spec fn all_read<F>(jobs: Seq<JobEntry>, parse: F, codepage: CodePage) -> bool where
    F: Fn(&Vec<u8>, CodePage) -> Vec<(PrinterState, CommandType)>,
 {
    forall|k: int| 0 <= k < jobs.len() ==> (#[trigger] jobs[k]).is_read(parse, codepage)
}

/// Whether every job of the one list is in the other.
pub open spec fn all_from(jobs: Seq<JobEntry>, source: Seq<JobEntry>) -> bool {
    forall|k: int| 0 <= k < jobs.len() ==> source.contains(#[trigger] jobs[k])
}

/// The jobs that stay in the list.
pub open spec fn kept_jobs(jobs: Seq<JobEntry>, now: u64, limits: Limits) -> Seq<JobEntry> {
    newest(jobs.filter(|job: JobEntry| is_young(job@, now, limits)), limits.max_jobs)
}

/// Whether `after` are the jobs of a list once the printing of the job that is shown has ended. If
/// that job was being printed it has been read again; every other job is as it was.
pub open spec fn is_ended<F>(
    before: JobList,
    after: Seq<JobEntry>,
    parse: F,
    codepage: CodePage,
) -> bool where F: Fn(&Vec<u8>, CodePage) -> Vec<(PrinterState, CommandType)> {
    match before.active {
        Some(i) if before.jobs@[i as int].sim_active => {
            &&& after == before.jobs@.update(i as int, after[i as int])
            &&& after[i as int].is_made_by(parse, codepage)
        },
        _ => after == before.jobs@,
    }
}

/// Whether `after` are the jobs of a list once the job that is shown has been printed further. If
/// more of that job has been printed it has been read again, and otherwise its commands are as they
/// were; every other job is as it was.
pub open spec fn is_printed_on<F>(
    before: JobList,
    after: Seq<JobEntry>,
    parse: F,
    codepage: CodePage,
) -> bool where F: Fn(&Vec<u8>, CodePage) -> Vec<(PrinterState, CommandType)> {
    match before.active {
        Some(i) if before.jobs@[i as int].sim_active => {
            let was = before.jobs@[i as int];
            let is = after[i as int];
            &&& after == before.jobs@.update(i as int, is)
            &&& if is.sim_sent > was.sim_sent {
                is.is_made_by(parse, codepage)
            } else {
                is.parsed_commands == was.parsed_commands
            }
        },
        _ => after == before.jobs@,
    }
}

/// Whether `after` are the jobs of a list once a job has come in: those of before, the one that was
/// shown printed to its end, and behind them the new job, as many as stay.
pub open spec fn is_joined<F>(
    before: JobList,
    after: Seq<JobEntry>,
    new: JobView,
    parse: F,
    codepage: CodePage,
    now: u64,
    limits: Limits,
) -> bool where F: Fn(&Vec<u8>, CodePage) -> Vec<(PrinterState, CommandType)> {
    exists|ended: Seq<JobEntry>, job: JobEntry|
        {
            &&& is_ended(before, ended, parse, codepage)
            &&& job@ == new
            &&& job.is_new(parse, codepage)
            &&& after == #[trigger] kept_jobs(ended.push(job), now, limits)
        }
}

/// Whether a parser makes nothing of nothing.
pub open spec fn makes_nothing_of_nothing<F>(parse: F) -> bool where
    F: Fn(&Vec<u8>, CodePage) -> Vec<(PrinterState, CommandType)>,
 {
    forall|bytes: &Vec<u8>, codepage: CodePage, commands: Vec<(PrinterState, CommandType)>|
        bytes@.len() == 0 && #[trigger] call_ensures(parse, (bytes, codepage), commands)
            ==> commands@.len() == 0
}

/// Whether a parser takes all bytes.
pub open spec fn takes_all<F>(parse: F) -> bool where
    F: Fn(&Vec<u8>, CodePage) -> Vec<(PrinterState, CommandType)>,
 {
    forall|bytes: &Vec<u8>, codepage: CodePage| #[trigger]
        call_requires(parse, (bytes, codepage))
}

/// Drops the jobs that are too old.
fn drop_old(jobs: &mut Vec<JobEntry>, now: u64, bounds: Bounds)
    ensures
        final(jobs)@ == old(jobs)@.filter(|job: JobEntry| is_young(job@, now, bounds@)),
{
    let ghost source = jobs@;
    let ghost wanted = |job: JobEntry| is_young(job@, now, bounds@);
    let max_age_secs: u64 = match bounds.max_age_secs {
        Some(secs) => secs,
        None => {
            proof {
                lemma_all_young(source, now, bounds@);
            }
            return ;
        },
    };
    let ghost mut seen: int = 0;
    let mut i: usize = 0;
    proof {
        reveal(Seq::filter);
        assert(jobs@.skip(0) =~= source.skip(0));
        assert(jobs@.take(0) =~= source.take(0).filter(wanted));
    }
    while i < jobs.len()
        invariant
            0 <= i <= jobs@.len(),
            0 <= seen <= source.len(),
            bounds.max_age_secs == Some(max_age_secs),
            wanted == (|job: JobEntry| is_young(job@, now, bounds@)),
            jobs@.skip(i as int) == source.skip(seen),
            jobs@.take(i as int) == source.take(seen).filter(wanted),
        decreases jobs@.len() - i,
    {
        let ghost before = jobs@;
        proof {
            reveal(Seq::filter);
            assert(jobs@.skip(i as int).len() == source.skip(seen).len());
            assert(source[seen] == source.skip(seen)[0]);
            assert(jobs@[i as int] == jobs@.skip(i as int)[0]);
            assert(jobs@[i as int] == source[seen]);
            assert(source.take(seen + 1).drop_last() =~= source.take(seen));
            assert(source.take(seen + 1).last() == source[seen]);
        }
        let age: u128 = time_since(jobs[i].created_at, now) as u128;
        assert(max_age_secs * SECOND <= u64::MAX * u64::MAX) by (nonlinear_arith)
            requires
                0 <= max_age_secs <= u64::MAX,
                0 <= SECOND <= u64::MAX,
        ;
        if age <= (max_age_secs as u128) * (SECOND as u128) {
            assert(jobs@.take(i + 1) =~= jobs@.take(i as int).push(jobs@[i as int]));
            assert(jobs@.skip(i + 1) =~= source.skip(seen + 1)) by {
                assert(jobs@.skip(i + 1) =~= jobs@.skip(i as int).drop_first());
                assert(source.skip(seen + 1) =~= source.skip(seen).drop_first());
            }
            i += 1;
        } else {
            let _old = jobs.remove(i);
            assert(jobs@.take(i as int) =~= before.take(i as int));
            assert(jobs@.skip(i as int) =~= source.skip(seen + 1)) by {
                assert(jobs@.skip(i as int) =~= before.skip(i as int).drop_first());
                assert(source.skip(seen + 1) =~= source.skip(seen).drop_first());
            }
        }
        proof {
            seen = seen + 1;
        }
    }
    proof {
        assert(source.skip(seen).len() == 0);
        assert(source.take(seen) =~= source);
        assert(jobs@.take(i as int) =~= jobs@);
    }
}

/// Drops the oldest jobs where there are more than `max`.
fn drop_oldest(jobs: &mut Vec<JobEntry>, max: usize)
    ensures
        final(jobs)@ == newest(old(jobs)@, max as int),
{
    let ghost source = jobs@;
    if jobs.len() > max {
        let excess: usize = jobs.len() - max;
        let tail = jobs.split_off(excess);
        *jobs = tail;
        assert(jobs@ =~= newest(source, max as int));
    }
}

/// Finds the first job with the number `id`.
fn find_job(jobs: &Vec<JobEntry>, id: u64) -> (place: Option<usize>)
    ensures
        match place {
            Some(i) => place_of(jobs_view(jobs@), id, 0) == Some(i as int),
            None => place_of(jobs_view(jobs@), id, 0) is None,
        },
{
    for i in 0..jobs.len()
        invariant
            place_of(jobs_view(jobs@), id, 0) == place_of(jobs_view(jobs@), id, i as int),
    {
        assert(jobs_view(jobs@)[i as int] == jobs@[i as int]@);
        if jobs[i].id == id {
            return Some(i);
        }
    }
    None
}

/// A job that has just come in.
fn new_job<F>(
    parse: &F,
    codepage: CodePage,
    id: u64,
    label: String,
    full_data: Vec<u8>,
    now: u64,
    simulate: bool,
) -> (job: JobEntry) where F: Fn(&Vec<u8>, CodePage) -> Vec<(PrinterState, CommandType)>,
    requires
        takes_all(*parse),
    ensures
        job.wf(),
        job@ == fresh(id, label@, full_data@, now, simulate),
        job.is_new(*parse, codepage),
{
    if simulate {
        assert(full_data@.take(0) =~= seq![]);
        JobEntry {
            id,
            label,
            created_at: now,
            full_bytes: full_data,
            display_bytes: Vec::new(),
            parsed_commands: Vec::new(),
            sim_active: true,
            sim_started_at: Some(now),
            sim_sent: 0,
        }
    } else {
        let display = copy_bytes(&full_data);
        let parsed = parse(&display, codepage);
        let sent: usize = display.len();
        assert(full_data@.take(full_data@.len() as int) =~= full_data@);
        JobEntry {
            id,
            label,
            created_at: now,
            full_bytes: full_data,
            display_bytes: display,
            parsed_commands: parsed,
            sim_active: false,
            sim_started_at: None,
            sim_sent: sent,
        }
    }
}

impl View for JobList {
    type V = History;

    open spec fn view(&self) -> History {
        History {
            jobs: jobs_view(self.jobs@),
            active: match self.active {
                Some(i) => Some(i as int),
                None => None,
            },
        }
    }
}

/// What bounds a history, in numbers.
#[derive(Clone, Copy, PartialEq, Eq, Structural, Debug)]
pub struct Bounds {
    pub max_jobs: usize,
    pub max_age_secs: Option<u64>,
}

impl View for Bounds {
    type V = Limits;

    open spec fn view(&self) -> Limits {
        Limits {
            max_jobs: self.max_jobs as int,
            max_age: match self.max_age_secs {
                Some(secs) => Some(secs as int),
                None => None,
            },
        }
    }
}

impl JobList {
    /// A job is shown exactly where there is one, jobs are numbered as they came, and what has
    /// been printed of each is its beginning.
    pub open spec fn wf(self) -> bool {
        &&& self@.wf()
        &&& is_numbered(self@.jobs, self.next_id)
        &&& all_wf(self.jobs@)
    }

    /// The commands of every job are what `parse` makes of its printed bytes, and none where there
    /// are no such bytes.
    pub open spec fn is_parsed<F>(self, parse: F, codepage: CodePage) -> bool where
        F: Fn(&Vec<u8>, CodePage) -> Vec<(PrinterState, CommandType)>,
     {
        all_parsed(self.jobs@, parse, codepage)
    }

    /// The commands of every job are what `parse` makes of its printed bytes.
    pub open spec fn is_read<F>(self, parse: F, codepage: CodePage) -> bool where
        F: Fn(&Vec<u8>, CodePage) -> Vec<(PrinterState, CommandType)>,
     {
        all_read(self.jobs@, parse, codepage)
    }

    /// A list without jobs.
    pub fn new() -> (list: JobList)
        ensures
            list.wf(),
            list@ == no_jobs(),
            list.jobs@.len() == 0 && list.active is None,
            list.next_id == 1,
    {
        let list = JobList { jobs: Vec::new(), active: None, next_id: 1 };
        assert(list@.jobs =~= seq![]);
        list
    }

    /// The job that is shown.
    pub fn active_job(&self) -> (job: Option<&JobEntry>)
        requires
            self.wf(),
        ensures
            job is None <==> self.active is None,
            job matches Some(j) ==> *j == self.jobs@[self.active->0 as int],
    {
        match self.active {
            Some(idx) => Some(&self.jobs[idx]),
            None => None,
        }
    }

    /// Shows job `idx`.
    pub fn select(&mut self, idx: usize)
        requires
            old(self).wf(),
            idx < old(self).jobs@.len(),
        ensures
            final(self).wf(),
            *final(self) == (JobList { active: Some(idx), ..*old(self) }),
    {
        self.active = Some(idx);
    }

    /// Closes job `idx`.
    pub fn close(&mut self, idx: usize)
        requires
            old(self).wf(),
            idx < old(self).jobs@.len(),
        ensures
            final(self).wf(),
            final(self)@ == without_job(old(self)@, idx as int),
            final(self).jobs@ == old(self).jobs@.remove(idx as int),
            final(self).next_id == old(self).next_id,
    {
        proof {
            lemma_removed(self.jobs@, idx as int, self.next_id);
        }
        let _closed = self.jobs.remove(idx);
        if self.jobs.len() == 0 {
            self.active = None;
        } else if let Some(active) = self.active {
            if idx == active {
                let before: usize = if active == 0 {
                    0
                } else {
                    active - 1
                };
                let last: usize = self.jobs.len() - 1;
                self.active = Some(if before < last { before } else { last });
            } else if idx < active {
                self.active = Some(active - 1);
            }
        }
    }

    /// Forgets all jobs. Numbers are not given again.
    pub fn clear(&mut self)
        ensures
            final(self).wf(),
            final(self)@ == no_jobs(),
            final(self).jobs@.len() == 0 && final(self).active is None,
            final(self).next_id == old(self).next_id,
    {
        self.jobs.clear();
        self.active = None;
        assert(self@.jobs =~= seq![]);
    }

    /// Ends the printing of the job that is shown, if it is being printed, and shows all of it.
    pub fn stop_active<F>(&mut self, parse: &F, codepage: CodePage) where
        F: Fn(&Vec<u8>, CodePage) -> Vec<(PrinterState, CommandType)>,

        requires
            old(self).wf(),
            takes_all(*parse),
        ensures
            final(self).wf(),
            final(self)@ == with_active_printed(old(self)@),
            final(self).next_id == old(self).next_id,
            is_ended(*old(self), final(self).jobs@, *parse, codepage),
            old(self).is_read(*parse, codepage) ==> final(self).is_read(*parse, codepage),
    {
        let idx: usize = match self.active {
            Some(idx) => idx,
            None => {
                return ;
            },
        };
        if !self.jobs[idx].sim_active {
            return ;
        }
        let ghost source = self.jobs@;
        let mut job = self.jobs.remove(idx);
        let ghost before = job@;
        job.sim_active = false;
        job.sim_started_at = None;
        job.display_bytes = copy_bytes(&job.full_bytes);
        job.parsed_commands = parse(&job.display_bytes, codepage);
        job.sim_sent = job.display_bytes.len();
        proof {
            assert(job.full_bytes@.take(job.full_bytes@.len() as int) =~= job.full_bytes@);
            assert(job@ == printed(before));
            lemma_updated(source, idx as int, job, self.next_id);
        }
        self.jobs.insert(idx, job);
        assert(self.jobs@ =~= source.update(idx as int, job));
    }

    /// Prints the job that is shown up to `target`, if it is being printed.
    pub fn print_active<F>(&mut self, parse: &F, codepage: CodePage, target: usize) where
        F: Fn(&Vec<u8>, CodePage) -> Vec<(PrinterState, CommandType)>,

        requires
            old(self).wf(),
            takes_all(*parse),
        ensures
            final(self).wf(),
            final(self)@ == with_active_printed_to(old(self)@, target as int),
            final(self).next_id == old(self).next_id,
            is_printed_on(*old(self), final(self).jobs@, *parse, codepage),
            old(self).is_read(*parse, codepage) ==> final(self).is_read(*parse, codepage),
    {
        let idx: usize = match self.active {
            Some(idx) => idx,
            None => {
                return ;
            },
        };
        if !self.jobs[idx].sim_active {
            return ;
        }
        let ghost source = self.jobs@;
        let mut job = self.jobs.remove(idx);
        let ghost before = job@;
        let ghost wanted = target as int;
        let target: usize = if target < job.full_bytes.len() {
            target
        } else {
            job.full_bytes.len()
        };
        if target > job.sim_sent {
            let sent: usize = job.sim_sent;
            for i in sent..target
                invariant
                    job@ == before,
                    sent <= target <= job.full_bytes@.len(),
                    job.display_bytes@ == job.full_bytes@.take(i as int),
            {
                let byte: u8 = job.full_bytes[i];
                job.display_bytes.push(byte);
                assert(job.full_bytes@.take(i + 1) =~= job.full_bytes@.take(i as int).push(byte));
            }
            job.sim_sent = target;
            job.parsed_commands = parse(&job.display_bytes, codepage);
        }
        if job.sim_sent >= job.full_bytes.len() {
            job.sim_active = false;
            job.sim_started_at = None;
        }
        proof {
            assert(job@ == printed_to(before, wanted));
            lemma_updated(source, idx as int, job, self.next_id);
        }
        self.jobs.insert(idx, job);
        assert(self.jobs@ =~= source.update(idx as int, job));
    }

    /// Reads the bytes of every job again. A job of which nothing has been printed has no commands
    /// afterwards.
    pub fn reparse<F>(&mut self, parse: &F, codepage: CodePage) where
        F: Fn(&Vec<u8>, CodePage) -> Vec<(PrinterState, CommandType)>,

        requires
            old(self).wf(),
            takes_all(*parse),
        ensures
            final(self).wf(),
            final(self)@ == old(self)@,
            final(self).next_id == old(self).next_id,
            final(self).is_parsed(*parse, codepage),
            final(self).is_read(*parse, codepage),
    {
        let ghost views = self@.jobs;
        let count: usize = self.jobs.len();
        for i in 0..count
            invariant
                count == self.jobs@.len(),
                takes_all(*parse),
                self@.jobs == views,
                self.active == old(self).active,
                self.next_id == old(self).next_id,
                self.wf(),
                forall|k: int|
                    0 <= k < i ==> (#[trigger] self.jobs@[k]).is_parsed(*parse, codepage),
        {
            let ghost source = self.jobs@;
            let mut job = self.jobs.remove(i);
            let ghost before = job@;
            if job.display_bytes.len() == 0 {
                job.parsed_commands.clear();
            } else {
                job.parsed_commands = parse(&job.display_bytes, codepage);
            }
            proof {
                assert(job@ == before);
                lemma_updated(source, i as int, job, self.next_id);
                assert(views.update(i as int, job@) =~= views);
            }
            self.jobs.insert(i, job);
            assert(self.jobs@ =~= source.update(i as int, job));
        }
    }

    /// Keeps the list within its bounds at the moment `now`. The job that is shown stays shown if
    /// it stays in the list; otherwise the newest is shown.
    pub fn prune(&mut self, now: u64, bounds: Bounds)
        requires
            old(self).wf(),
        ensures
            final(self).wf(),
            final(self)@ == pruned(old(self)@, now, bounds@),
            final(self).jobs@.len() <= bounds.max_jobs,
            final(self).next_id == old(self).next_id,
            final(self).jobs@ == kept_jobs(old(self).jobs@, now, bounds@),
            bounds.max_age_secs is None ==> final(self).jobs@ == newest(
                old(self).jobs@,
                bounds.max_jobs as int,
            ),
    {
        let ghost before = self@;
        let ghost source = self.jobs@;
        let active_id: Option<u64> = match self.active {
            Some(idx) => Some(self.jobs[idx].id),
            None => None,
        };
        drop_old(&mut self.jobs, now, bounds);
        drop_oldest(&mut self.jobs, bounds.max_jobs);
        proof {
            lemma_kept_jobs(source, now, bounds@);
            lemma_pruned_wf(before, self.next_id, now, bounds@);
            lemma_all_from_wf(self.jobs@, source);
            assert(jobs_view(self.jobs@).len() == self.jobs@.len());
        }
        if self.jobs.len() == 0 {
            self.active = None;
            return ;
        }
        if let Some(id) = active_id {
            proof {
                lemma_place_of(jobs_view(self.jobs@), id, 0);
            }
            if let Some(idx) = find_job(&self.jobs, id) {
                self.active = Some(idx);
                return ;
            }
        }
        self.active = Some(self.jobs.len() - 1);
    }

    /// Takes in a job and shows it. A job that is being printed is shown whole first.
    pub fn push<F>(
        &mut self,
        parse: &F,
        codepage: CodePage,
        label: String,
        full_data: Vec<u8>,
        now: u64,
        simulate: bool,
        bounds: Bounds,
    ) where F: Fn(&Vec<u8>, CodePage) -> Vec<(PrinterState, CommandType)>,
        requires
            old(self).wf(),
            takes_all(*parse),
        ensures
            final(self).wf(),
            final(self)@ == pruned(
                with_job(
                    old(self)@,
                    fresh(old(self).next_id, label@, full_data@, now, simulate),
                ),
                now,
                bounds@,
            ),
            final(self).next_id == if old(self).next_id < u64::MAX {
                (old(self).next_id + 1) as u64
            } else {
                u64::MAX
            },
            is_joined(
                *old(self),
                final(self).jobs@,
                fresh(old(self).next_id, label@, full_data@, now, simulate),
                *parse,
                codepage,
                now,
                bounds@,
            ),
            bounds.max_jobs >= 1 ==> final(self).jobs@.len() > 0 && final(self).jobs@.last()@
                == fresh(old(self).next_id, label@, full_data@, now, simulate)
                && final(self).jobs@.last().is_new(*parse, codepage),
            bounds.max_jobs >= 1 && old(self).next_id < u64::MAX ==> final(self).active == Some(
                (final(self).jobs@.len() - 1) as usize,
            ),
            forall|k: int|
                0 <= k < final(self).jobs@.len() ==> old(self).jobs@.contains(
                    #[trigger] final(self).jobs@[k],
                ) || final(self).jobs@[k].is_read(*parse, codepage),
            old(self).is_read(*parse, codepage) ==> final(self).is_read(*parse, codepage),
    {
        let ghost start = *self;
        self.stop_active(parse, codepage);
        let ghost stopped = self.jobs@;
        let id: u64 = self.next_id;
        let job = new_job(parse, codepage, id, label, full_data, now, simulate);
        proof {
            lemma_with_job_numbered(start@, job@, id);
        }
        self.next_id = if id < u64::MAX {
            id + 1
        } else {
            id
        };
        self.jobs.push(job);
        self.active = Some(self.jobs.len() - 1);
        let ghost pushed = self.jobs@;
        proof {
            assert(self@.jobs =~= with_job(start@, job@).jobs);
            assert(all_wf(self.jobs@));
        }
        self.prune(now, bounds);
        proof {
            assert(pushed == stopped.push(job));
            lemma_kept_jobs(pushed, now, bounds@);
            assert forall|k: int| 0 <= k < self.jobs@.len() implies start.jobs@.contains(
                #[trigger] self.jobs@[k],
            ) || self.jobs@[k].is_read(*parse, codepage) by {
                assert(pushed.contains(self.jobs@[k]));
                let j = choose|j: int| 0 <= j < pushed.len() && pushed[j] == self.jobs@[k];
                if j < stopped.len() {
                    assert(pushed[j] == stopped[j]);
                    if start.jobs@[j] == stopped[j] {
                        assert(start.jobs@.contains(self.jobs@[k]));
                    }
                }
            }
            if start.is_read(*parse, codepage) {
                assert forall|k: int| 0 <= k < self.jobs@.len() implies (
                #[trigger] self.jobs@[k]).is_read(*parse, codepage) by {
                    if start.jobs@.contains(self.jobs@[k]) {
                        let j = choose|j: int|
                            0 <= j < start.jobs@.len() && start.jobs@[j] == self.jobs@[k];
                        assert(start.jobs@[j].is_read(*parse, codepage));
                    }
                }
            }
            if bounds.max_jobs >= 1 {
                lemma_new_job_stays(stopped, job, now, bounds@);
                if id < u64::MAX {
                    lemma_new_job_is_shown(start@, job@, id, now, bounds@);
                }
            }
        }
    }
}

/// Without a limit on their age all jobs are young.
proof fn lemma_all_young(jobs: Seq<JobEntry>, now: u64, limits: Limits)
    requires
        limits.max_age is None,
    ensures
        jobs.filter(|job: JobEntry| is_young(job@, now, limits)) == jobs,
    decreases jobs.len(),
{
    reveal(Seq::filter);
    let left = jobs.filter(|job: JobEntry| is_young(job@, now, limits));
    if jobs.len() > 0 {
        lemma_all_young(jobs.drop_last(), now, limits);
    }
    assert(left =~= jobs);
}

/// The views of the jobs that are not too old.
proof fn lemma_young_view(jobs: Seq<JobEntry>, now: u64, limits: Limits)
    ensures
        jobs_view(jobs.filter(|job: JobEntry| is_young(job@, now, limits))) == young(
            jobs_view(jobs),
            now,
            limits,
        ),
    decreases jobs.len(),
{
    reveal(Seq::filter);
    let left = jobs.filter(|job: JobEntry| is_young(job@, now, limits));
    if jobs.len() > 0 {
        let front = jobs.drop_last();
        lemma_young_view(front, now, limits);
        assert(jobs_view(jobs).drop_last() =~= jobs_view(front));
    }
    assert(jobs_view(left) =~= young(jobs_view(jobs), now, limits));
}

/// The jobs that stay are unchanged jobs of the list, and without a limit on their age the newest.
pub proof fn lemma_kept_jobs(jobs: Seq<JobEntry>, now: u64, limits: Limits)
    requires
        limits.max_jobs >= 0,
    ensures
        jobs_view(kept_jobs(jobs, now, limits)) == kept(jobs_view(jobs), now, limits),
        all_from(kept_jobs(jobs, now, limits), jobs),
        limits.max_age is None ==> kept_jobs(jobs, now, limits) == newest(jobs, limits.max_jobs),
{
    let wanted = |job: JobEntry| is_young(job@, now, limits);
    let left = jobs.filter(wanted);
    let stay = kept_jobs(jobs, now, limits);
    lemma_young_view(jobs, now, limits);
    assert(jobs_view(stay) =~= kept(jobs_view(jobs), now, limits));
    lemma_filter_from(jobs, wanted);
    assert forall|k: int| 0 <= k < stay.len() implies jobs.contains(#[trigger] stay[k]) by {
        assert(stay[k] == left[k + left.len() - stay.len()]);
    }
    if limits.max_age is None {
        lemma_all_young(jobs, now, limits);
    }
}

/// A job that has just come in stays, as long as the list may hold a job at all.
pub proof fn lemma_new_job_stays(jobs: Seq<JobEntry>, job: JobEntry, now: u64, limits: Limits)
    requires
        job.created_at == now,
        limits.max_jobs >= 1,
        limits.max_age matches Some(secs) ==> secs >= 0,
    ensures
        kept_jobs(jobs.push(job), now, limits).len() > 0,
        kept_jobs(jobs.push(job), now, limits).last() == job,
{
    reveal(Seq::filter);
    let all = jobs.push(job);
    let wanted = |job: JobEntry| is_young(job@, now, limits);
    assert(wanted(job)) by {
        if let Some(secs) = limits.max_age {
            assert(0 <= secs * SECOND) by (nonlinear_arith)
                requires
                    secs >= 0,
            ;
        }
    }
    assert(all.last() == job);
    assert(all.filter(wanted).last() == job);
}

/// Keeping the list within its bounds twice at the same moment leaves the jobs that doing so once
/// leaves.
pub proof fn lemma_kept_again(jobs: Seq<JobEntry>, now: u64, limits: Limits)
    requires
        limits.max_jobs >= 0,
    ensures
        kept_jobs(kept_jobs(jobs, now, limits), now, limits) == kept_jobs(jobs, now, limits),
{
    let wanted = |job: JobEntry| is_young(job@, now, limits);
    let left = jobs.filter(wanted);
    let stay = kept_jobs(jobs, now, limits);
    assert forall|k: int| 0 <= k < stay.len() implies wanted(#[trigger] stay[k]) by {
        let cut = left.len() - stay.len();
        assert(stay[k] == left[k + cut]);
        jobs.lemma_filter_pred(wanted, k + cut);
    }
    lemma_filter_of_wanted(stay, wanted);
    assert(kept_jobs(stay, now, limits) =~= stay);
}

proof fn lemma_filter_from(jobs: Seq<JobEntry>, wanted: spec_fn(JobEntry) -> bool)
    ensures
        all_from(jobs.filter(wanted), jobs),
    decreases jobs.len(),
{
    reveal(Seq::filter);
    if jobs.len() > 0 {
        let front = jobs.drop_last();
        let some = front.filter(wanted);
        let all = jobs.filter(wanted);
        lemma_filter_from(front, wanted);
        assert forall|k: int| 0 <= k < all.len() implies jobs.contains(#[trigger] all[k]) by {
            if k < some.len() {
                assert(all[k] == some[k]);
                let j = choose|j: int| 0 <= j < front.len() && front[j] == some[k];
                assert(jobs[j] == all[k]);
            } else {
                assert(all[k] == jobs[jobs.len() - 1]);
            }
        }
    }
}

/// With a parser that makes nothing of nothing, it makes no difference whether it was asked where
/// nothing had been printed.
pub proof fn lemma_read_is_parsed<F>(jobs: Seq<JobEntry>, parse: F, codepage: CodePage) where
    F: Fn(&Vec<u8>, CodePage) -> Vec<(PrinterState, CommandType)>,

    requires
        makes_nothing_of_nothing(parse),
    ensures
        all_read(jobs, parse, codepage) <==> all_parsed(jobs, parse, codepage),
{
    assert forall|k: int| 0 <= k < jobs.len() implies (#[trigger] jobs[k]).is_read(parse, codepage)
        == jobs[k].is_parsed(parse, codepage) by {
        let job = jobs[k];
        assert(call_ensures(parse, (&job.display_bytes, codepage), job.parsed_commands)
            ==> job.is_parsed(parse, codepage));
    }
    if all_read(jobs, parse, codepage) {
        assert forall|k: int| 0 <= k < jobs.len() implies (#[trigger] jobs[k]).is_parsed(
            parse,
            codepage,
        ) by {
            assert(jobs[k].is_read(parse, codepage));
        }
    }
    if all_parsed(jobs, parse, codepage) {
        assert forall|k: int| 0 <= k < jobs.len() implies (#[trigger] jobs[k]).is_read(
            parse,
            codepage,
        ) by {
            assert(jobs[k].is_parsed(parse, codepage));
        }
    }
}

/// A job may be replaced by one with the same number.
proof fn lemma_updated(jobs: Seq<JobEntry>, idx: int, job: JobEntry, next: u64)
    requires
        0 <= idx < jobs.len(),
        all_wf(jobs),
        is_numbered(jobs_view(jobs), next),
        job.wf(),
        job.id == jobs[idx].id,
    ensures
        all_wf(jobs.update(idx, job)),
        is_numbered(jobs_view(jobs.update(idx, job)), next),
        jobs_view(jobs.update(idx, job)) == jobs_view(jobs).update(idx, job@),
{
    let before = jobs_view(jobs);
    let after = jobs_view(jobs.update(idx, job));
    assert(after =~= before.update(idx, job@));
    assert forall|i: int| 0 <= i < after.len() implies (#[trigger] after[i]).id == before[i].id by {
    }
    assert forall|i: int, j: int| 0 <= i < j < after.len() implies (#[trigger] after[i]).id < (
    #[trigger] after[j]).id || after[j].id == u64::MAX by {
        assert(before[i].id < before[j].id || before[j].id == u64::MAX);
    }
    assert forall|i: int| 0 <= i < after.len() implies (#[trigger] after[i]).id < next || next
        == u64::MAX by {
        assert(before[i].id < next || next == u64::MAX);
    }
}

proof fn lemma_all_from_wf(jobs: Seq<JobEntry>, source: Seq<JobEntry>)
    requires
        all_from(jobs, source),
        all_wf(source),
    ensures
        all_wf(jobs),
{
    assert forall|k: int| 0 <= k < jobs.len() implies (#[trigger] jobs[k]).wf() by {
        assert(source.contains(jobs[k]));
        let j = choose|j: int| 0 <= j < source.len() && source[j] == jobs[k];
        assert(source[j].wf());
    }
}

/// A job may leave the list.
proof fn lemma_removed(jobs: Seq<JobEntry>, idx: int, next: u64)
    requires
        0 <= idx < jobs.len(),
        all_wf(jobs),
        is_numbered(jobs_view(jobs), next),
    ensures
        all_wf(jobs.remove(idx)),
        is_numbered(jobs_view(jobs.remove(idx)), next),
        jobs_view(jobs.remove(idx)) == jobs_view(jobs).remove(idx),
{
    let before = jobs_view(jobs);
    let after = jobs_view(jobs.remove(idx));
    assert(after =~= before.remove(idx));
    assert forall|k: int| 0 <= k < after.len() implies (#[trigger] jobs.remove(idx)[k]).wf() by {
        assert(jobs.remove(idx)[k] == jobs[if k < idx { k } else { k + 1 }]);
    }
    assert forall|i: int, j: int| 0 <= i < j < after.len() implies (#[trigger] after[i]).id < (
    #[trigger] after[j]).id || after[j].id == u64::MAX by {
        assert(after[i] == before[if i < idx { i } else { i + 1 }]);
        assert(after[j] == before[if j < idx { j } else { j + 1 }]);
    }
    assert forall|i: int| 0 <= i < after.len() implies (#[trigger] after[i]).id < next || next
        == u64::MAX by {
        assert(after[i] == before[if i < idx { i } else { i + 1 }]);
    }
}

/// The view of a list holds the views of its jobs, in their order, and the place of the one that is
/// shown.
pub proof fn lemma_view_of_a_list(list: JobList, k: int)
    ensures
        list@.jobs.len() == list.jobs@.len(),
        0 <= k < list.jobs@.len() ==> list@.jobs[k] == list.jobs@[k]@,
        list.active is None <==> list@.active is None,
        list.active matches Some(i) ==> list@.active == Some(i as int),
{
}

/// Once the printing of the job that is shown has ended or gone on, no other job has changed, nor
/// have its commands. The commands of that job, where more of it has been printed, are what the
/// parser made of what has been printed.
pub proof fn lemma_other_jobs_stay<F>(
    before: JobList,
    after: Seq<JobEntry>,
    parse: F,
    codepage: CodePage,
    k: int,
) where F: Fn(&Vec<u8>, CodePage) -> Vec<(PrinterState, CommandType)>
    requires
        before.wf(),
        is_ended(before, after, parse, codepage) || is_printed_on(before, after, parse, codepage),
        0 <= k < before.jobs@.len(),
    ensures
        after.len() == before.jobs@.len(),
        before@.active != Some(k) || !before.jobs@[k].sim_active ==> after[k] == before.jobs@[k],
        before@.active == Some(k) && before.jobs@[k].sim_active && (is_ended(
            before,
            after,
            parse,
            codepage,
        ) || after[k].sim_sent > before.jobs@[k].sim_sent) ==> call_ensures(
            parse,
            (&after[k].display_bytes, codepage),
            after[k].parsed_commands,
        ),
{
}

} // verus!
