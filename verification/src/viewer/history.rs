//! What the history of jobs is, and how it changes.

use crate::viewer::job::{elapsed, JobView, SECOND};
use vstd::prelude::*;

verus! {

/// The jobs, the oldest first, and which of them is shown.
pub struct History {
    pub jobs: Seq<JobView>,
    pub active: Option<int>,
}

impl History {
    /// A job is shown exactly where there is one.
    pub open spec fn wf(self) -> bool {
        &&& self.active is Some <==> self.jobs.len() > 0
        &&& self.active matches Some(i) ==> 0 <= i < self.jobs.len()
    }
}

/// A history without jobs.
pub open spec fn no_jobs() -> History {
    History { jobs: seq![], active: None }
}

/// A job that has been printed to its end.
pub open spec fn printed(job: JobView) -> JobView {
    JobView { sent: job.full.len(), sim_active: false, started: None, ..job }
}

/// The history after the job that is shown has been printed to its end, if it was being printed.
pub open spec fn with_active_printed(h: History) -> History {
    match h.active {
        Some(i) if h.jobs[i].sim_active => History {
            jobs: h.jobs.update(i, printed(h.jobs[i])),
            active: h.active,
        },
        _ => h,
    }
}

/// A job of which at least `target` bytes have been printed, as far as there are so many; its
/// printing ends with its last byte.
pub open spec fn printed_to(job: JobView, target: int) -> JobView {
    let wanted = if target < job.full.len() {
        target
    } else {
        job.full.len() as int
    };
    let sent = if wanted > job.sent {
        wanted
    } else {
        job.sent as int
    };
    if sent >= job.full.len() {
        JobView { sent: sent as nat, sim_active: false, started: None, ..job }
    } else {
        JobView { sent: sent as nat, ..job }
    }
}

/// The history after printing of the job that is shown has come to `target`.
pub open spec fn with_active_printed_to(h: History, target: int) -> History {
    match h.active {
        Some(i) if h.jobs[i].sim_active => History {
            jobs: h.jobs.update(i, printed_to(h.jobs[i], target)),
            active: h.active,
        },
        _ => h,
    }
}

/// What bounds the history: a number of jobs, and an age in seconds.
pub struct Limits {
    pub max_jobs: int,
    pub max_age: Option<int>,
}

/// Whether a job is not too old.
pub open spec fn is_young(job: JobView, now: u64, limits: Limits) -> bool {
    limits.max_age matches Some(secs) ==> elapsed(job.created_at, now) <= secs * SECOND
}

/// The jobs that are not too old.
pub open spec fn young(jobs: Seq<JobView>, now: u64, limits: Limits) -> Seq<JobView> {
    jobs.filter(|job: JobView| is_young(job, now, limits))
}

/// The newest jobs, `n` of them, or all where there are fewer.
pub open spec fn newest<T>(jobs: Seq<T>, n: int) -> Seq<T> {
    if jobs.len() > n {
        jobs.skip(jobs.len() - n)
    } else {
        jobs
    }
}

/// The jobs that stay in the history.
pub open spec fn kept(jobs: Seq<JobView>, now: u64, limits: Limits) -> Seq<JobView> {
    newest(young(jobs, now, limits), limits.max_jobs)
}

/// The first place at or after `from` that holds the job `id`.
pub open spec fn place_of(jobs: Seq<JobView>, id: u64, from: int) -> Option<int>
    decreases jobs.len() - from,
{
    if from >= jobs.len() {
        None
    } else if jobs[from].id == id {
        Some(from)
    } else {
        place_of(jobs, id, from + 1)
    }
}

/// Which job is shown after some have left: the same one if it is still there, else the newest.
pub open spec fn active_after(h: History, jobs: Seq<JobView>) -> Option<int> {
    if jobs.len() == 0 {
        None
    } else {
        let same = match h.active {
            Some(i) => place_of(jobs, h.jobs[i].id, 0),
            None => None,
        };
        match same {
            Some(i) => Some(i),
            None => Some(jobs.len() - 1),
        }
    }
}

/// The history within its limits: without the jobs that are too old, and then without the oldest
/// of those that are too many.
pub open spec fn pruned(h: History, now: u64, limits: Limits) -> History {
    let jobs = kept(h.jobs, now, limits);
    History { jobs, active: active_after(h, jobs) }
}

/// A job that has just come in: to be printed from its first byte, or at once.
pub open spec fn fresh(
    id: u64,
    label: Seq<char>,
    full: Seq<u8>,
    now: u64,
    simulate: bool,
) -> JobView {
    JobView {
        id,
        label,
        created_at: now,
        full,
        sent: if simulate {
            0
        } else {
            full.len()
        },
        sim_active: simulate,
        started: if simulate {
            Some(now)
        } else {
            None
        },
    }
}

/// The history with a new job, which is shown.
pub open spec fn with_job(h: History, job: JobView) -> History {
    let before = with_active_printed(h);
    History { jobs: before.jobs.push(job), active: Some(before.jobs.len() as int) }
}

/// The history without job `k`. Another job stays shown; where it was the one that was shown, the
/// job before it takes its place, or the first.
pub open spec fn without_job(h: History, k: int) -> History {
    let jobs = h.jobs.remove(k);
    History {
        jobs,
        active: if jobs.len() == 0 {
            None
        } else {
            match h.active {
                Some(a) if k == a => if a == 0 {
                    Some(0)
                } else {
                    Some(a - 1)
                },
                Some(a) if k < a => Some(a - 1),
                other => other,
            }
        },
    }
}

/// Jobs are numbered as they come: a later job has a greater number, up to the last number that
/// there is.
pub open spec fn is_numbered(jobs: Seq<JobView>, next: u64) -> bool {
    &&& forall|i: int, j: int|
        0 <= i < j < jobs.len() ==> (#[trigger] jobs[i]).id < (#[trigger] jobs[j]).id || jobs[j].id
            == u64::MAX
    &&& forall|i: int| 0 <= i < jobs.len() ==> (#[trigger] jobs[i]).id < next || next == u64::MAX
}

/// A place that is found holds the job, and no place before it does.
pub proof fn lemma_place_of(jobs: Seq<JobView>, id: u64, from: int)
    requires
        0 <= from,
    ensures
        place_of(jobs, id, from) matches Some(i) ==> from <= i < jobs.len() && jobs[i].id == id
            && forall|k: int| from <= k < i ==> (#[trigger] jobs[k]).id != id,
        place_of(jobs, id, from) is None ==> forall|k: int|
            from <= k < jobs.len() ==> (#[trigger] jobs[k]).id != id,
    decreases jobs.len() - from,
{
    if from < jobs.len() && jobs[from].id != id {
        lemma_place_of(jobs, id, from + 1);
    }
}

/// Closing a tab keeps the history whole.
pub proof fn lemma_without_job_wf(h: History, k: int)
    requires
        h.wf(),
        0 <= k < h.jobs.len(),
    ensures
        without_job(h, k).wf(),
{
}

/// Closing the tab of another job leaves the job shown that was shown.
pub proof fn lemma_closing_another_keeps_the_shown(h: History, k: int)
    requires
        h.wf(),
        0 <= k < h.jobs.len(),
        h.active != Some(k),
    ensures
        without_job(h, k).active is Some,
        without_job(h, k).jobs[without_job(h, k).active->0] == h.jobs[h.active->0],
{
}

/// Filtering keeps the order of the numbers.
proof fn lemma_filter_numbered(jobs: Seq<JobView>, wanted: spec_fn(JobView) -> bool, next: u64)
    requires
        is_numbered(jobs, next),
    ensures
        is_numbered(jobs.filter(wanted), next),
        forall|i: int|
            0 <= i < jobs.filter(wanted).len() ==> jobs.contains(
                #[trigger] jobs.filter(wanted)[i],
            ) && wanted(jobs.filter(wanted)[i]),
        jobs.filter(wanted).len() <= jobs.len(),
    decreases jobs.len(),
{
    reveal(Seq::filter);
    if jobs.len() > 0 {
        let front = jobs.drop_last();
        assert(is_numbered(front, next)) by {
            assert forall|i: int, j: int| 0 <= i < j < front.len() implies (
            #[trigger] front[i]).id < (#[trigger] front[j]).id || front[j].id == u64::MAX by {
                assert(jobs[i].id < jobs[j].id || jobs[j].id == u64::MAX);
            }
            assert forall|i: int| 0 <= i < front.len() implies (#[trigger] front[i]).id < next
                || next == u64::MAX by {
                assert(jobs[i].id < next || next == u64::MAX);
            }
        }
        lemma_filter_numbered(front, wanted, next);
        let some = front.filter(wanted);
        let all = jobs.filter(wanted);
        assert forall|i: int| 0 <= i < all.len() implies jobs.contains(#[trigger] all[i])
            && wanted(all[i]) by {
            if i < some.len() {
                assert(all[i] == some[i]);
                let j = choose|j: int| 0 <= j < front.len() && front[j] == some[i];
                assert(jobs[j] == all[i]);
            } else {
                assert(all[i] == jobs[jobs.len() - 1]);
            }
        }
        assert forall|i: int, j: int| 0 <= i < j < all.len() implies (#[trigger] all[i]).id < (
        #[trigger] all[j]).id || all[j].id == u64::MAX by {
            if j < some.len() {
                assert(all[i] == some[i] && all[j] == some[j]);
            } else {
                assert(all[i] == some[i]);
                let p = choose|p: int| 0 <= p < front.len() && front[p] == some[i];
                assert(jobs[p] == all[i] && jobs[jobs.len() - 1] == all[j]);
            }
        }
        assert forall|i: int| 0 <= i < all.len() implies (#[trigger] all[i]).id < next || next
            == u64::MAX by {
            let p = choose|p: int| 0 <= p < jobs.len() && jobs[p] == all[i];
            assert(jobs[p].id < next || next == u64::MAX);
        }
    }
}

/// The jobs that stay are numbered as they were, every one of them was there before and is not too
/// old, and they are not too many.
pub proof fn lemma_kept(jobs: Seq<JobView>, next: u64, now: u64, limits: Limits)
    requires
        is_numbered(jobs, next),
        limits.max_jobs >= 0,
    ensures
        is_numbered(kept(jobs, now, limits), next),
        kept(jobs, now, limits).len() <= limits.max_jobs,
        kept(jobs, now, limits).len() <= jobs.len(),
        forall|i: int|
            0 <= i < kept(jobs, now, limits).len() ==> jobs.contains(
                #[trigger] kept(jobs, now, limits)[i],
            ) && is_young(kept(jobs, now, limits)[i], now, limits),
{
    let wanted = |job: JobView| is_young(job, now, limits);
    lemma_filter_numbered(jobs, wanted, next);
    let left = young(jobs, now, limits);
    let stay = kept(jobs, now, limits);
    let cut = left.len() - stay.len();
    assert forall|i: int| 0 <= i < stay.len() implies jobs.contains(#[trigger] stay[i]) && is_young(
        stay[i],
        now,
        limits,
    ) by {
        assert(stay[i] == left[i + cut]);
    }
    assert forall|i: int, j: int| 0 <= i < j < stay.len() implies (#[trigger] stay[i]).id < (
    #[trigger] stay[j]).id || stay[j].id == u64::MAX by {
        assert(stay[i] == left[i + cut] && stay[j] == left[j + cut]);
    }
    assert forall|i: int| 0 <= i < stay.len() implies (#[trigger] stay[i]).id < next || next
        == u64::MAX by {
        assert(stay[i] == left[i + cut]);
    }
}

/// A history that is pruned is whole, and within its limits.
pub proof fn lemma_pruned_wf(h: History, next: u64, now: u64, limits: Limits)
    requires
        is_numbered(h.jobs, next),
        limits.max_jobs >= 0,
    ensures
        pruned(h, now, limits).wf(),
        is_numbered(pruned(h, now, limits).jobs, next),
        pruned(h, now, limits).jobs.len() <= limits.max_jobs,
{
    lemma_kept(h.jobs, next, now, limits);
    if let Some(i) = h.active {
        lemma_place_of(kept(h.jobs, now, limits), h.jobs[i].id, 0);
    }
}

/// Pruning leaves the job shown that was shown, as long as that job stays in the history and does
/// not have the last number that there is.
pub proof fn lemma_pruning_keeps_the_shown(h: History, next: u64, now: u64, limits: Limits)
    requires
        h.wf(),
        is_numbered(h.jobs, next),
        h.active is Some,
        h.jobs[h.active->0].id < u64::MAX,
        kept(h.jobs, now, limits).contains(h.jobs[h.active->0]),
        limits.max_jobs >= 0,
    ensures
        pruned(h, now, limits).active matches Some(i) && pruned(h, now, limits).jobs[i]
            == h.jobs[h.active->0],
{
    let jobs = kept(h.jobs, now, limits);
    let shown = h.jobs[h.active->0];
    lemma_kept(h.jobs, next, now, limits);
    lemma_place_of(jobs, shown.id, 0);
    let p = choose|p: int| 0 <= p < jobs.len() && jobs[p] == shown;
    assert(jobs[p].id == shown.id);
    let q = place_of(jobs, shown.id, 0)->0;
    if q < p {
        assert(jobs[q].id < jobs[p].id || jobs[p].id == u64::MAX);
    } else if p < q {
        assert(jobs[p].id != shown.id);
    }
}

/// Pruning twice at the same moment leaves the jobs that pruning once leaves. It shows the same
/// job too, unless an older job has the number of the one that is shown.
pub proof fn lemma_pruning_again_changes_nothing(h: History, now: u64, limits: Limits)
    requires
        limits.max_jobs >= 0,
    ensures
        ({
            let once = pruned(h, now, limits);
            let twice = pruned(once, now, limits);
            &&& twice.jobs == once.jobs
            &&& (once.active matches Some(i) ==> forall|k: int|
                0 <= k < i ==> (#[trigger] once.jobs[k]).id != once.jobs[i].id) ==> twice == once
        }),
{
    let once = pruned(h, now, limits);
    let left = young(h.jobs, now, limits);
    let wanted = |job: JobView| is_young(job, now, limits);
    assert forall|i: int| 0 <= i < once.jobs.len() implies wanted(#[trigger] once.jobs[i]) by {
        let cut = left.len() - once.jobs.len();
        assert(once.jobs[i] == left[i + cut]);
        h.jobs.lemma_filter_pred(wanted, i + cut);
    }
    lemma_filter_of_wanted(once.jobs, wanted);
    assert(kept(once.jobs, now, limits) =~= once.jobs);
    if let Some(i) = h.active {
        lemma_place_of(once.jobs, h.jobs[i].id, 0);
    }
    if let Some(i) = once.active {
        let id = once.jobs[i].id;
        lemma_place_of(once.jobs, id, 0);
        let again = place_of(once.jobs, id, 0);
        if again is None || i < again->0 {
            assert(once.jobs[i].id != id);
        }
    }
}

/// Filtering jobs that are all wanted leaves them as they are.
pub proof fn lemma_filter_of_wanted<T>(jobs: Seq<T>, wanted: spec_fn(T) -> bool)
    requires
        forall|i: int| 0 <= i < jobs.len() ==> wanted(#[trigger] jobs[i]),
    ensures
        jobs.filter(wanted) == jobs,
    decreases jobs.len(),
{
    reveal(Seq::filter);
    if jobs.len() > 0 {
        let front = jobs.drop_last();
        assert forall|i: int| 0 <= i < front.len() implies wanted(#[trigger] front[i]) by {
            assert(front[i] == jobs[i]);
        }
        lemma_filter_of_wanted(front, wanted);
        assert(wanted(jobs[jobs.len() - 1]));
        assert(jobs.filter(wanted) =~= jobs);
    } else {
        assert(jobs.filter(wanted) =~= jobs);
    }
}

/// A new job that is numbered after the others keeps the history numbered.
pub proof fn lemma_with_job_numbered(h: History, job: JobView, next: u64)
    requires
        h.wf(),
        is_numbered(h.jobs, next),
        job.id == next,
    ensures
        with_job(h, job).wf(),
        is_numbered(
            with_job(h, job).jobs,
            if next < u64::MAX {
                (next + 1) as u64
            } else {
                next
            },
        ),
{
    let before = with_active_printed(h).jobs;
    assert forall|i: int| 0 <= i < before.len() implies (#[trigger] before[i]).id == h.jobs[i].id by {
    }
    let jobs = with_job(h, job).jobs;
    assert forall|i: int, j: int| 0 <= i < j < jobs.len() implies (#[trigger] jobs[i]).id < (
    #[trigger] jobs[j]).id || jobs[j].id == u64::MAX by {
        assert(jobs[i] == before[i]);
        if j < before.len() {
            assert(jobs[j] == before[j]);
        }
    }
    assert forall|i: int| 0 <= i < jobs.len() implies (#[trigger] jobs[i]).id < (if next
        < u64::MAX {
        (next + 1) as u64
    } else {
        next
    }) || next == u64::MAX by {
        if i < before.len() {
            assert(jobs[i] == before[i]);
        }
    }
}

/// A job that comes in is the one that is shown, as long as the history may hold a job at all and
/// there are numbers left.
pub proof fn lemma_new_job_is_shown(h: History, job: JobView, next: u64, now: u64, limits: Limits)
    requires
        h.wf(),
        is_numbered(h.jobs, next),
        next < u64::MAX,
        job.id == next,
        job.created_at == now,
        limits.max_jobs >= 1,
        limits.max_age matches Some(secs) ==> secs >= 0,
    ensures
        ({
            let after = pruned(with_job(h, job), now, limits);
            after.active matches Some(i) && i == after.jobs.len() - 1 && after.jobs[i] == job
        }),
{
    let whole = with_job(h, job);
    let n = (next + 1) as u64;
    lemma_with_job_numbered(h, job, next);
    let wanted = |j: JobView| is_young(j, now, limits);
    assert(wanted(job)) by {
        if let Some(secs) = limits.max_age {
            assert(0 <= secs * SECOND) by (nonlinear_arith)
                requires
                    secs >= 0,
            ;
        }
    }
    let left = young(whole.jobs, now, limits);
    assert(left.len() > 0 && left.last() == job) by {
        reveal(Seq::filter);
        assert(whole.jobs.last() == job);
    }
    let jobs = kept(whole.jobs, now, limits);
    assert(jobs.len() > 0);
    assert(jobs[jobs.len() - 1] == job);
    assert(jobs.contains(job));
    lemma_pruning_keeps_the_shown(whole, n, now, limits);
    lemma_kept(whole.jobs, n, now, limits);
    let after = pruned(whole, now, limits);
    let i = after.active->0;
    lemma_pruned_wf(whole, n, now, limits);
    if i != jobs.len() - 1 {
        assert(jobs[i].id < jobs[jobs.len() - 1].id || jobs[jobs.len() - 1].id == u64::MAX);
        assert(jobs[i].id == jobs[jobs.len() - 1].id);
    }
}

/// Printing only goes on: what has been printed stays printed, and a job whose printing has ended
/// has been printed whole.
pub proof fn lemma_printing_goes_on(job: JobView, target: int)
    requires
        job.sent <= job.full.len(),
        !job.sim_active ==> job.sent == job.full.len(),
    ensures
        job.sent <= printed_to(job, target).sent <= job.full.len(),
        job.full.take(job.sent as int).is_prefix_of(
            job.full.take(printed_to(job, target).sent as int),
        ),
        !printed_to(job, target).sim_active ==> printed_to(job, target).sent == job.full.len(),
        target >= job.full.len() ==> printed_to(job, target) == printed(job),
{
    let a = job.full.take(job.sent as int);
    let b = job.full.take(printed_to(job, target).sent as int);
    assert(a =~= b.subrange(0, a.len() as int));
}

/// It does not matter in how many steps a job is printed, only how far.
pub proof fn lemma_steps_of_printing(job: JobView, first: int, then_to: int)
    requires
        job.sim_active,
        job.sent <= job.full.len(),
        first <= then_to,
        printed_to(job, first).sim_active,
    ensures
        printed_to(printed_to(job, first), then_to) == printed_to(job, then_to),
{
}

/// A job of which printing has come to a target has been printed that far, unless it has been
/// printed further already or ends before. It is being printed until its last byte, and nothing else
/// of it changes.
pub proof fn lemma_how_far_a_job_is_printed(job: JobView, target: int)
    requires
        job.sim_active,
        job.sent <= job.full.len(),
    ensures
        ({
            let next = printed_to(job, target);
            &&& job.sent <= target <= job.full.len() ==> next.sent == target
            &&& target < job.sent ==> next.sent == job.sent
            &&& target > job.full.len() ==> next.sent == job.full.len()
            &&& next.sim_active <==> next.sent < job.full.len()
            &&& next.started == if next.sent < job.full.len() {
                job.started
            } else {
                None
            }
            &&& next.id == job.id && next.label == job.label && next.created_at == job.created_at
                && next.full == job.full
        }),
{
}

/// A job that comes in holds the bytes that came, all of them. To be printed, it has nothing
/// printed and begins now; otherwise it is as if that printing had come to its end.
pub proof fn lemma_how_a_job_comes_in(id: u64, label: Seq<char>, full: Seq<u8>, now: u64)
    ensures
        ({
            let slow = fresh(id, label, full, now, true);
            let fast = fresh(id, label, full, now, false);
            &&& slow.id == id && slow.label == label && slow.full == full && slow.created_at == now
            &&& slow.sent == 0 && slow.sim_active && slow.started == Some(now)
            &&& fast.id == id && fast.label == label && fast.full == full && fast.created_at == now
            &&& fast.sent == full.len() && !fast.sim_active && fast.started is None
            &&& fast == printed(slow)
            &&& fast == printed_to(slow, full.len() as int)
        }),
{
}

/// Printing, to the end or on to a target, concerns the job that is shown and no other, and leaves
/// it shown.
pub proof fn lemma_printing_concerns_the_shown(h: History, target: int, k: int)
    requires
        h.wf(),
        0 <= k < h.jobs.len(),
    ensures
        with_active_printed(h).active == h.active,
        with_active_printed_to(h, target).active == h.active,
        with_active_printed(h).jobs.len() == h.jobs.len(),
        with_active_printed_to(h, target).jobs.len() == h.jobs.len(),
        h.active != Some(k) || !h.jobs[k].sim_active ==> with_active_printed(h).jobs[k] == h.jobs[k]
            && with_active_printed_to(h, target).jobs[k] == h.jobs[k],
        h.active == Some(k) && h.jobs[k].sim_active ==> ({
            let whole = with_active_printed(h).jobs[k];
            &&& whole.full == h.jobs[k].full && whole.id == h.jobs[k].id && whole.label
                == h.jobs[k].label && whole.created_at == h.jobs[k].created_at
            &&& whole.sent == whole.full.len() && !whole.sim_active && whole.started is None
            &&& with_active_printed_to(h, target).jobs[k] == printed_to(h.jobs[k], target)
        }),
{
}

/// A new job stands behind the others and is shown. Of the others none leaves and none changes its
/// place, number or bytes.
pub proof fn lemma_new_job_is_the_last(h: History, job: JobView, k: int)
    requires
        h.wf(),
    ensures
        with_job(h, job).jobs.len() == h.jobs.len() + 1,
        with_job(h, job).jobs.last() == job,
        with_job(h, job).active == Some(h.jobs.len() as int),
        0 <= k < h.jobs.len() ==> with_job(h, job).jobs[k].id == h.jobs[k].id && with_job(
            h,
            job,
        ).jobs[k].full == h.jobs[k].full && with_job(h, job).jobs[k].label == h.jobs[k].label,
        0 <= k < h.jobs.len() && h.active != Some(k) ==> with_job(h, job).jobs[k] == h.jobs[k],
        0 <= k < h.jobs.len() && h.active == Some(k) && h.jobs[k].sim_active ==> with_job(
            h,
            job,
        ).jobs[k].sent == h.jobs[k].full.len(),
{
}

/// A job is too old once it has been there for more than the seconds of the limit, of a thousand
/// million nanoseconds each. Without a limit no job is too old.
pub proof fn lemma_when_a_job_is_too_old(job: JobView, now: u64, limits: Limits)
    ensures
        limits.max_age is None ==> is_young(job, now, limits),
        limits.max_age matches Some(secs) ==> job.created_at <= now ==> (is_young(job, now, limits)
            <==> now - job.created_at <= secs * 1_000_000_000),
        limits.max_age matches Some(secs) ==> now < job.created_at && secs >= 0 ==> is_young(
            job,
            now,
            limits,
        ),
{
    if let Some(secs) = limits.max_age {
        if secs >= 0 {
            assert(0 <= secs * SECOND) by (nonlinear_arith)
                requires
                    secs >= 0,
            ;
        }
    }
}

/// No more jobs leave than must: those that stay are the newest of those that are not too old, all
/// of them where they are not too many, and else as many as there may be.
pub proof fn lemma_no_more_jobs_leave_than_must(jobs: Seq<JobView>, now: u64, limits: Limits, k: int)
    requires
        limits.max_jobs >= 0,
        0 <= k < jobs.len(),
        is_young(jobs[k], now, limits),
        !kept(jobs, now, limits).contains(jobs[k]),
    ensures
        kept(jobs, now, limits).len() == limits.max_jobs,
        kept(jobs, now, limits).is_suffix_of(young(jobs.skip(k + 1), now, limits)),
{
    let wanted = |job: JobView| is_young(job, now, limits);
    let before = jobs.take(k);
    let behind = jobs.skip(k + 1);
    let a = before.filter(wanted);
    let b = behind.filter(wanted);
    let one = seq![jobs[k]];
    assert(jobs =~= (before + one) + behind);
    Seq::filter_distributes_over_add(before + one, behind, wanted);
    Seq::filter_distributes_over_add(before, one, wanted);
    assert(one.filter(wanted) =~= one) by {
        lemma_filter_of_wanted(one, wanted);
    }
    let all = young(jobs, now, limits);
    assert(all =~= a + one + b);
    let stay = kept(jobs, now, limits);
    let cut = all.len() - stay.len();
    if cut <= a.len() {
        assert(stay[a.len() - cut] == jobs[k]);
    }
    assert(stay =~= b.skip(b.len() - stay.len()));
}

/// Where the job that was shown has left the history, the newest one is shown.
pub proof fn lemma_newest_is_shown_instead(h: History, now: u64, limits: Limits)
    requires
        h.wf(),
        h.active matches Some(i) && forall|k: int|
            0 <= k < kept(h.jobs, now, limits).len() ==> (#[trigger] kept(
                h.jobs,
                now,
                limits,
            )[k]).id != h.jobs[i].id,
    ensures
        pruned(h, now, limits).jobs.len() > 0 ==> pruned(h, now, limits).active == Some(
            pruned(h, now, limits).jobs.len() - 1,
        ),
        pruned(h, now, limits).jobs.len() == 0 ==> pruned(h, now, limits).active is None,
{
    lemma_place_of(kept(h.jobs, now, limits), h.jobs[h.active->0].id, 0);
}

/// Closing a tab takes out its job and no other. Where it was the job that was shown, the one before
/// it is shown, or the one behind it where it was the first.
pub proof fn lemma_closing_the_shown(h: History, k: int)
    requires
        h.wf(),
        0 <= k < h.jobs.len(),
    ensures
        without_job(h, k).jobs.len() == h.jobs.len() - 1,
        forall|i: int| 0 <= i < k ==> #[trigger] without_job(h, k).jobs[i] == h.jobs[i],
        forall|i: int|
            k <= i < h.jobs.len() - 1 ==> #[trigger] without_job(h, k).jobs[i] == h.jobs[i + 1],
        h.active == Some(k) && h.jobs.len() == 1 ==> without_job(h, k).active is None,
        h.active == Some(k) && k > 0 ==> (without_job(h, k).active matches Some(i) && without_job(
            h,
            k,
        ).jobs[i] == h.jobs[k - 1]),
        h.active == Some(k) && k == 0 && h.jobs.len() > 1 ==> (without_job(
            h,
            k,
        ).active matches Some(i) && without_job(h, k).jobs[i] == h.jobs[1]),
{
}

} // verus!
