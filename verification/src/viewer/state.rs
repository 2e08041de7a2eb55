//! The viewer: its jobs, its settings, and what happens to them.

use crate::model::{CodePage, CommandType, PrinterState};
use crate::tcp_capture::CapturedJob;
use crate::viewer::capture::{initial_capture, CaptureState};
use crate::viewer::history::{
    fresh, lemma_new_job_is_shown, lemma_pruned_wf, lemma_with_job_numbered, newest, no_jobs, pruned,
    with_active_printed, with_active_printed_to, with_job, History,
};
use crate::viewer::job::{
    is_noise, is_visible, lemma_commands_are_of_the_printed_bytes, lemma_commands_of_a_new_job,
    shows_nothing, JobEntry,
};
use crate::viewer::list::{is_ended, is_joined, is_printed_on, kept_jobs, takes_all, Bounds, JobList};
use crate::viewer::window::{initial_window, WindowState};
use vstd::prelude::*;

verus! {

/// How jobs are read, printed and kept.
#[derive(Clone, Copy, PartialEq, Eq, Structural, Debug)]
pub struct Printing {
    pub codepage: CodePage,
    /// Whether jobs are printed byte by byte.
    pub simulate_printing: bool,
    pub sim_bytes_per_sec: usize,
    pub max_jobs: usize,
    pub auto_prune_by_age: bool,
    pub prune_after_secs: u64,
}

/// What the viewer shows beside the ticket, and how.
#[derive(Clone, Copy, PartialEq, Eq, Structural, Debug)]
pub struct Appearance {
    pub auto_scroll_on_print: bool,
    pub show_debug_controls: bool,
    pub show_debug_panels: bool,
    pub show_settings: bool,
    pub realistic_effects: bool,
    pub use_thermal_font: bool,
}

/// The viewer.
#[derive(Clone, Debug)]
pub struct EscPosViewer {
    pub history: JobList,
    pub printing: Printing,
    pub capture: CaptureState,
    pub window: WindowState,
    pub appearance: Appearance,
}

impl Default for EscPosViewer {
    fn default() -> (viewer: Self)
        ensures
            viewer.wf(),
            viewer.history@ == no_jobs(),
            viewer.history.next_id == 1,
            viewer.printing == (Printing {
                codepage: CodePage::Utf8Lossy,
                simulate_printing: true,
                sim_bytes_per_sec: 1_000,
                max_jobs: 25,
                auto_prune_by_age: false,
                prune_after_secs: 7200,
            }),
            viewer.capture == initial_capture(),
            viewer.window == initial_window(),
            viewer.appearance == (Appearance {
                auto_scroll_on_print: true,
                show_debug_controls: false,
                show_debug_panels: false,
                show_settings: false,
                realistic_effects: true,
                use_thermal_font: true,
            }),
    {
        EscPosViewer {
            history: JobList::new(),
            printing: Printing {
                codepage: CodePage::Utf8Lossy,
                simulate_printing: true,
                sim_bytes_per_sec: 1_000,
                max_jobs: 25,
                auto_prune_by_age: false,
                prune_after_secs: 60 * 60 * 2,
            },
            capture: CaptureState::new(),
            window: WindowState::new(),
            appearance: Appearance {
                auto_scroll_on_print: true,
                show_debug_controls: false,
                show_debug_panels: false,
                show_settings: false,
                realistic_effects: true,
                use_thermal_font: true,
            },
        }
    }
}

impl EscPosViewer {
    /// The history is whole.
    pub open spec fn wf(self) -> bool {
        self.history.wf()
    }

    /// The commands of every job are what `parse` makes of its printed bytes, and none where there
    /// are no such bytes.
    pub open spec fn is_parsed<F>(self, parse: F) -> bool where
        F: Fn(&Vec<u8>, CodePage) -> Vec<(PrinterState, CommandType)>,
     {
        self.history.is_parsed(parse, self.printing.codepage)
    }

    /// The commands of every job are what `parse` makes of its printed bytes.
    pub open spec fn is_read<F>(self, parse: F) -> bool where
        F: Fn(&Vec<u8>, CodePage) -> Vec<(PrinterState, CommandType)>,
     {
        self.history.is_read(parse, self.printing.codepage)
    }

    /// What bounds the history.
    pub open spec fn bounds(self) -> Bounds {
        Bounds {
            max_jobs: self.printing.max_jobs,
            max_age_secs: if self.printing.auto_prune_by_age {
                Some(self.printing.prune_after_secs)
            } else {
                None
            },
        }
    }

    fn current_bounds(&self) -> (bounds: Bounds)
        ensures
            bounds == self.bounds(),
    {
        Bounds {
            max_jobs: self.printing.max_jobs,
            max_age_secs: if self.printing.auto_prune_by_age {
                Some(self.printing.prune_after_secs)
            } else {
                None
            },
        }
    }

    /// The job that is shown.
    pub fn active_job(&self) -> (job: Option<&JobEntry>)
        requires
            self.wf(),
        ensures
            job is None <==> self.history.active is None,
            job matches Some(j) ==> *j == self.history.jobs@[self.history.active->0 as int],
    {
        self.history.active_job()
    }

    /// Ends the printing of the job that is shown, if it is being printed, and shows all of it.
    pub fn stop_active_simulation_show_full<F>(&mut self, parse: &F) where
        F: Fn(&Vec<u8>, CodePage) -> Vec<(PrinterState, CommandType)>,

        requires
            old(self).wf(),
            takes_all(*parse),
        ensures
            final(self).wf(),
            final(self).history@ == with_active_printed(old(self).history@),
            final(self).history.next_id == old(self).history.next_id,
            is_ended(
                old(self).history,
                final(self).history.jobs@,
                *parse,
                old(self).printing.codepage,
            ),
            old(self).is_read(*parse) ==> final(self).is_read(*parse),
            *final(self) == (EscPosViewer { history: final(self).history, ..*old(self) }),
    {
        self.history.stop_active(parse, self.printing.codepage);
    }

    /// Keeps the history within its bounds at the moment `now`.
    pub fn prune_jobs(&mut self, now: u64)
        requires
            old(self).wf(),
        ensures
            final(self).wf(),
            final(self).history@ == pruned(old(self).history@, now, old(self).bounds()@),
            final(self).history.jobs@.len() <= final(self).printing.max_jobs,
            final(self).history.next_id == old(self).history.next_id,
            final(self).history.jobs@ == kept_jobs(
                old(self).history.jobs@,
                now,
                old(self).bounds()@,
            ),
            !old(self).printing.auto_prune_by_age ==> final(self).history.jobs@ == newest(
                old(self).history.jobs@,
                old(self).printing.max_jobs as int,
            ),
            *final(self) == (EscPosViewer { history: final(self).history, ..*old(self) }),
    {
        let bounds = self.current_bounds();
        self.history.prune(now, bounds);
    }

    /// Takes in a job and shows it, printing it from its first byte or at once.
    pub fn push_new_job<F>(&mut self, parse: &F, label: String, full_data: Vec<u8>, now: u64) where
        F: Fn(&Vec<u8>, CodePage) -> Vec<(PrinterState, CommandType)>,

        requires
            old(self).wf(),
            takes_all(*parse),
        ensures
            final(self).wf(),
            final(self).history@ == old(self).history_with(label@, full_data@, now),
            final(self).history.next_id == old(self).number_after(),
            old(self).takes_in(final(self).history, *parse, label@, full_data@, now),
            old(self).is_read(*parse) ==> final(self).is_read(*parse),
            *final(self) == (EscPosViewer { history: final(self).history, ..*old(self) }),
    {
        let bounds = self.current_bounds();
        self.history.push(
            parse,
            self.printing.codepage,
            label,
            full_data,
            now,
            self.printing.simulate_printing,
            bounds,
        );
    }

    /// The history after a job has come in.
    pub open spec fn history_with(self, label: Seq<char>, data: Seq<u8>, now: u64) -> History {
        pruned(
            with_job(
                self.history@,
                fresh(self.history.next_id, label, data, now, self.printing.simulate_printing),
            ),
            now,
            self.bounds()@,
        )
    }

    /// Whether `after` is the list once a job has come in. The job is the last one, and shown as
    /// long as there are numbers left; it has been read unless it is yet to be printed. Every other
    /// job is as it was, or has been printed to its end and read again.
    pub open spec fn takes_in<F>(
        self,
        after: JobList,
        parse: F,
        label: Seq<char>,
        data: Seq<u8>,
        now: u64,
    ) -> bool where F: Fn(&Vec<u8>, CodePage) -> Vec<(PrinterState, CommandType)> {
        let codepage = self.printing.codepage;
        let new = fresh(self.history.next_id, label, data, now, self.printing.simulate_printing);
        &&& is_joined(self.history, after.jobs@, new, parse, codepage, now, self.bounds()@)
        &&& self.printing.max_jobs >= 1 ==> after.jobs@.len() > 0 && after.jobs@.last()@ == new
            && after.jobs@.last().is_new(parse, codepage)
        &&& self.printing.max_jobs >= 1 && self.history.next_id < u64::MAX ==> after.active == Some(
            (after.jobs@.len() - 1) as usize,
        )
        &&& forall|k: int|
            0 <= k < after.jobs@.len() ==> self.history.jobs@.contains(#[trigger] after.jobs@[k])
                || after.jobs@[k].is_read(parse, codepage)
    }

    /// The number after the next one, or the last that there is.
    pub open spec fn number_after(self) -> u64 {
        if self.history.next_id < u64::MAX {
            (self.history.next_id + 1) as u64
        } else {
            u64::MAX
        }
    }

    /// Prints the job that is shown up to `target` bytes, if it is being printed.
    pub fn tick_simulation<F>(&mut self, parse: &F, target: usize) where
        F: Fn(&Vec<u8>, CodePage) -> Vec<(PrinterState, CommandType)>,

        requires
            old(self).wf(),
            takes_all(*parse),
        ensures
            final(self).wf(),
            final(self).history@ == with_active_printed_to(old(self).history@, target as int),
            final(self).history.next_id == old(self).history.next_id,
            is_printed_on(
                old(self).history,
                final(self).history.jobs@,
                *parse,
                old(self).printing.codepage,
            ),
            old(self).is_read(*parse) ==> final(self).is_read(*parse),
            *final(self) == (EscPosViewer { history: final(self).history, ..*old(self) }),
    {
        self.history.print_active(parse, self.printing.codepage, target);
    }

    /// When the job that is shown began to be printed, if it is being printed.
    pub fn active_simulation_start(&self) -> (start: Option<u64>)
        requires
            self.wf(),
        ensures
            start == match self.history@.active {
                Some(i) => self.history@.jobs[i].started,
                None => None,
            },
    {
        match self.active_job() {
            Some(job) => {
                assert(job@ == self.history@.jobs[self.history.active->0 as int]);
                job.sim_started_at
            },
            None => None,
        }
    }

    /// Reads the bytes of every job again. A job of which nothing has been printed has no commands
    /// afterwards.
    pub fn reparse_all_jobs<F>(&mut self, parse: &F) where
        F: Fn(&Vec<u8>, CodePage) -> Vec<(PrinterState, CommandType)>,

        requires
            old(self).wf(),
            takes_all(*parse),
        ensures
            final(self).wf(),
            final(self).history@ == old(self).history@,
            final(self).history.next_id == old(self).history.next_id,
            final(self).is_parsed(*parse),
            final(self).is_read(*parse),
            *final(self) == (EscPosViewer { history: final(self).history, ..*old(self) }),
    {
        self.history.reparse(parse, self.printing.codepage);
    }

    /// Chooses a code page. All jobs are read again where it is another one.
    pub fn set_codepage<F>(&mut self, parse: &F, codepage: CodePage) where
        F: Fn(&Vec<u8>, CodePage) -> Vec<(PrinterState, CommandType)>,

        requires
            old(self).wf(),
            takes_all(*parse),
        ensures
            final(self).wf(),
            final(self).history@ == old(self).history@,
            final(self).history.next_id == old(self).history.next_id,
            old(self).printing.codepage == codepage ==> *final(self) == *old(self),
            old(self).printing.codepage != codepage ==> final(self).is_parsed(*parse),
            old(self).printing.codepage != codepage || old(self).is_read(*parse) ==> final(self).is_read(
                *parse,
            ),
            *final(self) == (EscPosViewer {
                history: final(self).history,
                printing: Printing { codepage, ..old(self).printing },
                ..*old(self)
            }),
    {
        if self.printing.codepage == codepage {
            return ;
        }
        self.history.reparse(parse, codepage);
        self.printing.codepage = codepage;
    }

    /// Chooses whether jobs are printed byte by byte. Where they no longer are, the job that is
    /// being printed is shown whole.
    pub fn set_simulate_printing<F>(&mut self, parse: &F, simulate: bool) where
        F: Fn(&Vec<u8>, CodePage) -> Vec<(PrinterState, CommandType)>,

        requires
            old(self).wf(),
            takes_all(*parse),
        ensures
            final(self).wf(),
            final(self).history@ == if old(self).printing.simulate_printing && !simulate {
                with_active_printed(old(self).history@)
            } else {
                old(self).history@
            },
            final(self).history.next_id == old(self).history.next_id,
            if old(self).printing.simulate_printing && !simulate {
                is_ended(
                    old(self).history,
                    final(self).history.jobs@,
                    *parse,
                    old(self).printing.codepage,
                )
            } else {
                final(self).history == old(self).history
            },
            old(self).is_read(*parse) ==> final(self).is_read(*parse),
            *final(self) == (EscPosViewer {
                history: final(self).history,
                printing: Printing { simulate_printing: simulate, ..old(self).printing },
                ..*old(self)
            }),
    {
        let stopping: bool = self.printing.simulate_printing && !simulate;
        self.printing.simulate_printing = simulate;
        if stopping {
            self.stop_active_simulation_show_full(parse);
        }
    }

    /// Decides whether a job that came over TCP is noise: one that is empty, or short and shows
    /// nothing.
    pub fn should_ignore_tcp_job<F>(&self, parse: &F, bytes: &Vec<u8>) -> (ignore: bool) where
        F: Fn(&Vec<u8>, CodePage) -> Vec<(PrinterState, CommandType)>,

        requires
            takes_all(*parse),
        ensures
            self.is_ignored(*parse, bytes, ignore),
    {
        if !self.capture.ignore_noise_jobs {
            return false;
        }
        if bytes.len() == 0 {
            return true;
        }
        if bytes.len() > self.capture.ignore_noise_jobs_max_bytes {
            return false;
        }
        let parsed = parse(bytes, self.printing.codepage);
        shows_nothing(&parsed)
    }

    /// Whether a job over TCP is ignored. Where the settings do not decide, what `parse` makes of
    /// the job does.
    pub open spec fn is_ignored<F>(self, parse: F, bytes: &Vec<u8>, ignored: bool) -> bool where
        F: Fn(&Vec<u8>, CodePage) -> Vec<(PrinterState, CommandType)>,
     {
        if !self.capture.ignore_noise_jobs {
            !ignored
        } else if bytes@.len() == 0 {
            ignored
        } else if bytes@.len() > self.capture.ignore_noise_jobs_max_bytes {
            !ignored
        } else {
            exists|parsed: Vec<(PrinterState, CommandType)>| #[trigger]
                call_ensures(parse, (bytes, self.printing.codepage), parsed) && ignored == is_noise(parsed@)
        }
    }

    /// Takes in a job that came over TCP, unless it is noise. A job that is taken in brings the
    /// window back from the tray.
    pub fn receive_job<F>(&mut self, parse: &F, job: CapturedJob, now: u64) -> (taken: bool) where
        F: Fn(&Vec<u8>, CodePage) -> Vec<(PrinterState, CommandType)>,

        requires
            old(self).wf(),
            takes_all(*parse),
        ensures
            old(self).is_ignored(*parse, &job.bytes, !taken),
            final(self).wf(),
            !taken ==> *final(self) == *old(self),
            taken ==> {
                &&& final(self).history@ == old(self).history_with(
                    "TCP 9100 ("@ + job.source@ + ")"@,
                    job.bytes@,
                    now,
                )
                &&& final(self).history.next_id == old(self).number_after()
                &&& old(self).takes_in(
                    final(self).history,
                    *parse,
                    "TCP 9100 ("@ + job.source@ + ")"@,
                    job.bytes@,
                    now,
                )
                &&& *final(self) == (EscPosViewer {
                    history: final(self).history,
                    window: WindowState { hidden_to_tray: false, ..old(self).window },
                    ..*old(self)
                })
            },
            old(self).is_read(*parse) ==> final(self).is_read(*parse),
    {
        if self.should_ignore_tcp_job(parse, &job.bytes) {
            return false;
        }
        let mut label = "TCP 9100 (".to_owned();
        label.append(job.source.as_str());
        label.append(")");
        self.push_new_job(parse, label, job.bytes, now);
        self.window.hidden_to_tray = false;
        true
    }

    /// Minutes after which a job is too old, at least one.
    pub fn prune_minutes(&self) -> (minutes: u64)
        ensures
            minutes == if self.printing.prune_after_secs / 60 < 1 {
                1
            } else {
                self.printing.prune_after_secs / 60
            },
    {
        let minutes: u64 = self.printing.prune_after_secs / 60;
        if minutes < 1 {
            1
        } else {
            minutes
        }
    }

    /// Sets the minutes after which a job is too old.
    pub fn set_prune_minutes(&mut self, minutes: u64)
        requires
            60 * minutes <= u64::MAX,
        ensures
            *final(self) == (EscPosViewer {
                printing: Printing { prune_after_secs: (60 * minutes) as u64, ..old(self).printing },
                ..*old(self)
            }),
    {
        self.printing.prune_after_secs = 60 * minutes;
    }

    /// The number of the job that is shown, 0 where there is none, and whether the view follows
    /// the end of the ticket: it does while the job is being printed.
    pub fn scroll_state(&self) -> (state: (u64, bool))
        requires
            self.wf(),
        ensures
            state == match self.history@.active {
                Some(i) => (
                    self.history@.jobs[i].id,
                    self.appearance.auto_scroll_on_print && self.history@.jobs[i].sim_active,
                ),
                None => (0u64, false),
            },
    {
        match self.active_job() {
            Some(job) => {
                assert(job@ == self.history@.jobs[self.history.active->0 as int]);
                (job.id, self.appearance.auto_scroll_on_print && job.sim_active)
            },
            None => (0, false),
        }
    }
}

/// Only short jobs are looked into: where noise is let through nothing is ignored, and where it is
/// not, an empty job is ignored and one of more bytes than the limit is not. Any other job is ignored
/// exactly where what was made of it shows nothing.
pub proof fn lemma_which_jobs_are_ignored<F>(
    viewer: EscPosViewer,
    parse: F,
    bytes: &Vec<u8>,
    ignored: bool,
) where F: Fn(&Vec<u8>, CodePage) -> Vec<(PrinterState, CommandType)>
    requires
        viewer.is_ignored(parse, bytes, ignored),
    ensures
        !viewer.capture.ignore_noise_jobs ==> !ignored,
        viewer.capture.ignore_noise_jobs && bytes@.len() == 0 ==> ignored,
        viewer.capture.ignore_noise_jobs && bytes@.len() > 0 && bytes@.len()
            > viewer.capture.ignore_noise_jobs_max_bytes ==> !ignored,
        viewer.capture.ignore_noise_jobs && 0 < bytes@.len()
            <= viewer.capture.ignore_noise_jobs_max_bytes ==> exists|
            commands: Vec<(PrinterState, CommandType)>,
        |
            #[trigger] call_ensures(parse, (bytes, viewer.printing.codepage), commands) && ignored
                == (forall|k: int|
                0 <= k < commands@.len() ==> !is_visible((#[trigger] commands@[k]).1)),
{
    if viewer.capture.ignore_noise_jobs && 0 < bytes@.len()
        <= viewer.capture.ignore_noise_jobs_max_bytes {
        let parsed = choose|parsed: Vec<(PrinterState, CommandType)>| #[trigger]
            call_ensures(parse, (bytes, viewer.printing.codepage), parsed) && ignored == is_noise(
                parsed@,
            );
        assert(call_ensures(parse, (bytes, viewer.printing.codepage), parsed));
    }
}

/// A job that comes in stands last in the history with all of its bytes, as long as the history may
/// hold a job and there are numbers left; it is shown, and printed from its first byte where jobs
/// are printed byte by byte. Jobs leave by age only where that was chosen.
pub proof fn lemma_a_job_comes_in(
    viewer: EscPosViewer,
    label: Seq<char>,
    data: Seq<u8>,
    now: u64,
)
    requires
        viewer.wf(),
        viewer.printing.max_jobs >= 1,
        viewer.history.next_id < u64::MAX,
    ensures
        ({
            let after = viewer.history_with(label, data, now);
            &&& after.jobs.len() >= 1
            &&& after.active == Some(after.jobs.len() - 1)
            &&& after.jobs.last().full == data
            &&& after.jobs.last().label == label
            &&& after.jobs.last().id == viewer.history.next_id
            &&& after.jobs.last().created_at == now
            &&& after.jobs.last().sim_active == viewer.printing.simulate_printing
            &&& after.jobs.last().sent == if viewer.printing.simulate_printing {
                0
            } else {
                data.len()
            }
            &&& after.jobs.len() <= viewer.printing.max_jobs
        }),
        viewer.number_after() == viewer.history.next_id + 1,
        viewer.bounds()@.max_jobs == viewer.printing.max_jobs,
        viewer.bounds()@.max_age is Some <==> viewer.printing.auto_prune_by_age,
        viewer.bounds()@.max_age matches Some(secs) ==> secs == viewer.printing.prune_after_secs,
{
    let new = fresh(viewer.history.next_id, label, data, now, viewer.printing.simulate_printing);
    let limits = viewer.bounds()@;
    lemma_new_job_is_shown(viewer.history@, new, viewer.history.next_id, now, limits);
    lemma_with_job_numbered(viewer.history@, new, viewer.history.next_id);
    lemma_pruned_wf(
        with_job(viewer.history@, new),
        (viewer.history.next_id + 1) as u64,
        now,
        limits,
    );
}

/// The commands of every job of a viewer that is read are what the parser made, with the code page
/// of the viewer, of the bytes of the job that have been printed.
pub proof fn lemma_viewer_shows_what_was_parsed<F>(viewer: EscPosViewer, parse: F, k: int)
    where F: Fn(&Vec<u8>, CodePage) -> Vec<(PrinterState, CommandType)>
    requires
        viewer.wf(),
        viewer.is_read(parse),
        0 <= k < viewer.history.jobs@.len(),
    ensures
        ({
            let job = viewer.history.jobs@[k];
            &&& job.display_bytes@ == job.full_bytes@.take(job.sim_sent as int)
            &&& call_ensures(
                parse,
                (&job.display_bytes, viewer.printing.codepage),
                job.parsed_commands,
            ) || (job.sim_sent == 0 && job.parsed_commands@.len() == 0)
        }),
{
    let job = viewer.history.jobs@[k];
    assert(job.wf() && job.is_read(parse, viewer.printing.codepage));
    lemma_commands_are_of_the_printed_bytes(job, parse, viewer.printing.codepage);
}

/// A job that has been taken in is the last of the list, with its label and all of its bytes.
pub proof fn lemma_job_that_was_taken_in<F>(
    viewer: EscPosViewer,
    after: JobList,
    parse: F,
    label: Seq<char>,
    data: Seq<u8>,
    now: u64,
) where F: Fn(&Vec<u8>, CodePage) -> Vec<(PrinterState, CommandType)>
    requires
        viewer.takes_in(after, parse, label, data, now),
        viewer.printing.max_jobs >= 1,
    ensures
        after.jobs@.len() > 0,
        after.jobs@.last().full_bytes@ == data,
        after.jobs@.last().label@ == label,
        after.jobs@.last().sim_active == viewer.printing.simulate_printing,
        viewer.history.next_id < u64::MAX ==> after.active == Some((after.jobs@.len() - 1) as usize),
        !viewer.printing.simulate_printing ==> call_ensures(
            parse,
            (&after.jobs@.last().display_bytes, viewer.printing.codepage),
            after.jobs@.last().parsed_commands,
        ),
        viewer.printing.simulate_printing ==> after.jobs@.last().parsed_commands@.len() == 0,
{
    lemma_commands_of_a_new_job(after.jobs@.last(), parse, viewer.printing.codepage);
}

} // verus!
