//! Whether jobs are awaited over TCP.

use vstd::prelude::*;

verus! {

/// The state of the listener, and what it lets through.
#[derive(Clone, Debug)]
pub struct CaptureState {
    /// Whether jobs are being awaited.
    pub listening: bool,
    /// Why they could not be awaited.
    pub last_error: Option<String>,
    /// Whether they should be awaited.
    pub enabled: bool,
    /// Whether jobs that show nothing are ignored, and up to what size.
    pub ignore_noise_jobs: bool,
    pub ignore_noise_jobs_max_bytes: usize,
}

/// Jobs shall be awaited, and are not yet; noise of up to 32 bytes is ignored.
pub open spec fn initial_capture() -> CaptureState {
    CaptureState {
        listening: false,
        last_error: None,
        enabled: true,
        ignore_noise_jobs: true,
        ignore_noise_jobs_max_bytes: 32,
    }
}

/// What is done about the listener.
#[derive(Clone, Copy, PartialEq, Eq, Structural, Debug)]
pub enum CaptureStep {
    Start,
    Stop,
    Nothing,
}

impl CaptureState {
    /// The state before the first frame.
    pub fn new() -> (state: CaptureState)
        ensures
            state == initial_capture(),
            state.enabled && !state.listening && state.last_error is None,
            state.ignore_noise_jobs && state.ignore_noise_jobs_max_bytes == 32,
    {
        CaptureState {
            listening: false,
            last_error: None,
            enabled: true,
            ignore_noise_jobs: true,
            ignore_noise_jobs_max_bytes: 32,
        }
    }

    /// What is done about the listener: it is started where it should run and no start has failed,
    /// and stopped where it should not run.
    pub open spec fn next_step(self) -> CaptureStep {
        if self.enabled && !self.listening && self.last_error is None {
            CaptureStep::Start
        } else if !self.enabled && self.listening {
            CaptureStep::Stop
        } else {
            CaptureStep::Nothing
        }
    }

    /// Decides in every frame what is done about the listener. A start that failed is not tried
    /// again.
    pub fn step(&self) -> (step: CaptureStep)
        ensures
            step == self.next_step(),
    {
        if self.enabled {
            if !self.listening && self.last_error.is_none() {
                CaptureStep::Start
            } else {
                CaptureStep::Nothing
            }
        } else if self.listening {
            CaptureStep::Stop
        } else {
            CaptureStep::Nothing
        }
    }

    /// Takes a choice of the user. Choosing to listen tries again after a start that failed.
    pub fn set_tcp_capture(&mut self, enabled: bool) -> (step: CaptureStep)
        ensures
            *final(self) == (CaptureState { enabled, ..*old(self) }),
            step is Start <==> enabled && !old(self).listening,
            step is Stop <==> !enabled && old(self).listening,
    {
        self.enabled = enabled;
        if enabled && !self.listening {
            CaptureStep::Start
        } else if !enabled && self.listening {
            CaptureStep::Stop
        } else {
            CaptureStep::Nothing
        }
    }

    /// Takes note that the listener was started.
    pub fn started(&mut self)
        ensures
            *final(self) == (CaptureState { listening: true, last_error: None, ..*old(self) }),
    {
        self.listening = true;
        self.last_error = None;
    }

    /// Takes note that the listener could not be started.
    pub fn start_failed(&mut self, error: &str)
        ensures
            !final(self).listening,
            final(self).last_error matches Some(message) && message@
                == "No se pudo escuchar 127.0.0.1:9100 ("@ + error@ + ")"@,
            *final(self) == (CaptureState {
                listening: false,
                last_error: final(self).last_error,
                ..*old(self)
            }),
    {
        let mut message = "No se pudo escuchar 127.0.0.1:9100 (".to_owned();
        message.append(error);
        message.append(")");
        self.last_error = Some(message);
        self.listening = false;
    }

    /// Takes note that the listener was stopped.
    pub fn stopped(&mut self)
        ensures
            *final(self) == (CaptureState { listening: false, ..*old(self) }),
    {
        self.listening = false;
    }
}

/// After a start, whether it succeeded or failed, and after a stop that was asked for, nothing is
/// done by itself.
pub proof fn lemma_settled(state: CaptureState, error: String)
    requires
        state.enabled,
    ensures
        (CaptureState { listening: true, last_error: None, ..state }).next_step() is Nothing,
        (CaptureState {
            listening: false,
            last_error: Some(error),
            ..state
        }).next_step() is Nothing,
        (CaptureState { listening: false, enabled: false, ..state }).next_step() is Nothing,
{
}

/// The listener is started exactly where it should run, does not, and no start has failed; and
/// stopped exactly where it runs and should not.
pub proof fn lemma_when_the_listener_changes(state: CaptureState)
    ensures
        state.next_step() is Start <==> state.enabled && !state.listening
            && state.last_error is None,
        state.next_step() is Stop <==> !state.enabled && state.listening,
        state.enabled == state.listening ==> state.next_step() is Nothing,
{
}

} // verus!
