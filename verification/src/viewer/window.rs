//! What the window does from frame to frame.

use crate::model::PaperWidth;
use vstd::prelude::*;

verus! {

/// What the window shows: the ticket alone, or the menus too.
#[derive(Clone, Copy, PartialEq, Eq, Structural, Debug)]
pub enum UiMode {
    Preview,
    Full,
}

/// The state of the window and of the tray.
#[derive(Clone, Debug)]
pub struct WindowState {
    pub paper_width: PaperWidth,
    pub last_paper_width: PaperWidth,
    pub did_apply_initial_window_size: bool,
    pub did_apply_initial_window_position: bool,
    pub ui_mode: UiMode,
    pub last_ui_mode: UiMode,
    /// Whether there is an icon in the system tray.
    pub tray_ready: bool,
    /// Why there is none.
    pub tray_error: Option<String>,
    pub pending_hide_to_tray: bool,
    pub hidden_to_tray: bool,
}

/// A window that has not been shown.
pub open spec fn initial_window() -> WindowState {
    WindowState {
        paper_width: PaperWidth::W58mm,
        last_paper_width: PaperWidth::W58mm,
        did_apply_initial_window_size: false,
        did_apply_initial_window_position: false,
        ui_mode: UiMode::Preview,
        last_ui_mode: UiMode::Preview,
        tray_ready: false,
        tray_error: None,
        pending_hide_to_tray: false,
        hidden_to_tray: false,
    }
}

/// Pixels across the window for a paper.
pub open spec fn window_pixels(paper: PaperWidth) -> u32 {
    match paper {
        PaperWidth::W58mm => 375,
        PaperWidth::W80mm => 480,
    }
}

/// Pixels across the window for a paper.
pub fn target_window_width_px(paper_width: PaperWidth) -> (pixels: u32)
    ensures
        pixels == window_pixels(paper_width),
        paper_width == PaperWidth::W58mm ==> pixels == 375,
        paper_width == PaperWidth::W80mm ==> pixels == 480,
{
    match paper_width {
        PaperWidth::W58mm => 375,
        PaperWidth::W80mm => 480,
    }
}

/// Dots across a paper.
pub fn paper_dots(paper_width: PaperWidth) -> (dots: u32)
    ensures
        dots == match paper_width {
            PaperWidth::W58mm => 384u32,
            PaperWidth::W80mm => 576u32,
        },
{
    match paper_width {
        PaperWidth::W58mm => 384,
        PaperWidth::W80mm => 576,
    }
}

/// The other mode.
pub open spec fn other_mode(mode: UiMode) -> UiMode {
    match mode {
        UiMode::Preview => UiMode::Full,
        UiMode::Full => UiMode::Preview,
    }
}

/// What is asked of the window at the start of a frame, in this order.
#[derive(Clone, Copy, PartialEq, Eq, Structural, Debug)]
pub struct FramePlan {
    /// Move to the right edge of the screen.
    pub snap_right: bool,
    /// Take the first width.
    pub initial_width: Option<u32>,
    /// Move to the middle of the screen.
    pub center: bool,
    /// Take the width of another paper.
    pub changed_width: Option<u32>,
}

/// Pixels that stay free when the window is moved to the edge of the screen.
pub const SNAP_MARGIN: i32 = 14;

impl WindowState {
    /// The state before the first frame.
    pub fn new() -> (state: WindowState)
        ensures
            state == initial_window(),
            state.paper_width == PaperWidth::W58mm && state.last_paper_width == PaperWidth::W58mm,
            state.ui_mode == UiMode::Preview && state.last_ui_mode == UiMode::Preview,
            !state.did_apply_initial_window_size && !state.did_apply_initial_window_position,
            !state.tray_ready && state.tray_error is None,
            !state.pending_hide_to_tray && !state.hidden_to_tray,
    {
        WindowState {
            paper_width: PaperWidth::W58mm,
            last_paper_width: PaperWidth::W58mm,
            did_apply_initial_window_size: false,
            did_apply_initial_window_position: false,
            ui_mode: UiMode::Preview,
            last_ui_mode: UiMode::Preview,
            tray_ready: false,
            tray_error: None,
            pending_hide_to_tray: false,
            hidden_to_tray: false,
        }
    }

    /// The mode of a frame: the other one where the user has asked for it.
    pub open spec fn mode_after(self, toggle: bool) -> UiMode {
        if toggle {
            other_mode(self.ui_mode)
        } else {
            self.ui_mode
        }
    }

    /// What a frame asks of the window.
    pub open spec fn plan(self, toggle: bool) -> FramePlan {
        let preview = self.mode_after(toggle) is Preview;
        FramePlan {
            snap_right: preview && !(self.last_ui_mode is Preview),
            initial_width: if self.did_apply_initial_window_size {
                None
            } else {
                Some(window_pixels(self.paper_width))
            },
            center: preview && !self.did_apply_initial_window_position,
            changed_width: if self.paper_width == self.last_paper_width {
                None
            } else {
                Some(window_pixels(self.paper_width))
            },
        }
    }

    /// The window once a frame has begun.
    pub open spec fn begun(self, toggle: bool) -> WindowState {
        WindowState {
            ui_mode: self.mode_after(toggle),
            did_apply_initial_window_size: true,
            did_apply_initial_window_position: true,
            last_paper_width: self.paper_width,
            ..self
        }
    }

    /// The window once a frame has ended.
    pub open spec fn ended(self) -> WindowState {
        WindowState { last_ui_mode: self.ui_mode, ..self }
    }

    /// Begins a frame. The window moves to the edge when the preview is entered, takes its first
    /// width and place once, and another width with another paper.
    pub fn begin_frame(&mut self, toggle_mode: bool) -> (plan: FramePlan)
        ensures
            *final(self) == old(self).begun(toggle_mode),
            plan == old(self).plan(toggle_mode),
    {
        if toggle_mode {
            self.ui_mode = match self.ui_mode {
                UiMode::Preview => UiMode::Full,
                UiMode::Full => UiMode::Preview,
            };
        }
        let snap_right: bool = self.ui_mode == UiMode::Preview && self.last_ui_mode
            != UiMode::Preview;
        let width: u32 = target_window_width_px(self.paper_width);
        let initial_width: Option<u32> = if !self.did_apply_initial_window_size {
            Some(width)
        } else {
            None
        };
        self.did_apply_initial_window_size = true;
        let center: bool = !self.did_apply_initial_window_position && self.ui_mode
            == UiMode::Preview;
        self.did_apply_initial_window_position = true;
        let changed_width: Option<u32> = if self.paper_width != self.last_paper_width {
            Some(width)
        } else {
            None
        };
        self.last_paper_width = self.paper_width;
        FramePlan { snap_right, initial_width, center, changed_width }
    }

    /// Ends a frame.
    pub fn end_frame(&mut self)
        ensures
            *final(self) == old(self).ended(),
    {
        self.last_ui_mode = self.ui_mode;
    }

    /// Tests whether the tray is still to be set up: that is tried once.
    pub fn needs_tray(&self) -> (needs: bool)
        ensures
            needs == (!self.tray_ready && self.tray_error is None),
    {
        !self.tray_ready && self.tray_error.is_none()
    }

    /// Takes note of how setting up the tray went.
    pub fn tray_started(&mut self, result: Result<(), String>)
        ensures
            match result {
                Ok(()) => *final(self) == (WindowState { tray_ready: true, ..*old(self) }),
                Err(error) => *final(self) == (WindowState {
                    tray_error: Some(error),
                    ..*old(self)
                }),
            },
    {
        match result {
            Ok(()) => {
                self.tray_ready = true;
            },
            Err(error) => {
                self.tray_error = Some(error);
            },
        }
    }

    /// Decides on a request to close the window: with a tray the window is hidden instead, and the
    /// request is cancelled.
    pub fn close_requested(&mut self) -> (cancel: bool)
        ensures
            cancel == old(self).tray_ready,
            *final(self) == (WindowState {
                pending_hide_to_tray: old(self).pending_hide_to_tray || old(self).tray_ready,
                ..*old(self)
            }),
    {
        if self.tray_ready {
            self.pending_hide_to_tray = true;
            true
        } else {
            false
        }
    }

    /// Decides whether the window is to be hidden now.
    pub fn take_pending_hide(&mut self) -> (hide: bool)
        ensures
            hide == old(self).pending_hide_to_tray,
            *final(self) == (WindowState {
                pending_hide_to_tray: false,
                hidden_to_tray: old(self).hidden_to_tray || old(self).pending_hide_to_tray,
                ..*old(self)
            }),
    {
        if self.pending_hide_to_tray {
            self.pending_hide_to_tray = false;
            self.hidden_to_tray = true;
            true
        } else {
            false
        }
    }
}

/// A frame in which nothing has changed asks nothing of the window.
pub proof fn lemma_quiet_frame(state: WindowState, toggle: bool)
    ensures
        state.begun(toggle).ended().plan(false) == (FramePlan {
            snap_right: false,
            initial_width: None,
            center: false,
            changed_width: None,
        }),
{
}

/// The mode key has two positions: pressing it twice changes nothing.
pub proof fn lemma_mode_key(state: WindowState)
    ensures
        other_mode(other_mode(state.ui_mode)) == state.ui_mode,
        state.mode_after(true) != state.mode_after(false),
{
}

/// Entering the preview moves the window to the edge of the screen, and nothing else does. The first
/// frame gives the window its width, and its place where it is a preview. A change of paper gives it
/// the width of the new paper: 375 pixels for 58 mm, 480 for 80 mm.
pub proof fn lemma_what_a_frame_asks(state: WindowState, toggle: bool)
    ensures
        ({
            let plan = state.plan(toggle);
            let preview = (state.ui_mode == UiMode::Preview) != toggle;
            let width = if state.paper_width == PaperWidth::W58mm {
                375u32
            } else {
                480u32
            };
            &&& state.begun(toggle).ui_mode == UiMode::Preview <==> preview
            &&& plan.snap_right <==> preview && state.last_ui_mode == UiMode::Full
            &&& plan.initial_width is Some <==> !state.did_apply_initial_window_size
            &&& plan.initial_width matches Some(pixels) ==> pixels == width
            &&& plan.center <==> preview && !state.did_apply_initial_window_position
            &&& plan.changed_width is Some <==> state.paper_width != state.last_paper_width
            &&& plan.changed_width matches Some(pixels) ==> pixels == width
        }),
{
}

/// A frame remembers that the window has its width and its place, the paper, and at its end the
/// mode. It changes nothing else of the window.
pub proof fn lemma_what_a_frame_remembers(state: WindowState, toggle: bool)
    ensures
        ({
            let next = state.begun(toggle).ended();
            &&& next.did_apply_initial_window_size && next.did_apply_initial_window_position
            &&& next.paper_width == state.paper_width && next.last_paper_width == state.paper_width
            &&& next.last_ui_mode == next.ui_mode
            &&& next.ui_mode == state.ui_mode <==> !toggle
            &&& next.tray_ready == state.tray_ready && next.tray_error == state.tray_error
            &&& next.pending_hide_to_tray == state.pending_hide_to_tray
            &&& next.hidden_to_tray == state.hidden_to_tray
        }),
{
}

} // verus!
