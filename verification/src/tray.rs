//! The icon and the menu in the system tray.

use crate::app_icon::IconPixels;
use vstd::prelude::*;

verus! {

/// Pixels on a side of the icon that is shown where there is no other.
pub const FALLBACK_SIDE: u32 = 16;

/// Whether a pixel of that icon lies on its border.
pub open spec fn on_border(x: int, y: int) -> bool {
    x == 0 || y == 0 || x == FALLBACK_SIDE - 1 || y == FALLBACK_SIDE - 1
}

/// Byte `i` of that icon: opaque, grey, with a black border.
pub open spec fn fallback_byte(i: int) -> u8 {
    let pixel = i / 4;
    if i % 4 == 3 {
        255
    } else if on_border(pixel % 16, pixel / 16) {
        0
    } else {
        210
    }
}

/// The bytes of that icon.
pub open spec fn fallback_rgba() -> Seq<u8> {
    Seq::new((4 * FALLBACK_SIDE * FALLBACK_SIDE) as nat, |i: int| fallback_byte(i))
}

/// The four bytes of a pixel.
proof fn lemma_fallback_pixel(x: int, y: int)
    requires
        0 <= x < 16,
        0 <= y < 16,
    ensures
        fallback_byte(64 * y + 4 * x + 3) == 255,
        forall|k: int|
            0 <= k < 3 ==> #[trigger] fallback_byte(64 * y + 4 * x + k) == if on_border(x, y) {
                0u8
            } else {
                210u8
            },
{
    assert forall|k: int| 0 <= k < 3 implies #[trigger] fallback_byte(64 * y + 4 * x + k)
        == if on_border(x, y) {
        0u8
    } else {
        210u8
    } by {
        assert((64 * y + 4 * x + k) / 4 == 16 * y + x);
    }
}

/// Draws the icon that is shown where there is no other: grey with a black border.
pub fn fallback_icon() -> (icon: IconPixels)
    ensures
        icon.width == FALLBACK_SIDE,
        icon.height == FALLBACK_SIDE,
        icon.rgba@ == fallback_rgba(),
        icon.wf(),
{
    let mut rgba: Vec<u8> = Vec::new();
    let side: u32 = FALLBACK_SIDE;
    for y in 0..side
        invariant
            side == FALLBACK_SIDE,
            rgba@.len() == 64 * y,
            forall|i: int| 0 <= i < rgba@.len() ==> #[trigger] rgba@[i] == fallback_byte(i),
    {
        for x in 0..side
            invariant
                side == FALLBACK_SIDE,
                y < side,
                rgba@.len() == 64 * y + 4 * x,
                forall|i: int| 0 <= i < rgba@.len() ==> #[trigger] rgba@[i] == fallback_byte(i),
        {
            let border: bool = x == 0 || y == 0 || x == side - 1 || y == side - 1;
            let shade: u8 = if border {
                0
            } else {
                210
            };
            proof {
                lemma_fallback_pixel(x as int, y as int);
                assert(fallback_byte(64 * y + 4 * x + 0) == shade);
                assert(fallback_byte(64 * y + 4 * x + 1) == shade);
                assert(fallback_byte(64 * y + 4 * x + 2) == shade);
            }
            rgba.push(shade);
            rgba.push(shade);
            rgba.push(shade);
            rgba.push(255);
        }
    }
    assert(rgba@ =~= fallback_rgba());
    IconPixels { rgba, width: side, height: side }
}

/// Picks the icon of the tray: the one of the program, or else the grey one.
pub fn icon_or_fallback(icon: Option<IconPixels>) -> (shown: IconPixels)
    ensures
        icon matches Some(i) ==> shown == i,
        icon is None ==> shown.rgba@ == fallback_rgba() && shown.width == FALLBACK_SIDE
            && shown.height == FALLBACK_SIDE,
        (icon matches Some(i) ==> i.wf()) ==> shown.wf(),
{
    match icon {
        Some(i) => i,
        None => fallback_icon(),
    }
}

/// What a click in the tray menu asks for.
#[derive(Clone, Copy, PartialEq, Eq, Structural, Debug)]
pub enum TrayAction {
    /// Show the window.
    Open,
    /// Leave the program.
    Exit,
    /// The click was on another menu.
    Ignore,
}

/// The menu in the tray, by the identifiers of its two entries.
#[derive(Clone, Debug)]
pub struct SystemTray {
    pub open_id: String,
    pub exit_id: String,
}

impl SystemTray {
    /// What a click on the entry `id` asks for.
    pub open spec fn action_of(self, id: Seq<char>) -> TrayAction {
        if id == self.open_id@ {
            TrayAction::Open
        } else if id == self.exit_id@ {
            TrayAction::Exit
        } else {
            TrayAction::Ignore
        }
    }

    /// A menu with the given identifiers.
    pub fn new(open_id: String, exit_id: String) -> (tray: SystemTray)
        ensures
            tray.open_id@ == open_id@,
            tray.exit_id@ == exit_id@,
    {
        SystemTray { open_id, exit_id }
    }

    /// Decides what to do on a click on the entry `id`.
    pub fn action(&self, id: &String) -> (action: TrayAction)
        ensures
            action == self.action_of(id@),
    {
        if *id == self.open_id {
            TrayAction::Open
        } else if *id == self.exit_id {
            TrayAction::Exit
        } else {
            TrayAction::Ignore
        }
    }
}

/// The steps in which the tray is built.
#[derive(Clone, Copy, PartialEq, Eq, Structural, Debug)]
pub enum TrayStep {
    OpenEntry,
    ExitEntry,
    Build,
}

/// The name of a step in an error message.
pub open spec fn step_name(step: TrayStep) -> Seq<char> {
    match step {
        TrayStep::OpenEntry => "menu open: "@,
        TrayStep::ExitEntry => "menu exit: "@,
        TrayStep::Build => "tray build: "@,
    }
}

/// Says in which step the tray could not be built, and why.
pub fn tray_failure(step: TrayStep, error: &str) -> (message: String)
    ensures
        message@ == step_name(step) + error@,
{
    let mut message = match step {
        TrayStep::OpenEntry => "menu open: ".to_owned(),
        TrayStep::ExitEntry => "menu exit: ".to_owned(),
        TrayStep::Build => "tray build: ".to_owned(),
    };
    message.append(error);
    message
}

/// The grey icon has sixteen by sixteen opaque pixels, of which those at the edges are black and the
/// others have the shade 210 in all three colours.
pub proof fn lemma_pixels_of_the_grey_icon(x: int, y: int)
    requires
        0 <= x < 16,
        0 <= y < 16,
    ensures
        ({
            let edge = x == 0 || x == 15 || y == 0 || y == 15;
            let shade = if edge {
                0u8
            } else {
                210u8
            };
            let at = 4 * (16 * y + x);
            &&& fallback_rgba().len() == 1024
            &&& fallback_rgba().subrange(at, at + 4) == seq![shade, shade, shade, 255u8]
        }),
{
    lemma_fallback_pixel(x, y);
    let edge = x == 0 || x == 15 || y == 0 || y == 15;
    let shade = if edge {
        0u8
    } else {
        210u8
    };
    let at = 4 * (16 * y + x);
    assert(at == 64 * y + 4 * x);
    assert(fallback_byte(64 * y + 4 * x + 0) == shade);
    assert(fallback_byte(64 * y + 4 * x + 1) == shade);
    assert(fallback_byte(64 * y + 4 * x + 2) == shade);
    assert(fallback_rgba().subrange(at, at + 4) =~= seq![shade, shade, shade, 255u8]);
}

/// A click on one of the two entries asks for what the entry stands for, and any other is ignored.
pub proof fn lemma_what_a_click_asks_for(tray: SystemTray, id: Seq<char>)
    ensures
        tray.action_of(tray.open_id@) == TrayAction::Open,
        tray.open_id@ != tray.exit_id@ ==> tray.action_of(tray.exit_id@) == TrayAction::Exit,
        tray.action_of(id) == TrayAction::Ignore <==> id != tray.open_id@ && id != tray.exit_id@,
{
}

/// A failure is told by its step.
pub proof fn lemma_names_of_steps()
    ensures
        step_name(TrayStep::OpenEntry) == "menu open: "@,
        step_name(TrayStep::ExitEntry) == "menu exit: "@,
        step_name(TrayStep::Build) == "tray build: "@,
{
}

} // verus!
