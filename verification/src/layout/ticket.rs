//! Print jobs laid out: the items that stand on the paper, from top to bottom.

use crate::barcode::render::{
    barcode_fits, barcode_picture, can_draw_barcode, is_short, render_barcode,
};
use crate::image::{
    bitimage_to_image, can_hold, column_picture, raster_fits, raster_picture, raster_to_image,
    MonoImage, Picture,
};
use crate::labels::{control_label, debug_label_for_control};
use crate::layout::columns::{
    aligned, columns_in, display_lines, lemma_aligned_line_fits, lemma_wrapped_keeps_the_text,
    lines_view, same_line_style, same_style, shown_lines, wrapped,
};
use crate::model::{
    Align, BarcodeHriPosition, CommandType, Control, PaperWidth, PrinterState,
};
use crate::qr::{
    can_choose_mask, ecc_to_level, level_of, mask_can_be_chosen, qr_picture,
    qr_to_image,
};
use crate::text::{
    chars_of, from_utf8_lossy, hex, hex_digit, lemma_hex_of_a_byte, lossy_text, push_hex, repeated,
    string_of,
};
use vstd::prelude::*;
use vstd::utf8::*;

verus! {

/// Something on the paper. Images carry the index of the command that drew them.
#[derive(Clone, Debug)]
pub enum TicketItem {
    /// The label of a control sequence.
    Label(String),
    /// Lines of text, all in the same state.
    Text { state: PrinterState, lines: Vec<String> },
    /// The space between two lines.
    LineFeed { state: PrinterState },
    /// A cut of the paper.
    Cut,
    Raster { align: Align, image: MonoImage, source: usize },
    Qr { align: Align, image: MonoImage, source: usize },
    /// A QR symbol that could not be made.
    InvalidQr,
    /// A cash drawer that was opened.
    Drawer,
    /// A barcode, with its text above or below it.
    Barcode {
        align: Align,
        image: MonoImage,
        hri: String,
        above: bool,
        below: bool,
        source: usize,
    },
    /// What is shown in place of a barcode that could not be made.
    BarcodeText(String),
    BitImage { image: MonoImage, source: usize },
    /// An image that cannot be made: it would not be in memory, or no mask can be chosen for it.
    Unmade { source: usize },
}

/// What an item shows.
pub enum ItemView {
    Label(Seq<char>),
    Text { state: PrinterState, lines: Seq<Seq<char>> },
    LineFeed { state: PrinterState },
    Cut,
    Raster { align: Align, image: Picture, source: int },
    Qr { align: Align, image: Picture, source: int },
    InvalidQr,
    Drawer,
    Barcode {
        align: Align,
        image: Picture,
        hri: Seq<char>,
        above: bool,
        below: bool,
        source: int,
    },
    BarcodeText(Seq<char>),
    BitImage { image: Picture, source: int },
    Unmade { source: int },
}

impl View for TicketItem {
    type V = ItemView;

    open spec fn view(&self) -> ItemView {
        match *self {
            TicketItem::Label(label) => ItemView::Label(label@),
            TicketItem::Text { state, lines } => ItemView::Text { state, lines: lines_view(lines@) },
            TicketItem::LineFeed { state } => ItemView::LineFeed { state },
            TicketItem::Cut => ItemView::Cut,
            TicketItem::Raster { align, image, source } => ItemView::Raster {
                align,
                image: image@,
                source: source as int,
            },
            TicketItem::Qr { align, image, source } => ItemView::Qr {
                align,
                image: image@,
                source: source as int,
            },
            TicketItem::InvalidQr => ItemView::InvalidQr,
            TicketItem::Drawer => ItemView::Drawer,
            TicketItem::Barcode { align, image, hri, above, below, source } => ItemView::Barcode {
                align,
                image: image@,
                hri: hri@,
                above,
                below,
                source: source as int,
            },
            TicketItem::BarcodeText(text) => ItemView::BarcodeText(text@),
            TicketItem::BitImage { image, source } => ItemView::BitImage {
                image: image@,
                source: source as int,
            },
            TicketItem::Unmade { source } => ItemView::Unmade { source: source as int },
        }
    }
}

/// What some items show.
pub open spec fn items_view(items: Seq<TicketItem>) -> Seq<ItemView> {
    items.map_values(|item: TicketItem| item@)
}

/// A ticket that is being laid out: what stands on it, and the line of text that is still open,
/// with the state in which it was begun.
pub struct Progress {
    pub items: Seq<ItemView>,
    pub pending: Option<(PrinterState, Seq<char>)>,
}

/// A ticket with nothing on it.
pub open spec fn blank() -> Progress {
    Progress { items: seq![], pending: None }
}

/// The ticket with its open line closed.
pub open spec fn flushed(p: Progress, paper: PaperWidth) -> Progress {
    match p.pending {
        None => p,
        Some((state, text)) => Progress {
            items: if text.len() > 0 {
                p.items.push(ItemView::Text { state, lines: shown_lines(paper, state, text) })
            } else {
                p.items
            },
            pending: None,
        },
    }
}

/// The ticket with its open line closed and an item behind it.
pub open spec fn placed(p: Progress, paper: PaperWidth, item: ItemView) -> Progress {
    Progress { items: flushed(p, paper).items.push(item), pending: None }
}

/// Dots of a column, as the cursor counts them.
pub const DOTS_PER_COLUMN: u16 = 12;

/// An open line, filled with spaces up to the cursor where the cursor was moved to the right.
pub open spec fn to_cursor(line: Seq<char>, begun: PrinterState, now: PrinterState) -> Seq<char> {
    match now.cursor_x {
        Some(x) if now.cursor_x != begun.cursor_x && x / DOTS_PER_COLUMN > line.len() => line
            + repeated(' ', (x / DOTS_PER_COLUMN - line.len()) as nat),
        _ => line,
    }
}

/// The ticket after some text. Text in the same style joins the open line, which keeps the state
/// in which it was begun; any other closes it.
pub open spec fn with_text(
    p: Progress,
    paper: PaperWidth,
    state: PrinterState,
    text: Seq<char>,
) -> Progress {
    match p.pending {
        None => Progress { items: p.items, pending: Some((state, text)) },
        Some((begun, line)) => {
            let moved = to_cursor(line, begun, state);
            if same_style(begun, state) {
                Progress { items: p.items, pending: Some((begun, moved + text)) }
            } else {
                let closed = flushed(
                    Progress { items: p.items, pending: Some((begun, moved)) },
                    paper,
                );
                Progress { items: closed.items, pending: Some((state, text)) }
            }
        },
    }
}

/// What stands in place of a barcode that could not be made.
pub open spec fn barcode_text(m: u8, data: Seq<u8>) -> Seq<char> {
    "[BARCODE m="@ + hex(m as nat, 2, true) + "] "@ + lossy_text(data)
}

/// Whether the image of a control sequence, if it has one, can be made and be in memory.
pub open spec fn can_be_made(state: PrinterState, control: Control) -> bool {
    match control {
        Control::RasterImage { m, width_bytes, height, data } => raster_fits(
            width_bytes,
            height,
            data@,
        ),
        Control::Qr { model, module_size, ecc, data } => can_choose_mask(data@, level_of(ecc)),
        Control::Barcode { m, data } => barcode_fits(state, m, lossy_text(data@)),
        _ => true,
    }
}

/// What holds of the data of a barcode: UTF-8 is read as it is, and short data can be drawn.
pub open spec fn reads_barcode(state: PrinterState, control: Control) -> bool {
    match control {
        Control::Barcode { m, data } => {
            &&& valid_utf8(data@) ==> lossy_text(data@) == decode_utf8(data@)
            &&& is_short(data@.len()) ==> can_be_made(state, control)
        },
        _ => true,
    }
}

/// The ticket after a control sequence, the `k`-th command. An image that has nothing to draw
/// closes the open line all the same. One that cannot be made leaves a gap.
pub open spec fn with_control(
    p: Progress,
    paper: PaperWidth,
    k: int,
    state: PrinterState,
    control: Control,
) -> Progress {
    if can_be_made(state, control) {
        with_made(p, paper, k, state, control)
    } else {
        placed(p, paper, ItemView::Unmade { source: k })
    }
}

/// The ticket after a control sequence whose image, if it has one, can be made.
pub open spec fn with_made(
    p: Progress,
    paper: PaperWidth,
    k: int,
    state: PrinterState,
    control: Control,
) -> Progress {
    match control {
        Control::Newline => placed(p, paper, ItemView::LineFeed { state }),
        Control::Cut => placed(p, paper, ItemView::Cut),
        Control::RasterImage { m, width_bytes, height, data } => match raster_picture(
            width_bytes,
            height,
            data@,
        ) {
            Some(image) => placed(
                p,
                paper,
                ItemView::Raster { align: state.alignment, image, source: k },
            ),
            None => flushed(p, paper),
        },
        Control::Qr { model, module_size, ecc, data } => match qr_picture(data@, ecc, module_size) {
            Some(image) => placed(
                p,
                paper,
                ItemView::Qr { align: state.alignment, image, source: k },
            ),
            None => placed(p, paper, ItemView::InvalidQr),
        },
        Control::OpenDrawer => placed(p, paper, ItemView::Drawer),
        Control::Barcode { m, data } => match barcode_picture(state, m, lossy_text(data@)) {
            Some((image, hri)) => placed(
                p,
                paper,
                ItemView::Barcode {
                    align: state.alignment,
                    image,
                    hri,
                    above: state.barcode_hri is Above || state.barcode_hri is Both,
                    below: state.barcode_hri is Below || state.barcode_hri is Both,
                    source: k,
                },
            ),
            None => placed(p, paper, ItemView::BarcodeText(barcode_text(m, data@))),
        },
        Control::Tab => match p.pending {
            None => p,
            Some((begun, line)) => Progress {
                items: p.items,
                pending: Some((begun, line + repeated(' ', (8 - line.len() % 8) as nat))),
            },
        },
        Control::BitImage { mode, width, data } => match column_picture(mode, width, data@) {
            Some(image) => placed(p, paper, ItemView::BitImage { image, source: k }),
            None => flushed(p, paper),
        },
        _ => p,
    }
}

/// The ticket after the `k`-th command. With `debug` every control sequence shows its label.
pub open spec fn with_command(
    p: Progress,
    paper: PaperWidth,
    debug: bool,
    k: int,
    command: (PrinterState, CommandType),
) -> Progress {
    match command.1 {
        CommandType::Text(text) => with_text(p, paper, command.0, text@),
        CommandType::Control(control) => {
            let labelled = if debug {
                Progress {
                    items: p.items.push(ItemView::Label(control_label(control))),
                    pending: p.pending,
                }
            } else {
                p
            };
            with_control(labelled, paper, k, command.0, control)
        },
        CommandType::Unknown(byte) => p,
    }
}

/// The ticket after some commands.
pub open spec fn after(
    commands: Seq<(PrinterState, CommandType)>,
    paper: PaperWidth,
    debug: bool,
) -> Progress
    decreases commands.len(),
{
    if commands.len() == 0 {
        blank()
    } else {
        with_command(
            after(commands.drop_last(), paper, debug),
            paper,
            debug,
            commands.len() - 1,
            commands.last(),
        )
    }
}

/// What stands on the ticket of a job.
pub open spec fn ticket(
    commands: Seq<(PrinterState, CommandType)>,
    paper: PaperWidth,
    debug: bool,
) -> Seq<ItemView> {
    flushed(after(commands, paper, debug), paper).items
}

#[verifier::spinoff_prover]
fn test_made(state: &PrinterState, control: &Control) -> (possible: bool)
    ensures
        possible == can_be_made(*state, *control),
        reads_barcode(*state, *control),
{
    match control {
        Control::RasterImage { width_bytes, height, data, .. } => {
            let row: usize = *width_bytes as usize;
            let rows: usize = *height as usize;
            assert(row * rows <= 0xFFFF * 0xFFFF) by (nonlinear_arith)
                requires
                    0 <= rows <= 0xFFFF,
                    0 <= row <= 0xFFFF,
            ;
            row == 0 || rows == 0 || data.len() < row * rows || can_hold(8 * row, rows)
        },
        Control::Qr { ecc, data, .. } => mask_can_be_chosen(data.as_slice(), ecc_to_level(*ecc)),
        Control::Barcode { m, data } => can_draw_barcode(state, *m, data.as_slice()),
        _ => true,
    }
}

struct Builder {
    items: Vec<TicketItem>,
    pending: Option<(PrinterState, Vec<char>)>,
}

impl View for Builder {
    type V = Progress;

    closed spec fn view(&self) -> Progress {
        Progress {
            items: items_view(self.items@),
            pending: match self.pending {
                None => None,
                Some((state, line)) => Some((state, line@)),
            },
        }
    }
}

#[verifier::spinoff_prover]
fn push_spaces(line: &mut Vec<char>, n: usize)
    ensures
        final(line)@ == old(line)@ + repeated(' ', n as nat),
{
    let ghost start = line@;
    for i in 0..n
        invariant
            line@ == start + repeated(' ', i as nat),
    {
        line.push(' ');
        assert(line@ =~= start + repeated(' ', (i + 1) as nat));
    }
    assert(n == 0 ==> line@ =~= start + repeated(' ', 0));
}

#[verifier::spinoff_prover]
fn push_text(line: &mut Vec<char>, text: &str)
    ensures
        final(line)@ == old(line)@ + text@,
{
    let mut chars = chars_of(text);
    line.append(&mut chars);
}

#[verifier::spinoff_prover]
fn move_to_cursor(line: &mut Vec<char>, begun: &PrinterState, now: &PrinterState)
    ensures
        final(line)@ == to_cursor(old(line)@, *begun, *now),
{
    if let Some(x) = now.cursor_x {
        let moved: bool = match begun.cursor_x {
            None => true,
            Some(from) => from != x,
        };
        let target: usize = (x / DOTS_PER_COLUMN) as usize;
        if moved && target > line.len() {
            let spaces: usize = target - line.len();
            push_spaces(line, spaces);
        }
    }
}

impl Builder {
    #[verifier::spinoff_prover]
    fn place(&mut self, item: TicketItem)
        ensures
            final(self)@ == (Progress { items: old(self)@.items.push(item@), ..old(self)@ }),
    {
        let ghost before = self.items@;
        self.items.push(item);
        assert(items_view(self.items@) =~= items_view(before).push(item@));
    }

    #[verifier::spinoff_prover]
    fn flush(&mut self, paper: PaperWidth)
        ensures
            final(self)@ == flushed(old(self)@, paper),
            final(self)@.pending is None,
    {
        if let Some((state, line)) = self.pending.take() {
            if line.len() > 0 {
                let text = string_of(&line);
                let lines = display_lines(paper, &state, text.as_str());
                self.place(TicketItem::Text { state, lines });
            }
        }
    }

    #[verifier::spinoff_prover]
    fn put_text(&mut self, paper: PaperWidth, state: &PrinterState, text: &str)
        ensures
            final(self)@ == with_text(old(self)@, paper, *state, text@),
    {
        match self.pending.take() {
            None => {
                self.pending = Some((*state, chars_of(text)));
            },
            Some((begun, line)) => {
                let mut line = line;
                move_to_cursor(&mut line, &begun, state);
                if same_line_style(&begun, state) {
                    push_text(&mut line, text);
                    self.pending = Some((begun, line));
                } else {
                    self.pending = Some((begun, line));
                    self.flush(paper);
                    self.pending = Some((*state, chars_of(text)));
                }
            },
        }
    }

    #[verifier::spinoff_prover]
    fn put_control(&mut self, paper: PaperWidth, k: usize, state: &PrinterState, control: &Control)
        ensures
            final(self)@ == with_control(old(self)@, paper, k as int, *state, *control),
            reads_barcode(*state, *control),
    {
        if !test_made(state, control) {
            self.flush(paper);
            self.place(TicketItem::Unmade { source: k });
            return ;
        }
        match control {
            Control::Newline => {
                self.flush(paper);
                self.place(TicketItem::LineFeed { state: *state });
            },
            Control::Cut => {
                self.flush(paper);
                self.place(TicketItem::Cut);
            },
            Control::RasterImage { width_bytes, height, data, .. } => {
                self.flush(paper);
                if let Some(image) = raster_to_image(*width_bytes, *height, data.as_slice()) {
                    self.place(TicketItem::Raster { align: state.alignment, image, source: k });
                }
            },
            Control::Qr { module_size, ecc, data, .. } => {
                self.flush(paper);
                match qr_to_image(data.as_slice(), *ecc, *module_size) {
                    Some(image) => {
                        self.place(TicketItem::Qr { align: state.alignment, image, source: k });
                    },
                    None => {
                        self.place(TicketItem::InvalidQr);
                    },
                }
            },
            Control::OpenDrawer => {
                self.flush(paper);
                self.place(TicketItem::Drawer);
            },
            Control::Barcode { m, data } => {
                self.flush(paper);
                match render_barcode(state, *m, data.as_slice()) {
                    Some((image, hri)) => {
                        let both: bool = state.barcode_hri == BarcodeHriPosition::Both;
                        self.place(
                            TicketItem::Barcode {
                                align: state.alignment,
                                image,
                                hri,
                                above: both || state.barcode_hri == BarcodeHriPosition::Above,
                                below: both || state.barcode_hri == BarcodeHriPosition::Below,
                                source: k,
                            },
                        );
                    },
                    None => {
                        let mut text = "[BARCODE m=".to_owned();
                        push_hex(&mut text, *m as u64, 2, true);
                        text.append("] ");
                        let preview = from_utf8_lossy(data.as_slice());
                        text.append(preview.as_str());
                        self.place(TicketItem::BarcodeText(text));
                    },
                }
            },
            Control::Tab => {
                if let Some((begun, line)) = self.pending.take() {
                    let mut line = line;
                    let spaces: usize = 8 - line.len() % 8;
                    push_spaces(&mut line, spaces);
                    self.pending = Some((begun, line));
                }
            },
            Control::BitImage { mode, width, data } => {
                self.flush(paper);
                if let Some(image) = bitimage_to_image(*mode, *width, data.as_slice()) {
                    self.place(TicketItem::BitImage { image, source: k });
                }
            },
            _ => {},
        }
    }
}

/// What holds of the barcode of a command, if it is one.
pub open spec fn command_is_read(command: (PrinterState, CommandType)) -> bool {
    command.1 matches CommandType::Control(control) ==> reads_barcode(command.0, control)
}

/// Lays a job out on paper. With `show_debug` every control sequence shows its label. An image
/// that cannot be made leaves a gap, and the rest of the ticket is as ever.
#[verifier::spinoff_prover]
pub fn layout_ticket(
    commands: &Vec<(PrinterState, CommandType)>,
    paper_width: PaperWidth,
    show_debug: bool,
) -> (items: Vec<TicketItem>)
    ensures
        items_view(items@) == ticket(commands@, paper_width, show_debug),
        items@.len() == ticket(commands@, paper_width, show_debug).len(),
        forall|j: int|
            0 <= j < items@.len() ==> (#[trigger] items@[j])@ == ticket(
                commands@,
                paper_width,
                show_debug,
            )[j],
        forall|k: int| 0 <= k < commands@.len() ==> command_is_read(#[trigger] commands@[k]),
{
    let mut builder = Builder { items: Vec::new(), pending: None };
    assert(items_view(builder.items@) =~= seq![]);
    assert(commands@.take(0) =~= seq![]);
    for k in 0..commands.len()
        invariant
            builder@ == after(commands@.take(k as int), paper_width, show_debug),
            forall|j: int| 0 <= j < k ==> command_is_read(#[trigger] commands@[j]),
    {
        assert(commands@.take(k + 1).drop_last() =~= commands@.take(k as int));
        let state = &commands[k].0;
        match &commands[k].1 {
            CommandType::Text(text) => {
                builder.put_text(paper_width, state, text.as_str());
            },
            CommandType::Control(control) => {
                if show_debug {
                    let label = debug_label_for_control(control);
                    builder.place(TicketItem::Label(label));
                }
                builder.put_control(paper_width, k, state, control);
            },
            CommandType::Unknown(_) => {},
        }
    }
    assert(commands@.take(commands@.len() as int) =~= commands@);
    builder.flush(paper_width);
    builder.items
}

/// Text that comes in two commands in the same state is laid out as if it had come in one.
#[verifier::spinoff_prover]
pub proof fn lemma_split_text_is_joined(
    p: Progress,
    paper: PaperWidth,
    state: PrinterState,
    a: Seq<char>,
    b: Seq<char>,
)
    ensures
        with_text(with_text(p, paper, state, a), paper, state, b) == with_text(
            p,
            paper,
            state,
            a + b,
        ),
{
    if let Some((begun, line)) = p.pending {
        let moved = to_cursor(line, begun, state);
        if same_style(begun, state) {
            assert(to_cursor(moved + a, begun, state) == moved + a);
            assert(moved + a + b =~= moved + (a + b));
        } else {
            assert(to_cursor(a, state, state) == a);
        }
    } else {
        assert(to_cursor(a, state, state) == a);
    }
}

/// Whether a control sequence only changes the state of the printer.
pub open spec fn only_sets_state(control: Control) -> bool {
    match control {
        Control::Newline
        | Control::Tab
        | Control::Cut
        | Control::OpenDrawer
        | Control::RasterImage { .. }
        | Control::Qr { .. }
        | Control::Barcode { .. }
        | Control::BitImage { .. } => false,
        _ => true,
    }
}

/// Commands that only change the state of the printer, and bytes that are no command, leave the
/// ticket as it was, and so may text go on behind them.
#[verifier::spinoff_prover]
pub proof fn lemma_settings_show_nothing(
    p: Progress,
    paper: PaperWidth,
    k: int,
    command: (PrinterState, CommandType),
)
    requires
        match command.1 {
            CommandType::Text(text) => false,
            CommandType::Control(control) => only_sets_state(control),
            CommandType::Unknown(byte) => true,
        },
    ensures
        with_command(p, paper, false, k, command) == p,
{
}

/// Items that are no labels.
pub open spec fn without_labels(items: Seq<ItemView>) -> Seq<ItemView> {
    items.filter(|item: ItemView| !(item is Label))
}

#[verifier::spinoff_prover]
proof fn lemma_push_without_labels(items: Seq<ItemView>, item: ItemView)
    ensures
        without_labels(items.push(item)) == if item is Label {
            without_labels(items)
        } else {
            without_labels(items).push(item)
        },
{
    reveal(Seq::filter);
    assert(items.push(item).drop_last() =~= items);
}

#[verifier::spinoff_prover]
proof fn lemma_flushed_without_labels(shown: Progress, plain: Progress, paper: PaperWidth)
    requires
        without_labels(shown.items) == plain.items,
        shown.pending == plain.pending,
    ensures
        without_labels(flushed(shown, paper).items) == flushed(plain, paper).items,
        flushed(shown, paper).pending == flushed(plain, paper).pending,
{
    if let Some((state, text)) = shown.pending {
        lemma_push_without_labels(
            shown.items,
            ItemView::Text { state, lines: shown_lines(paper, state, text) },
        );
    }
}

#[verifier::spinoff_prover]
proof fn lemma_placed_without_labels(
    shown: Progress,
    plain: Progress,
    paper: PaperWidth,
    item: ItemView,
)
    requires
        without_labels(shown.items) == plain.items,
        shown.pending == plain.pending,
        !(item is Label),
    ensures
        without_labels(placed(shown, paper, item).items) == placed(plain, paper, item).items,
{
    lemma_flushed_without_labels(shown, plain, paper);
    lemma_push_without_labels(flushed(shown, paper).items, item);
}

#[verifier::spinoff_prover]
proof fn lemma_command_without_labels(
    shown: Progress,
    plain: Progress,
    paper: PaperWidth,
    k: int,
    command: (PrinterState, CommandType),
)
    requires
        without_labels(shown.items) == plain.items,
        shown.pending == plain.pending,
    ensures
        ({
            let s = with_command(shown, paper, true, k, command);
            let p = with_command(plain, paper, false, k, command);
            without_labels(s.items) == p.items && s.pending == p.pending
        }),
{
    let state = command.0;
    match command.1 {
        CommandType::Text(text) => {
            if let Some((begun, line)) = shown.pending {
                let moved = to_cursor(line, begun, state);
                let pending = Some((begun, moved));
                lemma_flushed_without_labels(
                    Progress { items: shown.items, pending },
                    Progress { items: plain.items, pending },
                    paper,
                );
            }
        },
        CommandType::Control(control) => {
            let label = ItemView::Label(control_label(control));
            lemma_push_without_labels(shown.items, label);
            let labelled = Progress { items: shown.items.push(label), pending: shown.pending };
            lemma_flushed_without_labels(labelled, plain, paper);
            let after = with_control(plain, paper, k, state, control);
            if after.items.len() > flushed(plain, paper).items.len() {
                let item = after.items.last();
                lemma_placed_without_labels(labelled, plain, paper, item);
            }
        },
        CommandType::Unknown(byte) => {},
    }
}

#[verifier::spinoff_prover]
proof fn lemma_after_without_labels(
    commands: Seq<(PrinterState, CommandType)>,
    paper: PaperWidth,
)
    ensures
        without_labels(after(commands, paper, true).items) == after(commands, paper, false).items,
        after(commands, paper, true).pending == after(commands, paper, false).pending,
    decreases commands.len(),
{
    if commands.len() == 0 {
        reveal(Seq::filter);
        assert(without_labels(seq![]) =~= seq![]);
    } else {
        lemma_after_without_labels(commands.drop_last(), paper);
        lemma_command_without_labels(
            after(commands.drop_last(), paper, true),
            after(commands.drop_last(), paper, false),
            paper,
            commands.len() - 1,
            commands.last(),
        );
    }
}

/// Labels are all that debugging adds to a ticket.
#[verifier::spinoff_prover]
pub proof fn lemma_debug_only_adds_labels(
    commands: Seq<(PrinterState, CommandType)>,
    paper: PaperWidth,
)
    ensures
        without_labels(ticket(commands, paper, true)) == ticket(commands, paper, false),
{
    lemma_after_without_labels(commands, paper);
    lemma_flushed_without_labels(
        after(commands, paper, true),
        after(commands, paper, false),
        paper,
    );
}

/// Whether the lines of an item, if it is text, stay on the paper.
pub open spec fn stays_on_paper(item: ItemView, paper: PaperWidth) -> bool {
    item matches ItemView::Text { state, lines } ==> lines.len() > 0 && forall|i: int|
        0 <= i < lines.len() ==> (#[trigger] lines[i]).len() <= columns_in(paper, state)
}

#[verifier::spinoff_prover]
proof fn lemma_shown_lines_stay(paper: PaperWidth, state: PrinterState, text: Seq<char>)
    ensures
        stays_on_paper(ItemView::Text { state, lines: shown_lines(paper, state, text) }, paper),
{
    let columns = columns_in(paper, state);
    lemma_wrapped_keeps_the_text(text, columns);
    let lines = shown_lines(paper, state, text);
    assert forall|i: int| 0 <= i < lines.len() implies (#[trigger] lines[i]).len() <= columns by {
        let line = wrapped(text, columns)[i];
        assert(lines[i] == aligned(line, columns, state.alignment));
        lemma_aligned_line_fits(line, columns, state.alignment);
    }
}

#[verifier::spinoff_prover]
proof fn lemma_flushed_stays(p: Progress, paper: PaperWidth)
    requires
        forall|k: int| 0 <= k < p.items.len() ==> stays_on_paper(#[trigger] p.items[k], paper),
    ensures
        forall|k: int|
            0 <= k < flushed(p, paper).items.len() ==> stays_on_paper(
                #[trigger] flushed(p, paper).items[k],
                paper,
            ),
{
    if let Some((state, text)) = p.pending {
        lemma_shown_lines_stay(paper, state, text);
    }
}

#[verifier::spinoff_prover]
proof fn lemma_after_stays(
    commands: Seq<(PrinterState, CommandType)>,
    paper: PaperWidth,
    debug: bool,
)
    ensures
        forall|k: int|
            0 <= k < after(commands, paper, debug).items.len() ==> stays_on_paper(
                #[trigger] after(commands, paper, debug).items[k],
                paper,
            ),
    decreases commands.len(),
{
    if commands.len() > 0 {
        lemma_after_stays(commands.drop_last(), paper, debug);
        let before = after(commands.drop_last(), paper, debug);
        lemma_flushed_stays(before, paper);
        let state = commands.last().0;
        match commands.last().1 {
            CommandType::Text(text) => {
                if let Some((begun, line)) = before.pending {
                    lemma_flushed_stays(
                        Progress {
                            items: before.items,
                            pending: Some((begun, to_cursor(line, begun, state))),
                        },
                        paper,
                    );
                }
            },
            CommandType::Control(control) => {
                lemma_flushed_stays(
                    Progress {
                        items: before.items.push(ItemView::Label(control_label(control))),
                        pending: before.pending,
                    },
                    paper,
                );
            },
            CommandType::Unknown(byte) => {},
        }
    }
}

/// No line of text leaves the paper.
#[verifier::spinoff_prover]
pub proof fn lemma_text_stays_on_paper(
    commands: Seq<(PrinterState, CommandType)>,
    paper: PaperWidth,
    debug: bool,
    k: int,
)
    requires
        0 <= k < ticket(commands, paper, debug).len(),
    ensures
        stays_on_paper(ticket(commands, paper, debug)[k], paper),
{
    lemma_after_stays(commands, paper, debug);
    lemma_flushed_stays(after(commands, paper, debug), paper);
}

/// The view of an item holds what the item holds: its state, lines, alignment, image, text and
/// source.
#[verifier::spinoff_prover]
pub proof fn lemma_what_an_item_shows(item: TicketItem)
    ensures
        match item {
            TicketItem::Label(label) => item@ == ItemView::Label(label@),
            TicketItem::Text { state, lines } => item@ matches ItemView::Text {
                state: shown,
                lines: texts,
            } && shown == state && texts.len() == lines@.len() && forall|k: int|
                0 <= k < lines@.len() ==> #[trigger] texts[k] == lines@[k]@,
            TicketItem::LineFeed { state } => item@ == (ItemView::LineFeed { state }),
            TicketItem::Cut => item@ == ItemView::Cut,
            TicketItem::Raster { align, image, source } => item@ == (ItemView::Raster {
                align,
                image: image@,
                source: source as int,
            }),
            TicketItem::Qr { align, image, source } => item@ == (ItemView::Qr {
                align,
                image: image@,
                source: source as int,
            }),
            TicketItem::InvalidQr => item@ == ItemView::InvalidQr,
            TicketItem::Drawer => item@ == ItemView::Drawer,
            TicketItem::Barcode { align, image, hri, above, below, source } => item@ == (
            ItemView::Barcode {
                align,
                image: image@,
                hri: hri@,
                above,
                below,
                source: source as int,
            }),
            TicketItem::BarcodeText(text) => item@ == ItemView::BarcodeText(text@),
            TicketItem::BitImage { image, source } => item@ == (ItemView::BitImage {
                image: image@,
                source: source as int,
            }),
            TicketItem::Unmade { source } => item@ == (ItemView::Unmade { source: source as int }),
        },
{
}

/// A barcode that could not be made is noted by its kind, in two hexadecimal digits, and its data.
#[verifier::spinoff_prover]
pub proof fn lemma_note_of_a_barcode(m: u8, data: Seq<u8>)
    ensures
        barcode_text(m, data) == "[BARCODE m="@ + seq![
            hex_digit(m as int / 16, true),
            hex_digit(m as int % 16, true),
        ] + "] "@ + lossy_text(data),
{
    lemma_hex_of_a_byte(m, true);
}

} // verus!
