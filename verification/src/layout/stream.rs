//! What is seen on a ticket, in order: every character in its style, and everything else.

use crate::barcode::render::{barcode_fits, barcode_picture};
use crate::image::{column_picture, raster_picture};
use crate::labels::control_label;
use crate::layout::columns::{joined, same_style, shown_lines};
use crate::layout::ink::{
    ink, lemma_ink_concat, lemma_shown_lines_ink, lemma_space_has_no_ink, lemma_to_cursor_ink,
};
use crate::layout::ticket::{
    after, barcode_text, flushed, placed, ticket, to_cursor, with_command, with_control, with_text,
    ItemView, Progress,
};
use crate::model::{Align, BarcodeHriPosition, CommandType, Control, PaperWidth, PrinterState};
use crate::qr::{can_choose_mask, level_of, qr_picture};
use crate::text::{lossy_text, repeated};
use vstd::prelude::*;

verus! {

/// Something on a ticket: a character as it is printed, or an item other than text.
pub enum Seen {
    Ink {
        c: char,
        is_bold: bool,
        is_underline: bool,
        is_reverse: bool,
        is_font_b: bool,
        alignment: Align,
        width: u8,
        height: u8,
    },
    Item(ItemView),
}

/// A character printed in a state.
pub open spec fn printed_char(state: PrinterState, c: char) -> Seen {
    Seen::Ink {
        c,
        is_bold: state.is_bold,
        is_underline: state.is_underline,
        is_reverse: state.is_reverse,
        is_font_b: state.is_font_b,
        alignment: state.alignment,
        width: state.char_width_mul,
        height: state.char_height_mul,
    }
}

/// The characters of a text that are more than space, printed in a state.
pub open spec fn printed_text(state: PrinterState, text: Seq<char>) -> Seq<Seen> {
    ink(text).map_values(|c: char| printed_char(state, c))
}

/// What is seen of an item.
pub open spec fn seen_of(item: ItemView) -> Seq<Seen> {
    match item {
        ItemView::Text { state, lines } => printed_text(state, joined(lines)),
        _ => seq![Seen::Item(item)],
    }
}

/// What is seen on a ticket, from top to bottom.
pub open spec fn seen(items: Seq<ItemView>) -> Seq<Seen>
    decreases items.len(),
{
    if items.len() == 0 {
        seq![]
    } else {
        seen(items.drop_last()) + seen_of(items.last())
    }
}

/// What the `k`-th command, a control sequence, leaves on the paper: a feed, a cut, the sign of an
/// opened drawer, an image in the alignment in force, or a note in place of an image.
pub open spec fn left_by(k: int, state: PrinterState, control: Control) -> Option<ItemView> {
    match control {
        Control::Newline => Some(ItemView::LineFeed { state }),
        Control::Cut => Some(ItemView::Cut),
        Control::OpenDrawer => Some(ItemView::Drawer),
        Control::RasterImage { m, width_bytes, height, data } => {
            if width_bytes == 0 || height == 0 || data@.len() < width_bytes * height {
                None
            } else if 32 * (width_bytes * height) > isize::MAX {
                Some(ItemView::Unmade { source: k })
            } else {
                Some(
                    ItemView::Raster {
                        align: state.alignment,
                        image: raster_picture(width_bytes, height, data@)->0,
                        source: k,
                    },
                )
            }
        },
        Control::Qr { model, module_size, ecc, data } => {
            if !can_choose_mask(data@, level_of(ecc)) {
                Some(ItemView::Unmade { source: k })
            } else {
                match qr_picture(data@, ecc, module_size) {
                    Some(image) => Some(
                        ItemView::Qr { align: state.alignment, image, source: k },
                    ),
                    None => Some(ItemView::InvalidQr),
                }
            }
        },
        Control::Barcode { m, data } => {
            if !barcode_fits(state, m, lossy_text(data@)) {
                Some(ItemView::Unmade { source: k })
            } else {
                match barcode_picture(state, m, lossy_text(data@)) {
                    Some((image, hri)) => Some(
                        ItemView::Barcode {
                            align: state.alignment,
                            image,
                            hri,
                            above: state.barcode_hri == BarcodeHriPosition::Above
                                || state.barcode_hri == BarcodeHriPosition::Both,
                            below: state.barcode_hri == BarcodeHriPosition::Below
                                || state.barcode_hri == BarcodeHriPosition::Both,
                            source: k,
                        },
                    ),
                    None => Some(ItemView::BarcodeText(barcode_text(m, data@))),
                }
            }
        },
        Control::BitImage { mode, width, data } => {
            if width == 0 || data@.len() < (if mode == 32 || mode == 33 {
                3 * width
            } else {
                width as int
            }) {
                None
            } else {
                Some(
                    ItemView::BitImage {
                        image: column_picture(mode, width, data@)->0,
                        source: k,
                    },
                )
            }
        },
        _ => None,
    }
}

/// What is to be seen of the `k`-th command: the characters of a text in the state with which it
/// came, or what a control sequence leaves.
pub open spec fn to_be_seen(k: int, command: (PrinterState, CommandType)) -> Seq<Seen> {
    match command.1 {
        CommandType::Text(text) => printed_text(command.0, text@),
        CommandType::Control(control) => match left_by(k, command.0, control) {
            Some(item) => seq![Seen::Item(item)],
            None => seq![],
        },
        CommandType::Unknown(byte) => seq![],
    }
}

/// What is to be seen of some commands, one after the other.
pub open spec fn all_to_be_seen(commands: Seq<(PrinterState, CommandType)>) -> Seq<Seen>
    decreases commands.len(),
{
    if commands.len() == 0 {
        seq![]
    } else {
        all_to_be_seen(commands.drop_last()) + to_be_seen(commands.len() - 1, commands.last())
    }
}

/// What is seen on a ticket that is being laid out, with its open line.
spec fn seen_so_far(p: Progress) -> Seq<Seen> {
    seen(p.items) + match p.pending {
        Some((state, text)) => printed_text(state, text),
        None => seq![],
    }
}

#[verifier::spinoff_prover]
proof fn lemma_push_seen(items: Seq<ItemView>, item: ItemView)
    ensures
        seen(items.push(item)) == seen(items) + seen_of(item),
{
    assert(items.push(item).drop_last() =~= items);
}

#[verifier::spinoff_prover]
proof fn lemma_printed_concat(state: PrinterState, a: Seq<char>, b: Seq<char>)
    ensures
        printed_text(state, a + b) == printed_text(state, a) + printed_text(state, b),
{
    lemma_ink_concat(a, b);
    assert(printed_text(state, a + b) =~= printed_text(state, a) + printed_text(state, b));
}

#[verifier::spinoff_prover]
proof fn lemma_flushed_seen(p: Progress, paper: PaperWidth)
    ensures
        seen(flushed(p, paper).items) == seen_so_far(p),
{
    match p.pending {
        None => {
            assert(seen_so_far(p) =~= seen(p.items));
        },
        Some((state, text)) => {
            lemma_shown_lines_ink(paper, state, text);
            lemma_push_seen(
                p.items,
                ItemView::Text { state, lines: shown_lines(paper, state, text) },
            );
            reveal(Seq::filter);
            assert(text.len() == 0 ==> ink(text) =~= seq![]);
            assert(seen(flushed(p, paper).items) =~= seen_so_far(p));
        },
    }
}

#[verifier::spinoff_prover]
proof fn lemma_text_seen(p: Progress, paper: PaperWidth, state: PrinterState, text: Seq<char>)
    ensures
        seen_so_far(with_text(p, paper, state, text)) == seen_so_far(p) + printed_text(state, text),
{
    match p.pending {
        None => {
            assert(seen_so_far(with_text(p, paper, state, text)) =~= seen_so_far(p) + printed_text(
                state,
                text,
            ));
        },
        Some((begun, line)) => {
            let moved = to_cursor(line, begun, state);
            lemma_to_cursor_ink(line, begun, state);
            let held = Progress { items: p.items, pending: Some((begun, moved)) };
            assert(seen_so_far(held) == seen_so_far(p));
            if same_style(begun, state) {
                lemma_printed_concat(begun, moved, text);
                assert(printed_text(begun, text) =~= printed_text(state, text));
            } else {
                lemma_flushed_seen(held, paper);
            }
            assert(seen_so_far(with_text(p, paper, state, text)) =~= seen_so_far(p) + printed_text(
                state,
                text,
            ));
        },
    }
}

#[verifier::spinoff_prover]
proof fn lemma_placed_seen(p: Progress, paper: PaperWidth, item: ItemView)
    requires
        !(item is Text),
    ensures
        seen_so_far(placed(p, paper, item)) == seen_so_far(p) + seq![Seen::Item(item)],
{
    lemma_flushed_seen(p, paper);
    lemma_push_seen(flushed(p, paper).items, item);
    assert(seen_so_far(placed(p, paper, item)) =~= seen_so_far(p) + seq![Seen::Item(item)]);
}

/// A control sequence that leaves an item closes the open line and places the item behind it.
#[verifier::spinoff_prover]
proof fn lemma_leaves(
    p: Progress,
    paper: PaperWidth,
    k: int,
    state: PrinterState,
    control: Control,
)
    ensures
        match left_by(k, state, control) {
            Some(item) => with_control(p, paper, k, state, control) == placed(p, paper, item)
                && !(item is Text),
            None => control is Tab || with_control(p, paper, k, state, control) == p
                || with_control(p, paper, k, state, control) == flushed(p, paper),
        },
{
    match control {
        Control::RasterImage { m, width_bytes, height, data } => {
            let w = width_bytes as int;
            let h = height as int;
            assert(4 * ((8 * w) * h) == 32 * (w * h)) by (nonlinear_arith);
        },
        Control::BitImage { mode, width, data } => {
            let w = width as int;
            assert(w * 3 == 3 * w && w * 1 == w);
        },
        Control::Qr { model, module_size, ecc, data } => {},
        Control::Barcode { m, data } => {},
        _ => {},
    }
}

#[verifier::spinoff_prover]
proof fn lemma_tab_seen(p: Progress, begun: PrinterState, line: Seq<char>, n: nat)
    requires
        p.pending == Some((begun, line)),
    ensures
        seen_so_far(
            Progress { items: p.items, pending: Some((begun, line + repeated(' ', n))) },
        ) == seen_so_far(p),
{
    lemma_space_has_no_ink(' ', n);
    lemma_printed_concat(begun, line, repeated(' ', n));
    assert(printed_text(begun, repeated(' ', n)) =~= seq![]);
    assert(printed_text(begun, line) + Seq::<Seen>::empty() =~= printed_text(begun, line));
}

#[verifier::spinoff_prover]
proof fn lemma_control_seen(
    p: Progress,
    paper: PaperWidth,
    k: int,
    state: PrinterState,
    control: Control,
)
    ensures
        seen_so_far(with_control(p, paper, k, state, control)) == seen_so_far(p) + (match left_by(
            k,
            state,
            control,
        ) {
            Some(item) => seq![Seen::Item(item)],
            None => seq![],
        }),
{
    let next = with_control(p, paper, k, state, control);
    lemma_leaves(p, paper, k, state, control);
    match left_by(k, state, control) {
        Some(item) => {
            lemma_placed_seen(p, paper, item);
        },
        None => {
            assert(seen_so_far(p) + Seq::<Seen>::empty() =~= seen_so_far(p));
            lemma_flushed_seen(p, paper);
            assert(flushed(p, paper).pending is None);
            assert(seen_so_far(flushed(p, paper)) =~= seen_so_far(p));
            if control is Tab {
                if let Some((begun, line)) = p.pending {
                    lemma_tab_seen(p, begun, line, (8 - line.len() % 8) as nat);
                }
            }
        },
    }
}

#[verifier::spinoff_prover]
proof fn lemma_command_seen(
    p: Progress,
    paper: PaperWidth,
    k: int,
    command: (PrinterState, CommandType),
)
    ensures
        seen_so_far(with_command(p, paper, false, k, command)) == seen_so_far(p) + to_be_seen(
            k,
            command,
        ),
{
    match command.1 {
        CommandType::Text(text) => {
            lemma_text_seen(p, paper, command.0, text@);
        },
        CommandType::Control(control) => {
            lemma_control_seen(p, paper, k, command.0, control);
        },
        CommandType::Unknown(byte) => {
            assert(seen_so_far(p) + Seq::<Seen>::empty() =~= seen_so_far(p));
        },
    }
}

#[verifier::spinoff_prover]
proof fn lemma_after_seen(commands: Seq<(PrinterState, CommandType)>, paper: PaperWidth)
    ensures
        seen_so_far(after(commands, paper, false)) == all_to_be_seen(commands),
    decreases commands.len(),
{
    if commands.len() == 0 {
        assert(seen_so_far(after(commands, paper, false)) =~= seq![]);
    } else {
        let front = commands.drop_last();
        lemma_after_seen(front, paper);
        lemma_command_seen(
            after(front, paper, false),
            paper,
            commands.len() - 1,
            commands.last(),
        );
    }
}

/// A ticket shows its job in order: every character that is more than space once, in an item whose
/// state is bold, underlined, reversed, aligned, of the font and of the size that the state of its
/// command is; and between them, where it came, what each control sequence leaves.
#[verifier::spinoff_prover]
pub proof fn lemma_ticket_shows_the_job_in_order(
    commands: Seq<(PrinterState, CommandType)>,
    paper: PaperWidth,
)
    ensures
        seen(ticket(commands, paper, false)) == all_to_be_seen(commands),
{
    lemma_after_seen(commands, paper);
    lemma_flushed_seen(after(commands, paper, false), paper);
}

#[verifier::spinoff_prover]
proof fn lemma_seen_item_is_there(items: Seq<ItemView>, item: ItemView)
    requires
        seen(items).contains(Seen::Item(item)),
    ensures
        items.contains(item),
    decreases items.len(),
{
    let all = seen(items);
    let i = choose|i: int| 0 <= i < all.len() && all[i] == Seen::Item(item);
    if items.len() > 0 {
        let front = seen(items.drop_last());
        if i < front.len() {
            assert(front[i] == all[i]);
            lemma_seen_item_is_there(items.drop_last(), item);
            let j = choose|j: int| 0 <= j < items.drop_last().len() && items.drop_last()[j] == item;
            assert(items[j] == item);
        } else {
            assert(seen_of(items.last())[i - front.len()] == all[i]);
            assert(items[items.len() - 1] == item);
        }
    }
}

#[verifier::spinoff_prover]
proof fn lemma_left_item_is_to_be_seen(
    commands: Seq<(PrinterState, CommandType)>,
    k: int,
    control: Control,
    item: ItemView,
)
    requires
        0 <= k < commands.len(),
        commands[k].1 == CommandType::Control(control),
        left_by(k, commands[k].0, control) == Some(item),
    ensures
        all_to_be_seen(commands).contains(Seen::Item(item)),
    decreases commands.len(),
{
    let front = all_to_be_seen(commands.drop_last());
    let all = all_to_be_seen(commands);
    if k < commands.len() - 1 {
        lemma_left_item_is_to_be_seen(commands.drop_last(), k, control, item);
        let i = choose|i: int| 0 <= i < front.len() && front[i] == Seen::Item(item);
        assert(all[i] == Seen::Item(item));
    } else {
        assert(all[front.len() as int] == Seen::Item(item));
    }
}

/// What a control sequence leaves stands on the ticket. So a raster image that can be drawn, a QR
/// symbol that there is, and a barcode that can be drawn all stand there, each in the alignment of
/// the state with which its command came.
#[verifier::spinoff_prover]
pub proof fn lemma_images_are_on_the_ticket(
    commands: Seq<(PrinterState, CommandType)>,
    paper: PaperWidth,
    k: int,
)
    requires
        0 <= k < commands.len(),
    ensures
        ({
            let (state, command) = commands[k];
            let on_paper = ticket(commands, paper, false);
            match command {
                CommandType::Control(Control::RasterImage { m, width_bytes, height, data }) => {
                    width_bytes > 0 && height > 0 && width_bytes * height <= data@.len() && 32 * (
                    width_bytes * height) <= isize::MAX ==> on_paper.contains(
                        ItemView::Raster {
                            align: state.alignment,
                            image: raster_picture(width_bytes, height, data@)->0,
                            source: k,
                        },
                    )
                },
                CommandType::Control(Control::Qr { model, module_size, ecc, data }) => {
                    can_choose_mask(data@, level_of(ecc)) ==> match qr_picture(
                        data@,
                        ecc,
                        module_size,
                    ) {
                        Some(image) => on_paper.contains(
                            ItemView::Qr { align: state.alignment, image, source: k },
                        ),
                        None => on_paper.contains(ItemView::InvalidQr),
                    }
                },
                CommandType::Control(Control::Barcode { m, data }) => {
                    barcode_fits(state, m, lossy_text(data@)) ==> match barcode_picture(
                        state,
                        m,
                        lossy_text(data@),
                    ) {
                        Some((image, hri)) => on_paper.contains(
                            ItemView::Barcode {
                                align: state.alignment,
                                image,
                                hri,
                                above: state.barcode_hri == BarcodeHriPosition::Above
                                    || state.barcode_hri == BarcodeHriPosition::Both,
                                below: state.barcode_hri == BarcodeHriPosition::Below
                                    || state.barcode_hri == BarcodeHriPosition::Both,
                                source: k,
                            },
                        ),
                        None => on_paper.contains(ItemView::BarcodeText(barcode_text(m, data@))),
                    }
                },
                _ => true,
            }
        }),
{
    if let CommandType::Control(control) = commands[k].1 {
        if let Some(item) = left_by(k, commands[k].0, control) {
            lemma_left_item_is_to_be_seen(commands, k, control, item);
            lemma_ticket_shows_the_job_in_order(commands, paper);
            lemma_seen_item_is_there(ticket(commands, paper, false), item);
        }
    }
}

/// Whether an item stands on the paper as the command that it came from says: an image in the
/// alignment that was in force then, a barcode with its text where it was wanted then.
pub open spec fn stands_as_asked(
    item: ItemView,
    commands: Seq<(PrinterState, CommandType)>,
) -> bool {
    match item {
        ItemView::Raster { align, image, source } => {
            &&& 0 <= source < commands.len()
            &&& align == commands[source].0.alignment
            &&& commands[source].1 matches CommandType::Control(control) && control is RasterImage
        },
        ItemView::Qr { align, image, source } => {
            &&& 0 <= source < commands.len()
            &&& align == commands[source].0.alignment
            &&& commands[source].1 matches CommandType::Control(control) && control is Qr
        },
        ItemView::Barcode { align, image, hri, above, below, source } => {
            &&& 0 <= source < commands.len()
            &&& align == commands[source].0.alignment
            &&& above <==> commands[source].0.barcode_hri == BarcodeHriPosition::Above
                || commands[source].0.barcode_hri == BarcodeHriPosition::Both
            &&& below <==> commands[source].0.barcode_hri == BarcodeHriPosition::Below
                || commands[source].0.barcode_hri == BarcodeHriPosition::Both
            &&& commands[source].1 matches CommandType::Control(control) && control is Barcode
        },
        ItemView::BitImage { image, source } => {
            &&& 0 <= source < commands.len()
            &&& commands[source].1 matches CommandType::Control(control) && control is BitImage
        },
        ItemView::LineFeed { state } => exists|k: int|
            0 <= k < commands.len() && (#[trigger] commands[k]).0 == state && (
            commands[k].1 matches CommandType::Control(control) && control is Newline),
        _ => true,
    }
}

#[verifier::spinoff_prover]
proof fn lemma_stays_as_asked(item: ItemView, commands: Seq<(PrinterState, CommandType)>)
    requires
        commands.len() > 0,
        stands_as_asked(item, commands.drop_last()),
    ensures
        stands_as_asked(item, commands),
{
    let front = commands.drop_last();
    if let ItemView::LineFeed { state } = item {
        let k = choose|k: int|
            0 <= k < front.len() && (#[trigger] front[k]).0 == state && (
            front[k].1 matches CommandType::Control(control) && control is Newline);
        assert(commands[k] == front[k]);
    }
}

#[verifier::spinoff_prover]
proof fn lemma_left_as_asked(
    commands: Seq<(PrinterState, CommandType)>,
    control: Control,
    item: ItemView,
)
    requires
        commands.len() > 0,
        commands.last().1 == CommandType::Control(control),
        left_by(commands.len() - 1, commands.last().0, control) == Some(item),
    ensures
        stands_as_asked(item, commands),
{
    assert(commands[commands.len() - 1] == commands.last());
}

#[verifier::spinoff_prover]
proof fn lemma_after_as_asked(
    commands: Seq<(PrinterState, CommandType)>,
    paper: PaperWidth,
    debug: bool,
)
    ensures
        forall|j: int|
            0 <= j < after(commands, paper, debug).items.len() ==> stands_as_asked(
                #[trigger] after(commands, paper, debug).items[j],
                commands,
            ),
    decreases commands.len(),
{
    if commands.len() > 0 {
        let front = commands.drop_last();
        lemma_after_as_asked(front, paper, debug);
        let before = after(front, paper, debug);
        let next = after(commands, paper, debug);
        assert forall|j: int| 0 <= j < before.items.len() implies stands_as_asked(
            #[trigger] before.items[j],
            commands,
        ) by {
            lemma_stays_as_asked(before.items[j], commands);
        }
        let state = commands.last().0;
        if let CommandType::Control(control) = commands.last().1 {
            let k = commands.len() - 1;
            let labelled = if debug {
                Progress {
                    items: before.items.push(ItemView::Label(control_label(control))),
                    pending: before.pending,
                }
            } else {
                before
            };
            assert(next == with_control(labelled, paper, k, state, control));
            lemma_leaves(labelled, paper, k, state, control);
            if let Some(item) = left_by(k, state, control) {
                lemma_left_as_asked(commands, control, item);
            }
        }
    }
}

/// Every image stands on the paper in the alignment of the command that it came from, every barcode
/// has its text where that command wanted it, and every feed has the state of its command.
#[verifier::spinoff_prover]
pub proof fn lemma_items_stand_as_asked(
    commands: Seq<(PrinterState, CommandType)>,
    paper: PaperWidth,
    debug: bool,
    j: int,
)
    requires
        0 <= j < ticket(commands, paper, debug).len(),
    ensures
        stands_as_asked(ticket(commands, paper, debug)[j], commands),
{
    lemma_after_as_asked(commands, paper, debug);
    let whole = after(commands, paper, debug);
    if j < whole.items.len() {
        assert(ticket(commands, paper, debug)[j] == whole.items[j]);
    }
}

/// Text joins the open line whole, at its end, and the line keeps the looks of the text: a line in
/// other looks is closed and a new one begun. A cursor that was moved to the right of the open line
/// is reached with spaces, at twelve dots a column.
#[verifier::spinoff_prover]
pub proof fn lemma_text_joins_whole(
    p: Progress,
    paper: PaperWidth,
    state: PrinterState,
    text: Seq<char>,
)
    ensures
        ({
            let next = with_text(p, paper, state, text);
            match p.pending {
                None => next.items == p.items && next.pending == Some((state, text)),
                Some((begun, line)) => {
                    let gap = match state.cursor_x {
                        Some(x) if state.cursor_x != begun.cursor_x && x / 12 > line.len() => x / 12
                            - line.len(),
                        _ => 0,
                    };
                    let moved = line + Seq::new(gap as nat, |i: int| ' ');
                    if begun.is_bold == state.is_bold && begun.is_underline == state.is_underline
                        && begun.is_reverse == state.is_reverse && begun.is_font_b
                        == state.is_font_b && begun.alignment == state.alignment
                        && begun.char_width_mul == state.char_width_mul && begun.char_height_mul
                        == state.char_height_mul {
                        next.items == p.items && next.pending == Some((begun, moved + text))
                    } else {
                        next.pending == Some((state, text)) && next.items == if moved.len() == 0 {
                            p.items
                        } else {
                            p.items.push(
                                ItemView::Text {
                                    state: begun,
                                    lines: shown_lines(paper, begun, moved),
                                },
                            )
                        }
                    }
                },
            }
        }),
{
    if let Some((begun, line)) = p.pending {
        let moved = to_cursor(line, begun, state);
        let gap = match state.cursor_x {
            Some(x) if state.cursor_x != begun.cursor_x && x / 12 > line.len() => x / 12
                - line.len(),
            _ => 0,
        };
        assert(moved =~= line + Seq::new(gap as nat, |i: int| ' '));
    }
}

/// A tab fills the open line with spaces, at least one, up to the next multiple of eight columns.
/// Where no line is open it does nothing.
#[verifier::spinoff_prover]
pub proof fn lemma_tab_stops(p: Progress, paper: PaperWidth, k: int, state: PrinterState)
    ensures
        ({
            let next = with_control(p, paper, k, state, Control::Tab);
            &&& next.items == p.items
            &&& p.pending is None <==> next.pending is None
            &&& p.pending matches Some((begun, line)) ==> (next.pending matches Some((still, longer))
                && still == begun && line.is_prefix_of(longer) && longer.len() % 8 == 0
                && line.len() < longer.len() <= line.len() + 8 && forall|i: int|
                line.len() <= i < longer.len() ==> #[trigger] longer[i] == ' ')
        }),
{
    if let Some((begun, line)) = p.pending {
        let longer = line + repeated(' ', (8 - line.len() % 8) as nat);
        assert(line =~= longer.subrange(0, line.len() as int));
    }
}

/// Closing the open line puts its text on the paper, wrapped and aligned in the state in which it was
/// begun; a line without characters leaves nothing. An item that is placed stands behind it.
#[verifier::spinoff_prover]
pub proof fn lemma_open_line_is_closed(p: Progress, paper: PaperWidth, item: ItemView)
    ensures
        flushed(p, paper).pending is None,
        flushed(p, paper).items == match p.pending {
            Some((state, text)) if text.len() > 0 => p.items.push(
                ItemView::Text { state, lines: shown_lines(paper, state, text) },
            ),
            _ => p.items,
        },
        placed(p, paper, item).pending is None,
        placed(p, paper, item).items == flushed(p, paper).items.push(item),
{
}

/// With debugging on, the label of a control sequence is placed before anything that the sequence
/// does. With debugging off there are no labels, and texts never have one.
#[verifier::spinoff_prover]
pub proof fn lemma_labels_go_first(
    p: Progress,
    paper: PaperWidth,
    k: int,
    state: PrinterState,
    control: Control,
)
    ensures
        ({
            let command = (state, CommandType::Control(control));
            let label = ItemView::Label(control_label(control));
            let labelled = Progress { items: p.items.push(label), pending: p.pending };
            &&& with_command(p, paper, true, k, command) == with_command(
                labelled,
                paper,
                false,
                k,
                command,
            )
            &&& labelled.items.is_prefix_of(with_command(p, paper, true, k, command).items)
        }),
{
    let label = ItemView::Label(control_label(control));
    let labelled = Progress { items: p.items.push(label), pending: p.pending };
    let next = with_control(labelled, paper, k, state, control);
    lemma_leaves(labelled, paper, k, state, control);
    assert(labelled.items =~= flushed(labelled, paper).items.subrange(
        0,
        labelled.items.len() as int,
    ));
    assert(next.items.subrange(0, labelled.items.len() as int) =~= labelled.items);
}

/// The ticket of one text is that text, wrapped and aligned in its state.
#[verifier::spinoff_prover]
pub proof fn lemma_ticket_of_one_text(state: PrinterState, text: String, paper: PaperWidth, debug: bool)
    requires
        text@.len() > 0,
    ensures
        ticket(seq![(state, CommandType::Text(text))], paper, debug) == seq![
            ItemView::Text { state, lines: shown_lines(paper, state, text@) },
        ],
{
    let commands = seq![(state, CommandType::Text(text))];
    assert(commands.drop_last() =~= seq![]);
    assert(after(commands.drop_last(), paper, debug).items =~= seq![]);
    assert(ticket(commands, paper, debug) =~= seq![
        ItemView::Text { state, lines: shown_lines(paper, state, text@) },
    ]);
}

} // verus!
