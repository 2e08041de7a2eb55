//! What a ticket shows of the text of a job: all of it, in order.

use crate::labels::control_label;
use crate::layout::columns::{
    aligned, columns_in, joined, lemma_wrapped_keeps_the_text, padding, shown_lines,
    without_breaks, wrapped, NBSP,
};
use crate::layout::ticket::{
    after, flushed, placed, ticket, to_cursor, with_control, with_text, ItemView,
    Progress,
};
use crate::model::{Align, CommandType, Control, PaperWidth, PrinterState};
use crate::text::repeated;
use vstd::prelude::*;

verus! {

/// Whether a character is more than space between others.
pub open spec fn is_ink(c: char) -> bool {
    c != ' ' && c != NBSP && c != '\n'
}

/// The characters of a text that are more than space.
pub open spec fn ink(text: Seq<char>) -> Seq<char> {
    text.filter(|c: char| is_ink(c))
}

/// The ink of an item, where it is text.
pub open spec fn item_ink(item: ItemView) -> Seq<char> {
    match item {
        ItemView::Text { state, lines } => ink(joined(lines)),
        _ => seq![],
    }
}

/// The ink of the text on a ticket, from top to bottom.
pub open spec fn ticket_ink(items: Seq<ItemView>) -> Seq<char>
    decreases items.len(),
{
    if items.len() == 0 {
        seq![]
    } else {
        ticket_ink(items.drop_last()) + item_ink(items.last())
    }
}

/// The ink of the text in some commands.
pub open spec fn command_ink(commands: Seq<(PrinterState, CommandType)>) -> Seq<char>
    decreases commands.len(),
{
    if commands.len() == 0 {
        seq![]
    } else {
        command_ink(commands.drop_last()) + match commands.last().1 {
            CommandType::Text(text) => ink(text@),
            _ => seq![],
        }
    }
}

/// The ink of a ticket that is being laid out, with its open line.
spec fn progress_ink(p: Progress) -> Seq<char> {
    ticket_ink(p.items) + match p.pending {
        Some((state, text)) => ink(text),
        None => seq![],
    }
}

#[verifier::spinoff_prover]
pub proof fn lemma_ink_concat(a: Seq<char>, b: Seq<char>)
    ensures
        ink(a + b) == ink(a) + ink(b),
{
    Seq::filter_distributes_over_add(a, b, |c: char| is_ink(c));
}

#[verifier::spinoff_prover]
pub proof fn lemma_space_has_no_ink(c: char, n: nat)
    requires
        !is_ink(c),
    ensures
        ink(repeated(c, n)) == Seq::<char>::empty(),
    decreases n,
{
    reveal(Seq::filter);
    if n > 0 {
        lemma_space_has_no_ink(c, (n - 1) as nat);
        assert(repeated(c, n).drop_last() =~= repeated(c, (n - 1) as nat));
    }
}

#[verifier::spinoff_prover]
proof fn lemma_breaks_have_no_ink(text: Seq<char>)
    ensures
        ink(without_breaks(text)) == ink(text),
    decreases text.len(),
{
    reveal(Seq::filter);
    if text.len() > 0 {
        lemma_breaks_have_no_ink(text.drop_last());
        let front = without_breaks(text.drop_last());
        if text.last() != '\n' {
            assert(without_breaks(text) == front.push(text.last()));
            assert(front.push(text.last()).drop_last() =~= front);
        }
    }
}

#[verifier::spinoff_prover]
proof fn lemma_aligned_ink(line: Seq<char>, columns: int, align: Align)
    ensures
        ink(aligned(line, columns, align)) == ink(line),
{
    let pad = padding(line.len() as int, columns, align) as nat;
    lemma_space_has_no_ink(NBSP, pad);
    lemma_ink_concat(repeated(NBSP, pad), line);
    assert(Seq::<char>::empty() + ink(line) =~= ink(line));
}

#[verifier::spinoff_prover]
proof fn lemma_lines_ink(lines: Seq<Seq<char>>, columns: int, align: Align)
    ensures
        ink(joined(lines.map_values(|line: Seq<char>| aligned(line, columns, align)))) == ink(
            joined(lines),
        ),
    decreases lines.len(),
{
    let shift = |line: Seq<char>| aligned(line, columns, align);
    let moved = lines.map_values(shift);
    if lines.len() > 0 {
        let front = lines.drop_last();
        lemma_lines_ink(front, columns, align);
        assert(moved.drop_last() =~= front.map_values(shift));
        lemma_aligned_ink(lines.last(), columns, align);
        lemma_ink_concat(joined(front), lines.last());
        lemma_ink_concat(joined(moved.drop_last()), moved.last());
    } else {
        assert(moved =~= seq![]);
        assert(joined(moved) =~= joined(lines));
    }
}

/// The lines of a text show its ink.
#[verifier::spinoff_prover]
pub proof fn lemma_shown_lines_ink(paper: PaperWidth, state: PrinterState, text: Seq<char>)
    ensures
        ink(joined(shown_lines(paper, state, text))) == ink(text),
{
    let columns = columns_in(paper, state);
    lemma_wrapped_keeps_the_text(text, columns);
    lemma_lines_ink(wrapped(text, columns), columns, state.alignment);
    lemma_breaks_have_no_ink(text);
}

#[verifier::spinoff_prover]
proof fn lemma_push_ink(items: Seq<ItemView>, item: ItemView)
    ensures
        ticket_ink(items.push(item)) == ticket_ink(items) + item_ink(item),
{
    assert(items.push(item).drop_last() =~= items);
}

#[verifier::spinoff_prover]
proof fn lemma_flushed_ink(p: Progress, paper: PaperWidth)
    ensures
        progress_ink(flushed(p, paper)) == progress_ink(p),
        ticket_ink(flushed(p, paper).items) == progress_ink(p),
{
    match p.pending {
        None => {
            assert(ticket_ink(p.items) + Seq::<char>::empty() =~= ticket_ink(p.items));
        },
        Some((state, text)) => {
            lemma_shown_lines_ink(paper, state, text);
            lemma_push_ink(
                p.items,
                ItemView::Text { state, lines: shown_lines(paper, state, text) },
            );
            reveal(Seq::filter);
            assert(text.len() == 0 ==> ink(text) =~= seq![]);
            assert(progress_ink(flushed(p, paper)) =~= progress_ink(p));
            assert(ticket_ink(flushed(p, paper).items) =~= progress_ink(p));
        },
    }
}

#[verifier::spinoff_prover]
proof fn lemma_placed_ink(p: Progress, paper: PaperWidth, item: ItemView)
    requires
        !(item is Text),
    ensures
        progress_ink(placed(p, paper, item)) == progress_ink(p),
{
    lemma_flushed_ink(p, paper);
    lemma_push_ink(flushed(p, paper).items, item);
    assert(progress_ink(placed(p, paper, item)) =~= progress_ink(p));
}

#[verifier::spinoff_prover]
pub proof fn lemma_to_cursor_ink(line: Seq<char>, begun: PrinterState, now: PrinterState)
    ensures
        ink(to_cursor(line, begun, now)) == ink(line),
{
    let moved = to_cursor(line, begun, now);
    if moved != line {
        let n = (moved.len() - line.len()) as nat;
        assert(moved =~= line + repeated(' ', n));
        lemma_space_has_no_ink(' ', n);
        lemma_ink_concat(line, repeated(' ', n));
        assert(ink(line) + Seq::<char>::empty() =~= ink(line));
    }
}

#[verifier::spinoff_prover]
proof fn lemma_text_ink(p: Progress, paper: PaperWidth, state: PrinterState, text: Seq<char>)
    ensures
        progress_ink(with_text(p, paper, state, text)) == progress_ink(p) + ink(text),
{
    match p.pending {
        None => {
            assert(progress_ink(with_text(p, paper, state, text)) =~= progress_ink(p) + ink(text));
        },
        Some((begun, line)) => {
            let moved = to_cursor(line, begun, state);
            lemma_to_cursor_ink(line, begun, state);
            let held = Progress { items: p.items, pending: Some((begun, moved)) };
            lemma_flushed_ink(held, paper);
            lemma_ink_concat(moved, text);
            assert(progress_ink(with_text(p, paper, state, text)) =~= progress_ink(p) + ink(text));
        },
    }
}

#[verifier::spinoff_prover]
proof fn lemma_control_ink(
    p: Progress,
    paper: PaperWidth,
    k: int,
    state: PrinterState,
    control: Control,
)
    ensures
        progress_ink(with_control(p, paper, k, state, control)) == progress_ink(p),
{
    let next = with_control(p, paper, k, state, control);
    lemma_flushed_ink(p, paper);
    if control is Tab {
        if let Some((begun, line)) = p.pending {
            let n = (8 - line.len() % 8) as nat;
            lemma_space_has_no_ink(' ', n);
            lemma_ink_concat(line, repeated(' ', n));
            assert(ink(line) + Seq::<char>::empty() =~= ink(line));
        }
    } else if next != p && next != flushed(p, paper) {
        let item = next.items.last();
        assert(next == placed(p, paper, item)) by {
            assert(next.items =~= flushed(p, paper).items.push(item));
        }
        lemma_placed_ink(p, paper, item);
    }
}

#[verifier::spinoff_prover]
proof fn lemma_after_ink(
    commands: Seq<(PrinterState, CommandType)>,
    paper: PaperWidth,
    debug: bool,
)
    ensures
        progress_ink(after(commands, paper, debug)) == command_ink(commands),
    decreases commands.len(),
{
    if commands.len() == 0 {
        assert(progress_ink(after(commands, paper, debug)) =~= seq![]);
    } else {
        let front = commands.drop_last();
        lemma_after_ink(front, paper, debug);
        let before = after(front, paper, debug);
        let (state, command) = commands.last();
        match command {
            CommandType::Text(text) => {
                lemma_text_ink(before, paper, state, text@);
            },
            CommandType::Control(control) => {
                let label = ItemView::Label(control_label(control));
                let labelled = Progress {
                    items: before.items.push(label),
                    pending: before.pending,
                };
                lemma_push_ink(before.items, label);
                assert(progress_ink(labelled) =~= progress_ink(before));
                lemma_control_ink(labelled, paper, commands.len() - 1, state, control);
                lemma_control_ink(before, paper, commands.len() - 1, state, control);
                assert(command_ink(commands) =~= command_ink(front));
            },
            CommandType::Unknown(byte) => {
                assert(command_ink(commands) =~= command_ink(front));
            },
        }
    }
}

/// A ticket shows the text of its job: every character that is more than space, once, and in the
/// order in which it came.
#[verifier::spinoff_prover]
pub proof fn lemma_ticket_shows_all_text(
    commands: Seq<(PrinterState, CommandType)>,
    paper: PaperWidth,
    debug: bool,
)
    ensures
        ticket_ink(ticket(commands, paper, debug)) == command_ink(commands),
{
    lemma_after_ink(commands, paper, debug);
    lemma_flushed_ink(after(commands, paper, debug), paper);
}

} // verus!
