//! Text in columns: how many fit, where lines break, and how they are aligned.

use crate::model::{Align, PaperWidth, PrinterState};
use crate::text::{chars_of, push_repeated, repeated};
use vstd::prelude::*;

verus! {

/// Characters of normal width on a line.
pub open spec fn columns_of(paper: PaperWidth, is_font_b: bool) -> int {
    match (paper, is_font_b) {
        (PaperWidth::W58mm, false) => 32,
        (PaperWidth::W58mm, true) => 42,
        (PaperWidth::W80mm, false) => 48,
        (PaperWidth::W80mm, true) => 64,
    }
}

/// Characters of normal width on a line.
pub fn base_columns(paper_width: PaperWidth, is_font_b: bool) -> (columns: usize)
    ensures
        columns == columns_of(paper_width, is_font_b),
{
    match (paper_width, is_font_b) {
        (PaperWidth::W58mm, false) => 32,
        (PaperWidth::W58mm, true) => 42,
        (PaperWidth::W80mm, false) => 48,
        (PaperWidth::W80mm, true) => 64,
    }
}

/// Characters on a line in a given state: only their width counts, and one always fits.
pub open spec fn columns_in(paper: PaperWidth, state: PrinterState) -> int {
    let width = if state.char_width_mul < 1 {
        1
    } else {
        state.char_width_mul as int
    };
    let fitting = columns_of(paper, state.is_font_b) / width;
    if fitting < 1 {
        1
    } else {
        fitting
    }
}

/// Characters on a line in a given state.
pub fn effective_columns(paper_width: PaperWidth, state: &PrinterState) -> (columns: usize)
    ensures
        columns == columns_in(paper_width, *state),
        1 <= columns <= 64,
{
    let base: usize = base_columns(paper_width, state.is_font_b);
    let div: usize = if state.char_width_mul < 1 {
        1
    } else {
        state.char_width_mul as usize
    };
    proof {
        vstd::arithmetic::div_mod::lemma_div_is_ordered_by_denominator(base as int, 1, div as int);
    }
    let fitting: usize = base / div;
    if fitting < 1 {
        1
    } else {
        fitting
    }
}

/// Wider characters never make more of them fit.
pub proof fn lemma_wider_is_fewer(paper: PaperWidth, narrow: PrinterState, wide: PrinterState)
    requires
        narrow.is_font_b == wide.is_font_b,
        narrow.char_width_mul <= wide.char_width_mul,
    ensures
        1 <= columns_in(paper, wide) <= columns_in(paper, narrow),
{
    let n = if narrow.char_width_mul < 1 {
        1
    } else {
        narrow.char_width_mul as int
    };
    let w = if wide.char_width_mul < 1 {
        1
    } else {
        wide.char_width_mul as int
    };
    vstd::arithmetic::div_mod::lemma_div_is_ordered_by_denominator(
        columns_of(paper, wide.is_font_b),
        n,
        w,
    );
}

/// A font of 14 pixels, or of 10.5 where it is font B, in quarters of a pixel.
pub open spec fn font_quarters(is_font_b: bool) -> int {
    if is_font_b {
        42
    } else {
        56
    }
}

/// A multiplier, which is never less than one.
pub open spec fn at_least_once(multiplier: u8) -> int {
    if multiplier < 1 {
        1
    } else {
        multiplier as int
    }
}

fn multiplier_of(multiplier: u8) -> (m: u32)
    ensures
        m == at_least_once(multiplier),
        1 <= m <= 255,
{
    if multiplier < 1 {
        1
    } else {
        multiplier as u32
    }
}

/// The height of a line of text, in quarters of a pixel.
pub fn line_height_quarters(state: &PrinterState) -> (quarters: u32)
    ensures
        quarters == font_quarters(state.is_font_b) * at_least_once(state.char_height_mul),
{
    let base: u32 = if state.is_font_b {
        42
    } else {
        56
    };
    base * multiplier_of(state.char_height_mul)
}

/// The size of the font of some text, in quarters of a pixel: characters grow with the greater of
/// their two multipliers.
pub fn font_size_quarters(state: &PrinterState) -> (quarters: u32)
    ensures
        quarters == font_quarters(state.is_font_b) * (if at_least_once(state.char_width_mul)
            > at_least_once(state.char_height_mul) {
            at_least_once(state.char_width_mul)
        } else {
            at_least_once(state.char_height_mul)
        }),
{
    let base: u32 = if state.is_font_b {
        42
    } else {
        56
    };
    let width: u32 = multiplier_of(state.char_width_mul);
    let height: u32 = multiplier_of(state.char_height_mul);
    base * (if width > height { width } else { height })
}

/// Dots between two lines where the printer was not told otherwise.
pub const LINE_SPACING: u8 = 30;

/// Dots between two lines.
pub fn line_spacing_dots(state: &PrinterState) -> (dots: u8)
    ensures
        dots == match state.line_spacing {
            Some(n) => n,
            None => LINE_SPACING,
        },
        state.line_spacing is None ==> dots == 30,
{
    match state.line_spacing {
        Some(n) => n,
        None => LINE_SPACING,
    }
}

/// Whether text in one state can stand on the same line as text in the other.
pub open spec fn same_style(a: PrinterState, b: PrinterState) -> bool {
    &&& a.is_bold == b.is_bold
    &&& a.is_underline == b.is_underline
    &&& a.is_reverse == b.is_reverse
    &&& a.alignment == b.alignment
    &&& a.char_width_mul == b.char_width_mul
    &&& a.char_height_mul == b.char_height_mul
    &&& a.is_font_b == b.is_font_b
}

/// Tests whether text in one state can stand on the same line as text in the other.
pub fn same_line_style(a: &PrinterState, b: &PrinterState) -> (same: bool)
    ensures
        same == same_style(*a, *b),
{
    a.is_bold == b.is_bold && a.is_underline == b.is_underline && a.is_reverse == b.is_reverse
        && a.alignment == b.alignment && a.char_width_mul == b.char_width_mul && a.char_height_mul
        == b.char_height_mul && a.is_font_b == b.is_font_b
}

/// The no-break space, which is kept at the start of a line.
pub const NBSP: char = '\u{00A0}';

/// A string of no-break spaces.
pub fn nbsp_pad(count: usize) -> (pad: String)
    ensures
        pad@ == repeated(NBSP, count as nat),
{
    let mut pad = String::new();
    push_repeated(&mut pad, NBSP, count);
    assert(pad@ =~= repeated(NBSP, count as nat));
    pad
}

/// Lines, as sequences of characters.
pub open spec fn lines_view(lines: Seq<String>) -> Seq<Seq<char>> {
    lines.map_values(|line: String| line@)
}

/// The lines that a text has filled, and the one that it has begun.
pub open spec fn wrapping(text: Seq<char>, width: int) -> (Seq<Seq<char>>, Seq<char>)
    decreases text.len(),
{
    if text.len() == 0 {
        (seq![], seq![])
    } else {
        let (done, current) = wrapping(text.drop_last(), width);
        let c = text.last();
        if c == '\n' {
            (done.push(current), seq![])
        } else if current.len() >= width {
            (done.push(current), seq![c])
        } else {
            (done, current.push(c))
        }
    }
}

/// The lines of a text: broken at every LF, and where a line is full. A line that was begun
/// without a character is no line, unless it is the only one. Without a width nothing is broken.
pub open spec fn wrapped(text: Seq<char>, width: int) -> Seq<Seq<char>> {
    if width == 0 {
        seq![text]
    } else {
        let (done, current) = wrapping(text, width);
        let lines = if current.len() > 0 {
            done.push(current)
        } else {
            done
        };
        if lines.len() == 0 {
            seq![seq![]]
        } else {
            lines
        }
    }
}

/// Breaks a text into lines of at most `width` characters.
pub fn split_and_wrap(text: &str, width: usize) -> (lines: Vec<String>)
    ensures
        lines_view(lines@) == wrapped(text@, width as int),
        lines@.len() == wrapped(text@, width as int).len(),
        forall|k: int|
            0 <= k < lines@.len() ==> (#[trigger] lines@[k])@ == wrapped(text@, width as int)[k],
{
    let mut out: Vec<String> = Vec::new();
    if width == 0 {
        out.push(text.to_owned());
        assert(lines_view(out@) =~= seq![text@]);
        return out;
    }
    let chars = chars_of(text);
    let mut current = String::new();
    let mut col: usize = 0;
    assert(chars@.take(0) =~= seq![]);
    assert(lines_view(out@) =~= seq![]);
    for i in 0..chars.len()
        invariant
            width > 0,
            col == current@.len(),
            col <= width,
            (lines_view(out@), current@) == wrapping(chars@.take(i as int), width as int),
    {
        let ch: char = chars[i];
        let ghost done = lines_view(out@);
        assert(chars@.take(i + 1).drop_last() =~= chars@.take(i as int));
        if ch == '\n' {
            let ghost line = current@;
            out.push(current);
            assert(lines_view(out@) =~= done.push(line));
            current = String::new();
            col = 0;
        } else {
            if col >= width {
                let ghost line = current@;
                out.push(current);
                assert(lines_view(out@) =~= done.push(line));
                current = String::new();
                col = 0;
            }
            current.push(ch);
            col += 1;
        }
        assert((lines_view(out@), current@) == wrapping(chars@.take(i + 1), width as int)) by {
            let (filled, begun) = wrapping(chars@.take(i + 1), width as int);
            assert(lines_view(out@) =~= filled);
            assert(current@ =~= begun);
        }
    }
    assert(chars@.take(chars@.len() as int) =~= chars@);
    let ghost done = lines_view(out@);
    if col > 0 {
        let ghost line = current@;
        out.push(current);
        assert(lines_view(out@) =~= done.push(line));
    }
    if out.len() == 0 {
        out.push(String::new());
        assert(lines_view(out@) =~= seq![seq![]]);
    }
    out
}

proof fn lemma_wrapping(text: Seq<char>, width: int)
    requires
        width > 0,
    ensures
        ({
            let (done, current) = wrapping(text, width);
            &&& forall|k: int| 0 <= k < done.len() ==> is_line(#[trigger] done[k], width)
            &&& is_line(current, width)
            &&& joined(done) + current == without_breaks(text)
        }),
    decreases text.len(),
{
    reveal(Seq::filter);
    if text.len() == 0 {
        assert(joined(seq![]) + Seq::<char>::empty() =~= without_breaks(text));
    } else {
        let front = text.drop_last();
        lemma_wrapping(front, width);
        let (done, current) = wrapping(front, width);
        let (filled, begun) = wrapping(text, width);
        let c = text.last();
        if c == '\n' {
            assert(filled.drop_last() =~= done);
            assert(joined(filled) + begun =~= without_breaks(text));
        } else if current.len() >= width {
            assert(filled.drop_last() =~= done);
            assert(joined(filled) + begun =~= without_breaks(text));
        } else {
            assert(joined(filled) + begun =~= without_breaks(text));
        }
    }
}

/// Whether some characters can be a line: no more than `width`, and no break among them.
pub open spec fn is_line(line: Seq<char>, width: int) -> bool {
    line.len() <= width && forall|k: int| 0 <= k < line.len() ==> #[trigger] line[k] != '\n'
}

/// Lines without the breaks between them.
pub open spec fn joined(lines: Seq<Seq<char>>) -> Seq<char>
    decreases lines.len(),
{
    if lines.len() == 0 {
        seq![]
    } else {
        joined(lines.drop_last()) + lines.last()
    }
}

/// A text without its breaks.
pub open spec fn without_breaks(text: Seq<char>) -> Seq<char> {
    text.filter(|c: char| c != '\n')
}

/// A wrapped text has at least one line, every line fits, and nothing is lost or moved but the
/// breaks.
pub proof fn lemma_wrapped_keeps_the_text(text: Seq<char>, width: int)
    requires
        width > 0,
    ensures
        wrapped(text, width).len() > 0,
        forall|k: int|
            0 <= k < wrapped(text, width).len() ==> is_line(#[trigger] wrapped(text, width)[k], width),
        joined(wrapped(text, width)) == without_breaks(text),
{
    lemma_wrapping(text, width);
    let (done, current) = wrapping(text, width);
    let lines = wrapped(text, width);
    if current.len() > 0 {
        assert(lines.drop_last() =~= done);
    } else if done.len() == 0 {
        assert(lines.drop_last() =~= seq![]);
        assert(joined(lines) =~= joined(done) + current);
    } else {
        assert(joined(lines) =~= joined(done) + current);
    }
}

/// Columns that are left free before a line of `len` characters.
pub open spec fn padding(len: int, columns: int, align: Align) -> int {
    if len >= columns {
        0
    } else {
        match align {
            Align::Left => 0,
            Align::Center => (columns - len) / 2,
            Align::Right => columns - len,
        }
    }
}

/// A line with the padding that aligns it.
pub open spec fn aligned(line: Seq<char>, columns: int, align: Align) -> Seq<char> {
    repeated(NBSP, padding(line.len() as int, columns, align) as nat) + line
}

/// The lines of a text as they are shown.
pub open spec fn shown_lines(paper: PaperWidth, state: PrinterState, text: Seq<char>) -> Seq<
    Seq<char>,
> {
    let columns = columns_in(paper, state);
    wrapped(text, columns).map_values(|line: Seq<char>| aligned(line, columns, state.alignment))
}

/// Breaks a text into lines and aligns each of them.
pub fn display_lines(paper_width: PaperWidth, state: &PrinterState, text: &str) -> (lines: Vec<
    String,
>)
    ensures
        lines_view(lines@) == shown_lines(paper_width, *state, text@),
        lines@.len() == shown_lines(paper_width, *state, text@).len(),
        forall|k: int|
            0 <= k < lines@.len() ==> (#[trigger] lines@[k])@ == shown_lines(
                paper_width,
                *state,
                text@,
            )[k],
{
    let cols: usize = effective_columns(paper_width, state);
    let split = split_and_wrap(text, cols);
    let mut lines: Vec<String> = Vec::new();
    for i in 0..split.len()
        invariant
            cols == columns_in(paper_width, *state),
            lines_view(split@) == wrapped(text@, cols as int),
            lines@.len() == i,
            forall|k: int|
                0 <= k < i ==> #[trigger] lines@[k]@ == aligned(
                    split@[k]@,
                    cols as int,
                    state.alignment,
                ),
    {
        let line = split[i].as_str();
        let len: usize = chars_of(line).len();
        let pad: usize = if len >= cols {
            0
        } else {
            match state.alignment {
                Align::Left => 0,
                Align::Center => (cols - len) / 2,
                Align::Right => cols - len,
            }
        };
        let mut display = nbsp_pad(pad);
        display.append(line);
        lines.push(display);
    }
    proof {
        let wanted = shown_lines(paper_width, *state, text@);
        let broken = wrapped(text@, cols as int);
        assert(broken.len() == split@.len());
        assert forall|k: int| 0 <= k < lines@.len() implies #[trigger] lines_view(lines@)[k]
            == wanted[k] by {
            assert(lines@[k]@ == aligned(split@[k]@, cols as int, state.alignment));
            assert(lines_view(split@)[k] == split@[k]@);
        }
        assert(lines_view(lines@) =~= wanted);
    }
    lines
}

/// An aligned line never leaves the paper: a right aligned one ends at its edge, and a centred one
/// has as much free space on both sides, to a column.
pub proof fn lemma_aligned_line_fits(line: Seq<char>, columns: int, align: Align)
    requires
        line.len() <= columns,
    ensures
        aligned(line, columns, align).len() <= columns,
        align is Right ==> aligned(line, columns, align).len() == columns,
        align is Left ==> aligned(line, columns, align) == line,
        align is Center ==> {
            let before = aligned(line, columns, align).len() - line.len();
            let after = columns - aligned(line, columns, align).len();
            before <= after <= before + 1
        },
{
    assert(align is Left ==> aligned(line, columns, align) =~= line);
}

/// Paper of 58 mm has 32 columns and paper of 80 mm has 48; in font B it is a third more, rounded
/// down. Wider characters fill as many columns each as they are wide, as many as the paper has room
/// for, and one always fits.
pub proof fn lemma_columns_of_paper(paper: PaperWidth, state: PrinterState)
    ensures
        ({
            let narrow = if paper == PaperWidth::W58mm {
                32int
            } else {
                48
            };
            let base = if state.is_font_b {
                narrow * 4 / 3
            } else {
                narrow
            };
            let width = state.char_width_mul as int;
            let columns = columns_in(paper, state);
            &&& width <= 1 ==> columns == base
            &&& 1 <= width <= base ==> columns * width <= base < (columns + 1) * width
            &&& width > base ==> columns == 1
        }),
{
    let base = columns_of(paper, state.is_font_b);
    let width = if state.char_width_mul < 1 {
        1
    } else {
        state.char_width_mul as int
    };
    vstd::arithmetic::div_mod::lemma_fundamental_div_mod(base, width);
    let q = base / width;
    assert(width <= base ==> q >= 1 && q * width <= base < (q + 1) * width) by (nonlinear_arith)
        requires
            width >= 1,
            base >= 1,
            base == width * q + base % width,
            0 <= base % width < width,
    ;
    if width > base {
        assert(q == 0) by (nonlinear_arith)
            requires
                width > base,
                base >= 1,
                base == width * q + base % width,
                0 <= base % width < width,
        ;
    }
}

/// Text is 14 pixels high, or three quarters of that in font B, times its multiplier; a multiplier
/// of zero counts as one.
pub proof fn lemma_heights(is_font_b: bool, multiplier: u8)
    ensures
        font_quarters(false) == 4 * 14,
        4 * font_quarters(true) == 3 * font_quarters(false),
        multiplier > 0 ==> at_least_once(multiplier) == multiplier,
        at_least_once(0) == 1,
{
}

proof fn lemma_wrapping_without_breaks(text: Seq<char>, width: int)
    requires
        width > 0,
        forall|i: int| 0 <= i < text.len() ==> #[trigger] text[i] != '\n',
    ensures
        ({
            let (done, current) = wrapping(text, width);
            let n = done.len() as int;
            &&& n * width + current.len() == text.len()
            &&& current.len() <= width
            &&& text.len() > 0 ==> current.len() > 0
            &&& current == text.skip(n * width)
            &&& forall|k: int|
                0 <= k < n ==> #[trigger] done[k] == text.subrange(k * width, (k + 1) * width)
        }),
    decreases text.len(),
{
    if text.len() == 0 {
        assert(0 * width == 0);
        assert(text.skip(0) =~= seq![]);
    } else {
        let front = text.drop_last();
        assert forall|i: int| 0 <= i < front.len() implies #[trigger] front[i] != '\n' by {
            assert(front[i] == text[i]);
        }
        lemma_wrapping_without_breaks(front, width);
        assert(text[text.len() - 1] != '\n');
        let (before, begun) = wrapping(front, width);
        let (done, current) = wrapping(text, width);
        let m = before.len() as int;
        assert((m + 1) * width == m * width + width) by (nonlinear_arith);
        assert forall|k: int| 0 <= k < m implies #[trigger] before[k] == text.subrange(
            k * width,
            (k + 1) * width,
        ) by {
            lemma_piece_inside(k, m, width);
            assert(before[k] =~= text.subrange(k * width, (k + 1) * width));
        }
        assert(0 <= m * width) by (nonlinear_arith)
            requires
                m >= 0,
                width > 0,
        ;
        if begun.len() >= width {
            assert(begun =~= text.subrange(m * width, (m + 1) * width));
            assert(current =~= text.skip((m + 1) * width));
        } else {
            assert(current =~= text.skip(m * width));
        }
    }
}

proof fn lemma_piece_inside(k: int, m: int, width: int)
    requires
        0 <= k < m,
        width > 0,
    ensures
        0 <= k * width <= (k + 1) * width <= m * width,
        (k + 1) * width == k * width + width,
{
    assert(0 <= k * width <= (k + 1) * width <= m * width) by (nonlinear_arith)
        requires
            0 <= k < m,
            width > 0,
    ;
    assert((k + 1) * width == k * width + width) by (nonlinear_arith);
}

/// A text without breaks is cut into pieces of `width` characters, of which only the last may be
/// shorter. A text without characters is one empty line.
pub proof fn lemma_lines_are_full(text: Seq<char>, width: int)
    requires
        width > 0,
        forall|i: int| 0 <= i < text.len() ==> #[trigger] text[i] != '\n',
    ensures
        text.len() == 0 ==> wrapped(text, width) == seq![text],
        text.len() > 0 ==> ({
            let lines = wrapped(text, width);
            let last = lines.len() - 1;
            &&& last >= 0 && last * width < text.len() <= last * width + width
            &&& lines[last] == text.skip(last * width)
            &&& forall|k: int|
                0 <= k < last ==> #[trigger] lines[k] == text.subrange(k * width, (k + 1) * width)
        }),
{
    lemma_wrapping_without_breaks(text, width);
    if text.len() == 0 {
        assert(text =~= seq![]);
        assert(wrapped(text, width) =~= seq![text]);
    }
}

proof fn lemma_wrapping_behind_a_break(a: Seq<char>, b: Seq<char>, width: int)
    ensures
        ({
            let (before, begun) = wrapping(a, width);
            let (done, current) = wrapping(b, width);
            wrapping(a + seq!['\n'] + b, width) == (before.push(begun) + done, current)
        }),
    decreases b.len(),
{
    let whole = a + seq!['\n'] + b;
    let (before, begun) = wrapping(a, width);
    let (done, current) = wrapping(b, width);
    if b.len() == 0 {
        assert(whole.drop_last() =~= a);
        assert(before.push(begun) + done =~= before.push(begun));
    } else {
        lemma_wrapping_behind_a_break(a, b.drop_last(), width);
        assert(whole.drop_last() =~= a + seq!['\n'] + b.drop_last());
        let (less, shorter) = wrapping(b.drop_last(), width);
        assert((before.push(begun) + less).push(shorter) =~= before.push(begun) + less.push(
            shorter,
        ));
    }
}

/// A break ends a line: what stands before the first break of a text is wrapped by itself, and so
/// is what stands behind it, if there is anything.
pub proof fn lemma_break_ends_a_line(a: Seq<char>, b: Seq<char>, width: int)
    requires
        width > 0,
        forall|i: int| 0 <= i < a.len() ==> #[trigger] a[i] != '\n',
    ensures
        wrapped(a + seq!['\n'] + b, width) == wrapped(a, width) + (if b.len() == 0 {
            seq![]
        } else {
            wrapped(b, width)
        }),
{
    lemma_wrapping_behind_a_break(a, b, width);
    lemma_wrapping_without_breaks(a, width);
    let (before, begun) = wrapping(a, width);
    let (done, current) = wrapping(b, width);
    if a.len() == 0 {
        assert(before =~= seq![]);
    }
    assert(wrapped(a, width) =~= before.push(begun));
    if b.len() > 0 && current.len() == 0 {
        lemma_something_is_begun(b, width);
    }
    assert(wrapped(a + seq!['\n'] + b, width) =~= wrapped(a, width) + (if b.len() == 0 {
        seq![]
    } else {
        wrapped(b, width)
    }));
}

proof fn lemma_something_is_begun(text: Seq<char>, width: int)
    requires
        text.len() > 0,
    ensures
        wrapping(text, width).0.len() > 0 || wrapping(text, width).1.len() > 0,
{
}

/// A line as it is shown is the line itself behind no-break spaces, as many as its alignment wants:
/// none at the left, and none where it fills the paper; all that is free at the right; and half of
/// it, rounded down, in the middle.
pub proof fn lemma_aligned_line(line: Seq<char>, columns: int, align: Align)
    ensures
        ({
            let shown = aligned(line, columns, align);
            let free = columns - line.len();
            let n = shown.len() - line.len();
            &&& shown.skip(n) == line
            &&& forall|i: int| 0 <= i < n ==> #[trigger] shown[i] == '\u{00A0}'
            &&& n == if free <= 0 || align == Align::Left {
                0
            } else if align == Align::Right {
                free
            } else {
                free / 2
            }
        }),
{
    let shown = aligned(line, columns, align);
    let n = shown.len() - line.len();
    assert(shown.skip(n) =~= line);
}

/// The lines of a text as they are shown are its lines on that paper, each of them aligned.
pub proof fn lemma_shown_line(paper: PaperWidth, state: PrinterState, text: Seq<char>, k: int)
    requires
        0 <= k < wrapped(text, columns_in(paper, state)).len(),
    ensures
        shown_lines(paper, state, text).len() == wrapped(text, columns_in(paper, state)).len(),
        shown_lines(paper, state, text)[k] == aligned(
            wrapped(text, columns_in(paper, state))[k],
            columns_in(paper, state),
            state.alignment,
        ),
{
}

/// Without a width nothing is broken: the text is its only line.
pub proof fn lemma_text_without_a_width(text: Seq<char>)
    ensures
        wrapped(text, 0) == seq![text],
{
}

} // verus!
