//! QR symbols as pictures.

use crate::image::{lemma_picture_shows_ink, lemma_place, picture, MonoImage, Picture};
use qrcode::bits::encode_auto;
use qrcode::canvas::{Canvas, MaskPattern};
use qrcode::ec::construct_codewords;
use qrcode::{Color, EcLevel, QrCode};
use vstd::prelude::*;

verus! {

/// How much damage a symbol survives.
#[derive(Clone, Copy, PartialEq, Eq, Structural, Debug)]
pub enum Correction {
    L,
    M,
    Q,
    H,
}

/// The level that a GS ( k command asks for: 48 to 51, and medium for any other byte.
pub open spec fn level_of(ecc: u8) -> Correction {
    if ecc == 48 {
        Correction::L
    } else if ecc == 50 {
        Correction::Q
    } else if ecc == 51 {
        Correction::H
    } else {
        Correction::M
    }
}

/// Reads the correction level of a GS ( k command.
pub fn ecc_to_level(ecc: u8) -> (level: Correction)
    ensures
        level == level_of(ecc),
{
    match ecc {
        48 => Correction::L,
        49 => Correction::M,
        50 => Correction::Q,
        51 => Correction::H,
        _ => Correction::M,
    }
}

/// The most bytes that a symbol can hold: the digits of the longest numeral that the largest symbol
/// holds at the lowest level. Nothing is written in fewer bits than the digits of a numeral.
pub const MAX_DATA: usize = 7089;

/// The masks among which one is chosen for a symbol.
pub const MASKS: usize = 8;

/// The modules of the QR symbol for some data under one of the masks, row by row, `true` for dark,
/// with the number of modules on a side; none where the data is too long.
pub uninterp spec fn qr_masked(data: Seq<u8>, level: Correction, mask: nat) -> Option<
    (nat, Seq<bool>),
>;

/// `Canvas::apply_mask` on a canvas of `qrcode` with the functional patterns, the data (from
/// `encode_auto`) and its check codewords (from `construct_codewords`), with `into_colors` of it.
/// The modules depend on the data, the level and the mask alone. There are forty versions of QR
/// code, so a side has 21 to 177 modules, and there is a module for every place of the square.
#[verifier::external_body]
fn mask_symbol(data: &[u8], level: Correction, mask: usize) -> (symbol: Option<(usize, Vec<bool>)>)
    requires
        data@.len() <= MAX_DATA,
        mask < MASKS,
    ensures
        symbol is None <==> qr_masked(data@, level, mask as nat) is None,
        symbol matches Some(s) ==> qr_masked(data@, level, mask as nat) == Some((s.0 as nat, s.1@))
            && 21 <= s.0 <= 177 && s.1@.len() == s.0 * s.0,
{
    let level = [EcLevel::L, EcLevel::M, EcLevel::Q, EcLevel::H][level as usize];
    let bits = encode_auto(data, level).ok()?;
    let version = bits.version();
    let (coded, check) = construct_codewords(&bits.into_bytes(), version, level).ok()?;
    let mut canvas = Canvas::new(version, level);
    canvas.draw_all_functional_patterns();
    canvas.draw_data(&coded, &check);
    let masks = [MaskPattern::Checkerboard, MaskPattern::HorizontalLines,
        MaskPattern::VerticalLines, MaskPattern::DiagonalLines, MaskPattern::LargeCheckerboard,
        MaskPattern::Fields, MaskPattern::Diamonds, MaskPattern::Meadow];
    canvas.apply_mask(masks[mask]);
    let dark = canvas.into_colors().into_iter().map(|c| c == Color::Dark).collect();
    Some((version.width() as usize, dark))
}

/// Whether five modules from place `i` on, each `step` places after the other, have one colour.
pub open spec fn five_alike(dark: Seq<bool>, i: int, step: int) -> bool {
    dark[i] == dark[i + step] && dark[i] == dark[i + 2 * step] && dark[i] == dark[i + 3 * step]
        && dark[i] == dark[i + 4 * step]
}

/// The points for a run of five or more modules of one colour, counted at each place where five of
/// them begin: three at the first, and one at every other. `at` is where place `i` stands in its
/// row or column of `width` modules, and `step` leads to the next of them.
pub open spec fn run_points(dark: Seq<bool>, width: int, i: int, step: int, at: int) -> int {
    if at + 5 <= width && five_alike(dark, i, step) {
        if at > 0 && dark[i - step] == dark[i] {
            1
        } else {
            3
        }
    } else {
        0
    }
}

/// The points for a square of four modules of one colour.
pub open spec fn square_points(dark: Seq<bool>, width: int, i: int) -> int {
    if i % width + 2 <= width && i / width + 2 <= width && dark[i] == dark[i + 1] && dark[i]
        == dark[i + width] && dark[i] == dark[i + width + 1] {
        3
    } else {
        0
    }
}

/// Whether the module `k` places on is light, or beyond the edge.
pub open spec fn light_at(dark: Seq<bool>, width: int, i: int, step: int, at: int, k: int) -> bool {
    at + k < 0 || at + k >= width || !dark[i + k * step]
}

/// The points for seven modules like the middle of a finder pattern, with four light ones before
/// or behind them.
pub open spec fn finder_points(dark: Seq<bool>, width: int, i: int, step: int, at: int) -> int {
    if at + 7 <= width && dark[i] && !dark[i + step] && dark[i + 2 * step] && dark[i + 3 * step]
        && dark[i + 4 * step] && !dark[i + 5 * step] && dark[i + 6 * step] && ((light_at(
        dark,
        width,
        i,
        step,
        at,
        -4,
    ) && light_at(dark, width, i, step, at, -3) && light_at(dark, width, i, step, at, -2)
        && light_at(dark, width, i, step, at, -1)) || (light_at(dark, width, i, step, at, 7)
        && light_at(dark, width, i, step, at, 8) && light_at(dark, width, i, step, at, 9)
        && light_at(dark, width, i, step, at, 10))) {
        40
    } else {
        0
    }
}

/// What is counted over the modules of a symbol to judge a mask.
#[derive(Clone, Copy, PartialEq, Eq, Structural, Debug)]
pub struct Tally {
    /// Points for runs and squares.
    pub plain: u64,
    /// Points for what looks like a finder pattern in a row, and in a column.
    pub row_finders: u64,
    pub column_finders: u64,
    /// Dark modules.
    pub dark: u64,
}

/// What the first `n` modules give.
pub open spec fn tally(dark: Seq<bool>, width: int, n: int) -> (int, int, int, int)
    decreases n,
{
    if n <= 0 {
        (0, 0, 0, 0)
    } else {
        let (plain, rows, columns, count) = tally(dark, width, n - 1);
        let i = n - 1;
        let x = i % width;
        let y = i / width;
        (
            plain + run_points(dark, width, i, 1, x) + run_points(dark, width, i, width, y)
                + square_points(dark, width, i),
            rows + finder_points(dark, width, i, 1, x),
            columns + finder_points(dark, width, i, width, y),
            count + if dark[i] {
                1int
            } else {
                0
            },
        )
    }
}

/// The points for a share of dark modules other than one half, in half percents.
pub open spec fn balance_points(count: int, modules: int) -> int {
    let share = 200 * count / modules;
    if share >= 100 {
        share - 100
    } else {
        100 - share
    }
}

/// Whether the penalty of a symbol with such a tally is added up in 16 bits. The nine rows, and
/// the nine columns, of the finder patterns themselves are taken off.
pub open spec fn tally_fits(t: (int, int, int, int), modules: int) -> bool {
    &&& t.1 <= u16::MAX
    &&& t.2 <= u16::MAX
    &&& t.0 + (t.1 - 360) + (t.2 - 360) + balance_points(t.3, modules) <= u16::MAX
}

/// Whether the penalty of a symbol is added up in 16 bits.
pub open spec fn penalty_fits(symbol: Option<(nat, Seq<bool>)>) -> bool {
    symbol matches Some(s) ==> tally_fits(
        tally(s.1, s.0 as int, (s.0 * s.0) as int),
        (s.0 * s.0) as int,
    )
}

/// Whether the penalty is added up in 16 bits under every mask, so that one can be chosen. Large
/// symbols in which a pattern repeats may fail this. Data that is too long has no symbol, and
/// needs no mask.
pub open spec fn can_choose_mask(data: Seq<u8>, level: Correction) -> bool {
    data.len() <= MAX_DATA ==> forall|mask: nat|
        mask < MASKS ==> penalty_fits(#[trigger] qr_masked(data, level, mask))
}

/// A place some modules before or behind another in its row or column lies in the symbol.
proof fn lemma_steps_inside(width: int, x: int, y: int, k: int)
    requires
        0 <= x < width,
        0 <= y < width,
    ensures
        0 <= x + k < width ==> 0 <= y * width + x + k < width * width,
        0 <= y + k < width ==> 0 <= y * width + x + k * width < width * width,
{
    if 0 <= x + k < width {
        lemma_place(width, width, x + k, y);
    }
    if 0 <= y + k < width {
        lemma_place(width, width, x, y + k);
        assert((y + k) * width == y * width + k * width) by (nonlinear_arith);
    }
}

/// Whether every place of a row or column lies in the symbol.
spec fn line_inside(len: int, width: int, i: int, step: int, at: int) -> bool {
    forall|k: int| 0 <= at + k < width ==> 0 <= #[trigger] (i + k * step) < len
}

proof fn lemma_lines_inside(width: int, x: int, y: int)
    requires
        0 <= x < width,
        0 <= y < width,
    ensures
        line_inside(width * width, width, y * width + x, 1, x),
        line_inside(width * width, width, y * width + x, width, y),
{
    assert forall|k: int| 0 <= x + k < width implies 0 <= #[trigger] (y * width + x + k * 1) < width
        * width by {
        lemma_steps_inside(width, x, y, k);
    }
    assert forall|k: int| 0 <= y + k < width implies 0 <= #[trigger] (y * width + x + k * width)
        < width * width by {
        lemma_steps_inside(width, x, y, k);
    }
}

fn count_run(dark: &Vec<bool>, width: usize, i: usize, step: usize, at: usize) -> (points: u64)
    requires
        width <= 177,
        1 <= step <= 177,
        at < width,
        i < 177 * 177,
        line_inside(dark@.len() as int, width as int, i as int, step as int, at as int),
    ensures
        points == run_points(dark@, width as int, i as int, step as int, at as int),
        points <= 3,
{
    proof {
        let s = step as int;
        assert(at + 5 <= width ==> i + 1 * s < dark@.len() && i + 2 * s < dark@.len() && i + 3 * s
            < dark@.len() && i + 4 * s < dark@.len());
        assert(i + 0 * s == i && 0 <= i + 0 * s < dark@.len());
        assert(at > 0 ==> 0 <= i + (-1) * s < dark@.len());
    }
    let c: bool = dark[i];
    if at + 5 <= width && c == dark[i + step] && c == dark[i + 2 * step] && c == dark[i + 3 * step]
        && c == dark[i + 4 * step] {
        if at > 0 && dark[i - step] == c {
            1
        } else {
            3
        }
    } else {
        0
    }
}

fn four_light(dark: &Vec<bool>, width: usize, i: usize, step: usize, at: usize, from: usize) -> (light: bool)
    requires
        width <= 177,
        1 <= step <= 177,
        at < width,
        i < 177 * 177,
        from <= 7,
        line_inside(dark@.len() as int, width as int, i as int, step as int, at as int),
    ensures
        light == (forall|k: int|
            from <= k < from + 4 ==> #[trigger] light_at(
                dark@,
                width as int,
                i as int,
                step as int,
                at as int,
                k,
            )),
{
    for k in from..from + 4
        invariant
            width <= 177,
            1 <= step <= 177,
            at < width,
            i < 177 * 177,
            from <= 7,
            line_inside(dark@.len() as int, width as int, i as int, step as int, at as int),
            forall|j: int|
                from <= j < k ==> #[trigger] light_at(
                    dark@,
                    width as int,
                    i as int,
                    step as int,
                    at as int,
                    j,
                ),
    {
        assert(k * step <= 11 * 177) by (nonlinear_arith)
            requires
                k <= 11,
                step <= 177,
        ;
        if at + k < width {
            assert(0 <= i + k * step < dark@.len());
            if dark[i + k * step] {
                assert(!light_at(
                    dark@,
                    width as int,
                    i as int,
                    step as int,
                    at as int,
                    k as int,
                ));
                return false;
            }
        }
    }
    true
}

fn four_light_before(dark: &Vec<bool>, width: usize, i: usize, step: usize, at: usize) -> (light: bool)
    requires
        width <= 177,
        1 <= step <= 177,
        at < width,
        i < 177 * 177,
        line_inside(dark@.len() as int, width as int, i as int, step as int, at as int),
    ensures
        light == (forall|k: int|
            -4 <= k < 0 ==> #[trigger] light_at(
                dark@,
                width as int,
                i as int,
                step as int,
                at as int,
                k,
            )),
{
    for b in 1..5usize
        invariant
            width <= 177,
            1 <= step <= 177,
            at < width,
            i < 177 * 177,
            line_inside(dark@.len() as int, width as int, i as int, step as int, at as int),
            forall|j: int|
                -b < j < 0 ==> #[trigger] light_at(
                    dark@,
                    width as int,
                    i as int,
                    step as int,
                    at as int,
                    j,
                ),
    {
        assert(b * step <= 4 * 177) by (nonlinear_arith)
            requires
                b <= 4,
                step <= 177,
        ;
        let ghost k = -(b as int);
        assert(k * step == -(b * step)) by (nonlinear_arith)
            requires
                k == -(b as int),
        ;
        if b <= at {
            assert(0 <= i + k * step < dark@.len());
            if dark[i - b * step] {
                assert(!light_at(
                    dark@,
                    width as int,
                    i as int,
                    step as int,
                    at as int,
                    k,
                ));
                return false;
            }
        }
        assert(light_at(dark@, width as int, i as int, step as int, at as int, k));
    }
    true
}

fn count_finder(dark: &Vec<bool>, width: usize, i: usize, step: usize, at: usize) -> (points: u64)
    requires
        width <= 177,
        1 <= step <= 177,
        at < width,
        i < 177 * 177,
        line_inside(dark@.len() as int, width as int, i as int, step as int, at as int),
    ensures
        points == finder_points(dark@, width as int, i as int, step as int, at as int),
        points <= 40,
{
    proof {
        let s = step as int;
        assert(i + 0 * s == i && 0 <= i + 0 * s < dark@.len());
        assert(at + 7 <= width ==> i + 1 * s < dark@.len() && i + 2 * s < dark@.len() && i + 3 * s
            < dark@.len() && i + 4 * s < dark@.len() && i + 5 * s < dark@.len() && i + 6 * s
            < dark@.len());
    }
    if at + 7 <= width && dark[i] && !dark[i + step] && dark[i + 2 * step] && dark[i + 3 * step]
        && dark[i + 4 * step] && !dark[i + 5 * step] && dark[i + 6 * step] && (four_light_before(
        dark,
        width,
        i,
        step,
        at,
    ) || four_light(dark, width, i, step, at, 7)) {
        40
    } else {
        0
    }
}

fn count_square(dark: &Vec<bool>, width: usize, x: usize, y: usize) -> (points: u64)
    requires
        width <= 177,
        x < width,
        y < width,
        dark@.len() == width * width,
    ensures
        points == square_points(dark@, width as int, y * width + x),
        points <= 3,
{
    proof {
        lemma_place(width as int, width as int, x as int, y as int);
        lemma_steps_inside(width as int, x as int, y as int, 1);
        if x + 1 < width && y + 1 < width {
            lemma_place(width as int, width as int, x + 1, y + 1);
            assert((y + 1) * width == y * width + width) by (nonlinear_arith);
        }
        assert(width * width <= 177 * 177) by (nonlinear_arith)
            requires
                width <= 177,
        ;
    }
    let i: usize = y * width + x;
    let c: bool = dark[i];
    if x + 2 <= width && y + 2 <= width && c == dark[i + 1] && c == dark[i + width] && c == dark[i
        + width + 1] {
        3
    } else {
        0
    }
}

impl View for Tally {
    type V = (int, int, int, int);

    open spec fn view(&self) -> (int, int, int, int) {
        (self.plain as int, self.row_finders as int, self.column_finders as int, self.dark as int)
    }
}

/// Counts over the modules of a symbol what judges its mask.
pub fn count_penalty(dark: &Vec<bool>, width: usize) -> (t: Tally)
    requires
        width <= 177,
        dark@.len() == width * width,
    ensures
        t@ == tally(dark@, width as int, width * width),
        t.plain <= 9 * dark@.len(),
        t.row_finders <= 40 * dark@.len(),
        t.column_finders <= 40 * dark@.len(),
        t.dark <= dark@.len(),
{
    let mut t = Tally { plain: 0, row_finders: 0, column_finders: 0, dark: 0 };
    assert(0 * width == 0) by (nonlinear_arith);
    for y in 0..width
        invariant
            width <= 177,
            dark@.len() == width * width,
            t@ == tally(dark@, width as int, y * width),
            t.plain <= 9 * (y * width),
            t.row_finders <= 40 * (y * width),
            t.column_finders <= 40 * (y * width),
            t.dark <= y * width,
    {
        for x in 0..width
            invariant
                width <= 177,
                y < width,
                dark@.len() == width * width,
                t@ == tally(dark@, width as int, y * width + x),
                t.plain <= 9 * (y * width + x),
                t.row_finders <= 40 * (y * width + x),
                t.column_finders <= 40 * (y * width + x),
                t.dark <= y * width + x,
        {
            proof {
                lemma_place(width as int, width as int, x as int, y as int);
                lemma_lines_inside(width as int, x as int, y as int);
                assert(width * width <= 177 * 177) by (nonlinear_arith)
                    requires
                        width <= 177,
                ;
            }
            let i: usize = y * width + x;
            let plain: u64 = count_run(dark, width, i, 1, x) + count_run(dark, width, i, width, y)
                + count_square(dark, width, x, y);
            t = Tally {
                plain: t.plain + plain,
                row_finders: t.row_finders + count_finder(dark, width, i, 1, x),
                column_finders: t.column_finders + count_finder(dark, width, i, width, y),
                dark: t.dark + if dark[i] {
                    1
                } else {
                    0
                },
            };
        }
        assert((y + 1) * width == y * width + width) by (nonlinear_arith);
    }
    t
}

fn test_tally(t: Tally, modules: u64) -> (fits: bool)
    requires
        1 <= modules <= 177 * 177,
        t.plain <= 9 * modules,
        t.row_finders <= 40 * modules,
        t.column_finders <= 40 * modules,
        t.dark <= modules,
    ensures
        fits == tally_fits(t@, modules as int),
{
    let share: u64 = 200 * t.dark / modules;
    proof {
        assert((200 * t.dark) / (modules as int) <= 200) by (nonlinear_arith)
            requires
                t.dark <= modules,
                modules >= 1,
        ;
    }
    let balance: u64 = if share >= 100 {
        share - 100
    } else {
        100 - share
    };
    let most: u64 = u16::MAX as u64;
    t.row_finders <= most && t.column_finders <= most && t.plain + t.row_finders + t.column_finders
        + balance <= most + 720
}

/// Tests whether a mask can be chosen for the symbol of some data.
pub fn mask_can_be_chosen(data: &[u8], level: Correction) -> (possible: bool)
    ensures
        possible == can_choose_mask(data@, level),
{
    if data.len() > MAX_DATA {
        return true;
    }
    for mask in 0..MASKS
        invariant
            data@.len() <= MAX_DATA,
            forall|m: nat| m < mask ==> penalty_fits(#[trigger] qr_masked(data@, level, m)),
    {
        if let Some((width, dark)) = mask_symbol(data, level, mask) {
            assert(21 * 21 <= width * width <= 177 * 177) by (nonlinear_arith)
                requires
                    21 <= width <= 177,
            ;
            let t = count_penalty(&dark, width);
            if !test_tally(t, dark.len() as u64) {
                assert(!penalty_fits(qr_masked(data@, level, mask as nat)));
                return false;
            }
        }
    }
    true
}

/// The modules of the QR symbol for some data, row by row, `true` for dark, with the number of
/// modules on a side; none where the data is too long.
pub uninterp spec fn qr_symbol(data: Seq<u8>, level: Correction) -> Option<(nat, Seq<bool>)>;

/// `QrCode::with_error_correction_level`, with `width` and `to_colors` of what it returns. The
/// symbol depends on the data and the level alone. It is one of the forty versions of QR code, so
/// a side has 21 to 177 modules, and there is a module for every place of the square. The penalty
/// by which it chooses a mask is added up in 16 bits, so data with which the sum does not fit is
/// left out.
#[verifier::external_body]
fn encode_qr(data: &[u8], level: Correction) -> (symbol: Option<(usize, Vec<bool>)>)
    requires
        data@.len() <= MAX_DATA,
        can_choose_mask(data@, level),
    ensures
        symbol is None <==> qr_symbol(data@, level) is None,
        symbol matches Some(s) ==> qr_symbol(data@, level) == Some((s.0 as nat, s.1@)) && 21 <= s.0
            <= 177 && s.1@.len() == s.0 * s.0,
{
    let level = [EcLevel::L, EcLevel::M, EcLevel::Q, EcLevel::H][level as usize];
    let code = QrCode::with_error_correction_level(data, level).ok()?;
    let dark = code.to_colors().into_iter().map(|c| c == Color::Dark).collect();
    Some((code.width(), dark))
}

/// White modules on each side of a symbol.
pub const QUIET: usize = 4;

/// Dots on a side of a module: what the command asks for, from 1 to 16.
pub open spec fn module_dots(module_size: u8) -> int {
    if module_size < 1 {
        1
    } else if module_size > 16 {
        16
    } else {
        module_size as int
    }
}

/// Dots on a side of the picture of a symbol.
pub open spec fn symbol_dots(width: int, module_size: u8) -> int {
    (width + 2 * QUIET) * module_dots(module_size)
}

/// The ink of a symbol whose modules are squares of `module` dots, inside the quiet zone.
pub open spec fn symbol_ink(width: int, dark: Seq<bool>, module: int) -> spec_fn(int, int) -> bool {
    |x: int, y: int|
        {
            let column = x / module - QUIET;
            let row = y / module - QUIET;
            0 <= column < width && 0 <= row < width && dark[row * width + column]
        }
}

/// The picture of a symbol.
pub open spec fn symbol_picture(width: nat, dark: Seq<bool>, module_size: u8) -> Picture {
    picture(
        symbol_dots(width as int, module_size) as nat,
        symbol_dots(width as int, module_size) as nat,
        symbol_ink(width as int, dark, module_dots(module_size)),
    )
}

/// Draws the modules of a symbol, `true` for dark. A symbol without modules is not drawn.
pub fn draw_symbol(width: usize, dark: &Vec<bool>, module_size: u8) -> (result: Option<MonoImage>)
    requires
        width <= 177,
        dark@.len() == width * width,
    ensures
        result is None <==> width == 0,
        result matches Some(image) ==> image@ == symbol_picture(width as nat, dark@, module_size),
{
    if width == 0 {
        return None;
    }
    let module: usize = if module_size < 1 {
        1
    } else if module_size > 16 {
        16
    } else {
        module_size as usize
    };
    assert((width + 2 * QUIET) * module <= 185 * 16) by (nonlinear_arith)
        requires
            width <= 177,
            QUIET == 4,
            module <= 16,
    ;
    let side: usize = (width + 2 * QUIET) * module;
    let ghost ink = symbol_ink(width as int, dark@, module as int);
    assert(side >= 1) by (nonlinear_arith)
        requires
            side == (width + 2 * QUIET) * module,
            width >= 1,
            module >= 1,
            QUIET == 4,
    ;
    assert(0 * side == 0) by (nonlinear_arith);
    let mut pixels: Vec<bool> = Vec::new();
    for y in 0..side
        invariant
            1 <= side <= 185 * 16,
            1 <= module <= 16,
            width <= 177,
            dark@.len() == width * width,
            ink == symbol_ink(width as int, dark@, module as int),
            pixels@.len() == y * side,
            forall|i: int|
                0 <= i < pixels@.len() ==> #[trigger] pixels@[i] == ink(
                    i % side as int,
                    i / side as int,
                ),
    {
        for x in 0..side
            invariant
                1 <= side <= 185 * 16,
                1 <= module <= 16,
                y < side,
                width <= 177,
                dark@.len() == width * width,
                ink == symbol_ink(width as int, dark@, module as int),
                pixels@.len() == y * side + x,
                forall|i: int|
                    0 <= i < pixels@.len() ==> #[trigger] pixels@[i] == ink(
                        i % side as int,
                        i / side as int,
                    ),
        {
            proof {
                lemma_place(side as int, side as int, x as int, y as int);
            }
            let column: usize = x / module;
            let row: usize = y / module;
            let inside: bool = QUIET <= column && column - QUIET < width && QUIET <= row && row
                - QUIET < width;
            let black: bool = if inside {
                proof {
                    lemma_place(
                        width as int,
                        width as int,
                        column as int - QUIET,
                        row as int - QUIET,
                    );
                    assert(width * width <= 177 * 177) by (nonlinear_arith)
                        requires
                            width <= 177,
                    ;
                }
                dark[(row - QUIET) * width + (column - QUIET)]
            } else {
                false
            };
            pixels.push(black);
        }
        assert((y + 1) * side == y * side + side) by (nonlinear_arith);
    }
    let image = MonoImage { width: side, height: side, pixels };
    assert(image@.pixels =~= symbol_picture(width as nat, dark@, module_size).pixels);
    Some(image)
}

/// The picture that is drawn for the data of a QR command, if there is a symbol for it.
pub open spec fn qr_picture(data: Seq<u8>, ecc: u8, module_size: u8) -> Option<
    Picture,
> {
    if data.len() > MAX_DATA {
        None
    } else {
        match qr_symbol(data, level_of(ecc)) {
            None => None,
            Some(symbol) => Some(symbol_picture(symbol.0, symbol.1, module_size)),
        }
    }
}

/// Draws the QR symbol for some data. Data for which there is no symbol is not drawn.
pub fn qr_to_image(data: &[u8], ecc: u8, module_size: u8) -> (result: Option<MonoImage>)
    requires
        can_choose_mask(data@, level_of(ecc)),
    ensures
        result is None <==> qr_picture(data@, ecc, module_size) is None,
        result matches Some(image) ==> qr_picture(data@, ecc, module_size) == Some(image@)
            && image@.wf() && 29 <= image.width <= 2960 && image.height == image.width,
{
    if data.len() > MAX_DATA {
        return None;
    }
    match encode_qr(data, ecc_to_level(ecc)) {
        None => None,
        Some((width, dark)) => {
            let result = draw_symbol(width, &dark, module_size);
            proof {
                let m = module_dots(module_size);
                assert(29 <= (width + 8) * m <= 2960) by (nonlinear_arith)
                    requires
                        21 <= width <= 177,
                        1 <= m <= 16,
                ;
            }
            result
        },
    }
}

/// Draws the QR symbol for some data, unless no mask can be chosen for it.
pub fn try_qr_to_image(data: &[u8], ecc: u8, module_size: u8) -> (result: Option<Option<MonoImage>>)
    ensures
        result is None <==> !can_choose_mask(data@, level_of(ecc)),
        result matches Some(None) ==> qr_picture(data@, ecc, module_size) is None,
        result matches Some(Some(image)) ==> qr_picture(data@, ecc, module_size) == Some(image@),
{
    if mask_can_be_chosen(data, ecc_to_level(ecc)) {
        Some(qr_to_image(data, ecc, module_size))
    } else {
        None
    }
}

/// A dark module fills its square of dots and a light one leaves it white.
pub proof fn lemma_module_square(
    width: nat,
    dark: Seq<bool>,
    module_size: u8,
    column: int,
    row: int,
    dx: int,
    dy: int,
)
    requires
        0 <= column < width,
        0 <= row < width,
        0 <= dx < module_dots(module_size),
        0 <= dy < module_dots(module_size),
    ensures
        symbol_picture(width, dark, module_size).black(
            (column + QUIET) * module_dots(module_size) + dx,
            (row + QUIET) * module_dots(module_size) + dy,
        ) == dark[row * width + column],
{
    let m = module_dots(module_size);
    lemma_place(m, width as int + 2 * QUIET, dx, column + QUIET);
    lemma_place(m, width as int + 2 * QUIET, dy, row + QUIET);
    let side = symbol_dots(width as int, module_size);
    assert(side == m * (width as int + 2 * QUIET)) by (nonlinear_arith)
        requires
            side == (width as int + 2 * QUIET) * m,
    ;
    lemma_picture_shows_ink(
        side as nat,
        side as nat,
        symbol_ink(width as int, dark, m),
        (column + QUIET) * m + dx,
        (row + QUIET) * m + dy,
    );
}

/// The quiet zone around a symbol is white.
pub proof fn lemma_quiet_zone(width: nat, dark: Seq<bool>, module_size: u8, x: int, y: int)
    requires
        0 <= x < symbol_dots(width as int, module_size),
        0 <= y < symbol_dots(width as int, module_size),
        x < QUIET * module_dots(module_size) || y < QUIET * module_dots(module_size) || x >= (width
            + QUIET) * module_dots(module_size) || y >= (width + QUIET) * module_dots(module_size),
    ensures
        !symbol_picture(width, dark, module_size).black(x, y),
{
    let m = module_dots(module_size);
    let side = symbol_dots(width as int, module_size);
    lemma_picture_shows_ink(
        side as nat,
        side as nat,
        symbol_ink(width as int, dark, m),
        x,
        y,
    );
    lemma_module_index(x, m, width as int);
    lemma_module_index(y, m, width as int);
}

/// A dot lies outside the modules `QUIET..QUIET + width` where it lies outside their dots.
proof fn lemma_module_index(x: int, m: int, width: int)
    requires
        0 <= x,
        m >= 1,
        width >= 0,
    ensures
        x < QUIET * m ==> x / m < QUIET,
        x >= (width + QUIET) * m ==> x / m >= width + QUIET,
{
    assert(x < 4 * m ==> x / m < 4) by (nonlinear_arith)
        requires
            m >= 1,
            0 <= x,
    ;
    assert(x >= (width + 4) * m ==> x / m >= width + 4) by (nonlinear_arith)
        requires
            m >= 1,
            0 <= x,
    ;
}

/// The bytes 48, 49, 50 and 51 ask for the levels L, M, Q and H, and any other asks for M. A module
/// has as many dots on a side as the command asks for, but at least one and at most sixteen.
pub proof fn lemma_operands_of_a_symbol(ecc: u8, module_size: u8)
    ensures
        level_of(ecc) == Correction::L <==> ecc == 48,
        level_of(ecc) == Correction::Q <==> ecc == 50,
        level_of(ecc) == Correction::H <==> ecc == 51,
        level_of(ecc) == Correction::M <==> ecc != 48 && ecc != 50 && ecc != 51,
        1 <= module_size <= 16 ==> module_dots(module_size) == module_size,
        module_size < 1 ==> module_dots(module_size) == 1,
        module_size > 16 ==> module_dots(module_size) == 16,
{
}

/// A symbol is drawn square, with four white modules on each side of its own: module `column` of
/// row `row`, counted with them, is a square of dots that are black where the module is dark.
pub proof fn lemma_symbol_pixel(
    width: nat,
    dark: Seq<bool>,
    module_size: u8,
    column: int,
    row: int,
    dx: int,
    dy: int,
)
    requires
        0 <= column < width + 8,
        0 <= row < width + 8,
        0 <= dx < module_dots(module_size),
        0 <= dy < module_dots(module_size),
    ensures
        ({
            let m = module_dots(module_size);
            let side = (width + 8) * m;
            let p = symbol_picture(width, dark, module_size);
            &&& p.width == side && p.height == side && p.pixels.len() == side * side
            &&& p.pixels[(row * m + dy) * side + (column * m + dx)] == (4 <= column < 4 + width && 4
                <= row < 4 + width && dark[(row - 4) * width + (column - 4)])
        }),
{
    let m = module_dots(module_size);
    let side = (width + 8) * m;
    let x = column * m + dx;
    let y = row * m + dy;
    lemma_place(m, width as int + 8, dx, column);
    lemma_place(m, width as int + 8, dy, row);
    assert(side == m * (width as int + 8)) by (nonlinear_arith)
        requires
            side == (width + 8) * m,
    ;
    lemma_place(side, side, x, y);
    let p = symbol_picture(width, dark, module_size);
    assert(symbol_dots(width as int, module_size) == side);
    assert(p.pixels[y * side + x] == symbol_ink(width as int, dark, m)(x, y));
}

/// There is a picture exactly where there is a symbol, and none for more than 7089 bytes.
pub proof fn lemma_symbols_that_are_drawn(data: Seq<u8>, ecc: u8, module_size: u8)
    ensures
        data.len() > 7089 ==> qr_picture(data, ecc, module_size) is None,
        data.len() <= 7089 ==> match qr_symbol(data, level_of(ecc)) {
            Some(symbol) => qr_picture(data, ecc, module_size) == Some(
                symbol_picture(symbol.0, symbol.1, module_size),
            ),
            None => qr_picture(data, ecc, module_size) is None,
        },
{
}

/// The points at the first `n` places of a row or column, from place `i` on.
pub open spec fn points_along(
    dark: Seq<bool>,
    width: int,
    i: int,
    step: int,
    at: int,
    n: int,
) -> int
    decreases n,
{
    if n <= 0 {
        0
    } else {
        points_along(dark, width, i, step, at, n - 1) + run_points(
            dark,
            width,
            i + (n - 1) * step,
            step,
            at + (n - 1),
        )
    }
}

proof fn lemma_points_within_a_run(
    dark: Seq<bool>,
    width: int,
    i: int,
    step: int,
    at: int,
    length: int,
    n: int,
)
    requires
        0 <= at,
        at + length <= width,
        1 <= length,
        0 <= n <= length,
        forall|k: int| 0 <= k < length ==> #[trigger] dark[i + k * step] == dark[i],
        at > 0 ==> dark[i - step] != dark[i],
        at + length < width ==> dark[i + length * step] != dark[i],
    ensures
        points_along(dark, width, i, step, at, n) == if n == 0 || length < 5 {
            0
        } else if n <= length - 4 {
            n + 2
        } else {
            length - 2
        },
    decreases n,
{
    if n > 0 {
        lemma_points_within_a_run(dark, width, i, step, at, length, n - 1);
        let j = n - 1;
        let here = i + j * step;
        assert(here + step == i + (j + 1) * step) by (nonlinear_arith)
            requires
                here == i + j * step,
        ;
        assert(here + 2 * step == i + (j + 2) * step) by (nonlinear_arith)
            requires
                here == i + j * step,
        ;
        assert(here + 3 * step == i + (j + 3) * step) by (nonlinear_arith)
            requires
                here == i + j * step,
        ;
        assert(here + 4 * step == i + (j + 4) * step) by (nonlinear_arith)
            requires
                here == i + j * step,
        ;
        assert(here - step == i + (j - 1) * step) by (nonlinear_arith)
            requires
                here == i + j * step,
        ;
        assert(j == 0 ==> here == i) by (nonlinear_arith)
            requires
                here == i + j * step,
        ;
        assert(dark[i + j * step] == dark[i]);
        if j > 0 {
            assert(dark[i + (j - 1) * step] == dark[i]);
        }
        if j + 5 <= length {
            assert(dark[i + (j + 1) * step] == dark[i]);
            assert(dark[i + (j + 2) * step] == dark[i]);
            assert(dark[i + (j + 3) * step] == dark[i]);
            assert(dark[i + (j + 4) * step] == dark[i]);
            assert(five_alike(dark, here, step));
        } else if at + j + 5 <= width {
            let gap = length - j;
            assert(1 <= gap <= 4);
            assert(here + gap * step == i + length * step) by (nonlinear_arith)
                requires
                    here == i + j * step,
                    gap == length - j,
            ;
            assert(gap == 1 || gap == 2 || gap == 3 || gap == 4);
            assert(!five_alike(dark, here, step));
        }
    }
}

/// A run of modules of one colour, in a row or a column, that a module of the other colour or the
/// edge ends on both sides is worth its length less two, where it has five modules or more.
pub proof fn lemma_what_a_run_is_worth(
    dark: Seq<bool>,
    width: int,
    i: int,
    step: int,
    at: int,
    length: int,
)
    requires
        0 <= at,
        at + length <= width,
        1 <= length,
        forall|k: int| 0 <= k < length ==> #[trigger] dark[i + k * step] == dark[i],
        at > 0 ==> dark[i - step] != dark[i],
        at + length < width ==> dark[i + length * step] != dark[i],
    ensures
        points_along(dark, width, i, step, at, length) == if length >= 5 {
            length - 2
        } else {
            0
        },
{
    lemma_points_within_a_run(dark, width, i, step, at, length, length);
}

/// Seven modules, dark, light, three times dark, light and dark, are worth forty where four modules
/// before them or four behind them are light, those beyond the edge taken for light.
pub proof fn lemma_what_a_finder_is_worth(
    dark: Seq<bool>,
    width: int,
    i: int,
    step: int,
    at: int,
)
    ensures
        finder_points(dark, width, i, step, at) == 40 <==> {
            &&& at + 7 <= width
            &&& seq![
                dark[i],
                dark[i + step],
                dark[i + 2 * step],
                dark[i + 3 * step],
                dark[i + 4 * step],
                dark[i + 5 * step],
                dark[i + 6 * step],
            ] == seq![true, false, true, true, true, false, true]
            &&& (forall|k: int|
                at - 4 <= k < at && 0 <= k < width ==> !(#[trigger] dark[i + (k - at) * step])) || (
            forall|k: int|
                at + 7 <= k < at + 11 && 0 <= k < width ==> !(#[trigger] dark[i + (k - at)
                    * step]))
        },
        finder_points(dark, width, i, step, at) == 40 || finder_points(dark, width, i, step, at)
            == 0,
{
    let modules = seq![
        dark[i],
        dark[i + step],
        dark[i + 2 * step],
        dark[i + 3 * step],
        dark[i + 4 * step],
        dark[i + 5 * step],
        dark[i + 6 * step],
    ];
    let middle = seq![true, false, true, true, true, false, true];
    let like = dark[i] && !dark[i + step] && dark[i + 2 * step] && dark[i + 3 * step] && dark[i + 4
        * step] && !dark[i + 5 * step] && dark[i + 6 * step];
    if like {
        assert(modules =~= middle);
    }
    if modules == middle {
        assert(modules[0] && !modules[1] && modules[2] && modules[3] && modules[4] && !modules[5]
            && modules[6]);
    }
    let before = light_at(dark, width, i, step, at, -4) && light_at(dark, width, i, step, at, -3)
        && light_at(dark, width, i, step, at, -2) && light_at(dark, width, i, step, at, -1);
    let behind = light_at(dark, width, i, step, at, 7) && light_at(dark, width, i, step, at, 8)
        && light_at(dark, width, i, step, at, 9) && light_at(dark, width, i, step, at, 10);
    assert(before <==> forall|k: int|
        at - 4 <= k < at && 0 <= k < width ==> !(#[trigger] dark[i + (k - at) * step])) by {
        lemma_light_modules(dark, width, i, step, at, -4);
    }
    assert(behind <==> forall|k: int|
        at + 7 <= k < at + 11 && 0 <= k < width ==> !(#[trigger] dark[i + (k - at) * step])) by {
        lemma_light_modules(dark, width, i, step, at, 7);
    }
}

proof fn lemma_light_modules(dark: Seq<bool>, width: int, i: int, step: int, at: int, from: int)
    ensures
        (light_at(dark, width, i, step, at, from) && light_at(dark, width, i, step, at, from + 1)
            && light_at(dark, width, i, step, at, from + 2) && light_at(
            dark,
            width,
            i,
            step,
            at,
            from + 3,
        )) <==> forall|k: int|
            at + from <= k < at + from + 4 && 0 <= k < width ==> !(#[trigger] dark[i + (k - at)
                * step]),
{
    if forall|k: int|
        at + from <= k < at + from + 4 && 0 <= k < width ==> !(#[trigger] dark[i + (k - at)
            * step]) {
        assert forall|j: int| from <= j < from + 4 implies #[trigger] light_at(
            dark,
            width,
            i,
            step,
            at,
            j,
        ) by {
            let k = at + j;
            if 0 <= k < width {
                assert(!dark[i + (k - at) * step]);
            }
        }
    }
    if light_at(dark, width, i, step, at, from) && light_at(dark, width, i, step, at, from + 1)
        && light_at(dark, width, i, step, at, from + 2) && light_at(
        dark,
        width,
        i,
        step,
        at,
        from + 3,
    ) {
        assert forall|k: int|
            at + from <= k < at + from + 4 && 0 <= k < width implies !(#[trigger] dark[i + (k - at)
            * step]) by {
            let j = k - at;
            assert(j == from || j == from + 1 || j == from + 2 || j == from + 3);
            assert(light_at(dark, width, i, step, at, j));
        }
    }
}

/// Four modules of one colour in a square are worth three, counted at the first of them.
pub proof fn lemma_what_a_square_is_worth(dark: Seq<bool>, width: int, x: int, y: int)
    requires
        0 <= x < width,
        0 <= y < width,
    ensures
        ({
            let black = |column: int, row: int| dark[row * width + column];
            square_points(dark, width, y * width + x) == if x + 1 < width && y + 1 < width && black(
                x,
                y,
            ) == black(x + 1, y) && black(x, y) == black(x, y + 1) && black(x, y) == black(
                x + 1,
                y + 1,
            ) {
                3int
            } else {
                0
            }
        }),
{
    lemma_place(width, width, x, y);
    assert((y + 1) * width == y * width + width) by (nonlinear_arith);
}

/// The modules of a symbol are counted one by one: each adds what a run that begins with it is worth
/// in its row and in its column, and a square, and a finder pattern in its row and its column, and
/// itself where it is dark.
pub proof fn lemma_tally_of_one_more(dark: Seq<bool>, width: int, x: int, y: int)
    requires
        0 <= x < width,
        0 <= y < width,
    ensures
        ({
            let i = y * width + x;
            let before = tally(dark, width, i);
            let behind = tally(dark, width, i + 1);
            &&& behind.0 - before.0 == run_points(dark, width, i, 1, x) + run_points(
                dark,
                width,
                i,
                width,
                y,
            ) + square_points(dark, width, i)
            &&& behind.1 - before.1 == finder_points(dark, width, i, 1, x)
            &&& behind.2 - before.2 == finder_points(dark, width, i, width, y)
            &&& behind.3 - before.3 == if dark[i] {
                1int
            } else {
                0
            }
        }),
        tally(dark, width, 0) == (0int, 0int, 0int, 0int),
{
    lemma_place(width, width, x, y);
}

/// A symbol of which one half is dark gets no points for its balance. Otherwise every half percent
/// of dark modules above one half, or begun below it, is a point. The penalty fits where what looks
/// like a finder pattern is at most 65535 in rows, and in columns, and all points together are too,
/// less nine times forty in rows and as much in columns.
pub proof fn lemma_what_balance_is_worth(t: (int, int, int, int), modules: int)
    requires
        modules > 0,
        0 <= t.3 <= modules,
    ensures
        2 * t.3 >= modules ==> balance_points(t.3, modules) * modules <= 200 * t.3 - 100 * modules
            < (balance_points(t.3, modules) + 1) * modules,
        2 * t.3 < modules ==> (balance_points(t.3, modules) - 1) * modules < 100 * modules - 200
            * t.3 <= balance_points(t.3, modules) * modules,
        tally_fits(t, modules) <==> t.1 <= 65535 && t.2 <= 65535 && t.0 + t.1 + t.2
            + balance_points(t.3, modules) <= 65535 + 720,
{
    let n = 200 * t.3;
    let q = n / modules;
    vstd::arithmetic::div_mod::lemma_fundamental_div_mod(n, modules);
    let r = n % modules;
    assert(q * modules == n - r) by (nonlinear_arith)
        requires
            n == modules * q + r,
    ;
    assert(2 * t.3 >= modules ==> q >= 100) by (nonlinear_arith)
        requires
            n == 200 * t.3,
            q * modules == n - r,
            0 <= r < modules,
    ;
    assert(2 * t.3 < modules ==> q < 100) by (nonlinear_arith)
        requires
            n == 200 * t.3,
            q * modules == n - r,
            0 <= r < modules,
    ;
    let b = balance_points(t.3, modules);
    if q >= 100 {
        assert(b * modules == q * modules - 100 * modules) by (nonlinear_arith)
            requires
                b == q - 100,
        ;
        assert((b + 1) * modules == b * modules + modules) by (nonlinear_arith);
    } else {
        assert(b * modules == 100 * modules - q * modules) by (nonlinear_arith)
            requires
                b == 100 - q,
        ;
        assert((b - 1) * modules == b * modules - modules) by (nonlinear_arith);
    }
}

/// A mask can be chosen where the penalty of the symbol fits under each of the eight, and also where
/// there is no symbol because the data is longer than 7089 bytes.
pub proof fn lemma_when_a_mask_can_be_chosen(data: Seq<u8>, level: Correction)
    ensures
        data.len() > 7089 ==> can_choose_mask(data, level),
        data.len() <= 7089 ==> (can_choose_mask(data, level) <==> forall|mask: nat|
            mask < 8 ==> (#[trigger] qr_masked(data, level, mask) matches Some(symbol) ==> tally_fits(
                tally(symbol.1, symbol.0 as int, (symbol.0 * symbol.0) as int),
                (symbol.0 * symbol.0) as int,
            ))),
{
    if data.len() <= 7089 {
        if can_choose_mask(data, level) {
            assert forall|mask: nat| mask < 8 implies (#[trigger] qr_masked(
                data,
                level,
                mask,
            ) matches Some(symbol) ==> tally_fits(
                tally(symbol.1, symbol.0 as int, (symbol.0 * symbol.0) as int),
                (symbol.0 * symbol.0) as int,
            )) by {
                assert(penalty_fits(qr_masked(data, level, mask)));
            }
        }
    }
}

} // verus!
