//! Barcodes as pictures.

use crate::barcode::code128::{
    all_symbols, bars, encode_code128_text, hri_text, lemma_code128_modules,
};
use crate::barcode::code39::{code39_bits, drawn, is_drawn, encode_code39_runs, lemma_code39_modules};
use crate::barcode::ean::{complete, ean_bits, encode_ean_runs, lemma_ean_modules};
use crate::barcode::itf::{encode_itf_runs, even_digits, itf_runs, lemma_even_digits, lemma_itf_modules};
use crate::barcode::runs::{lemma_module_count, module_count, modules, run_lengths, stored};
use crate::image::{
    image_fits, lemma_picture_shows_ink, lemma_place, picture, MonoImage, Picture,
};
use crate::model::PrinterState;
use crate::text::{digits_of, from_utf8_lossy, is_digit, lossy_text};
use vstd::prelude::*;
use vstd::utf8::*;

verus! {

/// Dots across the picture of a row of runs, with `quiet` white modules on each side.
pub open spec fn row_dots(runs: Seq<u8>, module: int, quiet: int) -> int {
    (module_count(runs) + 2 * quiet) * module
}

/// The ink of a row of runs: the same in every row of dots.
pub open spec fn row_ink(runs: Seq<u8>, black: bool, module: int, quiet: int) -> spec_fn(
    int,
    int,
) -> bool {
    |x: int, y: int|
        {
            let m = x / module - quiet;
            0 <= m < module_count(runs) && modules(runs, black)[m]
        }
}

/// Whether there is anything to draw.
pub open spec fn is_drawable(runs: Seq<u8>, module: int, height: int, quiet: int) -> bool {
    runs.len() > 0 && module > 0 && height > 0 && module_count(runs) + 2 * quiet > 0
}

/// The picture of a row of runs.
pub open spec fn row_picture(
    runs: Seq<u8>,
    black: bool,
    module: int,
    height: int,
    quiet: int,
) -> Picture {
    picture(
        row_dots(runs, module, quiet) as nat,
        height as nat,
        row_ink(runs, black, module, quiet),
    )
}

#[verifier::spinoff_prover]
fn modules_of(runs: &[u8], start_with_black: bool) -> (row: Vec<bool>)
    ensures
        row@ == modules(runs@, start_with_black),
{
    let mut row: Vec<bool> = Vec::new();
    let mut black: bool = start_with_black;
    assert(runs@.skip(0) =~= runs@);
    assert(row@ + modules(runs@, black) =~= modules(runs@, black));
    for i in 0..runs.len()
        invariant
            row@ + modules(runs@.skip(i as int), black) == modules(runs@, start_with_black),
    {
        let ghost before = row@;
        let ghost rest = runs@.skip(i as int);
        let run: u8 = runs[i];
        for k in 0..run
            invariant
                row@ == before + Seq::new(k as nat, |j: int| black),
        {
            row.push(black);
            assert(row@ =~= before + Seq::new((k + 1) as nat, |j: int| black));
        }
        assert(run == 0 ==> row@ =~= before + Seq::new(0, |j: int| black));
        assert(rest.drop_first() =~= runs@.skip(i + 1));
        assert(row@ + modules(runs@.skip(i + 1), !black) =~= before + modules(rest, black));
        black = !black;
    }
    assert(runs@.skip(runs@.len() as int) =~= Seq::<u8>::empty());
    assert(row@ + Seq::<bool>::empty() =~= row@);
    row
}

/// Draws a row of runs, the first of them black or white, each module `module_px` dots wide. A
/// row without runs, modules or dots is not drawn.
#[verifier::spinoff_prover]
pub fn runs_to_image(
    runs: &[u8],
    start_with_black: bool,
    module_px: usize,
    height_px: usize,
    quiet_zone_modules: usize,
) -> (result: Option<MonoImage>)
    requires
        is_drawable(runs@, module_px as int, height_px as int, quiet_zone_modules as int)
            ==> image_fits(
            row_dots(runs@, module_px as int, quiet_zone_modules as int),
            height_px as int,
        ),
    ensures
        result is None <==> !is_drawable(
            runs@,
            module_px as int,
            height_px as int,
            quiet_zone_modules as int,
        ),
        result matches Some(image) ==> image@ == row_picture(
            runs@,
            start_with_black,
            module_px as int,
            height_px as int,
            quiet_zone_modules as int,
        ),
{
    if runs.len() == 0 || module_px == 0 || height_px == 0 {
        return None;
    }
    let row = modules_of(runs, start_with_black);
    proof {
        lemma_module_count(runs@, start_with_black);
    }
    let quiet = quiet_zone_modules;
    if row.len() == 0 && quiet == 0 {
        return None;
    }
    let ghost wide = row_dots(runs@, module_px as int, quiet as int);
    proof {
        let total = row@.len() + 2 * quiet;
        assert(total <= total * module_px && total * module_px <= (total * module_px) * height_px)
            by (nonlinear_arith)
            requires
                total >= 1,
                module_px >= 1,
                height_px >= 1,
        ;
    }
    let width: usize = (row.len() + 2 * quiet) * module_px;
    let ghost ink = row_ink(runs@, start_with_black, module_px as int, quiet as int);
    assert(0 * width == 0) by (nonlinear_arith);
    let mut pixels: Vec<bool> = Vec::new();
    for y in 0..height_px
        invariant
            width >= 1,
            module_px >= 1,
            row@ == modules(runs@, start_with_black),
            row@.len() == module_count(runs@),
            ink == row_ink(runs@, start_with_black, module_px as int, quiet as int),
            4 * (width * height_px) <= isize::MAX,
            pixels@.len() == y * width,
            forall|i: int|
                0 <= i < pixels@.len() ==> #[trigger] pixels@[i] == ink(
                    i % width as int,
                    i / width as int,
                ),
    {
        for x in 0..width
            invariant
                width >= 1,
                module_px >= 1,
                y < height_px,
                row@ == modules(runs@, start_with_black),
                row@.len() == module_count(runs@),
                ink == row_ink(runs@, start_with_black, module_px as int, quiet as int),
                4 * (width * height_px) <= isize::MAX,
                pixels@.len() == y * width + x,
                forall|i: int|
                    0 <= i < pixels@.len() ==> #[trigger] pixels@[i] == ink(
                        i % width as int,
                        i / width as int,
                    ),
        {
            proof {
                lemma_place(width as int, height_px as int, x as int, y as int);
            }
            let m: usize = x / module_px;
            let black: bool = quiet <= m && m - quiet < row.len() && row[m - quiet];
            pixels.push(black);
        }
        assert((y + 1) * width == y * width + width) by (nonlinear_arith);
    }
    let image = MonoImage { width, height: height_px, pixels };
    proof {
        assert(height_px * width == width * height_px) by (nonlinear_arith);
        assert(image@.pixels =~= row_picture(
            runs@,
            start_with_black,
            module_px as int,
            height_px as int,
            quiet as int,
        ).pixels);
    }
    Some(image)
}

/// Every dot of a module has the colour of the module, in every row.
#[verifier::spinoff_prover]
pub proof fn lemma_module_column(
    runs: Seq<u8>,
    black: bool,
    module: int,
    height: int,
    quiet: int,
    m: int,
    dx: int,
    y: int,
)
    requires
        0 <= m < module_count(runs),
        0 <= dx < module,
        0 <= quiet,
        0 <= y < height,
    ensures
        row_picture(runs, black, module, height, quiet).black((m + quiet) * module + dx, y)
            == modules(runs, black)[m],
{
    let total = module_count(runs) + 2 * quiet;
    lemma_place(module, total, dx, m + quiet);
    assert(module * total == total * module) by (nonlinear_arith);
    lemma_picture_shows_ink(
        row_dots(runs, module, quiet) as nat,
        height as nat,
        row_ink(runs, black, module, quiet),
        (m + quiet) * module + dx,
        y,
    );
}

/// The runs and the human readable text of a barcode of kind `m`; none where the kind is not
/// known or the text has nothing that it can draw.
pub open spec fn barcode_runs(m: u8, text: Seq<char>) -> Option<(Seq<u8>, Seq<char>)> {
    if m == 0x49 {
        Some((bars(all_symbols(text)), hri_text(text)))
    } else if m == 0x43 || m == 0x44 {
        match ean_bits(complete(text)) {
            Some(bits) => Some((stored(run_lengths(bits)), complete(text))),
            None => None,
        }
    } else if m == 0x46 && digits_of(text).len() > 0 {
        Some((itf_runs(even_digits(text)), even_digits(text)))
    } else if m == 0x45 && drawn(text).len() > 0 {
        Some((stored(run_lengths(code39_bits(drawn(text)))), drawn(text)))
    } else {
        None
    }
}

/// Encodes a text as a barcode of kind `m`: CODE128, EAN, ITF or CODE39.
#[verifier::spinoff_prover]
pub fn encode_barcode(m: u8, text: &str) -> (result: Option<(Vec<u8>, String)>)
    ensures
        result is None <==> barcode_runs(m, text@) is None,
        result matches Some(r) ==> barcode_runs(m, text@) == Some((r.0@, r.1@)),
{
    match m {
        0x49 => Some(encode_code128_text(text)),
        0x43 | 0x44 => encode_ean_runs(text),
        0x46 => encode_itf_runs(text),
        0x45 => encode_code39_runs(text),
        _ => None,
    }
}

/// White modules on each side of a barcode.
pub const QUIET: usize = 10;

/// Dots across a module: what the printer was told, from 1 to 6.
pub open spec fn module_dots(state: PrinterState) -> int {
    if state.barcode_module_width < 1 {
        1
    } else if state.barcode_module_width > 6 {
        6
    } else {
        state.barcode_module_width as int
    }
}

/// Dots from top to bottom: nine tenths of what the printer was told, rounded, from 28 to 220.
pub open spec fn height_dots(state: PrinterState) -> int {
    let tenths = (9 * state.barcode_height + 5) / 10;
    if tenths < 28 {
        28
    } else if tenths > 220 {
        220
    } else {
        tenths
    }
}

/// The picture and the human readable text of a barcode.
pub open spec fn barcode_picture(state: PrinterState, m: u8, text: Seq<char>) -> Option<
    (Picture, Seq<char>),
> {
    match barcode_runs(m, text) {
        None => None,
        Some(coded) => Some(
            (
                row_picture(coded.0, true, module_dots(state), height_dots(state), QUIET as int),
                coded.1,
            ),
        ),
    }
}

/// Whether the barcode for some text can be drawn in memory.
pub open spec fn barcode_fits(state: PrinterState, m: u8, text: Seq<char>) -> bool {
    barcode_runs(m, text) matches Some(coded) ==> image_fits(
        row_dots(coded.0, module_dots(state), QUIET as int),
        height_dots(state),
    )
}

/// Every barcode has at least one run.
#[verifier::spinoff_prover]
proof fn lemma_has_runs(m: u8, text: Seq<char>)
    ensures
        barcode_runs(m, text) matches Some(coded) ==> coded.0.len() > 0,
{
    if m == 0x49 {
        lemma_code128_modules(text);
    } else if m == 0x43 || m == 0x44 {
        if complete(text).len() == 13 || complete(text).len() == 8 {
            lemma_ean_modules(complete(text));
        }
    } else if m == 0x45 {
        lemma_code39_modules(drawn(text));
    }
}

#[verifier::spinoff_prover]
fn module_px(state: &PrinterState) -> (dots: usize)
    ensures
        dots == module_dots(*state),
{
    if state.barcode_module_width < 1 {
        1
    } else if state.barcode_module_width > 6 {
        6
    } else {
        state.barcode_module_width as usize
    }
}

#[verifier::spinoff_prover]
fn height_px(state: &PrinterState) -> (dots: usize)
    ensures
        dots == height_dots(*state),
{
    let tenths: usize = (9 * (state.barcode_height as usize) + 5) / 10;
    if tenths < 28 {
        28
    } else if tenths > 220 {
        220
    } else {
        tenths
    }
}

/// Draws the barcode of kind `m` for a text, with its human readable text.
#[verifier::spinoff_prover]
pub fn render_barcode_text(state: &PrinterState, m: u8, text: &str) -> (result: Option<
    (MonoImage, String),
>)
    requires
        barcode_fits(*state, m, text@),
    ensures
        result is None <==> barcode_picture(*state, m, text@) is None,
        result matches Some(r) ==> barcode_picture(*state, m, text@) == Some((r.0@, r.1@)),
{
    let module = module_px(state);
    let height = height_px(state);
    proof {
        lemma_has_runs(m, text@);
    }
    let (runs, hri) = encode_barcode(m, text)?;
    let image = runs_to_image(runs.as_slice(), true, module, height, QUIET)?;
    Some((image, hri))
}

/// Counts the modules of a row of runs.
#[verifier::spinoff_prover]
fn count_modules(runs: &[u8]) -> (count: u128)
    ensures
        count == module_count(runs@),
        count <= 255 * u64::MAX,
{
    let mut count: u128 = 0;
    for i in 0..runs.len()
        invariant
            count == module_count(runs@.take(i as int)),
            count <= 255 * i,
    {
        count = count + runs[i] as u128;
        assert(runs@.take(i + 1).drop_last() =~= runs@.take(i as int));
    }
    assert(runs@.take(runs@.len() as int) =~= runs@);
    count
}

/// A module has at most 6 by 220 dots.
#[verifier::spinoff_prover]
proof fn lemma_dots_of_modules(total: int, module: int, height: int)
    requires
        0 <= total,
        1 <= module <= 6,
        28 <= height <= 220,
    ensures
        0 <= total * module <= 6 * total,
        0 <= (total * module) * height <= 1320 * total,
{
    assert(0 <= total * module <= 6 * total) by (nonlinear_arith)
        requires
            0 <= total,
            1 <= module <= 6,
    ;
    let dots = total * module;
    assert(0 <= dots * height <= 220 * dots) by (nonlinear_arith)
        requires
            0 <= dots,
            28 <= height <= 220,
    ;
}

/// Tests whether the barcode for some text can be drawn in memory.
#[verifier::spinoff_prover]
fn text_fits(state: &PrinterState, m: u8, text: &str) -> (fits: bool)
    ensures
        fits == barcode_fits(*state, m, text@),
{
    let module = module_px(state) as u128;
    let height = height_px(state) as u128;
    match encode_barcode(m, text) {
        None => true,
        Some((runs, _)) => {
            let total: u128 = count_modules(runs.as_slice()) + 2 * (QUIET as u128);
            proof {
                lemma_dots_of_modules(total as int, module as int, height as int);
            }
            4 * ((total * module) * height) <= isize::MAX as u128
        },
    }
}

/// Whether data is so short that its barcode can be drawn in memory whatever it holds: it has at
/// most 13 modules for each byte of its text, and at most 6 by 220 dots for each module.
pub open spec fn is_short(len: nat) -> bool {
    5280 * (39 * len + 115) <= isize::MAX
}

/// Tests whether the barcode of kind `m` for the data of a GS k command can be drawn in memory.
#[verifier::spinoff_prover]
pub fn can_draw_barcode(state: &PrinterState, m: u8, data: &[u8]) -> (fits: bool)
    ensures
        fits == barcode_fits(*state, m, lossy_text(data@)),
        is_short(data@.len()) ==> fits,
        valid_utf8(data@) ==> lossy_text(data@) == decode_utf8(data@),
{
    let text = from_utf8_lossy(data);
    if 5280u128 * (39u128 * (data.len() as u128) + 115) <= isize::MAX as u128 {
        proof {
            lemma_short_data_fits(*state, m, text@, data@.len());
        }
        return true;
    }
    text_fits(state, m, text.as_str())
}

/// A text has no more characters than bytes.
#[verifier::spinoff_prover]
proof fn lemma_chars_take_bytes(text: Seq<char>)
    ensures
        text.len() <= encode_utf8(text).len(),
    decreases text.len(),
{
    if text.len() > 0 {
        lemma_chars_take_bytes(text.drop_first());
    }
}

#[verifier::spinoff_prover]
proof fn lemma_filter_len(text: Seq<char>, wanted: spec_fn(char) -> bool)
    ensures
        text.filter(wanted).len() <= text.len(),
    decreases text.len(),
{
    reveal(Seq::filter);
    if text.len() > 0 {
        lemma_filter_len(text.drop_last(), wanted);
    }
}

#[verifier::spinoff_prover]
proof fn lemma_skip_bytes(text: Seq<char>, n: nat)
    requires
        n <= text.len(),
    ensures
        encode_utf8(text.skip(n as int)).len() <= encode_utf8(text).len(),
    decreases n,
{
    if n == 0 {
        assert(text.skip(0) =~= text);
    } else {
        lemma_skip_bytes(text.drop_first(), (n - 1) as nat);
        assert(text.skip(n as int) =~= text.drop_first().skip(n - 1));
    }
}

#[verifier::spinoff_prover]
proof fn lemma_code128_width(text: Seq<char>)
    ensures
        module_count(bars(all_symbols(text))) <= 13 * encode_utf8(text).len() + 95,
{
    lemma_code128_modules(text);
    if text.len() >= 2 {
        lemma_skip_bytes(text, 2);
    }
}

#[verifier::spinoff_prover]
proof fn lemma_itf_width(text: Seq<char>)
    ensures
        module_count(itf_runs(even_digits(text))) <= 13 * encode_utf8(text).len() + 95,
{
    lemma_chars_take_bytes(text);
    lemma_filter_len(text, |c: char| is_digit(c));
    lemma_even_digits(text);
    lemma_itf_modules(even_digits(text));
}

#[verifier::spinoff_prover]
proof fn lemma_code39_width(text: Seq<char>)
    ensures
        module_count(stored(run_lengths(code39_bits(drawn(text))))) <= 13 * encode_utf8(text).len()
            + 95,
{
    lemma_chars_take_bytes(text);
    lemma_filter_len(text, |c: char| is_drawn(c));
    lemma_code39_modules(drawn(text));
}

/// A barcode has at most 13 modules for a byte of its text, and 95 beside them.
#[verifier::spinoff_prover]
pub proof fn lemma_barcode_modules(m: u8, text: Seq<char>)
    ensures
        barcode_runs(m, text) matches Some(coded) ==> module_count(coded.0) <= 13 * encode_utf8(
            text,
        ).len() + 95,
{
    if m == 0x49 {
        lemma_code128_width(text);
    } else if m == 0x43 || m == 0x44 {
        if complete(text).len() == 13 || complete(text).len() == 8 {
            lemma_ean_modules(complete(text));
        }
    } else if m == 0x46 {
        lemma_itf_width(text);
    } else if m == 0x45 {
        lemma_code39_width(text);
    }
}

/// A text read from few enough bytes makes a barcode that can be drawn.
#[verifier::spinoff_prover]
proof fn lemma_short_data_fits(state: PrinterState, m: u8, text: Seq<char>, len: nat)
    requires
        encode_utf8(text).len() <= 3 * len,
        is_short(len),
    ensures
        barcode_fits(state, m, text),
{
    lemma_barcode_modules(m, text);
    if let Some(coded) = barcode_runs(m, text) {
        let total = module_count(coded.0) + 2 * QUIET;
        let module = module_dots(state);
        let height = height_dots(state);
        lemma_dots_of_modules(total, module, height);
    }
}

/// Draws the barcode of kind `m` for the data of a GS k command, with its human readable text.
#[verifier::spinoff_prover]
pub fn render_barcode(state: &PrinterState, m: u8, data: &[u8]) -> (result: Option<
    (MonoImage, String),
>)
    requires
        barcode_fits(*state, m, lossy_text(data@)),
    ensures
        result is None <==> barcode_picture(*state, m, lossy_text(data@)) is None,
        result matches Some(r) ==> barcode_picture(*state, m, lossy_text(data@)) == Some(
            (r.0@, r.1@),
        ),
        valid_utf8(data@) ==> lossy_text(data@) == decode_utf8(data@),
{
    let text = from_utf8_lossy(data);
    render_barcode_text(state, m, text.as_str())
}

/// Kind 73 is CODE128, 67 and 68 are EAN, 70 is ITF and 69 is CODE39. There is no other, and none
/// where a text has nothing that its kind can draw.
#[verifier::spinoff_prover]
pub proof fn lemma_kinds_of_barcodes(m: u8, text: Seq<char>)
    ensures
        m == 73 ==> barcode_runs(m, text) == Some((bars(all_symbols(text)), hri_text(text))),
        m == 67 || m == 68 ==> (barcode_runs(m, text) is Some <==> ean_bits(complete(text)) is Some)
            && (barcode_runs(m, text) matches Some(coded) ==> coded.0 == stored(
            run_lengths(ean_bits(complete(text))->0),
        ) && coded.1 == complete(text)),
        m == 70 ==> (barcode_runs(m, text) is None <==> digits_of(text).len() == 0) && (
        barcode_runs(m, text) matches Some(coded) ==> coded.0 == itf_runs(even_digits(text))
            && coded.1 == even_digits(text)),
        m == 69 ==> (barcode_runs(m, text) is None <==> drawn(text).len() == 0) && (
        barcode_runs(m, text) matches Some(coded) ==> coded.0 == stored(
            run_lengths(code39_bits(drawn(text))),
        ) && coded.1 == drawn(text)),
        m != 73 && m != 67 && m != 68 && m != 70 && m != 69 ==> barcode_runs(m, text) is None,
{
}

/// A module is as many dots wide as the printer was told, but at least one and at most six. A
/// barcode is nine tenths as high as the printer was told, to the nearest dot, but at least 28 and
/// at most 220 dots.
#[verifier::spinoff_prover]
pub proof fn lemma_dots_of_a_barcode(state: PrinterState)
    ensures
        1 <= state.barcode_module_width <= 6 ==> module_dots(state) == state.barcode_module_width,
        state.barcode_module_width < 1 ==> module_dots(state) == 1,
        state.barcode_module_width > 6 ==> module_dots(state) == 6,
        28 <= height_dots(state) <= 220,
        28 < height_dots(state) < 220 ==> -5 <= 9 * state.barcode_height - 10 * height_dots(state)
            < 5,
        height_dots(state) == 28 ==> 9 * state.barcode_height < 285,
        height_dots(state) == 220 ==> 9 * state.barcode_height >= 2195,
{
}

/// A barcode has ten white modules on each side of its own. Every row of dots is the same, and the
/// dots of a module have the colour of the module, of which the first is black.
#[verifier::spinoff_prover]
pub proof fn lemma_barcode_pixel(
    state: PrinterState,
    m: u8,
    text: Seq<char>,
    n: int,
    dx: int,
    y: int,
)
    requires
        barcode_runs(m, text) matches Some(coded) && 0 <= n < module_count(coded.0) + 20,
        0 <= dx < module_dots(state),
        0 <= y < height_dots(state),
    ensures
        ({
            let (runs, hri) = barcode_runs(m, text)->0;
            let count = module_count(runs) as int;
            let wide = (count + 20) * module_dots(state);
            &&& barcode_picture(state, m, text) matches Some((p, shown)) && shown == hri && p.width
                == wide && p.height == height_dots(state) && p.pixels[y * wide + (n * module_dots(
                state,
            ) + dx)] == (10 <= n < 10 + count && modules(runs, true)[n - 10])
        }),
{
    let (runs, hri) = barcode_runs(m, text)->0;
    let count = module_count(runs) as int;
    let dots = module_dots(state);
    let wide = (count + 20) * dots;
    let x = n * dots + dx;
    lemma_place(dots, count + 20, dx, n);
    assert(dots * (count + 20) == wide) by (nonlinear_arith)
        requires
            wide == (count + 20) * dots,
    ;
    lemma_place(wide, height_dots(state), x, y);
    let p = row_picture(runs, true, dots, height_dots(state), 10);
    assert(p.pixels[y * wide + x] == row_ink(runs, true, dots, 10)(x, y));
}

/// The barcode of a text that takes up to a thousand bytes can always be drawn.
#[verifier::spinoff_prover]
pub proof fn lemma_ordinary_barcodes_fit(state: PrinterState, m: u8, text: Seq<char>)
    requires
        encode_utf8(text).len() <= 1000,
    ensures
        barcode_fits(state, m, text),
{
    lemma_short_data_fits(state, m, text, 1000);
}

/// The picture of a row of runs has `quiet` white modules on each side. The dots of a module have its
/// colour in every row. It is drawn where there are runs, modules and dots.
#[verifier::spinoff_prover]
pub proof fn lemma_row_pixel(
    runs: Seq<u8>,
    black: bool,
    module: int,
    height: int,
    quiet: int,
    n: int,
    dx: int,
    y: int,
)
    requires
        0 <= quiet,
        0 <= n < module_count(runs) + 2 * quiet,
        0 <= dx < module,
        0 <= y < height,
    ensures
        ({
            let p = row_picture(runs, black, module, height, quiet);
            let wide = (module_count(runs) + 2 * quiet) * module;
            &&& p.width == wide && p.height == height && p.pixels.len() == wide * height
            &&& p.pixels[y * wide + (n * module + dx)] == (quiet <= n < quiet + module_count(runs)
                && modules(runs, black)[n - quiet])
            &&& is_drawable(runs, module, height, quiet) <==> runs.len() > 0
        }),
        !is_drawable(seq![], module, height, quiet),
        !is_drawable(runs, 0, height, quiet),
        !is_drawable(runs, module, 0, quiet),
{
    let count = module_count(runs) + 2 * quiet;
    let wide = count * module;
    let x = n * module + dx;
    lemma_place(module, count, dx, n);
    assert(module * count == wide) by (nonlinear_arith)
        requires
            wide == count * module,
    ;
    lemma_place(wide, height, x, y);
    let p = row_picture(runs, black, module, height, quiet);
    assert(p.pixels[y * wide + x] == row_ink(runs, black, module, quiet)(x, y));
}

} // verus!
