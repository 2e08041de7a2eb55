//! Commands of the ESC/POS language and the state of the printer that runs them.

use vstd::prelude::*;

verus! {

/// One step of a print job.
#[derive(Clone, Debug)]
pub enum CommandType {
    /// Characters to print.
    Text(String),
    /// A recognised control sequence.
    Control(Control),
    /// A byte that starts no known command.
    Unknown(u8),
}

/// A control sequence with its operands.
#[derive(Clone, PartialEq, Eq, Debug)]
pub enum Control {
    /// LF
    Newline,
    /// HT (0x09), horizontal tab
    Tab,
    /// ESC @
    Init,
    /// ESC E n
    Bold(bool),
    /// ESC a n
    Align(Align),
    /// ESC t n, already read as a code page
    CodePage(CodePage),
    /// GS ! n: the raw byte and the multipliers that it holds
    Size { raw: u8, width: u8, height: u8 },
    /// GS V
    Cut,
    /// GS v 0: raster bit image, `width_bytes` bytes per row (eight dots each)
    RasterImage { m: u8, width_bytes: u16, height: u16, data: Vec<u8> },
    /// GS ( k: a QR symbol (model, size, correction level, store, print)
    Qr { model: u8, module_size: u8, ecc: u8, data: Vec<u8> },
    /// GS k
    Barcode { m: u8, data: Vec<u8> },
    /// GS H n
    BarcodeHriPosition(BarcodeHriPosition),
    /// GS h n
    BarcodeHeight(u8),
    /// GS w n
    BarcodeModuleWidth(u8),
    /// GS f n
    BarcodeHriFont(u8),
    /// ESC $ nL nH: absolute print position, in dots
    AbsolutePosition { x: u16 },
    /// ESC \ nL nH: relative print position, in dots
    RelativePosition { offset: i16 },
    /// ESC - n
    Underline(bool),
    /// GS B n: white on black
    Reverse(bool),
    /// ESC ! n: bold, underline and size in one byte
    MasterSelect(u8),
    /// ESC 2
    LineSpacingDefault,
    /// ESC 3 n, in dots
    LineSpacing(u8),
    /// ESC * m nL nH d...: column bit image of 8 or 24 pins
    BitImage { mode: u8, width: u16, data: Vec<u8> },
    /// ESC M n: `true` is font B
    FontSelect(bool),
    /// ESC p m t1 t2: cash drawer pulse
    OpenDrawer,
    /// ESC followed by a byte that names no command
    EscUnknown(u8),
    /// GS followed by a byte that names no command
    GsUnknown(u8),
}

/// Where the human readable text of a barcode is printed.
#[derive(Clone, Copy, PartialEq, Eq, Structural, Debug)]
pub enum BarcodeHriPosition {
    /// Not printed.
    Hidden,
    Above,
    Below,
    Both,
}

/// What the printer remembers between commands.
#[derive(Clone, Copy, Debug)]
pub struct PrinterState {
    pub is_bold: bool,
    pub is_underline: bool,
    pub is_reverse: bool,
    pub is_font_b: bool,
    pub alignment: Align,
    /// IEEE-754 single precision bits of the font scale.
    pub font_scale_bits: u32,
    pub char_width_mul: u8,
    pub char_height_mul: u8,
    /// Horizontal cursor in dots; `None` is the start of the line.
    pub cursor_x: Option<u16>,
    /// Line spacing in dots; `None` is the printer's own (about 30 dots).
    pub line_spacing: Option<u8>,
    pub barcode_hri: BarcodeHriPosition,
    pub barcode_height: u8,
    pub barcode_module_width: u8,
    pub barcode_hri_font: u8,
}

/// Bits of the font scale 1.0.
pub const FONT_SCALE_ONE: u32 = 0x3F80_0000;

/// The state of a printer that has just been switched on.
pub open spec fn initial_state() -> PrinterState {
    PrinterState {
        is_bold: false,
        is_underline: false,
        is_reverse: false,
        is_font_b: false,
        alignment: Align::Left,
        font_scale_bits: FONT_SCALE_ONE,
        char_width_mul: 1,
        char_height_mul: 1,
        cursor_x: None,
        line_spacing: None,
        barcode_hri: BarcodeHriPosition::Hidden,
        barcode_height: 80,
        barcode_module_width: 3,
        barcode_hri_font: 0,
    }
}

impl Default for PrinterState {
    fn default() -> (state: Self)
        ensures
            state == initial_state(),
            !state.is_bold && !state.is_underline && !state.is_reverse && !state.is_font_b,
            state.alignment == Align::Left,
            state.font_scale_bits == 0x3F80_0000,
            state.char_width_mul == 1 && state.char_height_mul == 1,
            state.cursor_x is None && state.line_spacing is None,
            state.barcode_hri == BarcodeHriPosition::Hidden && state.barcode_hri_font == 0,
            state.barcode_height == 80 && state.barcode_module_width == 3,
    {
        PrinterState {
            is_bold: false,
            is_underline: false,
            is_reverse: false,
            is_font_b: false,
            alignment: Align::Left,
            font_scale_bits: FONT_SCALE_ONE,
            char_width_mul: 1,
            char_height_mul: 1,
            cursor_x: None,
            line_spacing: None,
            barcode_hri: BarcodeHriPosition::Hidden,
            barcode_height: 80,
            barcode_module_width: 3,
            barcode_hri_font: 0,
        }
    }
}

/// Horizontal alignment of a line.
#[derive(Clone, Copy, PartialEq, Eq, Structural, Debug)]
pub enum Align {
    Left,
    Center,
    Right,
}

/// Width of the paper roll.
#[derive(Clone, Copy, PartialEq, Eq, Structural, Debug)]
pub enum PaperWidth {
    W58mm,
    W80mm,
}

/// Character tables.
#[derive(Clone, Copy, PartialEq, Eq, Structural, Debug)]
pub enum CodePage {
    Utf8Lossy,
    /// ESC t 0: USA, standard Europe
    Cp437,
    /// ESC t 2: multilingual
    Cp850,
    /// ESC t 16: Windows Western European
    Windows1252,
    /// ESC t 19: CP850 with the euro sign
    Pc858,
    /// ESC t 6: Latin-1
    Iso88591,
    /// ESC t 17: Cyrillic
    Cp866,
    /// ESC t 3: Portuguese
    Cp860,
    /// ESC t 4: Nordic
    Cp865,
}

} // verus!
