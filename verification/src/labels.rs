//! Commands in words: debug labels and the lines of the command log.

use crate::model::{Align, BarcodeHriPosition, CodePage, CommandType, Control};
use crate::text::{
    chars_of, decimal, hex, hex_digit, is_digit, lemma_decimal_writes_the_number,
    lemma_hex_of_a_byte, number_written, push_decimal, push_hex, push_signed, signed_decimal,
    string_of,
};
use vstd::prelude::*;
use vstd::utf8::*;

verus! {

/// A switch as it is printed.
pub open spec fn bool_name(on: bool) -> Seq<char> {
    if on {
        "true"@
    } else {
        "false"@
    }
}

fn name_of_bool(on: bool) -> (name: &'static str)
    ensures
        name@ == bool_name(on),
{
    if on {
        "true"
    } else {
        "false"
    }
}

/// An alignment as it is printed.
pub open spec fn align_name(align: Align) -> Seq<char> {
    match align {
        Align::Left => "Left"@,
        Align::Center => "Center"@,
        Align::Right => "Right"@,
    }
}

fn name_of_align(align: Align) -> (name: &'static str)
    ensures
        name@ == align_name(align),
{
    match align {
        Align::Left => "Left",
        Align::Center => "Center",
        Align::Right => "Right",
    }
}

/// A code page as it is printed.
pub open spec fn codepage_name(codepage: CodePage) -> Seq<char> {
    match codepage {
        CodePage::Utf8Lossy => "Utf8Lossy"@,
        CodePage::Cp437 => "Cp437"@,
        CodePage::Cp850 => "Cp850"@,
        CodePage::Windows1252 => "Windows1252"@,
        CodePage::Pc858 => "Pc858"@,
        CodePage::Iso88591 => "Iso88591"@,
        CodePage::Cp866 => "Cp866"@,
        CodePage::Cp860 => "Cp860"@,
        CodePage::Cp865 => "Cp865"@,
    }
}

fn name_of_codepage(codepage: CodePage) -> (name: &'static str)
    ensures
        name@ == codepage_name(codepage),
{
    match codepage {
        CodePage::Utf8Lossy => "Utf8Lossy",
        CodePage::Cp437 => "Cp437",
        CodePage::Cp850 => "Cp850",
        CodePage::Windows1252 => "Windows1252",
        CodePage::Pc858 => "Pc858",
        CodePage::Iso88591 => "Iso88591",
        CodePage::Cp866 => "Cp866",
        CodePage::Cp860 => "Cp860",
        CodePage::Cp865 => "Cp865",
    }
}

/// A text position as it is printed.
pub open spec fn hri_name(position: BarcodeHriPosition) -> Seq<char> {
    match position {
        BarcodeHriPosition::Hidden => "None"@,
        BarcodeHriPosition::Above => "Above"@,
        BarcodeHriPosition::Below => "Below"@,
        BarcodeHriPosition::Both => "Both"@,
    }
}

fn name_of_hri(position: BarcodeHriPosition) -> (name: &'static str)
    ensures
        name@ == hri_name(position),
{
    match position {
        BarcodeHriPosition::Hidden => "None",
        BarcodeHriPosition::Above => "Above",
        BarcodeHriPosition::Below => "Below",
        BarcodeHriPosition::Both => "Both",
    }
}

/// The label of a control sequence: its name and its operands.
pub open spec fn control_label(control: Control) -> Seq<char> {
    match control {
        Control::Newline => "LF"@,
        Control::Tab => "HT (TAB)"@,
        Control::Init => "ESC @ (INIT)"@,
        Control::Bold(on) => "ESC E (BOLD="@ + bool_name(on) + ")"@,
        Control::Align(align) => "ESC a (ALIGN="@ + align_name(align) + ")"@,
        Control::CodePage(cp) => "ESC t (CODEPAGE="@ + codepage_name(cp) + ")"@,
        Control::Size { raw, width, height } => "GS ! (SIZE raw="@ + hex(raw as nat, 2, true)
            + " w="@ + decimal(width as nat, 0) + " h="@ + decimal(height as nat, 0) + ")"@,
        Control::Cut => "GS V (CUT)"@,
        Control::RasterImage { m, width_bytes, height, data } => "GS v 0 (IMG m="@ + hex(
            m as nat,
            2,
            true,
        ) + " "@ + decimal((8 * width_bytes) as nat, 0) + "x"@ + decimal(height as nat, 0)
            + " bytes="@ + decimal(data@.len(), 0) + ")"@,
        Control::Qr { model, module_size, ecc, data } => "QR (model="@ + decimal(model as nat, 0)
            + " size="@ + decimal(module_size as nat, 0) + " ecc="@ + decimal(ecc as nat, 0)
            + " bytes="@ + decimal(data@.len(), 0) + ")"@,
        Control::Barcode { m, data } => "GS k (BARCODE m="@ + hex(m as nat, 2, true) + " bytes="@
            + decimal(data@.len(), 0) + ")"@,
        Control::BarcodeHriPosition(position) => "GS H (HRI="@ + hri_name(position) + ")"@,
        Control::BarcodeHeight(n) => "GS h (BARCODE HEIGHT="@ + decimal(n as nat, 0) + ")"@,
        Control::BarcodeModuleWidth(n) => "GS w (BARCODE WIDTH="@ + decimal(n as nat, 0) + ")"@,
        Control::BarcodeHriFont(n) => "GS f (HRI FONT="@ + decimal(n as nat, 0) + ")"@,
        Control::AbsolutePosition { x } => "ESC $ (POS="@ + decimal(x as nat, 0) + ")"@,
        Control::RelativePosition { offset } => "ESC \\ (OFFSET="@ + signed_decimal(offset as int)
            + ")"@,
        Control::Underline(on) => "ESC - (UNDERLINE="@ + bool_name(on) + ")"@,
        Control::Reverse(on) => "GS B (REVERSE="@ + bool_name(on) + ")"@,
        Control::MasterSelect(n) => "ESC ! (MASTER="@ + hex(n as nat, 2, true) + ")"@,
        Control::LineSpacingDefault => "ESC 2 (LINE SPACING DEFAULT)"@,
        Control::LineSpacing(n) => "ESC 3 (LINE SPACING="@ + decimal(n as nat, 0) + ")"@,
        Control::BitImage { mode, width, data } => "ESC * (BIT IMAGE mode="@ + decimal(
            mode as nat,
            0,
        ) + " w="@ + decimal(width as nat, 0) + " bytes="@ + decimal(data@.len(), 0) + ")"@,
        Control::FontSelect(on) => "ESC M (FONT SELECT font_b="@ + bool_name(on) + ")"@,
        Control::OpenDrawer => "ESC p (OPEN DRAWER)"@,
        Control::EscUnknown(b) => "ESC "@ + hex(b as nat, 2, true) + " (?)"@,
        Control::GsUnknown(b) => "GS "@ + hex(b as nat, 2, true) + " (?)"@,
    }
}

fn named(before: &str, name: &str) -> (label: String)
    ensures
        label@ == before@ + name@ + ")"@,
{
    let mut label = before.to_owned();
    label.append(name);
    label.append(")");
    label
}

fn numbered(before: &str, n: u64) -> (label: String)
    ensures
        label@ == before@ + decimal(n as nat, 0) + ")"@,
{
    let mut label = before.to_owned();
    push_decimal(&mut label, n, 0);
    label.append(")");
    label
}

fn coded(before: &str, n: u8, after: &str) -> (label: String)
    ensures
        label@ == before@ + hex(n as nat, 2, true) + after@,
{
    let mut label = before.to_owned();
    push_hex(&mut label, n as u64, 2, true);
    label.append(after);
    label
}

/// Names a control sequence and its operands.
pub fn debug_label_for_control(control: &Control) -> (label: String)
    ensures
        label@ == control_label(*control),
{
    match control {
        Control::Newline => "LF".to_owned(),
        Control::Tab => "HT (TAB)".to_owned(),
        Control::Init => "ESC @ (INIT)".to_owned(),
        Control::Bold(on) => named("ESC E (BOLD=", name_of_bool(*on)),
        Control::Align(align) => named("ESC a (ALIGN=", name_of_align(*align)),
        Control::CodePage(cp) => named("ESC t (CODEPAGE=", name_of_codepage(*cp)),
        Control::Size { raw, width, height } => {
            let mut label = coded("GS ! (SIZE raw=", *raw, " w=");
            push_decimal(&mut label, *width as u64, 0);
            label.append(" h=");
            push_decimal(&mut label, *height as u64, 0);
            label.append(")");
            label
        },
        Control::Cut => "GS V (CUT)".to_owned(),
        Control::RasterImage { m, width_bytes, height, data } => {
            let mut label = coded("GS v 0 (IMG m=", *m, " ");
            push_decimal(&mut label, 8 * (*width_bytes as u64), 0);
            label.append("x");
            push_decimal(&mut label, *height as u64, 0);
            label.append(" bytes=");
            push_decimal(&mut label, data.len() as u64, 0);
            label.append(")");
            label
        },
        Control::Qr { model, module_size, ecc, data } => {
            let mut label = "QR (model=".to_owned();
            push_decimal(&mut label, *model as u64, 0);
            label.append(" size=");
            push_decimal(&mut label, *module_size as u64, 0);
            label.append(" ecc=");
            push_decimal(&mut label, *ecc as u64, 0);
            label.append(" bytes=");
            push_decimal(&mut label, data.len() as u64, 0);
            label.append(")");
            label
        },
        Control::Barcode { m, data } => {
            let mut label = coded("GS k (BARCODE m=", *m, " bytes=");
            push_decimal(&mut label, data.len() as u64, 0);
            label.append(")");
            label
        },
        Control::BarcodeHriPosition(position) => named("GS H (HRI=", name_of_hri(*position)),
        Control::BarcodeHeight(n) => numbered("GS h (BARCODE HEIGHT=", *n as u64),
        Control::BarcodeModuleWidth(n) => numbered("GS w (BARCODE WIDTH=", *n as u64),
        Control::BarcodeHriFont(n) => numbered("GS f (HRI FONT=", *n as u64),
        Control::AbsolutePosition { x } => numbered("ESC $ (POS=", *x as u64),
        Control::RelativePosition { offset } => {
            let mut label = "ESC \\ (OFFSET=".to_owned();
            push_signed(&mut label, *offset as i64);
            label.append(")");
            label
        },
        Control::Underline(on) => named("ESC - (UNDERLINE=", name_of_bool(*on)),
        Control::Reverse(on) => named("GS B (REVERSE=", name_of_bool(*on)),
        Control::MasterSelect(n) => coded("ESC ! (MASTER=", *n, ")"),
        Control::LineSpacingDefault => "ESC 2 (LINE SPACING DEFAULT)".to_owned(),
        Control::LineSpacing(n) => numbered("ESC 3 (LINE SPACING=", *n as u64),
        Control::BitImage { mode, width, data } => {
            let mut label = "ESC * (BIT IMAGE mode=".to_owned();
            push_decimal(&mut label, *mode as u64, 0);
            label.append(" w=");
            push_decimal(&mut label, *width as u64, 0);
            label.append(" bytes=");
            push_decimal(&mut label, data.len() as u64, 0);
            label.append(")");
            label
        },
        Control::FontSelect(on) => named("ESC M (FONT SELECT font_b=", name_of_bool(*on)),
        Control::OpenDrawer => "ESC p (OPEN DRAWER)".to_owned(),
        Control::EscUnknown(b) => coded("ESC ", *b, " (?)"),
        Control::GsUnknown(b) => coded("GS ", *b, " (?)"),
    }
}

/// Bytes of text that the log shows.
pub const SNIPPET: usize = 60;

/// A text on one line: a space in place of every CR and LF.
pub open spec fn on_one_line(text: Seq<char>) -> Seq<char> {
    text.map_values(
        |c: char|
            if c == '\r' || c == '\n' {
                ' '
            } else {
                c
            },
    )
}

/// What the log shows of a text: its first 60 bytes, with an ellipsis where there are more.
pub open spec fn snippet(text: Seq<char>) -> Seq<char> {
    let line = on_one_line(text);
    if encode_utf8(line).len() > SNIPPET {
        decode_utf8(encode_utf8(line).subrange(0, SNIPPET as int)) + "…"@
    } else {
        line
    }
}

/// Whether a text can be cut where the log cuts it: no character lies across that place.
pub open spec fn can_cut(text: Seq<char>) -> bool {
    encode_utf8(on_one_line(text)).len() > SNIPPET ==> is_char_boundary(
        encode_utf8(on_one_line(text)),
        SNIPPET as int,
    )
}

fn put_on_one_line(text: &str) -> (line: String)
    ensures
        line@ == on_one_line(text@),
{
    let chars = chars_of(text);
    let mut line: Vec<char> = Vec::new();
    for i in 0..chars.len()
        invariant
            line@ == on_one_line(chars@.take(i as int)),
    {
        let c: char = chars[i];
        line.push(if c == '\r' || c == '\n' { ' ' } else { c });
        assert(line@ =~= on_one_line(chars@.take(i + 1)));
    }
    assert(chars@.take(chars@.len() as int) =~= chars@);
    string_of(&line)
}

/// Tests whether a text can be cut where the log cuts it.
pub fn snippet_can_be_cut(text: &str) -> (possible: bool)
    ensures
        possible == can_cut(text@),
{
    let line = put_on_one_line(text);
    line.as_str().as_bytes().len() <= SNIPPET || line.as_str().is_char_boundary(SNIPPET)
}

fn snippet_of(text: &str) -> (short: String)
    requires
        can_cut(text@),
    ensures
        short@ == snippet(text@),
{
    let line = put_on_one_line(text);
    if line.as_str().as_bytes().len() > SNIPPET {
        let (head, _tail) = line.as_str().split_at(SNIPPET);
        proof {
            encode_utf8_decode_utf8(head@);
        }
        let mut short = head.to_owned();
        short.append("…");
        short
    } else {
        line
    }
}

/// What the log says of a command.
pub open spec fn log_text(command: CommandType) -> Seq<char> {
    match command {
        CommandType::Text(text) => "TXT  "@ + snippet(text@),
        CommandType::Control(control) => "CTL  "@ + control_label(control),
        CommandType::Unknown(byte) => "UNK  "@ + hex(byte as nat, 2, true),
    }
}

/// The line of the log for a command: its number, and what it is.
pub fn log_line(index: usize, command: &CommandType) -> (line: String)
    requires
        *command matches CommandType::Text(text) ==> can_cut(text@),
    ensures
        line@ == decimal(index as nat, 4) + ": "@ + log_text(*command),
{
    let mut line = String::new();
    push_decimal(&mut line, index as u64, 4);
    assert(line@ =~= decimal(index as nat, 4));
    line.append(": ");
    let ghost head = line@;
    match command {
        CommandType::Text(text) => {
            line.append("TXT  ");
            let short = snippet_of(text.as_str());
            line.append(short.as_str());
        },
        CommandType::Control(control) => {
            line.append("CTL  ");
            let label = debug_label_for_control(control);
            line.append(label.as_str());
        },
        CommandType::Unknown(byte) => {
            line.append("UNK  ");
            push_hex(&mut line, *byte as u64, 2, true);
        },
    }
    assert(line@ =~= head + log_text(*command));
    line
}

/// What the log shows of a text fits on one line.
pub proof fn lemma_one_line(text: Seq<char>, i: int)
    requires
        0 <= i < text.len(),
    ensures
        on_one_line(text).len() == text.len(),
        on_one_line(text)[i] != '\r',
        on_one_line(text)[i] != '\n',
{
}

/// A text that the log cuts is the cut text with something behind it.
pub proof fn lemma_snippet_is_a_prefix(text: Seq<char>)
    requires
        can_cut(text),
        encode_utf8(on_one_line(text)).len() > SNIPPET,
    ensures
        decode_utf8(encode_utf8(on_one_line(text)).subrange(0, SNIPPET as int)).is_prefix_of(
            on_one_line(text),
        ),
{
    let line = on_one_line(text);
    let bytes = encode_utf8(line);
    encode_utf8_valid_utf8(line);
    encode_utf8_decode_utf8(line);
    decode_utf8_split(bytes, SNIPPET as int);
    let head = decode_utf8(bytes.subrange(0, SNIPPET as int));
    assert(line.subrange(0, head.len() as int) =~= head);
}

/// The control sequences without operands, and the switches, are labelled with these words.
pub proof fn lemma_labels_of_switches()
    ensures
        control_label(Control::Newline) == "LF"@,
        control_label(Control::Tab) == "HT (TAB)"@,
        control_label(Control::Init) == "ESC @ (INIT)"@,
        control_label(Control::Cut) == "GS V (CUT)"@,
        control_label(Control::LineSpacingDefault) == "ESC 2 (LINE SPACING DEFAULT)"@,
        control_label(Control::OpenDrawer) == "ESC p (OPEN DRAWER)"@,
        control_label(Control::Bold(true)) == "ESC E (BOLD=true)"@,
        control_label(Control::Bold(false)) == "ESC E (BOLD=false)"@,
        control_label(Control::Underline(true)) == "ESC - (UNDERLINE=true)"@,
        control_label(Control::Underline(false)) == "ESC - (UNDERLINE=false)"@,
        control_label(Control::Reverse(true)) == "GS B (REVERSE=true)"@,
        control_label(Control::Reverse(false)) == "GS B (REVERSE=false)"@,
        control_label(Control::FontSelect(true)) == "ESC M (FONT SELECT font_b=true)"@,
        control_label(Control::FontSelect(false)) == "ESC M (FONT SELECT font_b=false)"@,
{
    reveal_strlit(")");
    reveal_strlit("ESC - (UNDERLINE=");
    reveal_strlit("ESC - (UNDERLINE=false)");
    reveal_strlit("ESC - (UNDERLINE=true)");
    reveal_strlit("ESC 2 (LINE SPACING DEFAULT)");
    reveal_strlit("ESC @ (INIT)");
    reveal_strlit("ESC E (BOLD=");
    reveal_strlit("ESC E (BOLD=false)");
    reveal_strlit("ESC E (BOLD=true)");
    reveal_strlit("ESC M (FONT SELECT font_b=");
    reveal_strlit("ESC M (FONT SELECT font_b=false)");
    reveal_strlit("ESC M (FONT SELECT font_b=true)");
    reveal_strlit("ESC p (OPEN DRAWER)");
    reveal_strlit("GS B (REVERSE=");
    reveal_strlit("GS B (REVERSE=false)");
    reveal_strlit("GS B (REVERSE=true)");
    reveal_strlit("GS V (CUT)");
    reveal_strlit("HT (TAB)");
    reveal_strlit("LF");
    reveal_strlit("false");
    reveal_strlit("true");
    assert(control_label(Control::Newline) =~= "LF"@);
    assert(control_label(Control::Tab) =~= "HT (TAB)"@);
    assert(control_label(Control::Init) =~= "ESC @ (INIT)"@);
    assert(control_label(Control::Cut) =~= "GS V (CUT)"@);
    assert(control_label(Control::LineSpacingDefault) =~= "ESC 2 (LINE SPACING DEFAULT)"@);
    assert(control_label(Control::OpenDrawer) =~= "ESC p (OPEN DRAWER)"@);
    assert(control_label(Control::Bold(true)) =~= "ESC E (BOLD=true)"@);
    assert(control_label(Control::Bold(false)) =~= "ESC E (BOLD=false)"@);
    assert(control_label(Control::Underline(true)) =~= "ESC - (UNDERLINE=true)"@);
    assert(control_label(Control::Underline(false)) =~= "ESC - (UNDERLINE=false)"@);
    assert(control_label(Control::Reverse(true)) =~= "GS B (REVERSE=true)"@);
    assert(control_label(Control::Reverse(false)) =~= "GS B (REVERSE=false)"@);
    assert(control_label(Control::FontSelect(true)) =~= "ESC M (FONT SELECT font_b=true)"@);
    assert(control_label(Control::FontSelect(false)) =~= "ESC M (FONT SELECT font_b=false)"@);
}

/// The choices among a few values are labelled with the words for the value.
pub proof fn lemma_labels_of_choices()
    ensures
        control_label(Control::Align(Align::Left)) == "ESC a (ALIGN=Left)"@,
        control_label(Control::Align(Align::Center)) == "ESC a (ALIGN=Center)"@,
        control_label(Control::Align(Align::Right)) == "ESC a (ALIGN=Right)"@,
        control_label(Control::BarcodeHriPosition(BarcodeHriPosition::Hidden)) == "GS H (HRI=None)"@,
        control_label(Control::BarcodeHriPosition(BarcodeHriPosition::Above)) == "GS H (HRI=Above)"@,
        control_label(Control::BarcodeHriPosition(BarcodeHriPosition::Below)) == "GS H (HRI=Below)"@,
        control_label(Control::BarcodeHriPosition(BarcodeHriPosition::Both)) == "GS H (HRI=Both)"@,
        control_label(Control::CodePage(CodePage::Utf8Lossy)) == "ESC t (CODEPAGE=Utf8Lossy)"@,
        control_label(Control::CodePage(CodePage::Cp437)) == "ESC t (CODEPAGE=Cp437)"@,
        control_label(Control::CodePage(CodePage::Cp850)) == "ESC t (CODEPAGE=Cp850)"@,
        control_label(Control::CodePage(CodePage::Windows1252)) == "ESC t (CODEPAGE=Windows1252)"@,
        control_label(Control::CodePage(CodePage::Pc858)) == "ESC t (CODEPAGE=Pc858)"@,
        control_label(Control::CodePage(CodePage::Iso88591)) == "ESC t (CODEPAGE=Iso88591)"@,
        control_label(Control::CodePage(CodePage::Cp866)) == "ESC t (CODEPAGE=Cp866)"@,
        control_label(Control::CodePage(CodePage::Cp860)) == "ESC t (CODEPAGE=Cp860)"@,
        control_label(Control::CodePage(CodePage::Cp865)) == "ESC t (CODEPAGE=Cp865)"@,
{
    reveal_strlit(")");
    reveal_strlit("Above");
    reveal_strlit("Below");
    reveal_strlit("Both");
    reveal_strlit("Center");
    reveal_strlit("Cp437");
    reveal_strlit("Cp850");
    reveal_strlit("Cp860");
    reveal_strlit("Cp865");
    reveal_strlit("Cp866");
    reveal_strlit("ESC a (ALIGN=");
    reveal_strlit("ESC a (ALIGN=Center)");
    reveal_strlit("ESC a (ALIGN=Left)");
    reveal_strlit("ESC a (ALIGN=Right)");
    reveal_strlit("ESC t (CODEPAGE=");
    reveal_strlit("ESC t (CODEPAGE=Cp437)");
    reveal_strlit("ESC t (CODEPAGE=Cp850)");
    reveal_strlit("ESC t (CODEPAGE=Cp860)");
    reveal_strlit("ESC t (CODEPAGE=Cp865)");
    reveal_strlit("ESC t (CODEPAGE=Cp866)");
    reveal_strlit("ESC t (CODEPAGE=Iso88591)");
    reveal_strlit("ESC t (CODEPAGE=Pc858)");
    reveal_strlit("ESC t (CODEPAGE=Utf8Lossy)");
    reveal_strlit("ESC t (CODEPAGE=Windows1252)");
    reveal_strlit("GS H (HRI=");
    reveal_strlit("GS H (HRI=Above)");
    reveal_strlit("GS H (HRI=Below)");
    reveal_strlit("GS H (HRI=Both)");
    reveal_strlit("GS H (HRI=None)");
    reveal_strlit("Iso88591");
    reveal_strlit("Left");
    reveal_strlit("None");
    reveal_strlit("Pc858");
    reveal_strlit("Right");
    reveal_strlit("Utf8Lossy");
    reveal_strlit("Windows1252");
    assert(control_label(Control::Align(Align::Left)) =~= "ESC a (ALIGN=Left)"@);
    assert(control_label(Control::Align(Align::Center)) =~= "ESC a (ALIGN=Center)"@);
    assert(control_label(Control::Align(Align::Right)) =~= "ESC a (ALIGN=Right)"@);
    assert(control_label(Control::BarcodeHriPosition(BarcodeHriPosition::Hidden)) =~= "GS H (HRI=None)"@);
    assert(control_label(Control::BarcodeHriPosition(BarcodeHriPosition::Above)) =~= "GS H (HRI=Above)"@);
    assert(control_label(Control::BarcodeHriPosition(BarcodeHriPosition::Below)) =~= "GS H (HRI=Below)"@);
    assert(control_label(Control::BarcodeHriPosition(BarcodeHriPosition::Both)) =~= "GS H (HRI=Both)"@);
    assert(control_label(Control::CodePage(CodePage::Utf8Lossy)) =~= "ESC t (CODEPAGE=Utf8Lossy)"@);
    assert(control_label(Control::CodePage(CodePage::Cp437)) =~= "ESC t (CODEPAGE=Cp437)"@);
    assert(control_label(Control::CodePage(CodePage::Cp850)) =~= "ESC t (CODEPAGE=Cp850)"@);
    assert(control_label(Control::CodePage(CodePage::Windows1252)) =~= "ESC t (CODEPAGE=Windows1252)"@);
    assert(control_label(Control::CodePage(CodePage::Pc858)) =~= "ESC t (CODEPAGE=Pc858)"@);
    assert(control_label(Control::CodePage(CodePage::Iso88591)) =~= "ESC t (CODEPAGE=Iso88591)"@);
    assert(control_label(Control::CodePage(CodePage::Cp866)) =~= "ESC t (CODEPAGE=Cp866)"@);
    assert(control_label(Control::CodePage(CodePage::Cp860)) =~= "ESC t (CODEPAGE=Cp860)"@);
    assert(control_label(Control::CodePage(CodePage::Cp865)) =~= "ESC t (CODEPAGE=Cp865)"@);
}

/// Whether a label says `before`, the decimal numeral of `n` without zeros in front, and a closing
/// bracket.
pub open spec fn says_number(label: Seq<char>, before: Seq<char>, n: int) -> bool {
    let numeral = label.subrange(before.len() as int, label.len() - 1);
    &&& label.len() >= before.len() + 2
    &&& before.is_prefix_of(label)
    &&& label.last() == ')'
    &&& forall|k: int| 0 <= k < numeral.len() ==> is_digit(#[trigger] numeral[k])
    &&& number_written(numeral) == n
    &&& numeral.len() > 1 ==> numeral[0] != '0'
}

proof fn lemma_says_number(before: Seq<char>, n: nat)
    ensures
        says_number(before + decimal(n, 0) + ")"@, before, n as int),
{
    reveal_strlit(")");
    lemma_decimal_writes_the_number(n, 0);
    let label = before + decimal(n, 0) + ")"@;
    assert(label.subrange(before.len() as int, label.len() - 1) =~= decimal(n, 0));
    assert(label.subrange(0, before.len() as int) =~= before);
}

/// The control sequences with one number are labelled with that number.
pub proof fn lemma_labels_of_numbers(n: u8, x: u16)
    ensures
        says_number(
            control_label(Control::BarcodeHeight(n)),
            "GS h (BARCODE HEIGHT="@,
            n as int,
        ),
        says_number(
            control_label(Control::BarcodeModuleWidth(n)),
            "GS w (BARCODE WIDTH="@,
            n as int,
        ),
        says_number(control_label(Control::BarcodeHriFont(n)), "GS f (HRI FONT="@, n as int),
        says_number(control_label(Control::LineSpacing(n)), "ESC 3 (LINE SPACING="@, n as int),
        says_number(control_label(Control::AbsolutePosition { x }), "ESC $ (POS="@, x as int),
{
    lemma_says_number("GS h (BARCODE HEIGHT="@, n as nat);
    lemma_says_number("GS w (BARCODE WIDTH="@, n as nat);
    lemma_says_number("GS f (HRI FONT="@, n as nat);
    lemma_says_number("ESC 3 (LINE SPACING="@, n as nat);
    lemma_says_number("ESC $ (POS="@, x as nat);
}

/// The control sequences with one byte are labelled with its two hexadecimal digits.
pub proof fn lemma_labels_of_bytes(b: u8)
    ensures
        ({
            let digits = seq![hex_digit(b as int / 16, true), hex_digit(b as int % 16, true)];
            &&& control_label(Control::MasterSelect(b)) == "ESC ! (MASTER="@ + digits + ")"@
            &&& control_label(Control::EscUnknown(b)) == "ESC "@ + digits + " (?)"@
            &&& control_label(Control::GsUnknown(b)) == "GS "@ + digits + " (?)"@
            &&& log_text(CommandType::Unknown(b)) == "UNK  "@ + digits
        }),
{
    lemma_hex_of_a_byte(b, true);
}

/// The label of an image tells its size in dots and how many bytes it has; the label of a size tells
/// the width before the height; the labels of symbols and barcodes tell how many bytes they encode.
pub proof fn lemma_labels_of_images(m: u8, a: u8, b: u8, w: u16, h: u16, data: Vec<u8>, offset: i16)
    ensures
        ({
            let bytes = " bytes="@ + decimal(data@.len(), 0) + ")"@;
            let image = control_label(
                Control::RasterImage { m, width_bytes: w, height: h, data },
            );
            let columns = control_label(Control::BitImage { mode: m, width: w, data });
            let symbol = control_label(Control::Qr { model: m, module_size: a, ecc: b, data });
            let barcode = control_label(Control::Barcode { m, data });
            let size = control_label(Control::Size { raw: m, width: a, height: b });
            &&& image == "GS v 0 (IMG m="@ + hex(m as nat, 2, true) + " "@ + decimal(
                (w * 8) as nat,
                0,
            ) + "x"@ + decimal(h as nat, 0) + bytes
            &&& columns == "ESC * (BIT IMAGE mode="@ + decimal(m as nat, 0) + " w="@ + decimal(
                w as nat,
                0,
            ) + bytes
            &&& symbol == "QR (model="@ + decimal(m as nat, 0) + " size="@ + decimal(a as nat, 0)
                + " ecc="@ + decimal(b as nat, 0) + bytes
            &&& barcode == "GS k (BARCODE m="@ + hex(m as nat, 2, true) + bytes
            &&& size == "GS ! (SIZE raw="@ + hex(m as nat, 2, true) + " w="@ + decimal(a as nat, 0)
                + " h="@ + decimal(b as nat, 0) + ")"@
            &&& control_label(Control::RelativePosition { offset }) == "ESC \\ (OFFSET="@
                + signed_decimal(offset as int) + ")"@
        }),
{
    let bytes = " bytes="@ + decimal(data@.len(), 0) + ")"@;
    assert(control_label(Control::RasterImage { m, width_bytes: w, height: h, data })
        =~= "GS v 0 (IMG m="@ + hex(m as nat, 2, true) + " "@ + decimal((w * 8) as nat, 0) + "x"@
        + decimal(h as nat, 0) + bytes);
    assert(control_label(Control::BitImage { mode: m, width: w, data })
        =~= "ESC * (BIT IMAGE mode="@ + decimal(m as nat, 0) + " w="@ + decimal(w as nat, 0)
        + bytes);
    assert(control_label(Control::Qr { model: m, module_size: a, ecc: b, data })
        =~= "QR (model="@ + decimal(m as nat, 0) + " size="@ + decimal(a as nat, 0) + " ecc="@
        + decimal(b as nat, 0) + bytes);
    assert(control_label(Control::Barcode { m, data }) =~= "GS k (BARCODE m="@ + hex(
        m as nat,
        2,
        true,
    ) + bytes);
}

/// On one line every character is the one of the text, but for a space in place of each CR and LF.
/// Text that takes at most 60 bytes there is logged whole; of any other, what the first 60 bytes
/// hold, with an ellipsis behind it.
pub proof fn lemma_what_the_log_shows(text: Seq<char>, i: int)
    ensures
        on_one_line(text).len() == text.len(),
        0 <= i < text.len() ==> on_one_line(text)[i] == (if text[i] == '\r' || text[i] == '\n' {
            ' '
        } else {
            text[i]
        }),
        encode_utf8(on_one_line(text)).len() <= 60 ==> snippet(text) == on_one_line(text),
        encode_utf8(on_one_line(text)).len() > 60 ==> snippet(text) == decode_utf8(
            encode_utf8(on_one_line(text)).subrange(0, 60),
        ).push('\u{2026}'),
{
    reveal_strlit("…");
    if encode_utf8(on_one_line(text)).len() > 60 {
        assert(snippet(text) =~= decode_utf8(
            encode_utf8(on_one_line(text)).subrange(0, 60),
        ).push('\u{2026}'));
    }
}

/// The log marks texts, control sequences and unknown bytes with different words.
pub proof fn lemma_marks_of_the_log(text: String, control: Control, byte: u8)
    ensures
        "TXT  "@.is_prefix_of(log_text(CommandType::Text(text))),
        log_text(CommandType::Text(text)).skip(5) == snippet(text@),
        "CTL  "@.is_prefix_of(log_text(CommandType::Control(control))),
        log_text(CommandType::Control(control)).skip(5) == control_label(control),
        "UNK  "@.is_prefix_of(log_text(CommandType::Unknown(byte))),
{
    reveal_strlit("TXT  ");
    reveal_strlit("CTL  ");
    reveal_strlit("UNK  ");
    assert(log_text(CommandType::Text(text)).skip(5) =~= snippet(text@));
    assert(log_text(CommandType::Control(control)).skip(5) =~= control_label(control));
    assert("TXT  "@ =~= log_text(CommandType::Text(text)).subrange(0, 5));
    assert("CTL  "@ =~= log_text(CommandType::Control(control)).subrange(0, 5));
    assert("UNK  "@ =~= log_text(CommandType::Unknown(byte)).subrange(0, 5));
}

/// A text can be cut where it takes at most 60 bytes on one line, or where a character begins behind
/// the sixtieth.
pub proof fn lemma_which_texts_can_be_cut(text: Seq<char>)
    ensures
        can_cut(text) <==> encode_utf8(on_one_line(text)).len() <= 60 || is_char_boundary(
            encode_utf8(on_one_line(text)),
            60,
        ),
{
}

} // verus!
