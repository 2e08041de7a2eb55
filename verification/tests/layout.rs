use escpos_viewer::image::raster_to_image;
use escpos_viewer::labels::{debug_label_for_control, log_line, snippet_can_be_cut};
use escpos_viewer::layout::columns::{
    base_columns, display_lines, effective_columns, font_size_quarters, line_height_quarters,
    line_spacing_dots, nbsp_pad, same_line_style, split_and_wrap,
};
use escpos_viewer::layout::ticket::{layout_ticket, TicketItem};
use escpos_viewer::model::{
    Align, BarcodeHriPosition, CodePage, CommandType, Control, PaperWidth, PrinterState,
};

fn text(content: &str) -> CommandType {
    CommandType::Text(content.to_string())
}

fn control(control: Control) -> CommandType {
    CommandType::Control(control)
}

fn plain(commands: Vec<CommandType>) -> Vec<(PrinterState, CommandType)> {
    commands
        .into_iter()
        .map(|c| (PrinterState::default(), c))
        .collect()
}

fn names(items: &[TicketItem]) -> Vec<String> {
    items
        .iter()
        .map(|item| match item {
            TicketItem::Label(label) => format!("label {label}"),
            TicketItem::Text { lines, .. } => format!("text {}", lines.join("|")),
            TicketItem::LineFeed { .. } => "feed".to_string(),
            TicketItem::Cut => "cut".to_string(),
            TicketItem::Raster { source, .. } => format!("raster {source}"),
            TicketItem::Qr { source, .. } => format!("qr {source}"),
            TicketItem::InvalidQr => "invalid qr".to_string(),
            TicketItem::Drawer => "drawer".to_string(),
            TicketItem::Barcode { hri, above, below, source, .. } => {
                format!("barcode {hri} {above} {below} {source}")
            }
            TicketItem::BarcodeText(content) => format!("barcode text {content}"),
            TicketItem::BitImage { source, .. } => format!("bit image {source}"),
            TicketItem::Unmade { source } => format!("unmade {source}"),
        })
        .collect()
}

fn shown(commands: Vec<CommandType>) -> Vec<String> {
    names(&layout_ticket(&plain(commands), PaperWidth::W58mm, false))
}

#[test]
fn paper_and_font_set_the_columns() {
    assert_eq!(base_columns(PaperWidth::W58mm, false), 32);
    assert_eq!(base_columns(PaperWidth::W58mm, true), 42);
    assert_eq!(base_columns(PaperWidth::W80mm, false), 48);
    assert_eq!(base_columns(PaperWidth::W80mm, true), 64);
}

#[test]
fn wider_characters_leave_fewer_columns() {
    let mut state = PrinterState::default();
    assert_eq!(effective_columns(PaperWidth::W58mm, &state), 32);
    state.char_width_mul = 3;
    state.char_height_mul = 8;
    assert_eq!(effective_columns(PaperWidth::W58mm, &state), 10);
    state.char_width_mul = 0;
    assert_eq!(effective_columns(PaperWidth::W58mm, &state), 32);
    state.char_width_mul = 255;
    assert_eq!(effective_columns(PaperWidth::W58mm, &state), 1);
}

#[test]
fn the_cursor_does_not_change_the_style() {
    let a = PrinterState::default();
    let mut b = a;
    b.cursor_x = Some(40);
    b.line_spacing = Some(3);
    assert!(same_line_style(&a, &b));
    b.is_reverse = true;
    assert!(!same_line_style(&a, &b));
    let mut c = a;
    c.alignment = Align::Right;
    assert!(!same_line_style(&a, &c));
}

#[test]
fn fonts_grow_with_their_multipliers() {
    for font_b in [false, true] {
        for width in [0u8, 1, 3, 255] {
            for height in [0u8, 1, 2, 255] {
                let state = PrinterState {
                    is_font_b: font_b,
                    char_width_mul: width,
                    char_height_mul: height,
                    ..PrinterState::default()
                };
                let mut base = 14.0_f32;
                if font_b {
                    base *= 0.75;
                }
                let h = height.max(1) as f32;
                let w = width.max(1) as f32;
                assert_eq!(font_size_quarters(&state) as f32 / 4.0, base * h.max(w));
                assert_eq!(line_height_quarters(&state) as f32 / 4.0, base * h);
            }
        }
    }
}

#[test]
fn lines_are_thirty_dots_apart_by_default() {
    let mut state = PrinterState::default();
    assert_eq!(line_spacing_dots(&state), 30);
    state.line_spacing = Some(64);
    assert_eq!(line_spacing_dots(&state), 64);
}

#[test]
fn padding_is_made_of_no_break_spaces() {
    assert_eq!(nbsp_pad(0), "");
    assert_eq!(nbsp_pad(3), "\u{A0}\u{A0}\u{A0}");
}

#[test]
fn lines_break_at_line_feeds_and_at_the_width() {
    assert_eq!(split_and_wrap("abcde", 2), vec!["ab", "cd", "e"]);
    assert_eq!(split_and_wrap("ab\ncd", 2), vec!["ab", "cd"]);
    assert_eq!(split_and_wrap("a\n\nb\n", 9), vec!["a", "", "b"]);
    assert_eq!(split_and_wrap("", 9), vec![""]);
    assert_eq!(split_and_wrap("\n", 9), vec![""]);
    assert_eq!(split_and_wrap("a\nb", 0), vec!["a\nb"]);
    assert_eq!(split_and_wrap("ñandú", 3), vec!["ñan", "dú"]);
}

#[test]
fn wrapping_loses_nothing_but_the_breaks() {
    let content = "lorem ipsum\ndolor sit\n\namet, consectetur";
    for width in 1..20 {
        let lines = split_and_wrap(content, width);
        assert_eq!(lines.concat(), content.replace('\n', ""));
        assert!(lines.iter().all(|l| l.chars().count() <= width));
    }
}

#[test]
fn lines_are_aligned_with_padding() {
    let mut state = PrinterState {
        char_width_mul: 4,
        ..PrinterState::default()
    };
    assert_eq!(display_lines(PaperWidth::W58mm, &state, "abc"), vec!["abc"]);
    state.alignment = Align::Center;
    assert_eq!(
        display_lines(PaperWidth::W58mm, &state, "abc\n12345678"),
        vec!["\u{A0}\u{A0}abc", "12345678"]
    );
    state.alignment = Align::Right;
    assert_eq!(
        display_lines(PaperWidth::W58mm, &state, "abcdef"),
        vec!["\u{A0}\u{A0}abcdef"]
    );
}

#[test]
fn text_in_one_style_is_one_item() {
    assert_eq!(
        shown(vec![text("ab"), text("cd"), control(Control::Newline), text("ef")]),
        vec!["text abcd", "feed", "text ef"]
    );
    assert_eq!(shown(vec![text("abcd")]), shown(vec![text("ab"), text("cd")]));
}

#[test]
fn text_in_another_style_is_another_item() {
    let bold = PrinterState {
        is_bold: true,
        ..PrinterState::default()
    };
    let commands = vec![
        (PrinterState::default(), text("ab")),
        (bold, text("cd")),
        (bold, text("ef")),
    ];
    let items = layout_ticket(&commands, PaperWidth::W58mm, false);
    assert_eq!(names(&items), vec!["text ab", "text cdef"]);
    assert!(matches!(&items[1], TicketItem::Text { state, .. } if state.is_bold));
}

#[test]
fn the_cursor_moves_text_to_its_column() {
    let at = |x: u16| PrinterState {
        cursor_x: Some(x),
        ..PrinterState::default()
    };
    let commands = vec![
        (PrinterState::default(), text("ab")),
        (at(60), text("cd")),
        (at(12), text("ef")),
    ];
    let items = layout_ticket(&commands, PaperWidth::W58mm, false);
    assert_eq!(names(&items), vec!["text ab   cdef"]);

    let mut bold = at(60);
    bold.is_bold = true;
    let commands = vec![(PrinterState::default(), text("ab")), (bold, text("cd"))];
    let items = layout_ticket(&commands, PaperWidth::W58mm, false);
    assert_eq!(names(&items), vec!["text ab   ", "text cd"]);

    // The first text of a line stays at its start.
    let items = layout_ticket(&vec![(at(60), text("ab"))], PaperWidth::W58mm, false);
    assert_eq!(names(&items), vec!["text ab"]);
}

#[test]
fn a_tab_goes_to_the_next_eighth_column() {
    assert_eq!(
        shown(vec![text("abc"), control(Control::Tab), text("d")]),
        vec!["text abc     d"]
    );
    assert_eq!(
        shown(vec![text("12345678"), control(Control::Tab), text("d")]),
        vec!["text 12345678        d"]
    );
    assert_eq!(shown(vec![control(Control::Tab), text("d")]), vec!["text d"]);
}

#[test]
fn empty_text_shows_nothing() {
    assert_eq!(shown(vec![text(""), control(Control::Cut)]), vec!["cut"]);
    assert_eq!(shown(vec![]), Vec::<String>::new());
}

#[test]
fn settings_and_unknown_bytes_show_nothing() {
    assert_eq!(
        shown(vec![
            text("a"),
            control(Control::Init),
            CommandType::Unknown(7),
            control(Control::Bold(true)),
            text("b"),
        ]),
        vec!["text ab"]
    );
}

#[test]
fn images_close_the_line_before_them() {
    assert_eq!(
        shown(vec![
            text("a"),
            control(Control::RasterImage { m: 0, width_bytes: 1, height: 1, data: vec![0x80] }),
            text("b"),
            control(Control::RasterImage { m: 0, width_bytes: 1, height: 2, data: vec![0x80] }),
            text("c"),
            control(Control::BitImage { mode: 0, width: 1, data: vec![1] }),
            control(Control::BitImage { mode: 0, width: 0, data: vec![] }),
            control(Control::OpenDrawer),
        ]),
        vec!["text a", "raster 1", "text b", "text c", "bit image 5", "drawer"]
    );
    let items = layout_ticket(
        &plain(vec![control(Control::RasterImage {
            m: 0,
            width_bytes: 1,
            height: 1,
            data: vec![0xA5],
        })]),
        PaperWidth::W58mm,
        false,
    );
    match &items[0] {
        TicketItem::Raster { align, image, source } => {
            assert_eq!((*align, *source), (Align::Left, 0));
            assert_eq!(Some(image.clone()), raster_to_image(1, 1, &[0xA5]));
        }
        other => panic!("unexpected item {other:?}"),
    }
}

#[test]
fn codes_are_shown_or_replaced_by_text() {
    let barcode = |m: u8, data: &[u8]| control(Control::Barcode { m, data: data.to_vec() });
    assert_eq!(
        shown(vec![
            barcode(0x45, b"AB"),
            barcode(0x0F, b"A\xFF"),
            control(Control::Qr { model: 2, module_size: 3, ecc: 48, data: b"x".to_vec() }),
            control(Control::Qr { model: 2, module_size: 3, ecc: 48, data: vec![0x55; 5000] }),
        ]),
        vec![
            "barcode AB false false 0",
            "barcode text [BARCODE m=0F] A\u{FFFD}",
            "qr 2",
            "invalid qr",
        ]
    );
}

#[test]
fn the_text_of_a_barcode_stands_where_the_printer_was_told() {
    let expected = [
        (BarcodeHriPosition::Hidden, "barcode 01 false false 0"),
        (BarcodeHriPosition::Above, "barcode 01 true false 0"),
        (BarcodeHriPosition::Below, "barcode 01 false true 0"),
        (BarcodeHriPosition::Both, "barcode 01 true true 0"),
    ];
    for (position, name) in expected {
        let state = PrinterState {
            barcode_hri: position,
            ..PrinterState::default()
        };
        let commands = vec![(state, control(Control::Barcode { m: 0x46, data: b"1".to_vec() }))];
        assert_eq!(
            names(&layout_ticket(&commands, PaperWidth::W80mm, false)),
            vec![name]
        );
    }
}

#[test]
fn debugging_adds_labels_before_what_they_name() {
    let commands = plain(vec![
        text("a"),
        control(Control::Bold(true)),
        text("b"),
        control(Control::Newline),
    ]);
    let items = layout_ticket(&commands, PaperWidth::W58mm, true);
    assert_eq!(
        names(&items),
        vec!["label ESC E (BOLD=true)", "label LF", "text ab", "feed"]
    );
}

#[test]
fn an_image_that_cannot_be_made_leaves_a_gap() {
    assert_eq!(
        shown(vec![
            text("a"),
            control(Control::Qr { model: 2, module_size: 3, ecc: 48, data: vec![0xAA; 2900] }),
            text("b"),
            control(Control::Qr { model: 2, module_size: 3, ecc: 48, data: b"x".to_vec() }),
        ]),
        vec!["text a", "unmade 1", "text b", "qr 3"]
    );
}

#[test]
fn controls_have_labels() {
    let expected = [
        (Control::Newline, "LF"),
        (Control::Tab, "HT (TAB)"),
        (Control::Init, "ESC @ (INIT)"),
        (Control::Bold(false), "ESC E (BOLD=false)"),
        (Control::Align(Align::Center), "ESC a (ALIGN=Center)"),
        (Control::CodePage(CodePage::Windows1252), "ESC t (CODEPAGE=Windows1252)"),
        (Control::Size { raw: 0x1A, width: 2, height: 3 }, "GS ! (SIZE raw=1A w=2 h=3)"),
        (Control::Cut, "GS V (CUT)"),
        (
            Control::RasterImage { m: 1, width_bytes: 48, height: 200, data: vec![0; 5] },
            "GS v 0 (IMG m=01 384x200 bytes=5)",
        ),
        (
            Control::Qr { model: 2, module_size: 6, ecc: 49, data: vec![0; 12] },
            "QR (model=2 size=6 ecc=49 bytes=12)",
        ),
        (Control::Barcode { m: 0x49, data: vec![0; 3] }, "GS k (BARCODE m=49 bytes=3)"),
        (Control::BarcodeHriPosition(BarcodeHriPosition::Hidden), "GS H (HRI=None)"),
        (Control::BarcodeHriPosition(BarcodeHriPosition::Both), "GS H (HRI=Both)"),
        (Control::BarcodeHeight(80), "GS h (BARCODE HEIGHT=80)"),
        (Control::BarcodeModuleWidth(3), "GS w (BARCODE WIDTH=3)"),
        (Control::BarcodeHriFont(1), "GS f (HRI FONT=1)"),
        (Control::AbsolutePosition { x: 65535 }, "ESC $ (POS=65535)"),
        (Control::RelativePosition { offset: -32768 }, "ESC \\ (OFFSET=-32768)"),
        (Control::RelativePosition { offset: 12 }, "ESC \\ (OFFSET=12)"),
        (Control::Underline(true), "ESC - (UNDERLINE=true)"),
        (Control::Reverse(true), "GS B (REVERSE=true)"),
        (Control::MasterSelect(0x0B), "ESC ! (MASTER=0B)"),
        (Control::LineSpacingDefault, "ESC 2 (LINE SPACING DEFAULT)"),
        (Control::LineSpacing(30), "ESC 3 (LINE SPACING=30)"),
        (
            Control::BitImage { mode: 33, width: 10, data: vec![0; 30] },
            "ESC * (BIT IMAGE mode=33 w=10 bytes=30)",
        ),
        (Control::FontSelect(true), "ESC M (FONT SELECT font_b=true)"),
        (Control::OpenDrawer, "ESC p (OPEN DRAWER)"),
        (Control::EscUnknown(0xFE), "ESC FE (?)"),
        (Control::GsUnknown(0), "GS 00 (?)"),
    ];
    for (given, label) in expected {
        assert_eq!(debug_label_for_control(&given), label);
    }
}

#[test]
fn the_log_has_a_line_a_command() {
    assert_eq!(log_line(7, &text("a\r\nb")), "0007: TXT  a  b");
    assert_eq!(log_line(12345, &CommandType::Unknown(0x1C)), "12345: UNK  1C");
    assert_eq!(log_line(0, &control(Control::Cut)), "0000: CTL  GS V (CUT)");
}

#[test]
fn the_log_cuts_long_text() {
    let exact = "x".repeat(60);
    assert_eq!(log_line(1, &text(&exact)), format!("0001: TXT  {exact}"));
    let long = "x".repeat(61);
    assert_eq!(log_line(1, &text(&long)), format!("0001: TXT  {exact}…"));
    let accents = "ñ".repeat(40);
    assert!(snippet_can_be_cut(&accents));
    assert_eq!(
        log_line(1, &text(&accents)),
        format!("0001: TXT  {}…", "ñ".repeat(30))
    );
    assert!(!snippet_can_be_cut(&format!("x{accents}")));
}

#[test]
fn a_ticket_shows_every_character_and_stays_on_the_paper() {
    let content = "El veloz murciélago hindú comía feliz cardillo y kiwi.\nLa cigüeña tocaba el saxofón";
    for align in [Align::Left, Align::Center, Align::Right] {
        let state = PrinterState {
            alignment: align,
            char_width_mul: 2,
            cursor_x: Some(200),
            ..PrinterState::default()
        };
        let bold = PrinterState {
            is_bold: true,
            ..PrinterState::default()
        };
        let commands = vec![
            (PrinterState::default(), text("Total")),
            (state, text(content)),
            (bold, control(Control::Tab)),
            (bold, text("fin")),
        ];
        let mut shown = String::new();
        for item in layout_ticket(&commands, PaperWidth::W58mm, true) {
            if let TicketItem::Text { state, lines } = item {
                let columns = effective_columns(PaperWidth::W58mm, &state);
                for line in lines {
                    assert!(line.chars().count() <= columns);
                    shown.push_str(&line);
                }
            }
        }
        let ink = |s: &str| -> String {
            s.chars().filter(|c| !matches!(c, ' ' | '\u{A0}' | '\n')).collect()
        };
        assert_eq!(ink(&shown), ink(&format!("Total{content}fin")));
    }
}
