use escpos_viewer::model::{Align, CodePage, CommandType, Control, PaperWidth, PrinterState};
use escpos_viewer::tcp_capture::{
    accept_step, job_source, read_one_job, AcceptEvent, AcceptStep, CapturedJob, JobReader,
    ReadEvent, ReadStep,
};
use escpos_viewer::viewer::capture::{CaptureState, CaptureStep};
use escpos_viewer::viewer::job::{
    copy_bytes, format_age_short, leaves_no_ink, shows_nothing, tab_text, time_since, JobEntry,
    SECOND,
};
use escpos_viewer::viewer::list::{Bounds, JobList};
use escpos_viewer::viewer::state::EscPosViewer;
use escpos_viewer::viewer::textures::{TextureCache, MAX_TEXTURE_CACHE};
use escpos_viewer::viewer::window::{
    paper_dots, target_window_width_px, FramePlan, UiMode, WindowState,
};
use escpos_viewer::window_control::{
    center_on_screen, center_possible, snap_near_right, snap_possible, taskbar_style, ScreenRect,
};

fn parse(bytes: &Vec<u8>, codepage: CodePage) -> Vec<(PrinterState, CommandType)> {
    let mut out = Vec::new();
    for &byte in bytes {
        let command = match byte {
            b'\n' => CommandType::Control(Control::Newline),
            0x1D => CommandType::Control(Control::Cut),
            0..=0x1F => CommandType::Unknown(byte),
            _ => CommandType::Text((byte as char).to_string()),
        };
        out.push((PrinterState::default(), command));
    }
    if codepage == CodePage::Cp437 {
        out.push((
            PrinterState::default(),
            CommandType::Control(Control::CodePage(codepage)),
        ));
    }
    out
}

fn viewer(simulate: bool) -> EscPosViewer {
    let mut viewer = EscPosViewer::default();
    viewer.printing.simulate_printing = simulate;
    viewer
}

fn push(viewer: &mut EscPosViewer, label: &str, bytes: &[u8], now: u64) {
    viewer.push_new_job(&parse, label.to_string(), bytes.to_vec(), now);
}

fn labels(viewer: &EscPosViewer) -> Vec<String> {
    viewer.history.jobs.iter().map(|j| j.label.clone()).collect()
}

fn active_label(viewer: &EscPosViewer) -> Option<String> {
    viewer.active_job().map(|j| j.label.clone())
}

#[test]
fn a_viewer_starts_without_jobs() {
    let viewer = EscPosViewer::default();
    assert!(viewer.active_job().is_none());
    assert_eq!(viewer.scroll_state(), (0, false));
    assert_eq!(viewer.printing.max_jobs, 25);
    assert_eq!(viewer.printing.sim_bytes_per_sec, 1_000);
    assert_eq!(viewer.prune_minutes(), 120);
    assert_eq!(viewer.capture.ignore_noise_jobs_max_bytes, 32);
    assert_eq!(viewer.window.ui_mode, UiMode::Preview);
    assert_eq!(viewer.printing.codepage, CodePage::Utf8Lossy);
}

#[test]
fn a_job_without_simulation_is_printed_at_once() {
    let mut viewer = viewer(false);
    push(&mut viewer, "a", b"xy", 5);
    let job = viewer.active_job().unwrap();
    assert_eq!(job.id, 1);
    assert_eq!(job.display_bytes, b"xy");
    assert_eq!(job.parsed_commands.len(), 2);
    assert!(!job.sim_active);
    assert_eq!(viewer.active_simulation_start(), None);
    assert_eq!(viewer.scroll_state(), (1, false));
}

#[test]
fn a_simulated_job_is_printed_step_by_step() {
    let mut viewer = viewer(true);
    push(&mut viewer, "a", b"hello", 7);
    assert_eq!(viewer.active_simulation_start(), Some(7));
    assert_eq!(viewer.scroll_state(), (1, true));
    assert_eq!(viewer.active_job().unwrap().parsed_commands.len(), 0);
    viewer.tick_simulation(&parse, 2);
    assert_eq!(viewer.active_job().unwrap().display_bytes, b"he");
    viewer.tick_simulation(&parse, 1);
    assert_eq!(viewer.active_job().unwrap().display_bytes, b"he");
    viewer.tick_simulation(&parse, 900);
    let job = viewer.active_job().unwrap();
    assert_eq!(job.display_bytes, b"hello");
    assert_eq!(job.parsed_commands.len(), 5);
    assert_eq!((job.sim_active, job.sim_started_at, job.sim_sent), (false, None, 5));
    viewer.tick_simulation(&parse, 0);
    assert_eq!(viewer.active_job().unwrap().display_bytes, b"hello");
}

#[test]
fn an_empty_job_ends_with_the_first_step() {
    let mut viewer = viewer(true);
    push(&mut viewer, "a", b"", 7);
    assert!(viewer.active_job().unwrap().sim_active);
    viewer.tick_simulation(&parse, 0);
    assert!(!viewer.active_job().unwrap().sim_active);
}

#[test]
fn a_new_job_ends_the_printing_of_the_one_before() {
    let mut viewer = viewer(true);
    push(&mut viewer, "a", b"hello", 1);
    viewer.tick_simulation(&parse, 1);
    push(&mut viewer, "b", b"world", 2);
    assert_eq!(active_label(&viewer), Some("b".to_string()));
    let first = &viewer.history.jobs[0];
    assert_eq!(first.display_bytes, b"hello");
    assert_eq!((first.sim_active, first.sim_sent), (false, 5));
    assert_eq!(first.parsed_commands.len(), 5);
}

#[test]
fn switching_simulation_off_shows_the_whole_job() {
    let mut viewer = viewer(true);
    push(&mut viewer, "a", b"hello", 1);
    viewer.set_simulate_printing(&parse, true);
    assert!(viewer.active_job().unwrap().sim_active);
    viewer.set_simulate_printing(&parse, false);
    assert_eq!(viewer.active_job().unwrap().display_bytes, b"hello");
    assert!(!viewer.printing.simulate_printing);
}

#[test]
fn another_code_page_reads_all_jobs_again() {
    let mut viewer = viewer(false);
    push(&mut viewer, "a", b"x", 1);
    push(&mut viewer, "b", b"", 2);
    viewer.set_codepage(&parse, CodePage::Cp437);
    assert_eq!(viewer.printing.codepage, CodePage::Cp437);
    assert_eq!(viewer.history.jobs[0].parsed_commands.len(), 2);
    assert_eq!(viewer.history.jobs[1].parsed_commands.len(), 0);
    viewer.reparse_all_jobs(&parse);
    assert_eq!(viewer.history.jobs[0].parsed_commands.len(), 2);
    viewer.set_codepage(&parse, CodePage::Cp850);
    assert_eq!(viewer.history.jobs[0].parsed_commands.len(), 1);
}

#[test]
fn the_oldest_jobs_leave_a_full_history() {
    let mut viewer = viewer(false);
    viewer.printing.max_jobs = 2;
    for (i, label) in ["a", "b", "c"].iter().enumerate() {
        push(&mut viewer, label, b"x", i as u64);
    }
    assert_eq!(labels(&viewer), vec!["b", "c"]);
    assert_eq!(active_label(&viewer), Some("c".to_string()));
    assert_eq!(viewer.history.next_id, 4);

    viewer.printing.max_jobs = 0;
    viewer.prune_jobs(3);
    assert!(viewer.active_job().is_none());
    assert_eq!(labels(&viewer), Vec::<String>::new());
}

#[test]
fn a_step_reads_the_shown_job_again_and_no_other() {
    let mut viewer = viewer(true);
    push(&mut viewer, "a", b"xy", 1);
    push(&mut viewer, "b", b"xyz", 2);
    // commands that the parser did not make
    viewer.history.jobs[0].parsed_commands.clear();
    viewer.tick_simulation(&parse, 0);
    assert_eq!(viewer.history.jobs[1].parsed_commands.len(), 0);
    viewer.tick_simulation(&parse, 2);
    assert_eq!(viewer.history.jobs[1].parsed_commands.len(), 2);
    viewer.stop_active_simulation_show_full(&parse);
    assert_eq!(viewer.history.jobs[1].parsed_commands.len(), 3);
    viewer.set_simulate_printing(&parse, false);
    push(&mut viewer, "c", b"w", 3);
    assert_eq!(viewer.history.jobs[2].parsed_commands.len(), 1);
    assert_eq!(viewer.history.jobs[0].parsed_commands.len(), 0);
    assert_eq!(viewer.history.active, Some(2));
}

#[test]
fn textures_are_bounded_after_every_frame() {
    let mut cache: TextureCache<&str> = TextureCache::new();
    for frame in 0..10u64 {
        for image in 0..30 {
            cache.keep(30 * frame + image, "made");
        }
        cache.evict_texture_cache();
        assert!(cache.len() <= MAX_TEXTURE_CACHE);
    }
    // 90 textures after three frames, none after the fourth
    assert_eq!(cache.len(), 60);
    assert_eq!(cache.get(0), None);
}

#[test]
fn a_texture_is_made_once() {
    let mut cache: TextureCache<&str> = TextureCache::new();
    assert_eq!(cache.get(7), None);
    cache.keep(7, "first");
    cache.keep(7, "second");
    assert_eq!(cache.get(7), Some(&"first"));
    for key in 100..199 {
        cache.keep(key, "other");
    }
    assert_eq!(cache.len(), MAX_TEXTURE_CACHE);
    cache.evict_texture_cache();
    assert_eq!(cache.len(), 100);
    cache.keep(8, "one more");
    cache.evict_texture_cache();
    assert_eq!(cache.len(), 0);
}

#[test]
fn a_job_without_printed_bytes_has_no_commands_when_read_again() {
    // this parser ends every job with a command, the empty one too
    let mut viewer = viewer(false);
    viewer.printing.codepage = CodePage::Cp437;
    push(&mut viewer, "a", b"", 1);
    assert_eq!(viewer.history.jobs[0].parsed_commands.len(), 1);
    viewer.reparse_all_jobs(&parse);
    assert_eq!(viewer.history.jobs[0].parsed_commands.len(), 0);
}

#[test]
fn pruning_leaves_the_newest_jobs_as_they_are() {
    let mut viewer = viewer(false);
    for (i, label) in ["a", "b", "c", "d"].iter().enumerate() {
        push(&mut viewer, label, label.as_bytes(), i as u64);
    }
    let before = viewer.history.jobs.clone();
    viewer.printing.max_jobs = 3;
    viewer.prune_jobs(u64::MAX);
    let shown = |jobs: &[JobEntry]| -> Vec<String> {
        jobs.iter().map(|job| format!("{:?}", job)).collect()
    };
    assert_eq!(shown(&viewer.history.jobs), shown(&before[1..]));
    viewer.prune_jobs(u64::MAX);
    assert_eq!(shown(&viewer.history.jobs), shown(&before[1..]));
    assert_eq!(active_label(&viewer), Some("d".to_string()));
}

#[test]
fn jobs_that_are_too_old_leave_the_history() {
    let mut viewer = viewer(false);
    viewer.printing.auto_prune_by_age = true;
    viewer.set_prune_minutes(1);
    push(&mut viewer, "a", b"x", 0);
    push(&mut viewer, "b", b"x", 30 * SECOND);
    push(&mut viewer, "c", b"x", 60 * SECOND);
    assert_eq!(labels(&viewer), vec!["a", "b", "c"]);
    viewer.prune_jobs(60 * SECOND + 1);
    assert_eq!(labels(&viewer), vec!["b", "c"]);
    viewer.history.select(0);
    viewer.prune_jobs(60 * SECOND + 1);
    assert_eq!(active_label(&viewer), Some("b".to_string()));
    viewer.prune_jobs(91 * SECOND);
    assert_eq!(labels(&viewer), vec!["c"]);
    assert_eq!(active_label(&viewer), Some("c".to_string()));
    viewer.prune_jobs(u64::MAX);
    assert!(viewer.active_job().is_none());
}

#[test]
fn the_shown_job_stays_shown_while_older_ones_leave() {
    let mut viewer = viewer(false);
    for label in ["a", "b", "c"] {
        push(&mut viewer, label, b"x", 0);
    }
    viewer.history.select(1);
    viewer.printing.max_jobs = 2;
    viewer.prune_jobs(0);
    assert_eq!(labels(&viewer), vec!["b", "c"]);
    assert_eq!(active_label(&viewer), Some("b".to_string()));
    viewer.prune_jobs(0);
    assert_eq!(active_label(&viewer), Some("b".to_string()));
}

#[test]
fn closing_a_tab_shows_its_neighbour() {
    let mut viewer = viewer(false);
    for label in ["a", "b", "c"] {
        push(&mut viewer, label, b"x", 0);
    }
    viewer.history.select(1);
    viewer.history.close(2);
    assert_eq!(active_label(&viewer), Some("b".to_string()));
    viewer.history.close(0);
    assert_eq!(active_label(&viewer), Some("b".to_string()));
    push(&mut viewer, "d", b"x", 0);
    viewer.history.close(1);
    assert_eq!(active_label(&viewer), Some("b".to_string()));
    viewer.history.close(0);
    assert!(viewer.active_job().is_none());
}

#[test]
fn closing_the_first_tab_shows_the_next() {
    let mut viewer = viewer(false);
    push(&mut viewer, "a", b"x", 0);
    push(&mut viewer, "b", b"x", 0);
    viewer.history.select(0);
    viewer.history.close(0);
    assert_eq!(active_label(&viewer), Some("b".to_string()));
}

#[test]
fn clearing_the_history_keeps_the_numbering() {
    let mut viewer = viewer(false);
    push(&mut viewer, "a", b"x", 0);
    viewer.history.clear();
    assert!(viewer.active_job().is_none());
    push(&mut viewer, "b", b"x", 0);
    assert_eq!(viewer.active_job().unwrap().id, 2);
}

#[test]
fn numbers_end_with_the_last_one() {
    let mut list = JobList::new();
    list.next_id = u64::MAX;
    let bounds = Bounds {
        max_jobs: 25,
        max_age_secs: None,
    };
    for label in ["a", "b"] {
        list.push(
            &parse,
            CodePage::Utf8Lossy,
            label.to_string(),
            vec![],
            0,
            false,
            bounds,
        );
    }
    assert_eq!(list.next_id, u64::MAX);
    assert_eq!(list.active, Some(0));
}

#[test]
fn prune_minutes_are_at_least_one() {
    let mut viewer = EscPosViewer::default();
    viewer.printing.prune_after_secs = 59;
    assert_eq!(viewer.prune_minutes(), 1);
    viewer.set_prune_minutes(90);
    assert_eq!(viewer.printing.prune_after_secs, 5400);
    assert_eq!(viewer.prune_minutes(), 90);
}

#[test]
fn short_jobs_that_show_nothing_are_noise() {
    let mut viewer = viewer(false);
    assert!(viewer.should_ignore_tcp_job(&parse, &vec![]));
    assert!(viewer.should_ignore_tcp_job(&parse, &b" \n\x10".to_vec()));
    assert!(!viewer.should_ignore_tcp_job(&parse, &b" x ".to_vec()));
    assert!(!viewer.should_ignore_tcp_job(&parse, &b"\x1D".to_vec()));
    assert!(viewer.should_ignore_tcp_job(&parse, &vec![b' '; 32]));
    assert!(!viewer.should_ignore_tcp_job(&parse, &vec![b' '; 33]));
    viewer.capture.ignore_noise_jobs = false;
    assert!(!viewer.should_ignore_tcp_job(&parse, &vec![]));
}

#[test]
fn visible_commands_are_no_noise() {
    let of = |command: CommandType| vec![(PrinterState::default(), command)];
    assert!(shows_nothing(&vec![]));
    assert!(shows_nothing(&of(CommandType::Control(Control::Init))));
    assert!(shows_nothing(&of(CommandType::Control(Control::Align(Align::Left)))));
    assert!(!shows_nothing(&of(CommandType::Control(Control::BitImage {
        mode: 0,
        width: 1,
        data: vec![1],
    }))));
    assert!(shows_nothing(&of(CommandType::Text("\u{A0}\u{3000}".to_string()))));
    assert!(!shows_nothing(&of(CommandType::Control(Control::Qr {
        model: 2,
        module_size: 3,
        ecc: 48,
        data: vec![],
    }))));
    assert!(!shows_nothing(&of(CommandType::Control(Control::Barcode { m: 0, data: vec![] }))));
    assert!(!shows_nothing(&of(CommandType::Control(Control::RasterImage {
        m: 0,
        width_bytes: 0,
        height: 0,
        data: vec![],
    }))));
}

#[test]
fn white_space_is_what_unicode_calls_so() {
    for c in '\0'..=char::MAX {
        assert_eq!(leaves_no_ink(c), c.is_whitespace());
    }
}

#[test]
fn a_job_over_tcp_is_taken_in_under_its_source() {
    let mut viewer = viewer(false);
    viewer.window.hidden_to_tray = true;
    let noise = CapturedJob {
        source: "p -> q".to_string(),
        bytes: vec![0x10],
    };
    assert!(!viewer.receive_job(&parse, noise, 3));
    assert!(viewer.window.hidden_to_tray);
    assert!(viewer.active_job().is_none());
    let job = CapturedJob {
        source: "p -> q".to_string(),
        bytes: b"ticket".to_vec(),
    };
    assert!(viewer.receive_job(&parse, job, 3));
    assert!(!viewer.window.hidden_to_tray);
    let job = viewer.active_job().unwrap();
    assert_eq!(job.label, "TCP 9100 (p -> q)");
    assert_eq!(job.created_at, 3);
    assert_eq!(job.full_bytes, b"ticket");
}

#[test]
fn ages_are_in_seconds_minutes_or_hours() {
    assert_eq!(format_age_short(0), "0s");
    assert_eq!(format_age_short(59), "59s");
    assert_eq!(format_age_short(60), "1m");
    assert_eq!(format_age_short(3599), "59m");
    assert_eq!(format_age_short(3600), "1h");
    assert_eq!(format_age_short(360_000), "100h");
    assert_eq!(time_since(3, 10), 7);
    assert_eq!(time_since(10, 3), 0);
}

#[test]
fn a_tab_shows_number_title_age_and_size() {
    let mut job = JobEntry {
        id: 12,
        label: "ticket.prn".to_string(),
        created_at: SECOND,
        full_bytes: vec![0; 345],
        display_bytes: vec![0; 345],
        parsed_commands: vec![],
        sim_active: false,
        sim_started_at: None,
        sim_sent: 345,
    };
    assert_eq!(tab_text(&job, 66 * SECOND), "#12 ticket.prn (1m · 345b)");
    job.label = "abcdefghijklmnopqrstuvwxyz".to_string();
    assert_eq!(tab_text(&job, 0), "#12 abcdefghijklmnopqrstuvwxyz (0s · 345b)");
    job.label = "ábcdefghijklmnopqrstuvwxyz0".to_string();
    assert_eq!(tab_text(&job, 0), "#12 ábcdefghijklmnopqrstuvwxyz… (0s · 345b)");
    assert_eq!(copy_bytes(&vec![1, 2]), vec![1, 2]);
}

#[test]
fn the_listener_is_kept_as_the_user_wants_it() {
    let mut capture = CaptureState::new();
    assert_eq!(capture.step(), CaptureStep::Start);
    capture.start_failed("en uso");
    assert_eq!(
        capture.last_error.as_deref(),
        Some("No se pudo escuchar 127.0.0.1:9100 (en uso)")
    );
    assert_eq!(capture.step(), CaptureStep::Nothing);
    assert_eq!(capture.set_tcp_capture(true), CaptureStep::Start);
    capture.started();
    assert_eq!(capture.last_error, None);
    assert_eq!(capture.step(), CaptureStep::Nothing);
    assert_eq!(capture.set_tcp_capture(true), CaptureStep::Nothing);
    assert_eq!(capture.set_tcp_capture(false), CaptureStep::Stop);
    assert_eq!(capture.step(), CaptureStep::Stop);
    capture.stopped();
    assert_eq!(capture.step(), CaptureStep::Nothing);
    assert_eq!(capture.set_tcp_capture(false), CaptureStep::Nothing);
}

#[test]
fn the_listener_reads_pauses_or_leaves() {
    assert_eq!(accept_step(false, AcceptEvent::Connected), AcceptStep::ReadJob);
    assert_eq!(accept_step(false, AcceptEvent::WouldBlock), AcceptStep::Pause);
    assert_eq!(accept_step(false, AcceptEvent::Failed), AcceptStep::Leave);
    assert_eq!(accept_step(true, AcceptEvent::Connected), AcceptStep::Leave);
    assert_eq!(job_source("1.2.3.4:5", "127.0.0.1:9100"), "1.2.3.4:5 -> 127.0.0.1:9100");
}

#[test]
fn a_connection_makes_one_job() {
    let events = vec![
        ReadEvent::Data(b"Hello, ".to_vec()),
        ReadEvent::WouldBlock,
        ReadEvent::Data(b"ESC/POS!".to_vec()),
        ReadEvent::Data(vec![]),
        ReadEvent::Data(b"late".to_vec()),
    ];
    let job = read_one_job(&events, "s".to_string()).unwrap();
    assert_eq!(job.bytes, b"Hello, ESC/POS!");
    assert_eq!(job.source, "s");
    let events = vec![ReadEvent::Data(b"x".to_vec()), ReadEvent::TimedOut];
    assert_eq!(read_one_job(&events, "s".to_string()).unwrap().bytes, b"x");
}

#[test]
fn a_connection_without_data_makes_no_job() {
    assert!(read_one_job(&vec![ReadEvent::Data(vec![])], "s".to_string()).is_none());
    assert!(read_one_job(&vec![ReadEvent::TimedOut], "s".to_string()).is_none());
    assert!(read_one_job(&vec![], "s".to_string()).is_none());
}

#[test]
fn a_broken_connection_makes_no_job() {
    let events = vec![ReadEvent::Data(b"x".to_vec()), ReadEvent::Failed];
    assert!(read_one_job(&events, "s".to_string()).is_none());
    let mut reader = JobReader::new();
    assert_eq!(reader.on_read(&events[0]), ReadStep::ReadMore);
    assert_eq!(reader.on_read(&events[1]), ReadStep::Abandon);
    assert_eq!(reader.finish("s".to_string()).unwrap().bytes, b"x");
}

#[test]
fn the_first_frame_sizes_and_centers_the_window() {
    let mut window = WindowState::new();
    assert_eq!(
        window.begin_frame(false),
        FramePlan {
            snap_right: false,
            initial_width: Some(375),
            center: true,
            changed_width: None,
        }
    );
    window.end_frame();
    let quiet = FramePlan {
        snap_right: false,
        initial_width: None,
        center: false,
        changed_width: None,
    };
    assert_eq!(window.begin_frame(false), quiet);
    window.end_frame();
    window.paper_width = PaperWidth::W80mm;
    assert_eq!(window.begin_frame(false).changed_width, Some(480));
    window.end_frame();
    assert_eq!(window.begin_frame(false), quiet);
}

#[test]
fn entering_the_preview_moves_the_window() {
    let mut window = WindowState::new();
    window.begin_frame(true);
    assert_eq!(window.ui_mode, UiMode::Full);
    window.end_frame();
    assert!(window.begin_frame(true).snap_right);
    assert_eq!(window.ui_mode, UiMode::Preview);
    window.end_frame();
    assert!(!window.begin_frame(false).snap_right);
}

#[test]
fn closing_hides_the_window_where_there_is_a_tray() {
    let mut window = WindowState::new();
    assert!(window.needs_tray());
    assert!(!window.close_requested());
    assert!(!window.take_pending_hide());
    window.tray_started(Ok(()));
    assert!(!window.needs_tray());
    assert!(window.close_requested());
    assert!(window.take_pending_hide());
    assert!(window.hidden_to_tray);
    assert!(!window.take_pending_hide());

    let mut window = WindowState::new();
    window.tray_started(Err("tray build: x".to_string()));
    assert!(!window.needs_tray());
    assert!(!window.tray_ready);
    assert_eq!(window.tray_error.as_deref(), Some("tray build: x"));
}

#[test]
fn papers_have_their_widths() {
    assert_eq!(target_window_width_px(PaperWidth::W58mm), 375);
    assert_eq!(target_window_width_px(PaperWidth::W80mm), 480);
    assert_eq!(paper_dots(PaperWidth::W58mm), 384);
    assert_eq!(paper_dots(PaperWidth::W80mm), 576);
}

fn rect(left: i32, top: i32, right: i32, bottom: i32) -> ScreenRect {
    ScreenRect {
        left,
        top,
        right,
        bottom,
    }
}

#[test]
fn a_window_snaps_to_the_lower_right_corner() {
    let window = rect(10, 10, 385, 610);
    let work = rect(0, 0, 1920, 1040);
    assert!(snap_possible(window, work, 14));
    assert_eq!(snap_near_right(window, work, 14), (1531, 426));
    assert_eq!(snap_near_right(window, work, -5), (1545, 440));
    // A window that leaves no room for the margin, or none at all, begins where the screen does.
    assert_eq!(snap_near_right(rect(0, 0, 95, 50), rect(0, 0, 100, 100), 10), (0, 40));
    assert_eq!(snap_near_right(rect(0, 0, 3000, 2000), work, 14), (0, 0));
    assert_eq!(snap_near_right(rect(5, 5, 5, 5), work, 0), (1919, 1039));
    assert!(!snap_possible(rect(i32::MIN, 0, i32::MAX, 10), work, 14));
    assert!(!snap_possible(window, rect(i32::MIN, 0, i32::MIN, 10), 14));
    assert!(snap_possible(window, rect(i32::MAX, 0, i32::MAX, 10), 14));
    assert_eq!(
        snap_near_right(window, rect(i32::MAX, 0, i32::MAX, 10), 14),
        (i32::MAX, 0)
    );
}

#[test]
fn a_window_is_centered() {
    let work = rect(100, 50, 1101, 851);
    let window = rect(0, 0, 400, 600);
    assert!(center_possible(window, work));
    assert_eq!(center_on_screen(window, work), (400, 150));
    // Halves are rounded towards zero where the window is larger.
    assert_eq!(center_on_screen(rect(0, 0, 1004, 804), work), (99, 49));
    assert!(!center_possible(rect(i32::MIN, 0, i32::MAX, 1), work));
}

#[test]
fn one_of_two_style_bits_is_set() {
    let style = 0x0000_0100;
    assert_eq!(taskbar_style(style, true), 0x4_0100);
    assert_eq!(taskbar_style(style, false), 0x180);
    assert_eq!(taskbar_style(taskbar_style(style, false), true), 0x4_0100);
    assert_eq!(taskbar_style(taskbar_style(style, true), false), 0x180);
}

#[test]
fn a_job_does_not_depend_on_how_it_was_cut() {
    let whole = vec![ReadEvent::Data(b"abcdef".to_vec()), ReadEvent::Data(vec![])];
    let cut = vec![
        ReadEvent::Data(b"ab".to_vec()),
        ReadEvent::WouldBlock,
        ReadEvent::Data(b"c".to_vec()),
        ReadEvent::Data(b"def".to_vec()),
        ReadEvent::TimedOut,
    ];
    assert_eq!(
        read_one_job(&whole, "s".to_string()).unwrap().bytes,
        read_one_job(&cut, "s".to_string()).unwrap().bytes
    );
}

#[test]
fn a_job_does_not_depend_on_the_steps_of_printing() {
    let mut steps = viewer(true);
    push(&mut steps, "a", b"hello", 0);
    steps.tick_simulation(&parse, 1);
    steps.tick_simulation(&parse, 4);
    let mut leap = viewer(true);
    push(&mut leap, "a", b"hello", 0);
    leap.tick_simulation(&parse, 4);
    let (a, b) = (steps.active_job().unwrap(), leap.active_job().unwrap());
    assert_eq!(a.display_bytes, b"hell");
    assert_eq!(a.display_bytes, b.display_bytes);
    assert_eq!(a.parsed_commands.len(), b.parsed_commands.len());
    assert!(a.sim_active && b.sim_active);
}
