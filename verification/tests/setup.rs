use escpos_viewer::printer_setup::{
    install_printer, launch_failure, offline_command, run_failure, set_printer_offline,
    setup_outcome, uninstall_printer, Setup,
};
use escpos_viewer::startup::{setup_report, startup, wide_null_terminated, Startup};

fn args(given: &[&str]) -> Vec<String> {
    given.iter().map(|a| a.to_string()).collect()
}

#[test]
fn only_windows_has_the_printer() {
    assert_eq!(
        install_printer(),
        Err("Instalacion de impresora solo soportada en Windows".to_string())
    );
    assert_eq!(
        uninstall_printer(),
        Err("Desinstalacion de impresora solo soportada en Windows".to_string())
    );
    assert_eq!(set_printer_offline(true), Ok(()));
    assert_eq!(set_printer_offline(false), Ok(()));
}

#[test]
fn a_setup_that_fails_reports_both_streams() {
    assert_eq!(setup_outcome(Setup::Install, true, b"x", b"y"), Ok(()));
    assert_eq!(
        setup_outcome(Setup::Install, false, b"a\xFFb", b"err"),
        Err(
            "Fallo instalacion de impresora.\nSTDOUT:\na\u{FFFD}b\nSTDERR:\nerr".to_string()
        )
    );
    assert_eq!(
        setup_outcome(Setup::Uninstall, false, b"", b"err"),
        Err("Fallo desinstalacion de impresora.\nSTDOUT:\n\nSTDERR:\nerr".to_string())
    );
    assert_eq!(run_failure("e"), "No se pudo ejecutar PowerShell: e");
    assert_eq!(launch_failure("e"), "No se pudo lanzar PowerShell: e");
}

#[test]
fn the_printer_is_switched_by_a_hidden_command() {
    assert_eq!(
        offline_command(true),
        "Start-Process powershell -ArgumentList '-NoProfile', '-ExecutionPolicy', 'Bypass', '-Command', \"$p = Get-CimInstance Win32_Printer | Where-Object Name -eq 'ESCPos Viewer (TCP 9100)'; if ($p) { $p.WorkOffline = $true; Set-CimInstance -InputObject $p }\" -WindowStyle Hidden"
    );
    assert_eq!(
        offline_command(false),
        offline_command(true).replace("$true", "$false")
    );
}

#[test]
fn arguments_ask_for_a_setup() {
    assert_eq!(startup(&args(&["viewer"])), Startup::Viewer);
    assert_eq!(startup(&args(&[])), Startup::Viewer);
    assert_eq!(
        startup(&args(&["viewer", "--uninstall-printer"])),
        Startup::Setup(Setup::Uninstall)
    );
    assert_eq!(
        startup(&args(&["viewer", "--uninstall-printer", "--install-printer"])),
        Startup::Setup(Setup::Install)
    );
    assert_eq!(startup(&args(&["--install"])), Startup::Viewer);
}

#[test]
fn a_setup_ends_with_a_status_and_a_line() {
    let report = setup_report(Setup::Install, &Ok(()));
    assert_eq!((report.status, report.line.as_str()), (0, "OK: impresora instalada"));
    let report = setup_report(Setup::Uninstall, &Ok(()));
    assert_eq!((report.status, report.line.as_str()), (0, "OK: impresora desinstalada"));
    let report = setup_report(Setup::Install, &Err("no".to_string()));
    assert_eq!((report.status, report.line.as_str()), (1, "ERROR: no"));
}

#[test]
fn wide_text_is_utf16_with_a_zero() {
    for text in ["Visor ESC-POS", "", "ñ€😀x"] {
        let mut expected: Vec<u16> = text.encode_utf16().collect();
        expected.push(0);
        assert_eq!(wide_null_terminated(text), expected);
    }
    assert_eq!(wide_null_terminated("😀"), vec![0xD83D, 0xDE00, 0]);
}
