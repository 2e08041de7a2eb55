//! Registration of the virtual printer with the system.

use crate::text::{from_utf8_lossy, lossy_text};
use vstd::prelude::*;
use vstd::utf8::*;

verus! {

/// Name under which the virtual printer is registered.
pub const PRINTER_NAME: &'static str = "ESCPos Viewer (TCP 9100)";

/// Registers the virtual printer, which only Windows can.
pub fn install_printer() -> (result: Result<(), String>)
    ensures
        result matches Err(message) && message@
            == "Instalacion de impresora solo soportada en Windows"@,
{
    Err("Instalacion de impresora solo soportada en Windows".to_owned())
}

/// Removes the virtual printer, which only Windows can.
pub fn uninstall_printer() -> (result: Result<(), String>)
    ensures
        result matches Err(message) && message@
            == "Desinstalacion de impresora solo soportada en Windows"@,
{
    Err("Desinstalacion de impresora solo soportada en Windows".to_owned())
}

/// Holds back the jobs of the virtual printer, or lets them through. There is nothing to hold
/// back where no printer can be registered.
pub fn set_printer_offline(offline: bool) -> (result: Result<(), String>)
    ensures
        result is Ok,
{
    Ok(())
}

/// What is done to the virtual printer.
#[derive(Clone, Copy, PartialEq, Eq, Structural, Debug)]
pub enum Setup {
    Install,
    Uninstall,
}

/// How the report of a failed setup begins.
pub open spec fn failure_heading(setup: Setup) -> Seq<char> {
    match setup {
        Setup::Install => "Fallo instalacion de impresora."@,
        Setup::Uninstall => "Fallo desinstalacion de impresora."@,
    }
}

/// The report of a failed setup: what the script wrote to its two streams.
pub open spec fn failure_report(setup: Setup, stdout: Seq<char>, stderr: Seq<char>) -> Seq<char> {
    failure_heading(setup) + "\nSTDOUT:\n"@ + stdout + "\nSTDERR:\n"@ + stderr
}

/// Reports a failed setup.
pub fn report_failure(setup: Setup, stdout: &str, stderr: &str) -> (report: String)
    ensures
        report@ == failure_report(setup, stdout@, stderr@),
{
    let mut report = match setup {
        Setup::Install => "Fallo instalacion de impresora.".to_owned(),
        Setup::Uninstall => "Fallo desinstalacion de impresora.".to_owned(),
    };
    report.append("\nSTDOUT:\n");
    report.append(stdout);
    report.append("\nSTDERR:\n");
    report.append(stderr);
    report
}

/// Judges a setup script by its exit status, and reports what it wrote where it failed.
pub fn setup_outcome(setup: Setup, success: bool, stdout: &[u8], stderr: &[u8]) -> (result: Result<
    (),
    String,
>)
    ensures
        result is Ok <==> success,
        result matches Err(report) ==> report@ == failure_report(
            setup,
            lossy_text(stdout@),
            lossy_text(stderr@),
        ),
        !success && valid_utf8(stdout@) ==> lossy_text(stdout@) == decode_utf8(stdout@),
        !success && valid_utf8(stderr@) ==> lossy_text(stderr@) == decode_utf8(stderr@),
{
    if success {
        Ok(())
    } else {
        let out = from_utf8_lossy(stdout);
        let err = from_utf8_lossy(stderr);
        Err(report_failure(setup, out.as_str(), err.as_str()))
    }
}

/// The PowerShell statement that switches the virtual printer.
pub open spec fn offline_script(offline: bool) -> Seq<char> {
    "$p = Get-CimInstance Win32_Printer | Where-Object Name -eq '"@ + PRINTER_NAME@
        + "'; if ($p) { $p.WorkOffline = "@ + (if offline {
        "$true"@
    } else {
        "$false"@
    }) + "; Set-CimInstance -InputObject $p }"@
}

/// The PowerShell command that runs that statement without a window.
pub open spec fn offline_command_text(offline: bool) -> Seq<char> {
    "Start-Process powershell -ArgumentList '-NoProfile', '-ExecutionPolicy', 'Bypass', '-Command', \""@
        + offline_script(offline) + "\" -WindowStyle Hidden"@
}

/// Writes the PowerShell command that switches the virtual printer off line or on line.
pub fn offline_command(offline: bool) -> (command: String)
    ensures
        command@ == offline_command_text(offline),
{
    let mut script =
        "$p = Get-CimInstance Win32_Printer | Where-Object Name -eq '".to_owned();
    script.append(PRINTER_NAME);
    script.append("'; if ($p) { $p.WorkOffline = ");
    script.append(if offline { "$true" } else { "$false" });
    script.append("; Set-CimInstance -InputObject $p }");
    let mut command =
        "Start-Process powershell -ArgumentList '-NoProfile', '-ExecutionPolicy', 'Bypass', '-Command', \"".to_owned();
    command.append(script.as_str());
    command.append("\" -WindowStyle Hidden");
    assert(command@ =~= offline_command_text(offline));
    command
}

/// Says that PowerShell could not be run for a setup.
pub fn run_failure(error: &str) -> (message: String)
    ensures
        message@ == "No se pudo ejecutar PowerShell: "@ + error@,
{
    let mut message = "No se pudo ejecutar PowerShell: ".to_owned();
    message.append(error);
    message
}

/// Says that PowerShell could not be started in the background.
pub fn launch_failure(error: &str) -> (message: String)
    ensures
        message@ == "No se pudo lanzar PowerShell: "@ + error@,
{
    let mut message = "No se pudo lanzar PowerShell: ".to_owned();
    message.append(error);
    message
}

/// The report of a failed setup begins with what failed, and shows what the script wrote to its
/// output first and what it wrote as errors last, both of them whole.
pub proof fn lemma_report_shows_both_streams(setup: Setup, stdout: Seq<char>, stderr: Seq<char>)
    ensures
        ({
            let report = failure_report(setup, stdout, stderr);
            let first = (if setup == Setup::Install {
                "Fallo instalacion de impresora.\nSTDOUT:\n"@
            } else {
                "Fallo desinstalacion de impresora.\nSTDOUT:\n"@
            }) + stdout;
            &&& first.is_prefix_of(report)
            &&& report.skip(first.len() as int) == "\nSTDERR:\n"@ + stderr
        }),
{
    reveal_strlit("Fallo instalacion de impresora.\nSTDOUT:\n");
    reveal_strlit("Fallo desinstalacion de impresora.\nSTDOUT:\n");
    reveal_strlit("Fallo instalacion de impresora.");
    reveal_strlit("Fallo desinstalacion de impresora.");
    reveal_strlit("\nSTDOUT:\n");
    let report = failure_report(setup, stdout, stderr);
    let heading = if setup == Setup::Install {
        "Fallo instalacion de impresora.\nSTDOUT:\n"@
    } else {
        "Fallo desinstalacion de impresora.\nSTDOUT:\n"@
    };
    assert(failure_heading(setup) + "\nSTDOUT:\n"@ =~= heading);
    let first = heading + stdout;
    assert(report =~= first + ("\nSTDERR:\n"@ + stderr));
    assert(report.subrange(0, first.len() as int) =~= first);
    assert(report.skip(first.len() as int) =~= "\nSTDERR:\n"@ + stderr);
}

/// Going off line and going on line are the same command but for the value that is set: `$true`
/// off line and `$false` on line, for the printer of this program.
pub proof fn lemma_offline_sets_the_value()
    ensures
        ({
            let before = "$p = Get-CimInstance Win32_Printer | Where-Object Name -eq '"@
                + "ESCPos Viewer (TCP 9100)"@ + "'; if ($p) { $p.WorkOffline = "@;
            let behind = "; Set-CimInstance -InputObject $p }"@;
            &&& offline_script(true) == before + "$true"@ + behind
            &&& offline_script(false) == before + "$false"@ + behind
        }),
        forall|offline: bool|
            #![trigger offline_command_text(offline)]
            offline_command_text(offline)
                == "Start-Process powershell -ArgumentList '-NoProfile', '-ExecutionPolicy', 'Bypass', '-Command', \""@
                + offline_script(offline) + "\" -WindowStyle Hidden"@,
{
}

} // verus!
