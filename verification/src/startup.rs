//! What the program does when it starts.

use crate::printer_setup::Setup;
use crate::text::chars_of;
use vstd::prelude::*;

verus! {

/// What the arguments of the program ask for.
#[derive(Clone, Copy, PartialEq, Eq, Structural, Debug)]
pub enum Startup {
    /// Set the virtual printer up, and end.
    Setup(Setup),
    /// Show the viewer.
    Viewer,
}

/// Whether some argument is `wanted`.
pub open spec fn has_argument(args: Seq<String>, wanted: Seq<char>) -> bool {
    exists|i: int| 0 <= i < args.len() && #[trigger] args[i]@ == wanted
}

fn holds_argument(args: &Vec<String>, wanted: &String) -> (held: bool)
    ensures
        held == has_argument(args@, wanted@),
{
    for i in 0..args.len()
        invariant
            forall|k: int| 0 <= k < i ==> #[trigger] args@[k]@ != wanted@,
    {
        if args[i] == *wanted {
            assert(args@[i as int]@ == wanted@);
            return true;
        }
    }
    false
}

/// Reads the arguments of the program. Installing goes before uninstalling.
pub fn startup(args: &Vec<String>) -> (start: Startup)
    ensures
        start == if has_argument(args@, "--install-printer"@) {
            Startup::Setup(Setup::Install)
        } else if has_argument(args@, "--uninstall-printer"@) {
            Startup::Setup(Setup::Uninstall)
        } else {
            Startup::Viewer
        },
{
    let install = "--install-printer".to_owned();
    let uninstall = "--uninstall-printer".to_owned();
    if holds_argument(args, &install) {
        Startup::Setup(Setup::Install)
    } else if holds_argument(args, &uninstall) {
        Startup::Setup(Setup::Uninstall)
    } else {
        Startup::Viewer
    }
}

/// The last words of a setup: the exit status, and the line for the user.
#[derive(Clone, Debug, PartialEq, Eq)]
pub struct SetupReport {
    pub status: i32,
    pub line: String,
}

/// Reports how a setup went: status 0 where it succeeded, and 1 with the error where it did not.
pub fn setup_report(setup: Setup, result: &Result<(), String>) -> (report: SetupReport)
    ensures
        match *result {
            Ok(()) => report.status == 0 && report.line@ == match setup {
                Setup::Install => "OK: impresora instalada"@,
                Setup::Uninstall => "OK: impresora desinstalada"@,
            },
            Err(error) => report.status == 1 && report.line@ == "ERROR: "@ + error@,
        },
{
    match result {
        Ok(()) => SetupReport {
            status: 0,
            line: match setup {
                Setup::Install => "OK: impresora instalada".to_owned(),
                Setup::Uninstall => "OK: impresora desinstalada".to_owned(),
            },
        },
        Err(error) => {
            let mut line = "ERROR: ".to_owned();
            line.append(error.as_str());
            SetupReport { status: 1, line }
        },
    }
}

/// The UTF-16 code units of a character: one, or a surrogate pair.
pub open spec fn utf16_units(c: char) -> Seq<u16> {
    let n = c as int;
    if n < 0x1_0000 {
        seq![n as u16]
    } else {
        seq![(0xD800 + (n - 0x1_0000) / 0x400) as u16, (0xDC00 + (n - 0x1_0000) % 0x400) as u16]
    }
}

/// The UTF-16 code units of a text.
pub open spec fn utf16(text: Seq<char>) -> Seq<u16>
    decreases text.len(),
{
    if text.len() == 0 {
        seq![]
    } else {
        utf16(text.drop_last()) + utf16_units(text.last())
    }
}

fn push_utf16(wide: &mut Vec<u16>, c: char)
    ensures
        final(wide)@ == old(wide)@ + utf16_units(c),
{
    let n: u32 = c as u32;
    if n < 0x1_0000 {
        wide.push(n as u16);
    } else {
        let beyond: u32 = n - 0x1_0000;
        wide.push((0xD800 + beyond / 0x400) as u16);
        wide.push((0xDC00 + beyond % 0x400) as u16);
    }
    assert(wide@ =~= old(wide)@ + utf16_units(c));
}

/// Writes a text in UTF-16 with a zero at the end, as the Windows API wants it.
pub fn wide_null_terminated(s: &str) -> (wide: Vec<u16>)
    ensures
        wide@ == utf16(s@).push(0),
{
    let chars = chars_of(s);
    let mut wide: Vec<u16> = Vec::new();
    for i in 0..chars.len()
        invariant
            wide@ == utf16(chars@.take(i as int)),
    {
        push_utf16(&mut wide, chars[i]);
        assert(chars@.take(i + 1).drop_last() =~= chars@.take(i as int));
    }
    assert(chars@.take(chars@.len() as int) =~= chars@);
    wide.push(0);
    wide
}

proof fn lemma_units_are_not_zero(c: char)
    requires
        c != '\0',
    ensures
        forall|k: int| 0 <= k < utf16_units(c).len() ==> #[trigger] utf16_units(c)[k] != 0,
{
}

/// A text without a zero character has its only zero at the end.
pub proof fn lemma_zero_ends_the_text(text: Seq<char>, i: int)
    requires
        forall|k: int| 0 <= k < text.len() ==> #[trigger] text[k] != '\0',
        0 <= i < utf16(text).len(),
    ensures
        utf16(text)[i] != 0,
    decreases text.len(),
{
    if text.len() > 0 {
        let front = utf16(text.drop_last());
        assert(text[text.len() - 1] != '\0');
        lemma_units_are_not_zero(text[text.len() - 1]);
        if i < front.len() {
            lemma_zero_ends_the_text(text.drop_last(), i);
        } else {
            assert(utf16(text)[i] == utf16_units(text.last())[i - front.len()]);
        }
    }
}

/// A character is written as its number in one unit, or as a surrogate pair from which its number
/// can be read.
pub proof fn lemma_units_write_the_character(c: char)
    ensures
        (c as int) < 0x1_0000 ==> utf16_units(c) == seq![c as u16],
        (c as int) >= 0x1_0000 ==> utf16_units(c).len() == 2 && 0xD800 <= utf16_units(c)[0] < 0xDC00
            && 0xDC00 <= utf16_units(c)[1] < 0xE000 && (utf16_units(c)[0] - 0xD800) * 0x400 + (
        utf16_units(c)[1] - 0xDC00) + 0x1_0000 == c as int,
{
}

/// Every character is written by itself, one after the other.
pub proof fn lemma_text_is_written_by_characters(a: Seq<char>, c: char, b: Seq<char>)
    ensures
        utf16(a + b) == utf16(a) + utf16(b),
        utf16(seq![c]) == utf16_units(c),
        utf16(seq![]) == Seq::<u16>::empty(),
    decreases b.len(),
{
    assert(seq![c].drop_last() =~= Seq::<char>::empty());
    assert(utf16(seq![c].drop_last()) =~= Seq::<u16>::empty());
    assert(utf16(seq![c]) =~= utf16_units(c));
    if b.len() == 0 {
        assert(a + b =~= a);
        assert(utf16(a) + utf16(b) =~= utf16(a));
    } else {
        lemma_text_is_written_by_characters(a, c, b.drop_last());
        assert((a + b).drop_last() =~= a + b.drop_last());
        assert(utf16(a + b) =~= utf16(a) + utf16(b));
    }
}

/// An argument is there where it is one of the arguments, letter for letter.
pub proof fn lemma_arguments_are_whole_words(args: Seq<String>, wanted: Seq<char>)
    ensures
        has_argument(args, wanted) <==> args.map_values(|arg: String| arg@).contains(wanted),
{
    let words = args.map_values(|arg: String| arg@);
    if has_argument(args, wanted) {
        let i = choose|i: int| 0 <= i < args.len() && #[trigger] args[i]@ == wanted;
        assert(words[i] == wanted);
    }
    if words.contains(wanted) {
        let i = choose|i: int| 0 <= i < words.len() && words[i] == wanted;
        assert(args[i]@ == wanted);
    }
}

} // verus!
