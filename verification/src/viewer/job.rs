//! A job in the history of the viewer.

use crate::model::{CodePage, CommandType, Control, PrinterState};
use crate::text::{
    chars_of, decimal, lemma_decimal_writes_the_number, number_written, push_decimal,
};
use vstd::prelude::*;

verus! {

/// A job: its bytes, and how much of them has been printed. Times are in nanoseconds since the
/// viewer was started.
#[derive(Clone, Debug)]
pub struct JobEntry {
    pub id: u64,
    pub label: String,
    pub created_at: u64,
    /// Everything that was received.
    pub full_bytes: Vec<u8>,
    /// What has been printed.
    pub display_bytes: Vec<u8>,
    /// The commands in what has been printed.
    pub parsed_commands: Vec<(PrinterState, CommandType)>,
    /// Whether the job is still being printed.
    pub sim_active: bool,
    pub sim_started_at: Option<u64>,
    /// How many bytes have been printed.
    pub sim_sent: usize,
}

/// What a job is, apart from its commands. The bytes that have been printed are the first `sent`.
pub struct JobView {
    pub id: u64,
    pub label: Seq<char>,
    pub created_at: u64,
    pub full: Seq<u8>,
    pub sent: nat,
    pub sim_active: bool,
    pub started: Option<u64>,
}

impl View for JobEntry {
    type V = JobView;

    open spec fn view(&self) -> JobView {
        JobView {
            id: self.id,
            label: self.label@,
            created_at: self.created_at,
            full: self.full_bytes@,
            sent: self.sim_sent as nat,
            sim_active: self.sim_active,
            started: self.sim_started_at,
        }
    }
}

impl JobEntry {
    /// What has been printed is the beginning of the job, and all of it once printing has ended.
    pub open spec fn wf(self) -> bool {
        &&& self.sim_sent <= self.full_bytes@.len()
        &&& self.display_bytes@ == self.full_bytes@.take(self.sim_sent as int)
        &&& self.sim_active == (self.sim_started_at is Some)
        &&& !self.sim_active ==> self.sim_sent == self.full_bytes@.len()
    }

    /// The commands are what `parse` makes of the bytes that have been printed; there are none
    /// where nothing has been printed.
    pub open spec fn is_parsed<F>(self, parse: F, codepage: CodePage) -> bool where
        F: Fn(&Vec<u8>, CodePage) -> Vec<(PrinterState, CommandType)>,
     {
        if self.display_bytes@.len() == 0 {
            self.parsed_commands@.len() == 0
        } else {
            self.is_made_by(parse, codepage)
        }
    }

    /// The commands are what `parse` makes of the bytes that have been printed. Where nothing has
    /// been printed, `parse` may not have been asked, and there are none.
    pub open spec fn is_read<F>(self, parse: F, codepage: CodePage) -> bool where
        F: Fn(&Vec<u8>, CodePage) -> Vec<(PrinterState, CommandType)>,
     {
        ||| self.is_parsed(parse, codepage)
        ||| self.is_made_by(parse, codepage)
    }

    /// The commands are what `parse` made when it was asked about the bytes that have been printed.
    pub open spec fn is_made_by<F>(self, parse: F, codepage: CodePage) -> bool where
        F: Fn(&Vec<u8>, CodePage) -> Vec<(PrinterState, CommandType)>,
     {
        call_ensures(parse, (&self.display_bytes, codepage), self.parsed_commands)
    }

    /// The job has just come in: it has been read, or is yet to be printed and has no commands.
    pub open spec fn is_new<F>(self, parse: F, codepage: CodePage) -> bool where
        F: Fn(&Vec<u8>, CodePage) -> Vec<(PrinterState, CommandType)>,
     {
        if self.sim_active {
            self.display_bytes@.len() == 0 && self.parsed_commands@.len() == 0
        } else {
            self.is_made_by(parse, codepage)
        }
    }
}

/// Copies bytes.
pub fn copy_bytes(bytes: &Vec<u8>) -> (copy: Vec<u8>)
    ensures
        copy@ == bytes@,
{
    let copy = bytes.clone();
    assert(copy@ =~= bytes@);
    copy
}

/// Nanoseconds in a second.
pub const SECOND: u64 = 1_000_000_000;

/// Nanoseconds from one moment to another; none where the other comes first.
pub open spec fn elapsed(from: u64, now: u64) -> int {
    if now < from {
        0
    } else {
        now - from
    }
}

/// Nanoseconds from one moment to another.
pub fn time_since(from: u64, now: u64) -> (nanos: u64)
    ensures
        nanos == elapsed(from, now),
{
    if now < from {
        0
    } else {
        now - from
    }
}

/// An age in words: in seconds below a minute, in minutes below an hour, else in hours.
pub open spec fn age_text(secs: nat) -> Seq<char> {
    if secs < 60 {
        decimal(secs, 0) + "s"@
    } else if secs < 3600 {
        decimal(secs / 60, 0) + "m"@
    } else {
        decimal(secs / 3600, 0) + "h"@
    }
}

/// Writes an age of so many seconds.
pub fn format_age_short(secs: u64) -> (text: String)
    ensures
        text@ == age_text(secs as nat),
{
    let mut text = String::new();
    if secs < 60 {
        push_decimal(&mut text, secs, 0);
        text.append("s");
        assert(text@ =~= age_text(secs as nat));
        return text;
    }
    let mins: u64 = secs / 60;
    if mins < 60 {
        push_decimal(&mut text, mins, 0);
        text.append("m");
        assert(text@ =~= age_text(secs as nat));
        return text;
    }
    let hours: u64 = mins / 60;
    push_decimal(&mut text, hours, 0);
    text.append("h");
    assert(hours == secs / 3600);
    assert(text@ =~= age_text(secs as nat));
    text
}

/// Characters of a label that a tab shows.
pub const TITLE: usize = 26;

/// A label as a tab shows it: cut where it is too long, with an ellipsis.
pub open spec fn title(label: Seq<char>) -> Seq<char> {
    if label.len() > TITLE {
        label.take(TITLE as int).push('…')
    } else {
        label
    }
}

fn title_of(label: &str) -> (text: String)
    ensures
        text@ == title(label@),
{
    let chars = chars_of(label);
    if chars.len() <= TITLE {
        return label.to_owned();
    }
    let mut text = String::new();
    for i in 0..TITLE
        invariant
            chars@.len() > TITLE,
            text@ == chars@.take(i as int),
    {
        text.push(chars[i]);
        assert(chars@.take(i + 1) =~= chars@.take(i as int).push(chars@[i as int]));
    }
    text.push('…');
    text
}

/// The text on the tab of a job: its number, title, age and size.
pub open spec fn tab_label(job: JobView, now: u64) -> Seq<char> {
    "#"@ + decimal(job.id as nat, 0) + " "@ + title(job.label) + " ("@ + age_text(
        (elapsed(job.created_at, now) / (SECOND as int)) as nat,
    ) + " · "@ + decimal(job.full.len(), 0) + "b)"@
}

/// Writes the text on the tab of a job.
pub fn tab_text(job: &JobEntry, now: u64) -> (text: String)
    ensures
        text@ == tab_label(job@, now),
{
    let mut text = "#".to_owned();
    push_decimal(&mut text, job.id, 0);
    text.append(" ");
    let title = title_of(job.label.as_str());
    text.append(title.as_str());
    text.append(" (");
    let age = format_age_short(time_since(job.created_at, now) / SECOND);
    text.append(age.as_str());
    text.append(" · ");
    push_decimal(&mut text, job.full_bytes.len() as u64, 0);
    text.append("b)");
    text
}

/// The characters that leave no ink: those that Unicode calls white space.
pub open spec fn is_white_space(c: char) -> bool {
    ||| '\u{09}' <= c <= '\u{0D}'
    ||| c == '\u{20}'
    ||| c == '\u{85}'
    ||| c == '\u{A0}'
    ||| c == '\u{1680}'
    ||| '\u{2000}' <= c <= '\u{200A}'
    ||| c == '\u{2028}'
    ||| c == '\u{2029}'
    ||| c == '\u{202F}'
    ||| c == '\u{205F}'
    ||| c == '\u{3000}'
}

/// Tests whether a character leaves no ink.
pub fn leaves_no_ink(c: char) -> (white: bool)
    ensures
        white == is_white_space(c),
{
    ('\u{09}' <= c && c <= '\u{0D}') || c == '\u{20}' || c == '\u{85}' || c == '\u{A0}' || c
        == '\u{1680}' || ('\u{2000}' <= c && c <= '\u{200A}') || c == '\u{2028}' || c == '\u{2029}'
        || c == '\u{202F}' || c == '\u{205F}' || c == '\u{3000}'
}

/// Whether a text has a character that leaves ink.
pub open spec fn has_ink(text: Seq<char>) -> bool {
    exists|i: int| 0 <= i < text.len() && !is_white_space(#[trigger] text[i])
}

/// Whether a command shows something on the paper, or cuts it.
pub open spec fn is_visible(command: CommandType) -> bool {
    match command {
        CommandType::Text(text) => has_ink(text@),
        CommandType::Control(control) => control is RasterImage || control is BitImage || control
            is Qr || control is Barcode || control is Cut,
        CommandType::Unknown(byte) => false,
    }
}

/// Whether nothing comes of some commands.
pub open spec fn is_noise(commands: Seq<(PrinterState, CommandType)>) -> bool {
    forall|k: int| 0 <= k < commands.len() ==> !is_visible((#[trigger] commands[k]).1)
}

fn holds_ink(text: &str) -> (ink: bool)
    ensures
        ink == has_ink(text@),
{
    let chars = chars_of(text);
    for i in 0..chars.len()
        invariant
            chars@ == text@,
            forall|k: int| 0 <= k < i ==> is_white_space(#[trigger] chars@[k]),
    {
        if !leaves_no_ink(chars[i]) {
            assert(!is_white_space(chars@[i as int]));
            return true;
        }
    }
    false
}

/// Tests whether nothing comes of some commands.
pub fn shows_nothing(commands: &Vec<(PrinterState, CommandType)>) -> (noise: bool)
    ensures
        noise == is_noise(commands@),
{
    for k in 0..commands.len()
        invariant
            forall|j: int| 0 <= j < k ==> !is_visible((#[trigger] commands@[j]).1),
    {
        let visible: bool = match &commands[k].1 {
            CommandType::Text(text) => holds_ink(text.as_str()),
            CommandType::Control(control) => match control {
                Control::RasterImage { .. }
                | Control::BitImage { .. }
                | Control::Qr { .. }
                | Control::Barcode { .. }
                | Control::Cut => true,
                _ => false,
            },
            CommandType::Unknown(_) => false,
        };
        if visible {
            assert(is_visible(commands@[k as int].1));
            return false;
        }
    }
    true
}

/// An age is a number and a unit: seconds below a minute, whole minutes below an hour, and whole
/// hours from then on.
pub proof fn lemma_age_is_rounded_down(secs: nat)
    ensures
        ({
            let text = age_text(secs);
            let n = number_written(text.drop_last());
            &&& secs < 60 ==> text.last() == 's' && n == secs
            &&& 60 <= secs < 60 * 60 ==> text.last() == 'm' && 60 * n <= secs < 60 * (n + 1)
            &&& secs >= 60 * 60 ==> text.last() == 'h' && 3600 * n <= secs < 3600 * (n + 1)
        }),
{
    reveal_strlit("s");
    reveal_strlit("m");
    reveal_strlit("h");
    let text = age_text(secs);
    let n = if secs < 60 {
        secs
    } else if secs < 3600 {
        secs / 60
    } else {
        secs / 3600
    };
    lemma_decimal_writes_the_number(n, 0);
    assert(text.drop_last() =~= decimal(n, 0));
}

/// A title is the label, or its first 26 characters and an ellipsis where it has more.
pub proof fn lemma_title_is_cut(label: Seq<char>)
    ensures
        label.len() <= 26 ==> title(label) == label,
        label.len() > 26 ==> title(label).len() == 27 && title(label).take(26) == label.take(26)
            && title(label)[26] == '\u{2026}',
{
    if label.len() > 26 {
        assert(title(label).take(26) =~= label.take(26));
    }
}

/// A tab shows the number of its job first and the size of the whole job last, however much of it
/// has been printed.
pub proof fn lemma_tab_shows_number_and_size(job: JobView, now: u64)
    ensures
        ({
            let text = tab_label(job, now);
            let head = "#"@ + decimal(job.id as nat, 0) + " "@ + title(job.label) + " ("@;
            let size = " · "@ + decimal(job.full.len(), 0) + "b)"@;
            let age = age_text(
                (if job.created_at <= now {
                    (now - job.created_at) / 1_000_000_000
                } else {
                    0
                }) as nat,
            );
            &&& text.len() == head.len() + age.len() + size.len()
            &&& head.is_prefix_of(text)
            &&& text.subrange(head.len() as int, (head.len() + age.len()) as int) == age
            &&& text.skip((head.len() + age.len()) as int) == size
        }),
{
    let text = tab_label(job, now);
    let head = "#"@ + decimal(job.id as nat, 0) + " "@ + title(job.label) + " ("@;
    let size = " · "@ + decimal(job.full.len(), 0) + "b)"@;
    let nanos = elapsed(job.created_at, now);
    let age = age_text((nanos / 1_000_000_000) as nat);
    assert(text =~= head + age + size);
    assert(text.subrange(0, head.len() as int) =~= head);
    assert(text.subrange(head.len() as int, (head.len() + age.len()) as int) =~= age);
    assert(text.skip((head.len() + age.len()) as int) =~= size);
}

/// The characters that leave no ink are the 25 that Unicode calls white space.
pub proof fn lemma_white_space_by_number(c: char)
    ensures
        is_white_space(c) <==> seq![
            9int, 10, 11, 12, 13, 32, 133, 160, 5760, 8192, 8193, 8194, 8195, 8196, 8197, 8198, 8199,
            8200, 8201, 8202, 8232, 8233, 8239, 8287, 12288,
        ].contains(c as int),
{
    let numbers = seq![
        9int, 10, 11, 12, 13, 32, 133, 160, 5760, 8192, 8193, 8194, 8195, 8196, 8197, 8198, 8199,
        8200, 8201, 8202, 8232, 8233, 8239, 8287, 12288,
    ];
    let n = c as int;
    if is_white_space(c) {
        let k = if n <= 13 {
            n - 9
        } else if n == 32 {
            5
        } else if n == 133 {
            6
        } else if n == 160 {
            7
        } else if n == 5760 {
            8
        } else if n <= 8202 {
            n - 8192 + 9
        } else if n == 8232 {
            20
        } else if n == 8233 {
            21
        } else if n == 8239 {
            22
        } else if n == 8287 {
            23
        } else {
            24
        };
        assert(numbers[k] == n);
    }
}

/// Images, symbols, barcodes and cuts are seen, and so is text with a character that leaves ink.
/// Nothing else is: no change of the state, no feed, tab or drawer, and no byte that is no command.
pub proof fn lemma_what_is_seen(command: CommandType, i: int)
    ensures
        match command {
            CommandType::Text(text) => (0 <= i < text@.len() && !is_white_space(text@[i])
                ==> is_visible(command)) && (is_visible(command) ==> exists|j: int|
                0 <= j < text@.len() && !is_white_space(#[trigger] text@[j])),
            CommandType::Unknown(byte) => !is_visible(command),
            CommandType::Control(control) => match control {
                Control::RasterImage { .. } => is_visible(command),
                Control::BitImage { .. } => is_visible(command),
                Control::Qr { .. } => is_visible(command),
                Control::Barcode { .. } => is_visible(command),
                Control::Cut => is_visible(command),
                _ => !is_visible(command),
            },
        },
{
}

/// A job is noise where every part of it is.
pub proof fn lemma_noise_by_parts(
    a: Seq<(PrinterState, CommandType)>,
    b: Seq<(PrinterState, CommandType)>,
)
    ensures
        is_noise(a + b) <==> is_noise(a) && is_noise(b),
        is_noise(seq![]),
        forall|command: (PrinterState, CommandType)|
            is_noise(seq![command]) <==> !#[trigger] is_visible(command.1),
{
    if is_noise(a + b) {
        assert forall|k: int| 0 <= k < a.len() implies !is_visible((#[trigger] a[k]).1) by {
            assert((a + b)[k] == a[k]);
        }
        assert forall|k: int| 0 <= k < b.len() implies !is_visible((#[trigger] b[k]).1) by {
            assert((a + b)[a.len() + k] == b[k]);
        }
    }
    assert forall|command: (PrinterState, CommandType)|
        is_noise(seq![command]) <==> !#[trigger] is_visible(command.1) by {
        let one = seq![command];
        assert(one[0] == command);
    }
}

/// The commands of a job that has been read are what the parser made of its printed bytes, which are
/// the first that came. Where none has been printed there may be no commands instead.
pub proof fn lemma_commands_are_of_the_printed_bytes<F>(job: JobEntry, parse: F, codepage: CodePage)
    where F: Fn(&Vec<u8>, CodePage) -> Vec<(PrinterState, CommandType)>
    requires
        job.wf(),
        job.is_read(parse, codepage),
    ensures
        job.display_bytes@ == job.full_bytes@.take(job.sim_sent as int),
        !job.sim_active ==> job.display_bytes@ == job.full_bytes@,
        call_ensures(parse, (&job.display_bytes, codepage), job.parsed_commands) || (
        job.sim_sent == 0 && job.parsed_commands@.len() == 0),
{
    assert(job.full_bytes@.take(job.full_bytes@.len() as int) =~= job.full_bytes@);
}

/// A job that has just come in has no commands where it is yet to be printed, and else those that
/// the parser made of all its bytes.
pub proof fn lemma_commands_of_a_new_job<F>(job: JobEntry, parse: F, codepage: CodePage)
    where F: Fn(&Vec<u8>, CodePage) -> Vec<(PrinterState, CommandType)>
    requires
        job.is_new(parse, codepage),
    ensures
        job.sim_active ==> job.parsed_commands@.len() == 0,
        !job.sim_active ==> call_ensures(
            parse,
            (&job.display_bytes, codepage),
            job.parsed_commands,
        ),
{
}

/// The view of a job holds its number, label, bytes and times, and how many bytes have been printed.
pub proof fn lemma_view_of_a_job(job: JobEntry)
    ensures
        job@.id == job.id && job@.label == job.label@ && job@.created_at == job.created_at,
        job@.full == job.full_bytes@ && job@.sent == job.sim_sent,
        job@.sim_active == job.sim_active && job@.started == job.sim_started_at,
{
}

} // verus!
