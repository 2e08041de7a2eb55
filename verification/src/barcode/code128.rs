//! Code 128: code sets A, B and C, with the `{` escapes of ESC/POS.

use crate::barcode::runs::{lemma_module_count_concat, module_count};
use crate::text::{
    ascii_text, chars_of, from_utf8_lossy, is_ascii_text, lossy_text, starts_in_ascii, string_of,
};
use vstd::prelude::*;
use vstd::utf8::*;

verus! {

/// Bar and space widths of the symbols 0 to 105, bars first.
pub const PATTERNS: [[u8; 6]; 106] = [
    [2, 1, 2, 2, 2, 2],
    [2, 2, 2, 1, 2, 2],
    [2, 2, 2, 2, 2, 1],
    [1, 2, 1, 2, 2, 3],
    [1, 2, 1, 3, 2, 2],
    [1, 3, 1, 2, 2, 2],
    [1, 2, 2, 2, 1, 3],
    [1, 2, 2, 3, 1, 2],
    [1, 3, 2, 2, 1, 2],
    [2, 2, 1, 2, 1, 3],
    [2, 2, 1, 3, 1, 2],
    [2, 3, 1, 2, 1, 2],
    [1, 1, 2, 2, 3, 2],
    [1, 2, 2, 1, 3, 2],
    [1, 2, 2, 2, 3, 1],
    [1, 1, 3, 2, 2, 2],
    [1, 2, 3, 1, 2, 2],
    [1, 2, 3, 2, 2, 1],
    [2, 2, 3, 2, 1, 1],
    [2, 2, 1, 1, 3, 2],
    [2, 2, 1, 2, 3, 1],
    [2, 1, 3, 2, 1, 2],
    [2, 2, 3, 1, 1, 2],
    [3, 1, 2, 1, 3, 1],
    [3, 1, 1, 2, 2, 2],
    [3, 2, 1, 1, 2, 2],
    [3, 2, 1, 2, 2, 1],
    [3, 1, 2, 2, 1, 2],
    [3, 2, 2, 1, 1, 2],
    [3, 2, 2, 2, 1, 1],
    [2, 1, 2, 1, 2, 3],
    [2, 1, 2, 3, 2, 1],
    [2, 3, 2, 1, 2, 1],
    [1, 1, 1, 3, 2, 3],
    [1, 3, 1, 1, 2, 3],
    [1, 3, 1, 3, 2, 1],
    [1, 1, 2, 3, 1, 3],
    [1, 3, 2, 1, 1, 3],
    [1, 3, 2, 3, 1, 1],
    [2, 1, 1, 3, 1, 3],
    [2, 3, 1, 1, 1, 3],
    [2, 3, 1, 3, 1, 1],
    [1, 1, 2, 1, 3, 3],
    [1, 1, 2, 3, 3, 1],
    [1, 3, 2, 1, 3, 1],
    [1, 1, 3, 1, 2, 3],
    [1, 1, 3, 3, 2, 1],
    [1, 3, 3, 1, 2, 1],
    [3, 1, 3, 1, 2, 1],
    [2, 1, 1, 3, 3, 1],
    [2, 3, 1, 1, 3, 1],
    [2, 1, 3, 1, 1, 3],
    [2, 1, 3, 3, 1, 1],
    [2, 1, 3, 1, 3, 1],
    [3, 1, 1, 1, 2, 3],
    [3, 1, 1, 3, 2, 1],
    [3, 3, 1, 1, 2, 1],
    [3, 1, 2, 1, 1, 3],
    [3, 1, 2, 3, 1, 1],
    [3, 3, 2, 1, 1, 1],
    [3, 1, 4, 1, 1, 1],
    [2, 2, 1, 4, 1, 1],
    [4, 3, 1, 1, 1, 1],
    [1, 1, 1, 2, 2, 4],
    [1, 1, 1, 4, 2, 2],
    [1, 2, 1, 1, 2, 4],
    [1, 2, 1, 4, 2, 1],
    [1, 4, 1, 1, 2, 2],
    [1, 4, 1, 2, 2, 1],
    [1, 1, 2, 2, 1, 4],
    [1, 1, 2, 4, 1, 2],
    [1, 2, 2, 1, 1, 4],
    [1, 2, 2, 4, 1, 1],
    [1, 4, 2, 1, 1, 2],
    [1, 4, 2, 2, 1, 1],
    [2, 4, 1, 2, 1, 1],
    [2, 2, 1, 1, 1, 4],
    [4, 1, 3, 1, 1, 1],
    [2, 4, 1, 1, 1, 2],
    [1, 3, 4, 1, 1, 1],
    [1, 1, 1, 2, 4, 2],
    [1, 2, 1, 1, 4, 2],
    [1, 2, 1, 2, 4, 1],
    [1, 1, 4, 2, 1, 2],
    [1, 2, 4, 1, 1, 2],
    [1, 2, 4, 2, 1, 1],
    [4, 1, 1, 2, 1, 2],
    [4, 2, 1, 1, 1, 2],
    [4, 2, 1, 2, 1, 1],
    [2, 1, 2, 1, 4, 1],
    [2, 1, 4, 1, 2, 1],
    [4, 1, 2, 1, 2, 1],
    [1, 1, 1, 1, 4, 3],
    [1, 1, 1, 3, 4, 1],
    [1, 3, 1, 1, 4, 1],
    [1, 1, 4, 1, 1, 3],
    [1, 1, 4, 3, 1, 1],
    [4, 1, 1, 1, 1, 3],
    [4, 1, 1, 3, 1, 1],
    [1, 1, 3, 1, 4, 1],
    [1, 1, 4, 1, 3, 1],
    [3, 1, 1, 1, 4, 1],
    [4, 1, 1, 1, 3, 1],
    [2, 1, 1, 4, 1, 2],
    [2, 1, 1, 2, 1, 4],
    [2, 1, 1, 2, 3, 2],
];

/// Bar and space widths of the stop symbol.
pub const STOP_PATTERN: [u8; 7] = [2, 3, 3, 1, 1, 1, 2];

/// The stop symbol.
pub const STOP: u8 = 106;

/// The three ways in which Code 128 reads its symbols.
#[derive(Clone, Copy, PartialEq, Eq, Structural, Debug)]
pub enum CodeSet {
    /// Control characters, digits and upper case.
    A,
    /// Printable ASCII.
    B,
    /// Pairs of digits.
    C,
}

/// The widths that draw one symbol.
pub open spec fn widths(symbol: u8) -> Seq<u8> {
    if symbol < STOP {
        PATTERNS@[symbol as int]@
    } else {
        STOP_PATTERN@
    }
}

/// The widths of a row of symbols.
pub open spec fn bars(symbols: Seq<u8>) -> Seq<u8>
    decreases symbols.len(),
{
    if symbols.len() == 0 {
        seq![]
    } else {
        bars(symbols.drop_last()) + widths(symbols.last())
    }
}

/// Whether `c` names a code set after a `{`.
pub open spec fn names_set(c: char) -> bool {
    c == 'A' || c == 'B' || c == 'C'
}

/// Whether a text begins with the choice of a code set.
pub open spec fn chooses_set(text: Seq<char>) -> bool {
    text.len() >= 2 && text[0] == '{' && names_set(text[1])
}

/// Whether data begins with the choice of code set B.
pub open spec fn data_chooses_b(data: Seq<u8>) -> bool {
    data.len() >= 2 && data[0] == 0x7B && data[1] == 0x42
}

/// Whether data begins with the choice of a code set.
pub open spec fn data_chooses_set(data: Seq<u8>) -> bool {
    data.len() >= 2 && data[0] == 0x7B && (data[1] == 0x41 || data[1] == 0x42 || data[1] == 0x43)
}

/// The code set in which a text starts: the one that it chooses, or B.
pub open spec fn first_set(text: Seq<char>) -> CodeSet {
    if chooses_set(text) && text[1] == 'A' {
        CodeSet::A
    } else if chooses_set(text) && text[1] == 'C' {
        CodeSet::C
    } else {
        CodeSet::B
    }
}

/// A text without the choice of its first code set.
pub open spec fn without_choice(text: Seq<char>) -> Seq<char> {
    if chooses_set(text) {
        text.skip(2)
    } else {
        text
    }
}

/// The start symbol of a code set.
pub open spec fn start_symbol(set: CodeSet) -> u8 {
    match set {
        CodeSet::A => 103,
        CodeSet::B => 104,
        CodeSet::C => 105,
    }
}

/// Whether a byte is an ASCII digit.
pub open spec fn is_digit_byte(b: u8) -> bool {
    0x30 <= b <= 0x39
}

/// The symbol of a byte in code set A; what the set lacks is drawn as `?`.
pub open spec fn symbol_in_a(b: u8) -> u8 {
    if b < 32 {
        (b + 64) as u8
    } else if b <= 95 {
        (b - 32) as u8
    } else {
        31
    }
}

/// The symbol of a byte in code set B; what the set lacks is drawn as `?`.
pub open spec fn symbol_in_b(b: u8) -> u8 {
    if 32 <= b <= 127 {
        (b - 32) as u8
    } else {
        31
    }
}

/// The symbols of the bytes of a text, read from code set `set` on.
///
/// `{{` is a literal brace, `{A`, `{B` and `{C` change the set and `{1` is FNC1. Set C takes two
/// digits at a time and gives way to set B where it finds none.
pub open spec fn symbols(bytes: Seq<u8>, set: CodeSet) -> Seq<u8>
    decreases bytes.len(), (if set is C { 1int } else { 0int }),
{
    if bytes.len() == 0 {
        seq![]
    } else if bytes.len() > 1 && bytes[0] == 0x7B && bytes[1] == 0x7B {
        if set is C {
            seq![100u8, 91u8] + symbols(bytes.skip(2), CodeSet::B)
        } else {
            seq![91u8] + symbols(bytes.skip(2), set)
        }
    } else if bytes.len() > 1 && bytes[0] == 0x7B && bytes[1] == 0x41 {
        seq![101u8] + symbols(bytes.skip(2), CodeSet::A)
    } else if bytes.len() > 1 && bytes[0] == 0x7B && bytes[1] == 0x42 {
        seq![100u8] + symbols(bytes.skip(2), CodeSet::B)
    } else if bytes.len() > 1 && bytes[0] == 0x7B && bytes[1] == 0x43 {
        seq![99u8] + symbols(bytes.skip(2), CodeSet::C)
    } else if bytes.len() > 1 && bytes[0] == 0x7B && bytes[1] == 0x31 {
        seq![102u8] + symbols(bytes.skip(2), set)
    } else {
        match set {
            CodeSet::A => seq![symbol_in_a(bytes[0])] + symbols(bytes.skip(1), set),
            CodeSet::B => seq![symbol_in_b(bytes[0])] + symbols(bytes.skip(1), set),
            CodeSet::C => if bytes.len() > 1 && is_digit_byte(bytes[0]) && is_digit_byte(
                bytes[1],
            ) {
                seq![((bytes[0] - 0x30) * 10 + (bytes[1] - 0x30)) as u8] + symbols(
                    bytes.skip(2),
                    set,
                )
            } else {
                seq![100u8] + symbols(bytes, CodeSet::B)
            },
        }
    }
}

/// The sum of the symbols, each multiplied by its place, counted from one.
pub open spec fn weighted_sum(data: Seq<u8>) -> nat
    decreases data.len(),
{
    if data.len() == 0 {
        0
    } else {
        weighted_sum(data.drop_last()) + data.last() as nat * data.len()
    }
}

/// The check symbol: the start symbol plus the weighted sum, kept in 32 bits, modulo 103.
pub open spec fn check_symbol(start: u8, data: Seq<u8>) -> u8 {
    (((start + weighted_sum(data)) % 0x1_0000_0000) % 103) as u8
}

/// All the symbols of a barcode for `text`: start, data, check and stop.
pub open spec fn all_symbols(text: Seq<char>) -> Seq<u8> {
    let start = start_symbol(first_set(text));
    let data = symbols(encode_utf8(without_choice(text)), first_set(text));
    seq![start] + data + seq![check_symbol(start, data), STOP]
}

/// Characters without the escapes of code set changes and function characters.
pub open spec fn unescaped(text: Seq<char>) -> Seq<char>
    decreases text.len(),
{
    if text.len() == 0 {
        seq![]
    } else if text[0] != '{' {
        seq![text[0]] + unescaped(text.skip(1))
    } else if text.len() > 1 && text[1] == '{' {
        seq!['{'] + unescaped(text.skip(2))
    } else if text.len() > 1 && (names_set(text[1]) || '1' <= text[1] <= '4') {
        unescaped(text.skip(2))
    } else {
        seq!['{'] + unescaped(text.skip(1))
    }
}

/// The text printed beside a barcode.
pub open spec fn hri_text(text: Seq<char>) -> Seq<char> {
    unescaped(without_choice(text))
}

#[verifier::spinoff_prover]
fn push_unescaped(chars: &Vec<char>, from: usize) -> (out: String)
    requires
        from <= chars@.len(),
    ensures
        out@ == unescaped(chars@.skip(from as int)),
{
    let mut out = String::new();
    let mut i: usize = from;
    let ghost whole = unescaped(chars@.skip(from as int));
    assert(whole =~= out@ + whole);
    while i < chars.len()
        invariant
            i <= chars@.len(),
            whole == out@ + unescaped(chars@.skip(i as int)),
        decreases chars@.len() - i,
    {
        let ghost rest = chars@.skip(i as int);
        let ghost before = out@;
        let c = chars[i];
        assert(rest[0] == c);
        assert(rest.skip(1) =~= chars@.skip(i + 1));
        if c != '{' {
            out.push(c);
            i += 1;
        } else if i + 1 < chars.len() && chars[i + 1] == '{' {
            assert(rest.skip(2) =~= chars@.skip(i + 2));
            out.push('{');
            i += 2;
        } else if i + 1 < chars.len() && (chars[i + 1] == 'A' || chars[i + 1] == 'B' || chars[i
            + 1] == 'C' || ('1' <= chars[i + 1] && chars[i + 1] <= '4')) {
            assert(rest.skip(2) =~= chars@.skip(i + 2));
            i += 2;
        } else {
            out.push('{');
            i += 1;
        }
        assert(whole =~= out@ + unescaped(chars@.skip(i as int)));
    }
    assert(chars@.skip(i as int) =~= Seq::<char>::empty());
    assert(whole =~= out@);
    out
}

/// The text printed beside a barcode, from the characters of its data.
#[verifier::spinoff_prover]
pub fn clean_hri_text(text: &str) -> (hri: String)
    ensures
        hri@ == hri_text(text@),
{
    let chars = chars_of(text);
    let skipped: usize = if chars.len() >= 2 && chars[0] == '{' && (chars[1] == 'A' || chars[1]
        == 'B' || chars[1] == 'C') {
        2
    } else {
        0
    };
    assert(chars@.skip(0) =~= chars@);
    push_unescaped(&chars, skipped)
}

/// The text printed beside a barcode: without the leading choice of a code set, the changes of
/// set and the function characters, and with `{{` read as a brace.
#[verifier::spinoff_prover]
pub fn clean_code128_hri(data: &[u8]) -> (hri: String)
    ensures
        hri@ == hri_text(lossy_text(data@)),
        valid_utf8(data@) ==> hri@ == hri_text(decode_utf8(data@)),
{
    let text = from_utf8_lossy(data);
    clean_hri_text(&text)
}

/// Writes the data symbols of `bytes`.
#[verifier::spinoff_prover]
fn encode_symbols(bytes: &[u8], first: CodeSet) -> (codes: Vec<u8>)
    ensures
        codes@ == symbols(bytes@, first),
{
    let mut codes: Vec<u8> = Vec::new();
    let mut set = first;
    let mut i: usize = 0;
    let ghost whole = symbols(bytes@, first);
    assert(bytes@.skip(0) =~= bytes@);
    assert(whole =~= codes@ + whole);
    while i < bytes.len()
        invariant
            i <= bytes@.len(),
            whole == codes@ + symbols(bytes@.skip(i as int), set),
        decreases bytes@.len() - i, (if set is C { 1int } else { 0int }),
    {
        let ghost rest = bytes@.skip(i as int);
        let b = bytes[i];
        assert(rest[0] == b);
        assert(rest.skip(1) =~= bytes@.skip(i + 1));
        let more: bool = i + 1 < bytes.len();
        let n: u8 = if more { bytes[i + 1] } else { 0 };
        assert(more ==> rest[1] == n && rest.skip(2) =~= bytes@.skip(i + 2));
        if more && b == 0x7B && n == 0x7B {
            if set == CodeSet::C {
                codes.push(100);
                set = CodeSet::B;
            }
            codes.push(91);
            i += 2;
        } else if more && b == 0x7B && n == 0x41 {
            codes.push(101);
            set = CodeSet::A;
            i += 2;
        } else if more && b == 0x7B && n == 0x42 {
            codes.push(100);
            set = CodeSet::B;
            i += 2;
        } else if more && b == 0x7B && n == 0x43 {
            codes.push(99);
            set = CodeSet::C;
            i += 2;
        } else if more && b == 0x7B && n == 0x31 {
            codes.push(102);
            i += 2;
        } else {
            match set {
                CodeSet::A => {
                    codes.push(
                        if b < 32 {
                            b + 64
                        } else if b <= 95 {
                            b - 32
                        } else {
                            31
                        },
                    );
                    i += 1;
                },
                CodeSet::B => {
                    codes.push(
                        if 32 <= b && b <= 127 {
                            b - 32
                        } else {
                            31
                        },
                    );
                    i += 1;
                },
                CodeSet::C => {
                    if more && 0x30 <= b && b <= 0x39 && 0x30 <= n && n <= 0x39 {
                        codes.push((b - 0x30) * 10 + (n - 0x30));
                        i += 2;
                    } else {
                        codes.push(100);
                        set = CodeSet::B;
                    }
                },
            }
        }
        assert(whole =~= codes@ + symbols(bytes@.skip(i as int), set));
    }
    assert(bytes@.skip(i as int) =~= Seq::<u8>::empty());
    assert(whole =~= codes@);
    codes
}

#[verifier::spinoff_prover]
proof fn lemma_sum_in_32_bits(sum: int, total: int, c: int, place: int)
    requires
        sum == total % 0x1_0000_0000,
        0 <= place,
    ensures
        (sum + c * (place % 0x1_0000_0000)) % 0x1_0000_0000 == (total + c * place)
            % 0x1_0000_0000,
{
    let m: int = 0x1_0000_0000;
    vstd::arithmetic::div_mod::lemma_mul_mod_noop_right(c, place, m);
    vstd::arithmetic::div_mod::lemma_add_mod_noop(total, c * place, m);
    vstd::arithmetic::div_mod::lemma_add_mod_noop(sum, c * (place % m), m);
    vstd::arithmetic::div_mod::lemma_mod_twice(total, m);
}

/// Computes the check symbol.
#[verifier::spinoff_prover]
fn compute_check(start: u8, data: &Vec<u8>) -> (check: u8)
    ensures
        check == check_symbol(start, data@),
{
    let mut sum: u64 = start as u64;
    for i in 0..data.len()
        invariant
            sum == (start + weighted_sum(data@.take(i as int))) % 0x1_0000_0000,
    {
        let place: u64 = ((i as u64 % 0x1_0000_0000) + 1) % 0x1_0000_0000;
        let c: u64 = data[i] as u64;
        proof {
            assert(data@.take(i + 1).drop_last() =~= data@.take(i as int));
            vstd::arithmetic::div_mod::lemma_add_mod_noop(i as int, 1, 0x1_0000_0000);
            assert(place == (i + 1) % 0x1_0000_0000);
            lemma_sum_in_32_bits(
                sum as int,
                start + weighted_sum(data@.take(i as int)),
                c as int,
                i + 1,
            );
            assert(c * place <= 255 * 0x1_0000_0000) by (nonlinear_arith)
                requires
                    c <= 255,
                    place <= 0x1_0000_0000,
            ;
        }
        sum = (sum + c * place) % 0x1_0000_0000;
    }
    assert(data@.take(data@.len() as int) =~= data@);
    (sum % 103) as u8
}

/// Every data symbol is one of the 103 that carry data.
#[verifier::spinoff_prover]
pub proof fn lemma_symbols_are_data(bytes: Seq<u8>, set: CodeSet)
    ensures
        forall|k: int| 0 <= k < symbols(bytes, set).len() ==> symbols(bytes, set)[k] <= 102,
        symbols(bytes, set).len() <= bytes.len() + (if set is C { 1int } else { 0int }),
    decreases bytes.len(), (if set is C { 1int } else { 0int }),
{
    if bytes.len() > 0 {
        if bytes.len() > 1 {
            lemma_symbols_are_data(bytes.skip(2), CodeSet::A);
            lemma_symbols_are_data(bytes.skip(2), CodeSet::B);
            lemma_symbols_are_data(bytes.skip(2), CodeSet::C);
        }
        lemma_symbols_are_data(bytes.skip(1), CodeSet::A);
        lemma_symbols_are_data(bytes.skip(1), CodeSet::B);
        if set is C {
            lemma_symbols_are_data(bytes, CodeSet::B);
        }
    }
}

/// Appends the widths of `code`.
#[verifier::spinoff_prover]
fn push_widths(runs: &mut Vec<u8>, code: u8)
    ensures
        final(runs)@ == old(runs)@ + widths(code),
{
    let ghost start = runs@;
    if code < STOP {
        for k in 0..6
            invariant
                code < STOP,
                runs@ == start + widths(code).take(k as int),
        {
            runs.push(PATTERNS[code as usize][k]);
            assert(runs@ =~= start + widths(code).take(k + 1));
        }
    } else {
        for k in 0..7
            invariant
                code >= STOP,
                runs@ == start + widths(code).take(k as int),
        {
            runs.push(STOP_PATTERN[k]);
            assert(runs@ =~= start + widths(code).take(k + 1));
        }
    }
    assert(runs@ =~= start + widths(code));
}

/// Draws the widths of a row of symbols.
#[verifier::spinoff_prover]
fn draw(codes: &Vec<u8>) -> (runs: Vec<u8>)
    ensures
        runs@ == bars(codes@),
{
    let mut runs: Vec<u8> = Vec::new();
    for i in 0..codes.len()
        invariant
            runs@ == bars(codes@.take(i as int)),
    {
        push_widths(&mut runs, codes[i]);
        assert(codes@.take(i + 1).drop_last() =~= codes@.take(i as int));
    }
    assert(codes@.take(codes@.len() as int) =~= codes@);
    runs
}

/// The bar and space widths of a barcode for `text`, and the text printed beside it.
#[verifier::spinoff_prover]
pub fn encode_code128_text(text: &str) -> (result: (Vec<u8>, String))
    ensures
        result.0@ == bars(all_symbols(text@)),
        result.1@ == hri_text(text@),
{
    let chars = chars_of(text);
    let mut set = CodeSet::B;
    let mut skipped: usize = 0;
    if chars.len() >= 2 && chars[0] == '{' {
        if chars[1] == 'A' {
            set = CodeSet::A;
            skipped = 2;
        } else if chars[1] == 'B' {
            skipped = 2;
        } else if chars[1] == 'C' {
            set = CodeSet::C;
            skipped = 2;
        }
    }
    let mut body_chars: Vec<char> = Vec::new();
    for i in skipped..chars.len()
        invariant
            skipped <= chars@.len(),
            body_chars@ == chars@.subrange(skipped as int, i as int),
    {
        body_chars.push(chars[i]);
        assert(chars@.subrange(skipped as int, i + 1) =~= chars@.subrange(
            skipped as int,
            i as int,
        ).push(chars@[i as int]));
    }
    assert(body_chars@ =~= without_choice(text@));
    let body = string_of(&body_chars);
    let bytes = body.as_str().as_bytes();
    proof {
        encode_utf8_valid_utf8(body@);
        encode_utf8_decode_utf8(body@);
    }
    let hri = clean_code128_hri(bytes);
    proof {
        lemma_choice_is_not_shown(text@);
    }
    let start: u8 = match set {
        CodeSet::A => 103,
        CodeSet::B => 104,
        CodeSet::C => 105,
    };
    let data = encode_symbols(bytes, set);
    let check = compute_check(start, &data);
    let mut codes: Vec<u8> = Vec::new();
    codes.push(start);
    for i in 0..data.len()
        invariant
            codes@ == seq![start] + data@.take(i as int),
    {
        codes.push(data[i]);
        assert(codes@ =~= seq![start] + data@.take(i + 1));
    }
    codes.push(check);
    codes.push(STOP);
    assert(codes@ =~= all_symbols(text@));
    (draw(&codes), hri)
}

/// The bar and space widths of a barcode for the data of a GS k command, and the text printed
/// beside it. Bytes that are not UTF-8 are read as U+FFFD. Code set B may be chosen or not: it is
/// the set in which a barcode starts.
#[verifier::spinoff_prover]
pub fn encode_code128_runs(data: &[u8]) -> (result: Option<(Vec<u8>, String)>)
    ensures
        result matches Some(r) && r.0@ == bars(all_symbols(lossy_text(data@))) && r.1@ == hri_text(
            lossy_text(data@),
        ),
        valid_utf8(data@) ==> lossy_text(data@) == decode_utf8(data@),
        data_chooses_b(data@) && !data_chooses_set(data@.skip(2)) ==> (result matches Some(r)
            && r.0@ == bars(all_symbols(lossy_text(data@.skip(2)))) && r.1@ == hri_text(
            lossy_text(data@.skip(2)),
        )),
{
    let text = from_utf8_lossy(data);
    proof {
        if data_chooses_b(data@) && !data_chooses_set(data@.skip(2)) {
            let rest = lossy_text(data@.skip(2));
            assert(starts_in_ascii(data@, 2));
            assert(ascii_text(data@.take(2)) =~= seq!['{', 'B']);
            if chooses_set(rest) {
                let start = text@.take(4);
                assert(start =~= seq!['{', 'B', '{', rest[1]]);
                assert(is_ascii_text(start));
                assert(start[2] == ascii_text(data@.take(4))[2]);
                assert(start[3] == ascii_text(data@.take(4))[3]);
                assert(data@.skip(2)[0] == data@[2] && data@.skip(2)[1] == data@[3]);
            }
            lemma_set_b_is_the_default(rest);
        }
    }
    Some(encode_code128_text(&text))
}

#[verifier::spinoff_prover]
proof fn lemma_weighted_sum_bound(data: Seq<u8>)
    requires
        forall|k: int| 0 <= k < data.len() ==> data[k] <= 102,
    ensures
        weighted_sum(data) <= 102 * data.len() * data.len(),
    decreases data.len(),
{
    if data.len() > 0 {
        let front = data.drop_last();
        lemma_weighted_sum_bound(front);
        let n = data.len() as int;
        let last = data.last() as int;
        assert(102 * (n - 1) * (n - 1) + last * n <= 102 * n * n) by (nonlinear_arith)
            requires
                0 <= last <= 102,
                n >= 1,
        ;
    }
}

/// The check symbol of a barcode is the weighted sum modulo 103, as long as the sum does not leave
/// the 32 bits in which it is added up. Up to 6400 data symbols it never does.
#[verifier::spinoff_prover]
pub proof fn lemma_check_symbol_is_weighted_sum(bytes: Seq<u8>, set: CodeSet)
    ensures
        start_symbol(set) + weighted_sum(symbols(bytes, set)) < 0x1_0000_0000 ==> check_symbol(
            start_symbol(set),
            symbols(bytes, set),
        ) == (start_symbol(set) + weighted_sum(symbols(bytes, set))) % 103,
        symbols(bytes, set).len() <= 6400 ==> start_symbol(set) + weighted_sum(symbols(bytes, set))
            < 0x1_0000_0000,
{
    let data = symbols(bytes, set);
    lemma_symbols_are_data(bytes, set);
    lemma_weighted_sum_bound(data);
    let n = data.len() as int;
    if n <= 6400 {
        assert(102 * n * n <= 102 * 6400 * 6400) by (nonlinear_arith)
            requires
                0 <= n <= 6400,
        ;
    }
}

/// The choice of a code set is not shown: the text beside a barcode is the same whether that
/// choice was cut off before or not.
#[verifier::spinoff_prover]
pub proof fn lemma_choice_is_not_shown(text: Seq<char>)
    ensures
        hri_text(without_choice(text)) == hri_text(text),
{
    let rest = without_choice(text);
    if chooses_set(rest) {
        assert(unescaped(rest) == unescaped(rest.skip(2)));
    }
}

/// Choosing code set B changes neither the bars nor the text of a barcode that chooses no set.
#[verifier::spinoff_prover]
pub proof fn lemma_set_b_is_the_default(text: Seq<char>)
    requires
        !chooses_set(text),
    ensures
        all_symbols(seq!['{', 'B'] + text) == all_symbols(text),
        hri_text(seq!['{', 'B'] + text) == hri_text(text),
{
    let chosen = seq!['{', 'B'] + text;
    assert(chosen.skip(2) =~= text);
    assert(chosen[0] == '{' && chosen[1] == 'B');
}

/// Every symbol but the stop is eleven modules wide; the stop is thirteen.
#[verifier::spinoff_prover]
pub proof fn lemma_symbol_modules(symbol: u8)
    ensures
        module_count(widths(symbol)) == if symbol < STOP {
            11nat
        } else {
            13nat
        },
{
    let w = widths(symbol);
    reveal_with_fuel(module_count, 8);
    if symbol < STOP {
        lemma_pattern_sum(symbol);
        assert(w.drop_last().drop_last().drop_last().drop_last().drop_last().drop_last() =~= Seq::<
            u8,
        >::empty());
    } else {
        assert(w.drop_last().drop_last().drop_last().drop_last().drop_last().drop_last().drop_last()
            =~= Seq::<u8>::empty());
    }
}

#[verifier::spinoff_prover]
proof fn lemma_pattern_sum(symbol: u8)
    requires
        symbol < STOP,
    ensures
        ({
            let w = PATTERNS@[symbol as int]@;
            w[0] + w[1] + w[2] + w[3] + w[4] + w[5] == 11
        }),
{
}

/// A row of `n` symbols without a stop is `11 * n` modules wide.
#[verifier::spinoff_prover]
proof fn lemma_bars_modules(codes: Seq<u8>)
    requires
        forall|k: int| 0 <= k < codes.len() ==> codes[k] < STOP,
    ensures
        module_count(bars(codes)) == 11 * codes.len(),
    decreases codes.len(),
{
    if codes.len() > 0 {
        lemma_bars_modules(codes.drop_last());
        lemma_symbol_modules(codes.last());
        lemma_module_count_concat(bars(codes.drop_last()), widths(codes.last()));
    }
}

/// A barcode with `n` data symbols is `11 * n + 35` modules wide: start, data and check of eleven
/// each, and the stop of thirteen.
#[verifier::spinoff_prover]
pub proof fn lemma_code128_modules(text: Seq<char>)
    ensures
        module_count(bars(all_symbols(text))) == 11 * symbols(
            encode_utf8(without_choice(text)),
            first_set(text),
        ).len() + 35,
        symbols(encode_utf8(without_choice(text)), first_set(text)).len() <= encode_utf8(
            without_choice(text),
        ).len() + 1,
{
    let all = all_symbols(text);
    let front = all.drop_last();
    lemma_symbols_are_data(encode_utf8(without_choice(text)), first_set(text));
    assert forall|k: int| 0 <= k < front.len() implies front[k] < STOP by {
        assert(front[k] == all[k]);
    }
    lemma_bars_modules(front);
    lemma_symbol_modules(STOP);
    lemma_module_count_concat(bars(front), widths(STOP));
}

} // verus!
