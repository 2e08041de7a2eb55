//! Code 39.

use crate::barcode::runs::{
    bits01_to_runs, changes, lemma_runs_are_short, lemma_runs_draw_the_bits, lemma_stored_modules,
    module_count, modules, run_lengths, stored,
};
use crate::text::{chars_of, string_of};
use vstd::prelude::*;

verus! {

/// Modules of the digits, the letters, `-`, `.`, the space, `$`, `/`, `+`, `%` and `*`.
pub const PATTERNS: [[u8; 12]; 44] = [
    [1, 0, 1, 0, 0, 1, 1, 0, 1, 1, 0, 1],
    [1, 1, 0, 1, 0, 0, 1, 0, 1, 0, 1, 1],
    [1, 0, 1, 1, 0, 0, 1, 0, 1, 0, 1, 1],
    [1, 1, 0, 1, 1, 0, 0, 1, 0, 1, 0, 1],
    [1, 0, 1, 0, 0, 1, 1, 0, 1, 0, 1, 1],
    [1, 1, 0, 1, 0, 0, 1, 1, 0, 1, 0, 1],
    [1, 0, 1, 1, 0, 0, 1, 1, 0, 1, 0, 1],
    [1, 0, 1, 0, 0, 1, 0, 1, 1, 0, 1, 1],
    [1, 1, 0, 1, 0, 0, 1, 0, 1, 1, 0, 1],
    [1, 0, 1, 1, 0, 0, 1, 0, 1, 1, 0, 1],
    [1, 1, 0, 1, 0, 1, 0, 0, 1, 0, 1, 1],
    [1, 0, 1, 1, 0, 1, 0, 0, 1, 0, 1, 1],
    [1, 1, 0, 1, 1, 0, 1, 0, 0, 1, 0, 1],
    [1, 0, 1, 0, 1, 1, 0, 0, 1, 0, 1, 1],
    [1, 1, 0, 1, 0, 1, 1, 0, 0, 1, 0, 1],
    [1, 0, 1, 1, 0, 1, 1, 0, 0, 1, 0, 1],
    [1, 0, 1, 0, 1, 0, 0, 1, 1, 0, 1, 1],
    [1, 1, 0, 1, 0, 1, 0, 0, 1, 1, 0, 1],
    [1, 0, 1, 1, 0, 1, 0, 0, 1, 1, 0, 1],
    [1, 0, 1, 0, 1, 1, 0, 0, 1, 1, 0, 1],
    [1, 1, 0, 1, 0, 1, 0, 1, 0, 0, 1, 1],
    [1, 0, 1, 1, 0, 1, 0, 1, 0, 0, 1, 1],
    [1, 1, 0, 1, 1, 0, 1, 0, 1, 0, 0, 1],
    [1, 0, 1, 0, 1, 1, 0, 1, 0, 0, 1, 1],
    [1, 1, 0, 1, 0, 1, 1, 0, 1, 0, 0, 1],
    [1, 0, 1, 1, 0, 1, 1, 0, 1, 0, 0, 1],
    [1, 0, 1, 0, 1, 0, 1, 1, 0, 0, 1, 1],
    [1, 1, 0, 1, 0, 1, 0, 1, 1, 0, 0, 1],
    [1, 0, 1, 1, 0, 1, 0, 1, 1, 0, 0, 1],
    [1, 0, 1, 0, 1, 1, 0, 1, 1, 0, 0, 1],
    [1, 1, 0, 0, 1, 0, 1, 0, 1, 0, 1, 1],
    [1, 0, 0, 1, 1, 0, 1, 0, 1, 0, 1, 1],
    [1, 1, 0, 0, 1, 1, 0, 1, 0, 1, 0, 1],
    [1, 0, 0, 1, 0, 1, 1, 0, 1, 0, 1, 1],
    [1, 1, 0, 0, 1, 0, 1, 1, 0, 1, 0, 1],
    [1, 0, 0, 1, 1, 0, 1, 1, 0, 1, 0, 1],
    [1, 0, 0, 1, 0, 1, 0, 1, 1, 0, 1, 1],
    [1, 1, 0, 0, 1, 0, 1, 0, 1, 1, 0, 1],
    [1, 0, 0, 1, 1, 0, 1, 0, 1, 1, 0, 1],
    [1, 0, 0, 1, 0, 0, 1, 0, 0, 1, 0, 1],
    [1, 0, 0, 1, 0, 0, 1, 0, 1, 0, 0, 1],
    [1, 0, 0, 1, 0, 1, 0, 0, 1, 0, 0, 1],
    [1, 0, 1, 0, 0, 1, 0, 0, 1, 0, 0, 1],
    [1, 0, 0, 1, 0, 1, 1, 0, 1, 1, 0, 1],
];

/// Place of the start and stop character `*` in the table.
pub const STAR: usize = 43;

/// Place of a character in the table; lower case letters are drawn as upper case.
pub open spec fn place(c: char) -> Option<int> {
    if '0' <= c <= '9' {
        Some(c as int - '0' as int)
    } else if 'A' <= c <= 'Z' {
        Some(10 + (c as int - 'A' as int))
    } else if 'a' <= c <= 'z' {
        Some(10 + (c as int - 'a' as int))
    } else if c == '-' {
        Some(36)
    } else if c == '.' {
        Some(37)
    } else if c == ' ' {
        Some(38)
    } else if c == '$' {
        Some(39)
    } else if c == '/' {
        Some(40)
    } else if c == '+' {
        Some(41)
    } else if c == '%' {
        Some(42)
    } else if c == '*' {
        Some(43)
    } else {
        None
    }
}

/// Whether a character of the data is drawn: the table has it, and it is not `*`.
pub open spec fn is_drawn(c: char) -> bool {
    place(c) is Some && c != '*'
}

/// The characters of a text that are drawn.
pub open spec fn drawn(text: Seq<char>) -> Seq<char> {
    text.filter(|c: char| is_drawn(c))
}

/// The modules of some characters, a light module behind each.
pub open spec fn spaced(chars: Seq<char>) -> Seq<u8>
    decreases chars.len(),
{
    if chars.len() == 0 {
        seq![]
    } else {
        spaced(chars.drop_last()) + PATTERNS@[place(chars.last())->0]@ + seq![0u8]
    }
}

/// The modules of a barcode: start, characters and stop.
pub open spec fn code39_bits(chars: Seq<char>) -> Seq<u8> {
    PATTERNS@[STAR as int]@ + seq![0u8] + spaced(chars) + PATTERNS@[STAR as int]@
}

fn find_place(c: char) -> (p: Option<usize>)
    ensures
        p is Some <==> place(c) is Some,
        p matches Some(k) ==> k == place(c)->0 && k < 44,
{
    if '0' <= c && c <= '9' {
        Some((c as u32 - '0' as u32) as usize)
    } else if 'A' <= c && c <= 'Z' {
        Some((10 + (c as u32 - 'A' as u32)) as usize)
    } else if 'a' <= c && c <= 'z' {
        Some((10 + (c as u32 - 'a' as u32)) as usize)
    } else if c == '-' {
        Some(36)
    } else if c == '.' {
        Some(37)
    } else if c == ' ' {
        Some(38)
    } else if c == '$' {
        Some(39)
    } else if c == '/' {
        Some(40)
    } else if c == '+' {
        Some(41)
    } else if c == '%' {
        Some(42)
    } else if c == '*' {
        Some(43)
    } else {
        None
    }
}

fn push_pattern(bits: &mut Vec<u8>, p: usize)
    requires
        p < 44,
    ensures
        final(bits)@ == old(bits)@ + PATTERNS@[p as int]@,
{
    let ghost start = bits@;
    for k in 0..12
        invariant
            p < 44,
            bits@ == start + PATTERNS@[p as int]@.take(k as int),
    {
        bits.push(PATTERNS[p][k]);
        assert(bits@ =~= start + PATTERNS@[p as int]@.take(k + 1));
    }
    assert(bits@ =~= start + PATTERNS@[p as int]@);
}

/// The bar and space widths of a Code 39 barcode, and the characters that it draws, in the case in
/// which they came. A text without a single character to draw gives none.
pub fn encode_code39_runs(text: &str) -> (result: Option<(Vec<u8>, String)>)
    ensures
        result is None <==> drawn(text@).len() == 0,
        result matches Some(r) ==> r.0@ == stored(run_lengths(code39_bits(drawn(text@)))) && r.1@
            == drawn(text@),
{
    let chars = chars_of(text);
    let mut shown: Vec<char> = Vec::new();
    let mut bits: Vec<u8> = Vec::new();
    push_pattern(&mut bits, STAR);
    bits.push(0);
    let ghost wanted = |c: char| is_drawn(c);
    let ghost head = bits@;
    proof {
        reveal(Seq::filter);
        assert(head + spaced(seq![]) =~= head);
    }
    for i in 0..chars.len()
        invariant
            wanted == (|c: char| is_drawn(c)),
            shown@ == chars@.take(i as int).filter(wanted),
            bits@ == head + spaced(shown@),
    {
        proof {
            reveal(Seq::filter);
            assert(chars@.take(i + 1).drop_last() =~= chars@.take(i as int));
        }
        let c = chars[i];
        if let Some(p) = find_place(c) {
            if c != '*' {
                let ghost before = shown@;
                shown.push(c);
                push_pattern(&mut bits, p);
                bits.push(0);
                assert(shown@.drop_last() =~= before);
                assert(bits@ =~= head + spaced(shown@));
            }
        }
    }
    assert(chars@.take(chars@.len() as int) =~= chars@);
    if shown.len() == 0 {
        return None;
    }
    push_pattern(&mut bits, STAR);
    assert(bits@ =~= code39_bits(drawn(text@)));
    match bits01_to_runs(&bits) {
        None => None,
        Some((runs, start_black)) => {
            assert(start_black);
            Some((runs, string_of(&shown)))
        },
    }
}

#[verifier::spinoff_prover]
proof fn lemma_spaced_len(chars: Seq<char>)
    ensures
        spaced(chars).len() == 13 * chars.len(),
    decreases chars.len(),
{
    if chars.len() > 0 {
        lemma_spaced_len(chars.drop_last());
    }
}

/// A barcode of `n` characters has `13 * n + 25` modules and begins and ends with a bar.
#[verifier::spinoff_prover]
pub proof fn lemma_code39_modules(chars: Seq<char>)
    ensures
        code39_bits(chars).len() == 13 * chars.len() + 25,
        code39_bits(chars)[0] == 1,
        code39_bits(chars).last() == 1,
        module_count(stored(run_lengths(code39_bits(chars)))) <= 13 * chars.len() + 25,
{
    lemma_spaced_len(chars);
    lemma_stored_modules(code39_bits(chars));
}

/// Every character is drawn with twelve modules, between two bars.
#[verifier::spinoff_prover]
pub proof fn lemma_pattern_shape(c: char)
    requires
        place(c) is Some,
    ensures
        PATTERNS@[place(c)->0]@.len() == 12,
        PATTERNS@[place(c)->0]@[0] == 1,
        PATTERNS@[place(c)->0]@[11] == 1,
{
}

/// A character with a lower case letter made upper case.
pub open spec fn upper_char(c: char) -> char {
    if 'a' <= c <= 'z' {
        (c as int - 32) as char
    } else {
        c
    }
}

/// A text with its lower case letters made upper case.
pub open spec fn upper(text: Seq<char>) -> Seq<char> {
    text.map_values(|c: char| upper_char(c))
}

/// A letter is drawn alike in both cases.
#[verifier::spinoff_prover]
proof fn lemma_case_of_char(c: char)
    ensures
        place(upper_char(c)) == place(c),
        is_drawn(upper_char(c)) == is_drawn(c),
{
}

#[verifier::spinoff_prover]
proof fn lemma_case_of_spaced(chars: Seq<char>)
    ensures
        spaced(upper(chars)) == spaced(chars),
    decreases chars.len(),
{
    if chars.len() > 0 {
        lemma_case_of_spaced(chars.drop_last());
        lemma_case_of_char(chars.last());
        assert(upper(chars).drop_last() =~= upper(chars.drop_last()));
    }
}

/// Case changes nothing of the bars: a text made upper case draws the same characters, made upper
/// case, with the same bars, and has none where the text has none.
#[verifier::spinoff_prover]
pub proof fn lemma_case_is_ignored(text: Seq<char>)
    ensures
        drawn(upper(text)) == upper(drawn(text)),
        drawn(upper(text)).len() == drawn(text).len(),
        code39_bits(drawn(upper(text))) == code39_bits(drawn(text)),
    decreases text.len(),
{
    reveal(Seq::filter);
    if text.len() > 0 {
        let front = text.drop_last();
        lemma_case_is_ignored(front);
        lemma_case_of_char(text.last());
        assert(upper(text).drop_last() =~= upper(front));
        if is_drawn(text.last()) {
            assert(drawn(text) == drawn(front).push(text.last()));
            assert(drawn(upper(text)) == drawn(upper(front)).push(upper_char(text.last())));
            assert(upper(drawn(text)) =~= upper(drawn(front)).push(upper_char(text.last())));
        }
    } else {
        assert(upper(text) =~= text);
        assert(drawn(upper(text)) =~= upper(drawn(text)));
    }
    lemma_case_of_spaced(drawn(text));
}

#[verifier::spinoff_prover]
proof fn lemma_spaced_bits(chars: Seq<char>)
    requires
        forall|k: int| 0 <= k < chars.len() ==> place(#[trigger] chars[k]) is Some,
    ensures
        forall|k: int|
            0 <= k < spaced(chars).len() ==> #[trigger] spaced(chars)[k] == 0 || spaced(chars)[k]
                == 1,
        forall|b: int|
            0 <= b < chars.len() ==> #[trigger] spaced(chars)[13 * b] == 1 && spaced(chars)[13 * b
                + 12] == 0,
    decreases chars.len(),
{
    if chars.len() > 0 {
        let front = chars.drop_last();
        lemma_spaced_bits(front);
        lemma_spaced_len(front);
        assert(place(chars[chars.len() - 1]) is Some);
        let last = PATTERNS@[place(chars.last())->0]@;
        lemma_pattern_shape(chars.last());
        assert(forall|k: int| 0 <= k < last.len() ==> #[trigger] last[k] == 0 || last[k] == 1);
        assert forall|b: int| 0 <= b < chars.len() implies #[trigger] spaced(chars)[13 * b] == 1
            && spaced(chars)[13 * b + 12] == 0 by {
            if b < front.len() {
                assert(spaced(chars)[13 * b] == spaced(front)[13 * b]);
                assert(spaced(chars)[13 * b + 12] == spaced(front)[13 * b + 12]);
            }
        }
    }
}

/// The runs of a CODE39, the first of them black, draw its modules.
#[verifier::spinoff_prover]
pub proof fn lemma_code39_runs_draw(chars: Seq<char>)
    requires
        forall|k: int| 0 <= k < chars.len() ==> place(#[trigger] chars[k]) is Some,
    ensures
        modules(stored(run_lengths(code39_bits(chars))), true) == code39_bits(chars).map_values(
            |b: u8| b == 1,
        ),
{
    let bits = code39_bits(chars);
    lemma_code39_modules(chars);
    lemma_spaced_len(chars);
    lemma_spaced_bits(chars);
    assert forall|b: int| 0 <= b <= chars.len() implies #[trigger] bits[13 * b] == 1 && bits[13 * b
        + 12] == 0 by {
        if b > 0 {
            assert(bits[13 * b] == spaced(chars)[13 * (b - 1)]);
            assert(bits[13 * b + 12] == spaced(chars)[13 * (b - 1) + 12]);
        }
    }
    assert forall|i: int| 0 <= i && i + 255 < bits.len() implies #[trigger] changes(
        bits,
        i,
        255,
    ) by {
        let b = i / 13 + 1;
        assert(bits[13 * b] != bits[i] || bits[13 * b + 12] != bits[i]);
    }
    lemma_runs_are_short(bits, 255);
    lemma_runs_draw_the_bits(bits);
}

/// The table lists the digits, the letters and eight signs, in this order. A character has the place
/// in which the table lists it, or its upper case, and no other character has a place.
#[verifier::spinoff_prover]
pub proof fn lemma_place_is_where_the_table_lists(c: char)
    ensures
        ({
            let table = "0123456789ABCDEFGHIJKLMNOPQRSTUVWXYZ-. $/+%*"@;
            let listed = if 'a' <= c && c <= 'z' {
                (c as u8 - 32) as char
            } else {
                c
            };
            &&& table.len() == 44
            &&& place(c) is Some <==> table.contains(listed)
            &&& place(c) matches Some(p) ==> 0 <= p < 44 && table[p] == listed
            &&& is_drawn(c) <==> table.contains(listed) && c != '*'
        }),
{
    reveal_strlit("0123456789ABCDEFGHIJKLMNOPQRSTUVWXYZ-. $/+%*");
    let table = "0123456789ABCDEFGHIJKLMNOPQRSTUVWXYZ-. $/+%*"@;
    let listed = if 'a' <= c && c <= 'z' {
        (c as u8 - 32) as char
    } else {
        c
    };
    assert(place(c) matches Some(p) ==> 0 <= p < 44 && table[p] == listed);
    if let Some(p) = place(c) {
        assert(table[p] == listed);
    }
    assert forall|k: int| 0 <= k < 44 && #[trigger] table[k] == listed implies place(c) is Some by {
    }
}

/// The twelve modules of a character, read as a binary number.
pub open spec fn binary(modules: Seq<u8>) -> int {
    2048 * modules[0] + 1024 * modules[1] + 512 * modules[2] + 256 * modules[3] + 128 * modules[4]
        + 64 * modules[5] + 32 * modules[6] + 16 * modules[7] + 8 * modules[8] + 4 * modules[9] + 2
        * modules[10] + modules[11]
}

/// A binary number with an element behind it: one module where it is narrow, two where it is wide.
pub open spec fn with_element(number: int, module: int, wide: bool) -> int {
    if wide {
        4 * number + 3 * module
    } else {
        2 * number + module
    }
}

/// Nine elements as a binary number, five bars and the four spaces between them, of which `bar` and
/// `space` say whether they are wide. Bars are counted from 0, spaces from 1.
pub open spec fn nine_elements(bar: spec_fn(int) -> bool, space: spec_fn(int) -> bool) -> int {
    let first = with_element(with_element(0, 1, bar(0)), 0, space(1));
    let second = with_element(with_element(first, 1, bar(1)), 0, space(2));
    let third = with_element(with_element(second, 1, bar(2)), 0, space(3));
    let fourth = with_element(with_element(third, 1, bar(3)), 0, space(4));
    with_element(fourth, 1, bar(4))
}

/// What a wide bar is worth.
pub open spec fn bar_weight(bar: int) -> int {
    seq![1int, 2, 4, 7, 0][bar]
}

/// The characters are made in a system. Ten digits, thrice ten letters and signs, and `*` have two
/// wide bars, whose weights add up to the number of the character within its ten (11 stands for the
/// tenth), and one wide space, which tells the tens apart. The other four signs have narrow bars and
/// three wide spaces.
#[verifier::spinoff_prover]
pub proof fn lemma_pattern_elements(p: int)
    requires
        0 <= p < 44,
    ensures
        PATTERNS@[p]@.len() == 12,
        39 <= p <= 42 ==> binary(PATTERNS@[p]@) == nine_elements(
            |bar: int| false,
            |space: int| space != 43 - p,
        ),
        !(39 <= p <= 42) ==> exists|a: int, b: int|
            0 <= a < b < 5 && #[trigger] bar_weight(a) + #[trigger] bar_weight(b) == (if p == 0 || p
                == 19 || p == 29 || p == 43 {
                11
            } else if p < 10 {
                p
            } else {
                (p - 10) % 10 + 1
            }) && binary(PATTERNS@[p]@) == nine_elements(
                |bar: int| bar == a || bar == b,
                |space: int|
                    space == if p < 10 {
                        2int
                    } else if p < 20 {
                        3
                    } else if p < 30 {
                        4
                    } else {
                        1
                    },
            ),
{
    let number = if p == 0 || p == 19 || p == 29 || p == 43 {
        11
    } else if p < 10 {
        p
    } else {
        (p - 10) % 10 + 1
    };
    let a: int = if number == 1 || number == 3 || number == 5 || number == 8 {
        0
    } else if number == 2 || number == 6 || number == 9 {
        1
    } else if number == 4 || number == 11 {
        2
    } else {
        3
    };
    let b: int = if number == 3 {
        1
    } else if number == 5 || number == 6 {
        2
    } else if number == 8 || number == 9 || number == 11 {
        3
    } else {
        4
    };
    assert(!(39 <= p <= 42) ==> bar_weight(a) + bar_weight(b) == number);
}

/// A barcode draws its characters one after the other: behind the `*` at its front, each has the
/// twelve modules that belong to its place in the table and a light one behind them, and the last
/// is followed by a `*`.
#[verifier::spinoff_prover]
pub proof fn lemma_code39_draws_each_character(chars: Seq<char>, i: int)
    requires
        0 <= i < chars.len(),
    ensures
        code39_bits(chars).subrange(13 * (i + 1), 13 * (i + 1) + 12)
            == PATTERNS@[place(chars[i])->0]@,
        code39_bits(chars)[13 * (i + 1) + 12] == 0,
        code39_bits(chars).take(12) == PATTERNS@[43]@,
        code39_bits(chars)[12] == 0,
        code39_bits(chars).skip(13 * (chars.len() as int + 1)) == PATTERNS@[43]@,
{
    lemma_spaced_len(chars);
    lemma_spaced_character(chars, i);
    let bits = code39_bits(chars);
    assert(bits.take(12) =~= PATTERNS@[43]@);
    assert(bits.skip(13 * (chars.len() as int + 1)) =~= PATTERNS@[43]@);
    let drawn = spaced(chars).subrange(13 * i, 13 * i + 12);
    assert(bits.subrange(13 * (i + 1), 13 * (i + 1) + 12) =~= drawn);
    assert(bits[13 * (i + 1) + 12] == spaced(chars)[13 * i + 12]);
}

/// Twelve modules and a light one, behind others.
#[verifier::spinoff_prover]
proof fn lemma_cut_out(front: Seq<u8>, pattern: Seq<u8>)
    requires
        pattern.len() == 12,
    ensures
        ({
            let whole = front + pattern + seq![0u8];
            let n = front.len() as int;
            &&& whole.len() == n + 13
            &&& whole.subrange(n, n + 12) == pattern
            &&& whole[n + 12] == 0
            &&& whole.take(n) == front
        }),
{
    let whole = front + pattern + seq![0u8];
    let n = front.len() as int;
    assert(whole.subrange(n, n + 12) =~= pattern);
    assert(whole.take(n) =~= front);
}

#[verifier::spinoff_prover]
proof fn lemma_spaced_character(chars: Seq<char>, i: int)
    requires
        0 <= i < chars.len(),
    ensures
        spaced(chars).subrange(13 * i, 13 * i + 12) == PATTERNS@[place(chars[i])->0]@,
        spaced(chars)[13 * i + 12] == 0,
    decreases chars.len(),
{
    let front = chars.drop_last();
    lemma_spaced_len(front);
    let pattern = PATTERNS@[place(chars.last())->0]@;
    assert(pattern.len() == 12);
    lemma_cut_out(spaced(front), pattern);
    let whole = spaced(chars);
    assert(whole == spaced(front) + pattern + seq![0u8]);
    if i < front.len() {
        lemma_spaced_character(front, i);
        assert(front[i] == chars[i]);
        assert(whole.subrange(13 * i, 13 * i + 12) =~= whole.take(13 * front.len() as int).subrange(
            13 * i,
            13 * i + 12,
        ));
        assert(whole[13 * i + 12] == whole.take(13 * front.len() as int)[13 * i + 12]);
    } else {
        assert(chars[i] == chars.last());
    }
}

/// No two places are drawn alike.
#[verifier::spinoff_prover]
proof fn lemma_patterns_differ(p: int, q: int)
    requires
        0 <= p < 44,
        0 <= q < 44,
        PATTERNS@[p]@ == PATTERNS@[q]@,
    ensures
        p == q,
{
    let numbers = seq![
        0xA6Dint, 0xD2B, 0xB2B, 0xD95, 0xA6B, 0xD35, 0xB35, 0xA5B, 0xD2D, 0xB2D, 0xD4B, 0xB4B,
        0xDA5, 0xACB, 0xD65, 0xB65, 0xA9B, 0xD4D, 0xB4D, 0xACD, 0xD53, 0xB53, 0xDA9, 0xAD3, 0xD69,
        0xB69, 0xAB3, 0xD59, 0xB59, 0xAD9, 0xCAB, 0x9AB, 0xCD5, 0x96B, 0xCB5, 0x9B5, 0x95B, 0xCAD,
        0x9AD, 0x925, 0x929, 0x949, 0xA49, 0x96D,
    ];
    assert(binary(PATTERNS@[p]@) == numbers[p]);
    assert(binary(PATTERNS@[q]@) == numbers[q]);
}

/// Two texts have the same bars exactly where they draw the same characters, letters of either case
/// taken for the same.
#[verifier::spinoff_prover]
pub proof fn lemma_different_texts_differ(a: Seq<char>, b: Seq<char>)
    ensures
        stored(run_lengths(code39_bits(drawn(a)))) == stored(run_lengths(code39_bits(drawn(b))))
            <==> upper(drawn(a)) == upper(drawn(b)),
{
    let x = drawn(a);
    let y = drawn(b);
    lemma_drawn_have_places(a);
    lemma_drawn_have_places(b);
    if upper(x) == upper(y) {
        lemma_case_of_spaced(x);
        lemma_case_of_spaced(y);
    }
    if stored(run_lengths(code39_bits(x))) == stored(run_lengths(code39_bits(y))) {
        lemma_code39_runs_draw(x);
        lemma_code39_runs_draw(y);
        lemma_code39_modules(x);
        lemma_code39_modules(y);
        lemma_code39_bits(x);
        lemma_code39_bits(y);
        let dark = modules(stored(run_lengths(code39_bits(x))), true);
        assert(dark.len() == code39_bits(x).len() && dark.len() == code39_bits(y).len());
        assert forall|k: int| 0 <= k < dark.len() implies #[trigger] code39_bits(x)[k]
            == code39_bits(y)[k] by {
            assert(dark[k] == (code39_bits(x)[k] == 1));
            assert(dark[k] == (code39_bits(y)[k] == 1));
        }
        assert(code39_bits(x) =~= code39_bits(y));
        assert forall|i: int| 0 <= i < x.len() implies #[trigger] upper(x)[i] == upper(y)[i] by {
            lemma_code39_draws_each_character(x, i);
            lemma_code39_draws_each_character(y, i);
            assert(place(x[i]) is Some && place(y[i]) is Some);
            lemma_place_is_where_the_table_lists(x[i]);
            lemma_place_is_where_the_table_lists(y[i]);
            lemma_patterns_differ(place(x[i])->0, place(y[i])->0);
        }
        assert(upper(x) =~= upper(y));
    }
}

#[verifier::spinoff_prover]
proof fn lemma_drawn_have_places(text: Seq<char>)
    ensures
        forall|k: int| 0 <= k < drawn(text).len() ==> place(#[trigger] drawn(text)[k]) is Some,
{
    assert forall|k: int| 0 <= k < drawn(text).len() implies place(
        #[trigger] drawn(text)[k],
    ) is Some by {
        text.lemma_filter_pred(|c: char| is_drawn(c), k);
    }
}

#[verifier::spinoff_prover]
proof fn lemma_code39_bits(chars: Seq<char>)
    requires
        forall|k: int| 0 <= k < chars.len() ==> place(#[trigger] chars[k]) is Some,
    ensures
        forall|k: int|
            0 <= k < code39_bits(chars).len() ==> #[trigger] code39_bits(chars)[k] == 0
                || code39_bits(chars)[k] == 1,
{
    lemma_spaced_bits(chars);
    lemma_spaced_len(chars);
    let star = PATTERNS@[STAR as int]@;
    assert(forall|k: int| 0 <= k < star.len() ==> #[trigger] star[k] == 0 || star[k] == 1);
    let bits = code39_bits(chars);
    assert forall|k: int| 0 <= k < bits.len() implies #[trigger] bits[k] == 0 || bits[k] == 1 by {
        if 13 <= k < 13 + spaced(chars).len() {
            assert(bits[k] == spaced(chars)[k - 13]);
        } else if k < 12 {
            assert(bits[k] == star[k]);
        } else if k > 12 {
            assert(bits[k] == star[k - 13 - spaced(chars).len()]);
        }
    }
}

/// Of a text the characters that can be drawn are drawn, each of them, in order, and no other.
#[verifier::spinoff_prover]
pub proof fn lemma_drawn_by_characters(a: Seq<char>, c: char, b: Seq<char>)
    ensures
        drawn(a + b) == drawn(a) + drawn(b),
        drawn(seq![c]) == if is_drawn(c) {
            seq![c]
        } else {
            seq![]
        },
        drawn(seq![]) == Seq::<char>::empty(),
{
    let wanted = |x: char| is_drawn(x);
    Seq::filter_distributes_over_add(a, b, wanted);
    reveal(Seq::filter);
    assert(seq![c].drop_last() =~= Seq::<char>::empty());
    assert(Seq::<char>::empty().filter(wanted) =~= Seq::<char>::empty());
    assert(drawn(seq![c]) =~= if is_drawn(c) {
        seq![c]
    } else {
        seq![]
    });
}

} // verus!
