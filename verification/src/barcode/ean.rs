//! EAN-13 and EAN-8.

use crate::barcode::runs::{
    bits01_to_runs, lemma_runs_are_short, lemma_runs_draw_the_bits, lemma_stored_modules,
    module_count, modules, run_lengths, stored,
};
use crate::text::{decimal_digit, digit_value, digits_of, digits_only, is_digit, string_of};
use vstd::prelude::*;

verus! {

/// The three ways in which a digit is drawn.
#[derive(Clone, Copy, PartialEq, Eq, Structural, Debug)]
pub enum Kind {
    /// Left half, odd parity.
    L,
    /// Left half, even parity.
    G,
    /// Right half.
    R,
}

/// Modules of the digits of kind L.
pub const L_CODES: [[u8; 7]; 10] = [
    [0, 0, 0, 1, 1, 0, 1],
    [0, 0, 1, 1, 0, 0, 1],
    [0, 0, 1, 0, 0, 1, 1],
    [0, 1, 1, 1, 1, 0, 1],
    [0, 1, 0, 0, 0, 1, 1],
    [0, 1, 1, 0, 0, 0, 1],
    [0, 1, 0, 1, 1, 1, 1],
    [0, 1, 1, 1, 0, 1, 1],
    [0, 1, 1, 0, 1, 1, 1],
    [0, 0, 0, 1, 0, 1, 1],
];

/// Modules of the digits of kind G.
pub const G_CODES: [[u8; 7]; 10] = [
    [0, 1, 0, 0, 1, 1, 1],
    [0, 1, 1, 0, 0, 1, 1],
    [0, 0, 1, 1, 0, 1, 1],
    [0, 1, 0, 0, 0, 0, 1],
    [0, 0, 1, 1, 1, 0, 1],
    [0, 1, 1, 1, 0, 0, 1],
    [0, 0, 0, 0, 1, 0, 1],
    [0, 0, 1, 0, 0, 0, 1],
    [0, 0, 0, 1, 0, 0, 1],
    [0, 0, 1, 0, 1, 1, 1],
];

/// Modules of the digits of kind R.
pub const R_CODES: [[u8; 7]; 10] = [
    [1, 1, 1, 0, 0, 1, 0],
    [1, 1, 0, 0, 1, 1, 0],
    [1, 1, 0, 1, 1, 0, 0],
    [1, 0, 0, 0, 0, 1, 0],
    [1, 0, 1, 1, 1, 0, 0],
    [1, 0, 0, 1, 1, 1, 0],
    [1, 0, 1, 0, 0, 0, 0],
    [1, 0, 0, 0, 1, 0, 0],
    [1, 0, 0, 1, 0, 0, 0],
    [1, 1, 1, 0, 1, 0, 0],
];

/// How the left half of an EAN-13 is drawn, by the first digit.
pub const PARITY: [[Kind; 6]; 10] = [
    [Kind::L, Kind::L, Kind::L, Kind::L, Kind::L, Kind::L],
    [Kind::L, Kind::L, Kind::G, Kind::L, Kind::G, Kind::G],
    [Kind::L, Kind::L, Kind::G, Kind::G, Kind::L, Kind::G],
    [Kind::L, Kind::L, Kind::G, Kind::G, Kind::G, Kind::L],
    [Kind::L, Kind::G, Kind::L, Kind::L, Kind::G, Kind::G],
    [Kind::L, Kind::G, Kind::G, Kind::L, Kind::L, Kind::G],
    [Kind::L, Kind::G, Kind::G, Kind::G, Kind::L, Kind::L],
    [Kind::L, Kind::G, Kind::L, Kind::G, Kind::L, Kind::G],
    [Kind::L, Kind::G, Kind::L, Kind::G, Kind::G, Kind::L],
    [Kind::L, Kind::G, Kind::G, Kind::L, Kind::G, Kind::L],
];

/// The modules of one digit.
pub open spec fn code(kind: Kind, digit: int) -> Seq<u8> {
    match kind {
        Kind::L => L_CODES@[digit]@,
        Kind::G => G_CODES@[digit]@,
        Kind::R => R_CODES@[digit]@,
    }
}

/// The modules of a row of digits, each drawn in its kind.
pub open spec fn side(digits: Seq<char>, kinds: Seq<Kind>) -> Seq<u8>
    decreases digits.len(),
{
    if digits.len() == 0 {
        seq![]
    } else {
        side(digits.drop_last(), kinds) + code(
            kinds[digits.len() - 1],
            digit_value(digits.last()),
        )
    }
}

/// The guard bars at both ends.
pub open spec fn end_guard() -> Seq<u8> {
    seq![1u8, 0, 1]
}

/// The guard bars in the middle.
pub open spec fn middle_guard() -> Seq<u8> {
    seq![0u8, 1, 0, 1, 0]
}

/// The modules of an EAN-13 of thirteen digits.
pub open spec fn ean13_bits(digits: Seq<char>) -> Seq<u8> {
    end_guard() + side(digits.subrange(1, 7), PARITY@[digit_value(digits[0])]@) + middle_guard()
        + side(digits.subrange(7, 13), seq![Kind::R, Kind::R, Kind::R, Kind::R, Kind::R, Kind::R])
        + end_guard()
}

/// The modules of an EAN-8 of eight digits.
pub open spec fn ean8_bits(digits: Seq<char>) -> Seq<u8> {
    end_guard() + side(digits.subrange(0, 4), seq![Kind::L, Kind::L, Kind::L, Kind::L])
        + middle_guard() + side(
        digits.subrange(4, 8),
        seq![Kind::R, Kind::R, Kind::R, Kind::R],
    ) + end_guard()
}

/// The sum of the digits, weighted from the right with `weight` and `4 - weight` in turn.
pub open spec fn weighted(digits: Seq<char>, weight: int) -> int
    decreases digits.len(),
{
    if digits.len() == 0 {
        0
    } else {
        weighted(digits.drop_last(), 4 - weight) + weight * digit_value(digits.last())
    }
}

/// The check digit that belongs behind `digits`.
pub open spec fn check_digit(digits: Seq<char>) -> char {
    decimal_digit((10 - weighted(digits, 3) % 10) % 10)
}

/// The digits that are drawn for a text: its own, and the check digit where it lacks.
pub open spec fn complete(text: Seq<char>) -> Seq<char> {
    let digits = digits_of(text);
    if digits.len() == 7 || digits.len() == 12 {
        digits.push(check_digit(digits))
    } else {
        digits
    }
}

/// The modules that are drawn for a complete number: thirteen or eight digits, and no other.
pub open spec fn ean_bits(digits: Seq<char>) -> Option<Seq<u8>> {
    if digits.len() == 13 {
        Some(ean13_bits(digits))
    } else if digits.len() == 8 {
        Some(ean8_bits(digits))
    } else {
        None
    }
}

fn digit_number(c: char) -> (d: usize)
    requires
        '0' <= c <= '9',
    ensures
        d == digit_value(c),
        d < 10,
{
    (c as u32 - '0' as u32) as usize
}

fn digit_char(d: u32) -> (c: char)
    requires
        d < 10,
    ensures
        c == decimal_digit(d as int),
{
    match d {
        0 => '0',
        1 => '1',
        2 => '2',
        3 => '3',
        4 => '4',
        5 => '5',
        6 => '6',
        7 => '7',
        8 => '8',
        _ => '9',
    }
}

/// Appends the modules of one digit.
fn push_code(bits: &mut Vec<u8>, kind: Kind, digit: usize)
    requires
        digit < 10,
    ensures
        final(bits)@ == old(bits)@ + code(kind, digit as int),
{
    let ghost start = bits@;
    for k in 0..7
        invariant
            digit < 10,
            bits@ == start + code(kind, digit as int).take(k as int),
    {
        let bit: u8 = match kind {
            Kind::L => L_CODES[digit][k],
            Kind::G => G_CODES[digit][k],
            Kind::R => R_CODES[digit][k],
        };
        bits.push(bit);
        assert(bits@ =~= start + code(kind, digit as int).take(k + 1));
    }
    assert(bits@ =~= start + code(kind, digit as int));
}

/// Appends the modules of the digits `from..to`, drawn in `kinds`.
fn push_side(bits: &mut Vec<u8>, digits: &Vec<char>, from: usize, to: usize, kinds: &[Kind])
    requires
        from <= to <= digits@.len(),
        kinds@.len() == to - from,
        forall|k: int| 0 <= k < digits@.len() ==> '0' <= #[trigger] digits@[k] <= '9',
    ensures
        final(bits)@ == old(bits)@ + side(digits@.subrange(from as int, to as int), kinds@),
{
    let ghost start = bits@;
    let ghost part = digits@.subrange(from as int, to as int);
    assert(start + side(part.take(0), kinds@) =~= start);
    for i in 0..(to - from)
        invariant
            from <= to <= digits@.len(),
            kinds@.len() == to - from,
            part == digits@.subrange(from as int, to as int),
            forall|k: int| 0 <= k < digits@.len() ==> '0' <= #[trigger] digits@[k] <= '9',
            bits@ == start + side(part.take(i as int), kinds@),
    {
        assert(digits@[from + i] == part[i as int]);
        push_code(bits, kinds[i], digit_number(digits[from + i]));
        assert(part.take(i + 1).drop_last() =~= part.take(i as int));
        assert(bits@ =~= start + side(part.take(i + 1), kinds@));
    }
    assert(part.take(to - from) =~= part);
}

fn push_end_guard(bits: &mut Vec<u8>)
    ensures
        final(bits)@ == old(bits)@ + end_guard(),
{
    let ghost start = bits@;
    bits.push(1);
    bits.push(0);
    bits.push(1);
    assert(bits@ =~= start + end_guard());
}

fn push_middle_guard(bits: &mut Vec<u8>)
    ensures
        final(bits)@ == old(bits)@ + middle_guard(),
{
    let ghost start = bits@;
    bits.push(0);
    bits.push(1);
    bits.push(0);
    bits.push(1);
    bits.push(0);
    assert(bits@ =~= start + middle_guard());
}

/// Computes the check digit.
fn compute_check_digit(digits: &Vec<char>) -> (c: char)
    requires
        digits@.len() <= 12,
        forall|k: int| 0 <= k < digits@.len() ==> '0' <= #[trigger] digits@[k] <= '9',
    ensures
        c == check_digit(digits@),
{
    let mut sum: u32 = 0;
    let mut weight: u32 = 3;
    let mut left: usize = digits.len();
    assert(digits@.take(left as int) =~= digits@);
    while left > 0
        invariant
            left <= digits@.len() <= 12,
            weight == 1 || weight == 3,
            forall|k: int| 0 <= k < digits@.len() ==> '0' <= #[trigger] digits@[k] <= '9',
            sum <= 27 * (digits@.len() - left),
            weighted(digits@, 3) == sum + weighted(digits@.take(left as int), weight as int),
        decreases left,
    {
        let d: u32 = digit_number(digits[left - 1]) as u32;
        assert(digits@.take(left as int).drop_last() =~= digits@.take(left - 1));
        assert(weight * d <= 27) by (nonlinear_arith)
            requires
                weight <= 3,
                d <= 9,
        ;
        sum = sum + weight * d;
        weight = 4 - weight;
        left = left - 1;
    }
    digit_char((10 - sum % 10) % 10)
}

/// The bar and space widths of an EAN-13 or EAN-8, and its digits. A text of neither thirteen nor
/// eight digits, counting the check digit that is added to twelve or seven, gives none.
pub fn encode_ean_runs(text: &str) -> (result: Option<(Vec<u8>, String)>)
    ensures
        result is None <==> ean_bits(complete(text@)) is None,
        result matches Some(r) ==> r.0@ == stored(run_lengths(ean_bits(complete(text@))->0))
            && r.1@ == complete(text@),
{
    let mut digits = digits_only(text);
    if digits.len() == 7 || digits.len() == 12 {
        let check = compute_check_digit(&digits);
        digits.push(check);
    }
    assert(digits@ == complete(text@));
    let mut bits: Vec<u8> = Vec::new();
    if digits.len() == 13 {
        let first = digit_number(digits[0]);
        push_end_guard(&mut bits);
        push_side(&mut bits, &digits, 1, 7, &PARITY[first]);
        push_middle_guard(&mut bits);
        let kinds: [Kind; 6] = [Kind::R, Kind::R, Kind::R, Kind::R, Kind::R, Kind::R];
        assert(kinds@ =~= seq![Kind::R, Kind::R, Kind::R, Kind::R, Kind::R, Kind::R]);
        push_side(&mut bits, &digits, 7, 13, &kinds);
        push_end_guard(&mut bits);
        assert(bits@ =~= ean13_bits(digits@));
    } else if digits.len() == 8 {
        push_end_guard(&mut bits);
        let left: [Kind; 4] = [Kind::L, Kind::L, Kind::L, Kind::L];
        assert(left@ =~= seq![Kind::L, Kind::L, Kind::L, Kind::L]);
        push_side(&mut bits, &digits, 0, 4, &left);
        push_middle_guard(&mut bits);
        let right: [Kind; 4] = [Kind::R, Kind::R, Kind::R, Kind::R];
        assert(right@ =~= seq![Kind::R, Kind::R, Kind::R, Kind::R]);
        push_side(&mut bits, &digits, 4, 8, &right);
        push_end_guard(&mut bits);
        assert(bits@ =~= ean8_bits(digits@));
    } else {
        return None;
    }
    match bits01_to_runs(&bits) {
        None => None,
        Some((runs, start_black)) => {
            assert(start_black);
            Some((runs, string_of(&digits)))
        },
    }
}

/// The check digit makes the weighted sum of the whole number a multiple of ten.
pub proof fn lemma_check_digit(digits: Seq<char>)
    ensures
        weighted(digits.push(check_digit(digits)), 1) % 10 == 0,
{
    let whole = digits.push(check_digit(digits));
    assert(whole.drop_last() =~= digits);
    let c = (10 - weighted(digits, 3) % 10) % 10;
    assert(digit_value(decimal_digit(c)) == c);
}

/// The digits of kind R are those of kind L with the colours exchanged, and those of kind G are
/// those of kind R read backwards.
pub proof fn lemma_code_kinds(digit: int)
    requires
        0 <= digit < 10,
    ensures
        code(Kind::R, digit) == code(Kind::L, digit).map_values(|b: u8| (1 - b) as u8),
        code(Kind::G, digit) == code(Kind::R, digit).reverse(),
{
    assert(code(Kind::R, digit) =~= code(Kind::L, digit).map_values(|b: u8| (1 - b) as u8));
    assert(code(Kind::G, digit) =~= code(Kind::R, digit).reverse());
}

proof fn lemma_side_len(digits: Seq<char>, kinds: Seq<Kind>)
    ensures
        side(digits, kinds).len() == 7 * digits.len(),
    decreases digits.len(),
{
    if digits.len() > 0 {
        lemma_side_len(digits.drop_last(), kinds);
    }
}

/// An EAN-13 is 95 modules wide and an EAN-8 is 67, and both begin and end with a bar.
pub proof fn lemma_ean_modules(digits: Seq<char>)
    requires
        digits.len() == 13 || digits.len() == 8,
    ensures
        ean_bits(digits) matches Some(bits) && {
            &&& bits.len() == if digits.len() == 13 {
                95nat
            } else {
                67nat
            }
            &&& bits[0] == 1
            &&& bits.last() == 1
            &&& module_count(stored(run_lengths(bits))) == bits.len()
        },
{
    lemma_side_len(digits.subrange(1, 7), PARITY@[digit_value(digits[0])]@);
    lemma_side_len(
        digits.subrange(7, 13),
        seq![Kind::R, Kind::R, Kind::R, Kind::R, Kind::R, Kind::R],
    );
    lemma_side_len(digits.subrange(0, 4), seq![Kind::L, Kind::L, Kind::L, Kind::L]);
    lemma_side_len(digits.subrange(4, 8), seq![Kind::R, Kind::R, Kind::R, Kind::R]);
    lemma_stored_modules(ean_bits(digits)->0);
}

proof fn lemma_side_bits(digits: Seq<char>, kinds: Seq<Kind>)
    requires
        forall|k: int| 0 <= k < digits.len() ==> is_digit(#[trigger] digits[k]),
    ensures
        forall|k: int|
            0 <= k < side(digits, kinds).len() ==> #[trigger] side(digits, kinds)[k] == 0 || side(
                digits,
                kinds,
            )[k] == 1,
    decreases digits.len(),
{
    if digits.len() > 0 {
        lemma_side_bits(digits.drop_last(), kinds);
        assert(is_digit(digits[digits.len() - 1]));
        let last = code(kinds[digits.len() - 1], digit_value(digits.last()));
        assert(forall|k: int| 0 <= k < last.len() ==> #[trigger] last[k] == 0 || last[k] == 1);
        let front = side(digits.drop_last(), kinds);
        let whole = side(digits, kinds);
        assert forall|k: int| 0 <= k < whole.len() implies #[trigger] whole[k] == 0 || whole[k]
            == 1 by {
            if k < front.len() {
                assert(whole[k] == front[k]);
            } else {
                assert(whole[k] == last[k - front.len()]);
            }
        }
    }
}

/// The modules of an EAN are ones and zeros, and its runs, the first of them black, draw them.
pub proof fn lemma_ean_runs_draw(digits: Seq<char>)
    requires
        digits.len() == 13 || digits.len() == 8,
        forall|k: int| 0 <= k < digits.len() ==> is_digit(#[trigger] digits[k]),
    ensures
        ean_bits(digits) matches Some(bits) && {
            &&& modules(stored(run_lengths(bits)), true) == bits.map_values(|b: u8| b == 1)
            &&& forall|k: int| 0 <= k < bits.len() ==> #[trigger] bits[k] == 0 || bits[k] == 1
        },
{
    lemma_ean_modules(digits);
    if digits.len() == 13 {
        lemma_side_bits(digits.subrange(1, 7), PARITY@[digit_value(digits[0])]@);
        lemma_side_bits(
            digits.subrange(7, 13),
            seq![Kind::R, Kind::R, Kind::R, Kind::R, Kind::R, Kind::R],
        );
    } else {
        lemma_side_bits(digits.subrange(0, 4), seq![Kind::L, Kind::L, Kind::L, Kind::L]);
        lemma_side_bits(digits.subrange(4, 8), seq![Kind::R, Kind::R, Kind::R, Kind::R]);
    }
    let bits = ean_bits(digits)->0;
    lemma_runs_are_short(bits, 255);
    lemma_runs_draw_the_bits(bits);
}

/// The modules of a digit, read as a binary number.
pub open spec fn code_number(modules: Seq<u8>) -> int {
    64 * modules[0] + 32 * modules[1] + 16 * modules[2] + 8 * modules[3] + 4 * modules[4] + 2
        * modules[5] + modules[6]
}

/// The kinds of a left half, read as a binary number.
pub open spec fn parity_number(kinds: Seq<Kind>) -> int
    decreases kinds.len(),
{
    if kinds.len() == 0 {
        0
    } else {
        2 * parity_number(kinds.drop_last()) + if kinds.last() == Kind::G {
            1int
        } else {
            0
        }
    }
}

spec fn number_of(kind: Kind, digit: int) -> int {
    let numbers = match kind {
        Kind::L => seq![13int, 25, 19, 61, 35, 49, 47, 59, 55, 11],
        Kind::G => seq![39int, 51, 27, 33, 29, 57, 5, 17, 9, 23],
        Kind::R => seq![114int, 102, 108, 66, 92, 78, 80, 68, 72, 116],
    };
    numbers[digit]
}

proof fn lemma_code_number(kind: Kind, digit: int)
    requires
        0 <= digit < 10,
    ensures
        code_number(code(kind, digit)) == number_of(kind, digit),
{
}

/// The modules of a digit, read as a binary number, are those of the standard: the digits of kind L
/// are 13, 25, 19, 61, 35, 49, 47, 59, 55 and 11, those of kind R add up with them to 127, and those
/// of kind G are those of kind R read backwards. The kinds of a left half, G being one, are read as
/// 0, 11, 13, 14, 19, 25, 28, 21, 22 and 26, by the first digit of the number.
pub proof fn lemma_modules_of_a_digit(digit: int)
    requires
        0 <= digit < 10,
    ensures
        code_number(code(Kind::L, digit)) == seq![13int, 25, 19, 61, 35, 49, 47, 59, 55, 11][digit],
        code_number(code(Kind::R, digit)) == 127 - code_number(code(Kind::L, digit)),
        code(Kind::G, digit) == code(Kind::R, digit).reverse(),
        parity_number(PARITY@[digit]@) == seq![0int, 11, 13, 14, 19, 25, 28, 21, 22, 26][digit],
{
    lemma_code_number(Kind::L, digit);
    lemma_code_number(Kind::R, digit);
    lemma_code_kinds(digit);
    reveal_with_fuel(parity_number, 7);
}

/// No two digits are drawn alike, whatever their kinds.
pub proof fn lemma_codes_differ(kind: Kind, digit: int, other_kind: Kind, other: int)
    requires
        0 <= digit < 10,
        0 <= other < 10,
        code(kind, digit) == code(other_kind, other),
    ensures
        kind == other_kind,
        digit == other,
{
    lemma_code_number(kind, digit);
    lemma_code_number(other_kind, other);
}

/// No two first digits have the same kinds in the left half.
pub proof fn lemma_parities_differ(digit: int, other: int)
    requires
        0 <= digit < 10,
        0 <= other < 10,
        PARITY@[digit]@ == PARITY@[other]@,
    ensures
        digit == other,
{
    reveal_with_fuel(parity_number, 7);
    let numbers = seq![0int, 11, 13, 14, 19, 25, 28, 21, 22, 26];
    assert(parity_number(PARITY@[digit]@) == numbers[digit]);
    assert(parity_number(PARITY@[other]@) == numbers[other]);
}

/// Two rows of digits that are drawn alike have the same digits, in the same kinds.
proof fn lemma_sides_differ(
    digits: Seq<char>,
    kinds: Seq<Kind>,
    other: Seq<char>,
    other_kinds: Seq<Kind>,
)
    requires
        digits.len() == other.len(),
        kinds.len() == digits.len(),
        other_kinds.len() == digits.len(),
        forall|k: int| 0 <= k < digits.len() ==> is_digit(#[trigger] digits[k]),
        forall|k: int| 0 <= k < other.len() ==> is_digit(#[trigger] other[k]),
        side(digits, kinds) == side(other, other_kinds),
    ensures
        digits == other,
        kinds == other_kinds,
    decreases digits.len(),
{
    if digits.len() > 0 {
        let last = digits.len() - 1;
        lemma_side_len(digits.drop_last(), kinds);
        lemma_side_len(other.drop_last(), other_kinds);
        lemma_side_kinds(digits.drop_last(), kinds, kinds.drop_last());
        lemma_side_kinds(other.drop_last(), other_kinds, other_kinds.drop_last());
        let whole = side(digits, kinds);
        assert(whole.take(7 * last) =~= side(digits.drop_last(), kinds));
        assert(whole.take(7 * last) =~= side(other.drop_last(), other_kinds));
        lemma_sides_differ(
            digits.drop_last(),
            kinds.drop_last(),
            other.drop_last(),
            other_kinds.drop_last(),
        );
        assert(is_digit(digits[last]) && is_digit(other[last]));
        let code_a = code(kinds[last], digit_value(digits.last()));
        let code_b = code(other_kinds[last], digit_value(other.last()));
        assert(code_a.len() == 7 && code_b.len() == 7);
        assert(whole.skip(7 * last) =~= code_a);
        assert(whole.skip(7 * last) =~= code_b);
        lemma_codes_differ(
            kinds[last],
            digit_value(digits.last()),
            other_kinds[last],
            digit_value(other.last()),
        );
        assert(digits =~= digits.drop_last().push(digits.last()));
        assert(other =~= other.drop_last().push(other.last()));
        assert(kinds =~= kinds.drop_last().push(kinds.last()));
        assert(other_kinds =~= other_kinds.drop_last().push(other_kinds.last()));
    } else {
        assert(digits =~= other);
        assert(kinds =~= other_kinds);
    }
}

proof fn lemma_side_kinds(digits: Seq<char>, kinds: Seq<Kind>, other_kinds: Seq<Kind>)
    requires
        forall|k: int| 0 <= k < digits.len() ==> kinds[k] == #[trigger] other_kinds[k],
    ensures
        side(digits, kinds) == side(digits, other_kinds),
    decreases digits.len(),
{
    if digits.len() > 0 {
        lemma_side_kinds(digits.drop_last(), kinds, other_kinds);
        assert(kinds[digits.len() - 1] == other_kinds[digits.len() - 1]);
    }
}

proof fn lemma_ean13_bits_differ(a: Seq<char>, b: Seq<char>)
    requires
        a.len() == 13 && b.len() == 13,
        forall|k: int| 0 <= k < a.len() ==> is_digit(#[trigger] a[k]),
        forall|k: int| 0 <= k < b.len() ==> is_digit(#[trigger] b[k]),
        ean13_bits(a) == ean13_bits(b),
    ensures
        a == b,
{
    let right = seq![Kind::R, Kind::R, Kind::R, Kind::R, Kind::R, Kind::R];
    let kinds_a = PARITY@[digit_value(a[0])]@;
    let kinds_b = PARITY@[digit_value(b[0])]@;
    lemma_side_len(a.subrange(1, 7), kinds_a);
    lemma_side_len(b.subrange(1, 7), kinds_b);
    lemma_side_len(a.subrange(7, 13), right);
    lemma_side_len(b.subrange(7, 13), right);
    let bits = ean13_bits(a);
    assert(bits.subrange(3, 45) =~= side(a.subrange(1, 7), kinds_a));
    assert(bits.subrange(3, 45) =~= side(b.subrange(1, 7), kinds_b));
    assert(bits.subrange(50, 92) =~= side(a.subrange(7, 13), right));
    assert(bits.subrange(50, 92) =~= side(b.subrange(7, 13), right));
    assert(is_digit(a[0]) && is_digit(b[0]));
    lemma_sides_differ(a.subrange(1, 7), kinds_a, b.subrange(1, 7), kinds_b);
    lemma_sides_differ(a.subrange(7, 13), right, b.subrange(7, 13), right);
    lemma_parities_differ(digit_value(a[0]), digit_value(b[0]));
    assert(a =~= seq![a[0]] + a.subrange(1, 7) + a.subrange(7, 13));
    assert(b =~= seq![b[0]] + b.subrange(1, 7) + b.subrange(7, 13));
}

proof fn lemma_ean8_bits_differ(a: Seq<char>, b: Seq<char>)
    requires
        a.len() == 8 && b.len() == 8,
        forall|k: int| 0 <= k < a.len() ==> is_digit(#[trigger] a[k]),
        forall|k: int| 0 <= k < b.len() ==> is_digit(#[trigger] b[k]),
        ean8_bits(a) == ean8_bits(b),
    ensures
        a == b,
{
    let left = seq![Kind::L, Kind::L, Kind::L, Kind::L];
    let right = seq![Kind::R, Kind::R, Kind::R, Kind::R];
    lemma_side_len(a.subrange(0, 4), left);
    lemma_side_len(b.subrange(0, 4), left);
    lemma_side_len(a.subrange(4, 8), right);
    lemma_side_len(b.subrange(4, 8), right);
    let bits = ean8_bits(a);
    assert(bits.subrange(3, 31) =~= side(a.subrange(0, 4), left));
    assert(bits.subrange(3, 31) =~= side(b.subrange(0, 4), left));
    assert(bits.subrange(36, 64) =~= side(a.subrange(4, 8), right));
    assert(bits.subrange(36, 64) =~= side(b.subrange(4, 8), right));
    lemma_sides_differ(a.subrange(0, 4), left, b.subrange(0, 4), left);
    lemma_sides_differ(a.subrange(4, 8), right, b.subrange(4, 8), right);
    assert(a =~= a.subrange(0, 4) + a.subrange(4, 8));
    assert(b =~= b.subrange(0, 4) + b.subrange(4, 8));
}

/// A complete number holds digits alone.
pub proof fn lemma_complete_is_digits(text: Seq<char>)
    ensures
        forall|k: int| 0 <= k < complete(text).len() ==> is_digit(#[trigger] complete(text)[k]),
{
    let digits = digits_of(text);
    let wanted = |c: char| is_digit(c);
    assert forall|k: int| 0 <= k < digits.len() implies is_digit(#[trigger] digits[k]) by {
        text.lemma_filter_pred(wanted, k);
    }
    let c = (10 - weighted(digits, 3) % 10) % 10;
    assert(0 <= c < 10);
    assert(is_digit(decimal_digit(c)));
}

/// Two texts that both give bars give the same bars exactly where their complete numbers are the
/// same: different numbers are drawn differently.
pub proof fn lemma_different_numbers_differ(a: Seq<char>, b: Seq<char>)
    requires
        ean_bits(complete(a)) is Some,
        ean_bits(complete(b)) is Some,
    ensures
        stored(run_lengths(ean_bits(complete(a))->0)) == stored(
            run_lengths(ean_bits(complete(b))->0),
        ) <==> complete(a) == complete(b),
{
    let bits_a = ean_bits(complete(a))->0;
    let bits_b = ean_bits(complete(b))->0;
    if stored(run_lengths(bits_a)) == stored(run_lengths(bits_b)) {
        lemma_complete_is_digits(a);
        lemma_complete_is_digits(b);
        lemma_ean_runs_draw(complete(a));
        lemma_ean_runs_draw(complete(b));
        lemma_ean_modules(complete(a));
        lemma_ean_modules(complete(b));
        let drawn = modules(stored(run_lengths(bits_a)), true);
        assert forall|k: int| 0 <= k < bits_a.len() implies #[trigger] bits_a[k] == bits_b[k] by {
            assert(drawn[k] == (bits_a[k] == 1));
            assert(drawn[k] == (bits_b[k] == 1));
        }
        assert(bits_a =~= bits_b);
        if complete(a).len() == 13 {
            lemma_ean13_bits_differ(complete(a), complete(b));
        } else {
            lemma_ean8_bits_differ(complete(a), complete(b));
        }
    }
}

/// The check digit behind twelve digits makes the sum of the thirteen, every second one threefold,
/// a multiple of ten; the one behind seven digits does so with the sum of the eight, of which the
/// first counts threefold.
pub proof fn lemma_check_digit_completes_the_sum(digits: Seq<char>)
    ensures
        ({
            let d = |k: int| digit_value(digits[k]);
            let check = check_digit(digits);
            &&& '0' <= check <= '9'
            &&& digits.len() == 12 ==> (d(0) + 3 * d(1) + d(2) + 3 * d(3) + d(4) + 3 * d(5) + d(6)
                + 3 * d(7) + d(8) + 3 * d(9) + d(10) + 3 * d(11) + digit_value(check)) % 10 == 0
            &&& digits.len() == 7 ==> (3 * d(0) + d(1) + 3 * d(2) + d(3) + 3 * d(4) + d(5) + 3 * d(6)
                + digit_value(check)) % 10 == 0
        }),
{
    let c = (10 - weighted(digits, 3) % 10) % 10;
    assert(0 <= c < 10);
    assert(digit_value(decimal_digit(c)) == c);
    reveal_with_fuel(weighted, 13);
    if digits.len() == 12 {
        let d = |k: int| digit_value(digits[k]);
        assert(weighted(digits, 3) == d(0) + 3 * d(1) + d(2) + 3 * d(3) + d(4) + 3 * d(5) + d(6) + 3
            * d(7) + d(8) + 3 * d(9) + d(10) + 3 * d(11));
    } else if digits.len() == 7 {
        let d = |k: int| digit_value(digits[k]);
        assert(weighted(digits, 3) == 3 * d(0) + d(1) + 3 * d(2) + d(3) + 3 * d(4) + d(5) + 3 * d(
            6,
        ));
    }
}

/// A number of twelve or seven digits gets its check digit; any other is left as it is. Numbers of
/// thirteen and eight digits are drawn, and no others.
pub proof fn lemma_numbers_that_are_drawn(text: Seq<char>)
    ensures
        ({
            let n = digits_of(text).len();
            &&& n == 12 || n == 7 ==> complete(text) == digits_of(text).push(
                check_digit(digits_of(text)),
            )
            &&& n != 12 && n != 7 ==> complete(text) == digits_of(text)
            &&& ean_bits(complete(text)) is Some <==> n == 13 || n == 12 || n == 8 || n == 7
        }),
{
}

proof fn lemma_side_digit(digits: Seq<char>, kinds: Seq<Kind>, k: int)
    requires
        0 <= k < digits.len(),
    ensures
        side(digits, kinds).len() == 7 * digits.len(),
        side(digits, kinds).subrange(7 * k, 7 * k + 7) == code(kinds[k], digit_value(digits[k])),
    decreases digits.len(),
{
    let front = digits.drop_last();
    lemma_side_len(front, kinds);
    let last = code(kinds[digits.len() - 1], digit_value(digits.last()));
    assert(last.len() == 7);
    let whole = side(digits, kinds);
    assert(whole == side(front, kinds) + last);
    if k < front.len() {
        lemma_side_digit(front, kinds, k);
        assert(front[k] == digits[k]);
        assert(whole.subrange(7 * k, 7 * k + 7) =~= side(front, kinds).subrange(
            7 * k,
            7 * k + 7,
        ));
    } else {
        assert(whole.subrange(7 * k, 7 * k + 7) =~= last);
    }
}

/// The modules of an EAN-13 are a guard of three, six digits in the kinds that the first digit of
/// the number chooses, a guard of five, six digits of kind R and a guard of three.
pub proof fn lemma_ean13_digits(digits: Seq<char>, k: int)
    requires
        digits.len() == 13,
        0 <= k < 6,
    ensures
        ean_bits(digits) matches Some(bits) && {
            &&& bits.len() == 95
            &&& bits.subrange(0, 3) == seq![1u8, 0, 1]
            &&& bits.subrange(3 + 7 * k, 3 + 7 * k + 7) == code(
                PARITY@[digit_value(digits[0])]@[k],
                digit_value(digits[1 + k]),
            )
            &&& bits.subrange(45, 50) == seq![0u8, 1, 0, 1, 0]
            &&& bits.subrange(50 + 7 * k, 50 + 7 * k + 7) == code(
                Kind::R,
                digit_value(digits[7 + k]),
            )
            &&& bits.subrange(92, 95) == seq![1u8, 0, 1]
        },
{
    let left = PARITY@[digit_value(digits[0])]@;
    let right = seq![Kind::R, Kind::R, Kind::R, Kind::R, Kind::R, Kind::R];
    let a = side(digits.subrange(1, 7), left);
    let b = side(digits.subrange(7, 13), right);
    lemma_side_digit(digits.subrange(1, 7), left, k);
    lemma_side_digit(digits.subrange(7, 13), right, k);
    let bits = ean13_bits(digits);
    assert(bits == end_guard() + a + middle_guard() + b + end_guard());
    assert(bits.subrange(0, 3) =~= seq![1u8, 0, 1]);
    assert(bits.subrange(3 + 7 * k, 3 + 7 * k + 7) =~= a.subrange(7 * k, 7 * k + 7));
    assert(bits.subrange(45, 50) =~= seq![0u8, 1, 0, 1, 0]);
    assert(bits.subrange(50 + 7 * k, 50 + 7 * k + 7) =~= b.subrange(7 * k, 7 * k + 7));
    assert(bits.subrange(92, 95) =~= seq![1u8, 0, 1]);
    assert(right[k] == Kind::R);
}

/// The modules of an EAN-8 are a guard of three, four digits of kind L, a guard of five, four digits
/// of kind R and a guard of three.
pub proof fn lemma_ean8_digits(digits: Seq<char>, k: int)
    requires
        digits.len() == 8,
        0 <= k < 4,
    ensures
        ean_bits(digits) matches Some(bits) && {
            &&& bits.len() == 67
            &&& bits.subrange(0, 3) == seq![1u8, 0, 1]
            &&& bits.subrange(3 + 7 * k, 3 + 7 * k + 7) == code(Kind::L, digit_value(digits[k]))
            &&& bits.subrange(31, 36) == seq![0u8, 1, 0, 1, 0]
            &&& bits.subrange(36 + 7 * k, 36 + 7 * k + 7) == code(
                Kind::R,
                digit_value(digits[4 + k]),
            )
            &&& bits.subrange(64, 67) == seq![1u8, 0, 1]
        },
{
    let left = seq![Kind::L, Kind::L, Kind::L, Kind::L];
    let right = seq![Kind::R, Kind::R, Kind::R, Kind::R];
    let a = side(digits.subrange(0, 4), left);
    let b = side(digits.subrange(4, 8), right);
    lemma_side_digit(digits.subrange(0, 4), left, k);
    lemma_side_digit(digits.subrange(4, 8), right, k);
    let bits = ean8_bits(digits);
    assert(bits == end_guard() + a + middle_guard() + b + end_guard());
    assert(bits.subrange(0, 3) =~= seq![1u8, 0, 1]);
    assert(bits.subrange(3 + 7 * k, 3 + 7 * k + 7) =~= a.subrange(7 * k, 7 * k + 7));
    assert(bits.subrange(31, 36) =~= seq![0u8, 1, 0, 1, 0]);
    assert(bits.subrange(36 + 7 * k, 36 + 7 * k + 7) =~= b.subrange(7 * k, 7 * k + 7));
    assert(bits.subrange(64, 67) =~= seq![1u8, 0, 1]);
    assert(left[k] == Kind::L && right[k] == Kind::R);
}

} // verus!
