//! Interleaved 2 of 5.

use crate::barcode::runs::{lemma_module_count_concat, module_count};
use crate::text::{digit_value, digits_of, digits_only, string_of};
use vstd::prelude::*;

verus! {

/// Element widths of the ten digits: 1 is narrow, 3 is wide.
pub const WIDTHS: [[u8; 5]; 10] = [
    [1, 1, 3, 3, 1],
    [3, 1, 1, 1, 3],
    [1, 3, 1, 1, 3],
    [3, 3, 1, 1, 1],
    [1, 1, 3, 1, 3],
    [3, 1, 3, 1, 1],
    [1, 3, 3, 1, 1],
    [1, 1, 1, 3, 3],
    [3, 1, 1, 3, 1],
    [1, 3, 1, 3, 1],
];

/// The digits that are drawn for a text: its own, with a zero in front where they are odd in
/// number.
pub open spec fn even_digits(text: Seq<char>) -> Seq<char> {
    let digits = digits_of(text);
    if digits.len() % 2 == 1 {
        seq!['0'] + digits
    } else {
        digits
    }
}

/// Two digits interleaved: the bars are those of the first, the spaces those of the second.
pub open spec fn interleaved(bar: int, space: int) -> Seq<u8> {
    Seq::new(
        10,
        |i: int|
            if i % 2 == 0 {
                WIDTHS@[bar]@[i / 2]
            } else {
                WIDTHS@[space]@[i / 2]
            },
    )
}

/// The elements of a row of pairs of digits.
pub open spec fn pairs(digits: Seq<char>) -> Seq<u8>
    decreases digits.len(),
{
    if digits.len() < 2 {
        seq![]
    } else {
        pairs(digits.subrange(0, digits.len() - 2)) + interleaved(
            digit_value(digits[digits.len() - 2]),
            digit_value(digits.last()),
        )
    }
}

/// The elements of a barcode: start, pairs and stop.
pub open spec fn itf_runs(digits: Seq<char>) -> Seq<u8> {
    seq![1u8, 1, 1, 1] + pairs(digits) + seq![3u8, 1, 1]
}

fn push_pair(runs: &mut Vec<u8>, bar: usize, space: usize)
    requires
        bar < 10,
        space < 10,
    ensures
        final(runs)@ == old(runs)@ + interleaved(bar as int, space as int),
{
    let ghost start = runs@;
    for k in 0..5
        invariant
            bar < 10,
            space < 10,
            runs@ == start + interleaved(bar as int, space as int).take(2 * k),
    {
        runs.push(WIDTHS[bar][k]);
        runs.push(WIDTHS[space][k]);
        assert(runs@ =~= start + interleaved(bar as int, space as int).take(2 * (k + 1)));
    }
    assert(runs@ =~= start + interleaved(bar as int, space as int));
}

/// The bar and space widths of an interleaved 2 of 5 barcode, and its digits. A text without a
/// digit gives none.
pub fn encode_itf_runs(text: &str) -> (result: Option<(Vec<u8>, String)>)
    ensures
        result is None <==> digits_of(text@).len() == 0,
        result matches Some(r) ==> r.0@ == itf_runs(even_digits(text@)) && r.1@ == even_digits(
            text@,
        ),
{
    let mut digits = digits_only(text);
    if digits.len() == 0 {
        return None;
    }
    if digits.len() % 2 == 1 {
        digits.insert(0, '0');
        assert(digits@ =~= even_digits(text@));
    }
    let mut runs: Vec<u8> = Vec::new();
    runs.push(1);
    runs.push(1);
    runs.push(1);
    runs.push(1);
    let ghost head = runs@;
    assert(head =~= seq![1u8, 1, 1, 1]);
    assert(head + pairs(digits@.take(0)) =~= head);
    let mut i: usize = 0;
    while i + 1 < digits.len()
        invariant
            i <= digits@.len(),
            i % 2 == 0,
            digits@.len() % 2 == 0,
            forall|k: int| 0 <= k < digits@.len() ==> '0' <= #[trigger] digits@[k] <= '9',
            runs@ == head + pairs(digits@.take(i as int)),
        decreases digits@.len() - i,
    {
        let a: usize = (digits[i] as u32 - '0' as u32) as usize;
        let b: usize = (digits[i + 1] as u32 - '0' as u32) as usize;
        push_pair(&mut runs, a, b);
        proof {
            let next = digits@.take(i + 2);
            assert(next.subrange(0, next.len() - 2) =~= digits@.take(i as int));
            assert(runs@ =~= head + pairs(next));
        }
        i += 2;
    }
    assert(digits@.take(i as int) =~= digits@);
    runs.push(3);
    runs.push(1);
    runs.push(1);
    assert(runs@ =~= itf_runs(digits@));
    Some((runs, string_of(&digits)))
}

/// Every digit has two wide elements of five, so a digit is nine modules wide.
pub proof fn lemma_digit_modules(digit: int)
    requires
        0 <= digit < 10,
    ensures
        module_count(WIDTHS@[digit]@) == 9,
{
    let w = WIDTHS@[digit]@;
    reveal_with_fuel(module_count, 6);
    assert(w.drop_last().drop_last().drop_last().drop_last().drop_last() =~= Seq::<u8>::empty());
}

proof fn lemma_pair_modules(bar: int, space: int)
    requires
        0 <= bar < 10,
        0 <= space < 10,
    ensures
        module_count(interleaved(bar, space)) == 18,
{
    let w = interleaved(bar, space);
    reveal_with_fuel(module_count, 11);
    let rest = w.drop_last().drop_last().drop_last().drop_last().drop_last();
    assert(rest.drop_last().drop_last().drop_last().drop_last().drop_last() =~= Seq::<u8>::empty());
}

proof fn lemma_pairs_modules(digits: Seq<char>)
    requires
        digits.len() % 2 == 0,
        forall|k: int| 0 <= k < digits.len() ==> '0' <= #[trigger] digits[k] <= '9',
    ensures
        module_count(pairs(digits)) == 9 * digits.len(),
    decreases digits.len(),
{
    if digits.len() >= 2 {
        let front = digits.subrange(0, digits.len() - 2);
        lemma_pairs_modules(front);
        lemma_pair_modules(
            digit_value(digits[digits.len() - 2]),
            digit_value(digits.last()),
        );
        lemma_module_count_concat(
            pairs(front),
            interleaved(digit_value(digits[digits.len() - 2]), digit_value(digits.last())),
        );
    }
}

/// A barcode of `n` digits, an even number, is `9 * n + 9` modules wide.
pub proof fn lemma_itf_modules(digits: Seq<char>)
    requires
        digits.len() % 2 == 0,
        forall|k: int| 0 <= k < digits.len() ==> '0' <= #[trigger] digits[k] <= '9',
    ensures
        module_count(itf_runs(digits)) == 9 * digits.len() + 9,
{
    lemma_pairs_modules(digits);
    let start = seq![1u8, 1, 1, 1];
    let stop = seq![3u8, 1, 1];
    lemma_module_count_concat(start + pairs(digits), stop);
    lemma_module_count_concat(start, pairs(digits));
    reveal_with_fuel(module_count, 5);
    assert(start.drop_last().drop_last().drop_last().drop_last() =~= Seq::<u8>::empty());
    assert(stop.drop_last().drop_last().drop_last() =~= Seq::<u8>::empty());
}

/// The digits that are drawn are even in number.
pub proof fn lemma_even_digits(text: Seq<char>)
    ensures
        even_digits(text).len() % 2 == 0,
        forall|k: int|
            0 <= k < even_digits(text).len() ==> '0' <= #[trigger] even_digits(text)[k] <= '9',
{
    let digits = digits_of(text);
    assert forall|k: int| 0 <= k < digits.len() implies '0' <= #[trigger] digits[k] <= '9' by {
        text.lemma_filter_pred(|c: char| crate::text::is_digit(c), k);
    }
}

/// What a wide element of a digit is worth.
pub open spec fn element_worth(k: int) -> int {
    seq![1int, 2, 4, 7, 0][k]
}

/// Every digit is drawn with two wide elements of five, and what they are worth adds up to the digit;
/// a zero adds up to eleven.
pub proof fn lemma_wide_elements_add_up(digit: int)
    requires
        0 <= digit < 10,
    ensures
        ({
            let w = WIDTHS@[digit]@;
            let worth = |k: int|
                if w[k] == 3 {
                    element_worth(k)
                } else {
                    0
                };
            &&& w.len() == 5
            &&& forall|k: int| 0 <= k < 5 ==> #[trigger] w[k] == 1 || w[k] == 3
            &&& w[0] + w[1] + w[2] + w[3] + w[4] == 9
            &&& worth(0) + worth(1) + worth(2) + worth(3) + worth(4) == if digit == 0 {
                11
            } else {
                digit
            }
        }),
{
    let w = WIDTHS@[digit]@;
    assert(w[0] == 1 || w[0] == 3);
    assert(w[1] == 1 || w[1] == 3);
    assert(w[2] == 1 || w[2] == 3);
    assert(w[3] == 1 || w[3] == 3);
    assert(w[4] == 1 || w[4] == 3);
    assert forall|k: int| 0 <= k < 5 implies #[trigger] w[k] == 1 || w[k] == 3 by {
        assert(k == 0 || k == 1 || k == 2 || k == 3 || k == 4);
    }
}

proof fn lemma_pair_elements(digits: Seq<char>, i: int, k: int)
    requires
        digits.len() % 2 == 0,
        0 <= i && 2 * i < digits.len(),
        0 <= k < 5,
    ensures
        pairs(digits).len() == 5 * digits.len(),
        pairs(digits)[10 * i + 2 * k] == WIDTHS@[digit_value(digits[2 * i])]@[k],
        pairs(digits)[10 * i + 2 * k + 1] == WIDTHS@[digit_value(digits[2 * i + 1])]@[k],
    decreases digits.len(),
{
    let front = digits.subrange(0, digits.len() - 2);
    let last = interleaved(digit_value(digits[digits.len() - 2]), digit_value(digits.last()));
    assert(pairs(digits) == pairs(front) + last);
    if front.len() > 0 {
        lemma_pair_elements(front, if 2 * i < front.len() { i } else { 0 }, k);
        if 2 * i < front.len() {
            assert(front[2 * i] == digits[2 * i] && front[2 * i + 1] == digits[2 * i + 1]);
        }
    }
    assert(pairs(front).len() == 5 * front.len());
    if 2 * i >= front.len() {
        assert(2 * i == digits.len() - 2);
        assert(pairs(digits)[10 * i + 2 * k] == last[2 * k]);
        assert(pairs(digits)[10 * i + 2 * k + 1] == last[2 * k + 1]);
    }
}

/// A barcode begins with four narrow elements and ends with a wide one and two narrow ones. Between
/// them stand ten elements for each two digits: the bars are the elements of the first digit, and
/// the spaces those of the second.
pub proof fn lemma_digits_are_interleaved(digits: Seq<char>, i: int, k: int)
    requires
        digits.len() % 2 == 0,
        0 <= i && 2 * i < digits.len(),
        0 <= k < 5,
    ensures
        ({
            let runs = itf_runs(digits);
            &&& runs.len() == 5 * digits.len() + 7
            &&& runs.take(4) == seq![1u8, 1, 1, 1]
            &&& runs[4 + 10 * i + 2 * k] == WIDTHS@[digit_value(digits[2 * i])]@[k]
            &&& runs[4 + 10 * i + 2 * k + 1] == WIDTHS@[digit_value(digits[2 * i + 1])]@[k]
            &&& runs.skip(4 + 5 * digits.len() as int) == seq![3u8, 1, 1]
        }),
{
    let runs = itf_runs(digits);
    lemma_pair_elements(digits, i, k);
    assert(runs.take(4) =~= seq![1u8, 1, 1, 1]);
    assert(runs.skip(4 + 5 * digits.len() as int) =~= seq![3u8, 1, 1]);
    assert(runs[4 + 10 * i + 2 * k] == pairs(digits)[10 * i + 2 * k]);
    assert(runs[4 + 10 * i + 2 * k + 1] == pairs(digits)[10 * i + 2 * k + 1]);
}

/// The digits of a text are drawn all, in order, with nothing but a zero in front of them, and that
/// only where they are odd in number.
pub proof fn lemma_zero_in_front(text: Seq<char>)
    ensures
        digits_of(text).len() % 2 == 0 ==> even_digits(text) == digits_of(text),
        digits_of(text).len() % 2 == 1 ==> even_digits(text).len() == digits_of(text).len() + 1
            && even_digits(text)[0] == '0' && even_digits(text).skip(1) == digits_of(text),
{
    assert((seq!['0'] + digits_of(text)).skip(1) =~= digits_of(text));
}

} // verus!
