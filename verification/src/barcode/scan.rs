//! What a scanner reads in the bars of a Code 128.

use crate::barcode::code128::{
    all_symbols, bars, check_symbol, first_set, hri_text, lemma_check_symbol_is_weighted_sum,
    lemma_symbols_are_data, start_symbol, symbols, unescaped, weighted_sum, widths, without_choice,
    CodeSet,
};
use vstd::prelude::*;
use vstd::utf8::*;

verus! {

/// Six widths, written as one numeral.
pub open spec fn numeral(widths: Seq<u8>) -> int {
    100_000 * widths[0] + 10_000 * widths[1] + 1_000 * widths[2] + 100 * widths[3] + 10 * widths[4]
        + widths[5]
}

/// The widths of the symbols 0 to 105, bars first, each row written as one numeral.
pub open spec fn numerals() -> Seq<int> {
    seq![
        212222int, 222122, 222221, 121223, 121322, 131222, 122213, 122312, 132212, 221213,
        221312, 231212, 112232, 122132, 122231, 113222, 123122, 123221, 223211, 221132,
        221231, 213212, 223112, 312131, 311222, 321122, 321221, 312212, 322112, 322211,
        212123, 212321, 232121, 111323, 131123, 131321, 112313, 132113, 132311, 211313,
        231113, 231311, 112133, 112331, 132131, 113123, 113321, 133121, 313121, 211331,
        231131, 213113, 213311, 213131, 311123, 311321, 331121, 312113, 312311, 332111,
        314111, 221411, 431111, 111224, 111422, 121124, 121421, 141122, 141221, 112214,
        112412, 122114, 122411, 142112, 142211, 241211, 221114, 413111, 241112, 134111,
        111242, 121142, 121241, 114212, 124112, 124211, 411212, 421112, 421211, 212141,
        214121, 412121, 111143, 111341, 131141, 114113, 114311, 411113, 411311, 113141,
        114131, 311141, 411131, 211412, 211214, 211232,
    ]
}

/// Every symbol has the six widths that the standard gives it.
#[verifier::spinoff_prover]
pub proof fn lemma_widths_of_a_symbol(symbol: u8)
    requires
        symbol < 106,
    ensures
        widths(symbol).len() == 6,
        numeral(widths(symbol)) == numerals()[symbol as int],
{
}

#[verifier::spinoff_prover]
proof fn lemma_numerals_differ(a: u8, b: u8)
    requires
        a < 106,
        b < 106,
        numerals()[a as int] == numerals()[b as int],
    ensures
        a == b,
{
}

/// No two symbols are drawn alike.
#[verifier::spinoff_prover]
pub proof fn lemma_symbols_differ(a: u8, b: u8)
    requires
        a < 106,
        b < 106,
        widths(a) == widths(b),
    ensures
        a == b,
{
    lemma_widths_of_a_symbol(a);
    lemma_widths_of_a_symbol(b);
    lemma_numerals_differ(a, b);
}

/// Whether a `{` in place `i` begins an escape.
pub open spec fn is_escape(bytes: Seq<u8>, i: int) -> bool {
    &&& 0 <= i && i + 1 < bytes.len()
    &&& bytes[i] == 0x7B
    &&& bytes[i + 1] == 0x7B || bytes[i + 1] == 0x41 || bytes[i + 1] == 0x42 || bytes[i + 1] == 0x43
        || bytes[i + 1] == 0x31
}

/// Data in set B without an escape has one symbol for each byte, and the character is the symbol
/// plus 32. What is not printable ASCII is read as a question mark.
#[verifier::spinoff_prover]
pub proof fn lemma_set_b_is_read_back(bytes: Seq<u8>)
    requires
        forall|i: int| !#[trigger] is_escape(bytes, i),
    ensures
        symbols(bytes, CodeSet::B).len() == bytes.len(),
        forall|i: int|
            0 <= i < bytes.len() ==> #[trigger] symbols(bytes, CodeSet::B)[i] + 32 == (if 32
                <= bytes[i] <= 127 {
                bytes[i]
            } else {
                0x3F
            }),
    decreases bytes.len(),
{
    if bytes.len() > 0 {
        let rest = bytes.skip(1);
        assert(!is_escape(bytes, 0));
        assert forall|i: int| !#[trigger] is_escape(rest, i) by {
            assert(!is_escape(bytes, i + 1));
        }
        lemma_set_b_is_read_back(rest);
        let read = symbols(bytes, CodeSet::B);
        assert forall|i: int| 0 <= i < bytes.len() implies #[trigger] read[i] + 32 == (if 32
            <= bytes[i] <= 127 {
            bytes[i]
        } else {
            0x3F
        }) by {
            if i > 0 {
                assert(read[i] == symbols(rest, CodeSet::B)[i - 1]);
                assert(rest[i - 1] == bytes[i]);
            }
        }
    }
}

/// Data in set A without an escape has one symbol for each byte. The characters from the space on
/// are the symbol plus 32, and the control characters the symbol less 64. What is beyond the upper
/// case letters and the signs behind them is read as a question mark.
#[verifier::spinoff_prover]
pub proof fn lemma_set_a_is_read_back(bytes: Seq<u8>)
    requires
        forall|i: int| !#[trigger] is_escape(bytes, i),
    ensures
        symbols(bytes, CodeSet::A).len() == bytes.len(),
        forall|i: int|
            0 <= i < bytes.len() ==> #[trigger] symbols(bytes, CodeSet::A)[i] <= 95 && (if symbols(
                bytes,
                CodeSet::A,
            )[i] < 64 {
                symbols(bytes, CodeSet::A)[i] + 32
            } else {
                symbols(bytes, CodeSet::A)[i] - 64
            }) == (if bytes[i] <= 95 {
                bytes[i]
            } else {
                0x3F
            }),
    decreases bytes.len(),
{
    if bytes.len() > 0 {
        let rest = bytes.skip(1);
        assert(!is_escape(bytes, 0));
        assert forall|i: int| !#[trigger] is_escape(rest, i) by {
            assert(!is_escape(bytes, i + 1));
        }
        lemma_set_a_is_read_back(rest);
        let read = symbols(bytes, CodeSet::A);
        assert forall|i: int| 0 <= i < bytes.len() implies #[trigger] read[i] <= 95 && (if read[i]
            < 64 {
            read[i] + 32
        } else {
            read[i] - 64
        }) == (if bytes[i] <= 95 {
            bytes[i]
        } else {
            0x3F
        }) by {
            if i > 0 {
                assert(read[i] == symbols(rest, CodeSet::A)[i - 1]);
                assert(rest[i - 1] == bytes[i]);
            }
        }
    }
}

/// Digits in set C, even in number, have one symbol for each two of them: the number from 0 to 99
/// that the two write.
#[verifier::spinoff_prover]
pub proof fn lemma_set_c_is_read_back(bytes: Seq<u8>)
    requires
        bytes.len() % 2 == 0,
        forall|i: int| 0 <= i < bytes.len() ==> 0x30 <= #[trigger] bytes[i] <= 0x39,
    ensures
        2 * symbols(bytes, CodeSet::C).len() == bytes.len(),
        forall|i: int|
            0 <= i < symbols(bytes, CodeSet::C).len() ==> #[trigger] symbols(bytes, CodeSet::C)[i]
                / 10 + 0x30 == bytes[2 * i] && symbols(bytes, CodeSet::C)[i] % 10 + 0x30 == bytes[2
                * i + 1],
    decreases bytes.len(),
{
    if bytes.len() > 0 {
        let rest = bytes.skip(2);
        lemma_set_c_is_read_back(rest);
        let read = symbols(bytes, CodeSet::C);
        assert forall|i: int| 0 <= i < read.len() implies #[trigger] read[i] / 10 + 0x30 == bytes[2
            * i] && read[i] % 10 + 0x30 == bytes[2 * i + 1] by {
            if i > 0 {
                assert(read[i] == symbols(rest, CodeSet::C)[i - 1]);
                assert(rest[2 * (i - 1)] == bytes[2 * i]);
                assert(rest[2 * (i - 1) + 1] == bytes[2 * i + 1]);
            }
        }
    }
}

/// An escape in front of other data is one symbol: 101, 100 and 99 for the sets A, B and C, and 102
/// for FNC1. A brace is the symbol 91; set C has none and gives way to set B. Set C gives way, too,
/// where no two digits come next.
#[verifier::spinoff_prover]
pub proof fn lemma_escapes_are_symbols(rest: Seq<u8>, set: CodeSet)
    ensures
        symbols(seq![0x7Bu8, 0x41] + rest, set) == seq![101u8] + symbols(rest, CodeSet::A),
        symbols(seq![0x7Bu8, 0x42] + rest, set) == seq![100u8] + symbols(rest, CodeSet::B),
        symbols(seq![0x7Bu8, 0x43] + rest, set) == seq![99u8] + symbols(rest, CodeSet::C),
        symbols(seq![0x7Bu8, 0x31] + rest, set) == seq![102u8] + symbols(rest, set),
        set != CodeSet::C ==> symbols(seq![0x7Bu8, 0x7B] + rest, set) == seq![91u8] + symbols(
            rest,
            set,
        ),
        symbols(seq![0x7Bu8, 0x7B] + rest, CodeSet::C) == seq![100u8, 91] + symbols(
            rest,
            CodeSet::B,
        ),
        rest.len() > 0 && !is_escape(rest, 0) && (rest.len() == 1 || !(0x30 <= rest[0] <= 0x39
            && 0x30 <= rest[1] <= 0x39)) ==> symbols(rest, CodeSet::C) == seq![100u8] + symbols(
            rest,
            CodeSet::B,
        ),
{
    assert((seq![0x7Bu8, 0x41] + rest).skip(2) =~= rest);
    assert((seq![0x7Bu8, 0x42] + rest).skip(2) =~= rest);
    assert((seq![0x7Bu8, 0x43] + rest).skip(2) =~= rest);
    assert((seq![0x7Bu8, 0x31] + rest).skip(2) =~= rest);
    assert((seq![0x7Bu8, 0x7B] + rest).skip(2) =~= rest);
}

/// What a scanner reads in data symbols, from set `set` on: in sets A and B a character a symbol, in
/// set C two digits. Symbols that choose a set, and function characters, are not shown.
pub open spec fn scanned(data: Seq<u8>, set: CodeSet) -> Seq<u8>
    decreases data.len(),
{
    if data.len() == 0 {
        seq![]
    } else {
        let s = data[0];
        let rest = data.skip(1);
        if s == 99 && set != CodeSet::C {
            scanned(rest, CodeSet::C)
        } else if s == 100 && set != CodeSet::B {
            scanned(rest, CodeSet::B)
        } else if s == 101 && set != CodeSet::A {
            scanned(rest, CodeSet::A)
        } else if set == CodeSet::C && s <= 99 {
            seq![(0x30 + s / 10) as u8, (0x30 + s % 10) as u8] + scanned(rest, set)
        } else if set == CodeSet::A && 64 <= s <= 95 {
            seq![(s - 64) as u8] + scanned(rest, set)
        } else if set != CodeSet::C && s <= 95 {
            seq![(s + 32) as u8] + scanned(rest, set)
        } else {
            scanned(rest, set)
        }
    }
}

/// The bytes that data means: `{{` is a brace, and the other escapes are no bytes.
pub open spec fn meant(bytes: Seq<u8>) -> Seq<u8>
    decreases bytes.len(),
{
    if bytes.len() == 0 {
        seq![]
    } else if !is_escape(bytes, 0) {
        seq![bytes[0]] + meant(bytes.skip(1))
    } else if bytes[1] == 0x7B {
        seq![0x7Bu8] + meant(bytes.skip(2))
    } else {
        meant(bytes.skip(2))
    }
}

/// Whether data can be written in the sets that it chooses: set A has no lower case letters and no
/// braces, set B no control characters, and no set is chosen where it is in force.
pub open spec fn can_be_written(bytes: Seq<u8>, set: CodeSet) -> bool
    decreases bytes.len(), (if set is C { 1int } else { 0int }),
{
    if bytes.len() == 0 {
        true
    } else if is_escape(bytes, 0) {
        let rest = bytes.skip(2);
        if bytes[1] == 0x7B {
            set != CodeSet::A && can_be_written(rest, CodeSet::B)
        } else if bytes[1] == 0x41 {
            set != CodeSet::A && can_be_written(rest, CodeSet::A)
        } else if bytes[1] == 0x42 {
            set != CodeSet::B && can_be_written(rest, CodeSet::B)
        } else if bytes[1] == 0x43 {
            set != CodeSet::C && can_be_written(rest, CodeSet::C)
        } else {
            can_be_written(rest, set)
        }
    } else if set == CodeSet::C {
        if bytes.len() > 1 && 0x30 <= bytes[0] <= 0x39 && 0x30 <= bytes[1] <= 0x39 {
            can_be_written(bytes.skip(2), set)
        } else {
            can_be_written(bytes, CodeSet::B)
        }
    } else if set == CodeSet::A {
        bytes[0] <= 95 && can_be_written(bytes.skip(1), set)
    } else {
        32 <= bytes[0] <= 127 && can_be_written(bytes.skip(1), set)
    }
}

/// A scanner reads in the symbols of some data what the data means.
#[verifier::spinoff_prover]
pub proof fn lemma_data_is_read_back(bytes: Seq<u8>, set: CodeSet)
    requires
        can_be_written(bytes, set),
    ensures
        scanned(symbols(bytes, set), set) == meant(bytes),
    decreases bytes.len(), (if set is C { 1int } else { 0int }),
{
    if bytes.len() == 0 {
        assert(scanned(symbols(bytes, set), set) =~= meant(bytes));
    } else {
        let all = symbols(bytes, set);
        let rest = bytes.skip(2);
        let next = bytes.skip(1);
        if is_escape(bytes, 0) {
            assert(bytes =~= seq![bytes[0], bytes[1]] + rest);
            lemma_escapes_are_symbols(rest, set);
            if bytes[1] == 0x7B {
                lemma_data_is_read_back(rest, CodeSet::B);
                let written = symbols(rest, CodeSet::B);
                if set == CodeSet::C {
                    assert(all.skip(1) =~= seq![91u8] + written);
                    assert(all.skip(1).skip(1) =~= written);
                    assert(scanned(all, set) == scanned(all.skip(1), CodeSet::B));
                } else {
                    assert(all.skip(1) =~= written);
                }
            } else if bytes[1] == 0x41 {
                lemma_data_is_read_back(rest, CodeSet::A);
                assert(all.skip(1) =~= symbols(rest, CodeSet::A));
            } else if bytes[1] == 0x42 {
                lemma_data_is_read_back(rest, CodeSet::B);
                assert(all.skip(1) =~= symbols(rest, CodeSet::B));
            } else if bytes[1] == 0x43 {
                lemma_data_is_read_back(rest, CodeSet::C);
                assert(all.skip(1) =~= symbols(rest, CodeSet::C));
            } else {
                lemma_data_is_read_back(rest, set);
                assert(all.skip(1) =~= symbols(rest, set));
            }
        } else if set == CodeSet::C {
            if bytes.len() > 1 && 0x30 <= bytes[0] <= 0x39 && 0x30 <= bytes[1] <= 0x39 {
                lemma_data_is_read_back(rest, set);
                assert(all.skip(1) =~= symbols(rest, set));
                assert(next[0] == bytes[1]);
                assert(!is_escape(next, 0));
                assert(next.skip(1) =~= rest);
                assert(meant(bytes) == seq![bytes[0]] + meant(next));
                assert(meant(next) == seq![next[0]] + meant(next.skip(1)));
                assert(meant(bytes) =~= seq![bytes[0], bytes[1]] + meant(rest));
            } else {
                lemma_escapes_are_symbols(bytes, set);
                lemma_data_is_read_back(bytes, CodeSet::B);
                assert(all.skip(1) =~= symbols(bytes, CodeSet::B));
            }
        } else {
            lemma_data_is_read_back(next, set);
            assert(all.skip(1) =~= symbols(next, set));
        }
    }
}

/// The widths of the symbol in place `k` of a barcode.
pub open spec fn widths_at(runs: Seq<u8>, k: int) -> Seq<u8> {
    runs.subrange(6 * k, 6 * k + 6)
}

#[verifier::spinoff_prover]
proof fn lemma_bars_of_symbols(codes: Seq<u8>)
    requires
        forall|k: int| 0 <= k < codes.len() ==> #[trigger] codes[k] < 106,
    ensures
        bars(codes).len() == 6 * codes.len(),
        forall|k: int|
            0 <= k < codes.len() ==> #[trigger] widths_at(bars(codes), k) == widths(codes[k]),
    decreases codes.len(),
{
    if codes.len() > 0 {
        let front = codes.drop_last();
        assert forall|k: int| 0 <= k < front.len() implies #[trigger] front[k] < 106 by {
            assert(front[k] == codes[k]);
        }
        lemma_bars_of_symbols(front);
        assert(codes[codes.len() - 1] < 106);
        let last = widths(codes.last());
        assert(last.len() == 6);
        lemma_symbols_end_to_end(bars(front), last);
        assert forall|k: int| 0 <= k < codes.len() implies #[trigger] widths_at(bars(codes), k)
            == widths(codes[k]) by {
            if k < front.len() {
                assert(widths_at(bars(codes), k) =~= widths_at(bars(front), k));
                assert(front[k] == codes[k]);
            }
        }
    }
}

/// Six widths behind others.
#[verifier::spinoff_prover]
proof fn lemma_symbols_end_to_end(front: Seq<u8>, last: Seq<u8>)
    requires
        last.len() == 6,
    ensures
        (front + last).len() == front.len() + 6,
        (front + last).subrange(front.len() as int, front.len() as int + 6) == last,
        (front + last).take(front.len() as int) == front,
{
    assert((front + last).subrange(front.len() as int, front.len() as int + 6) =~= last);
    assert((front + last).take(front.len() as int) =~= front);
}

/// The sum of some numbers.
pub open spec fn total(numbers: Seq<int>) -> int {
    numbers.fold_left(0, |sum: int, n: int| sum + n)
}

#[verifier::spinoff_prover]
proof fn lemma_weighted_sum_is_total(data: Seq<u8>)
    ensures
        weighted_sum(data) == total(Seq::new(data.len(), |i: int| (i + 1) * data[i])),
    decreases data.len(),
{
    let terms = Seq::new(data.len(), |i: int| (i + 1) * data[i]);
    if data.len() > 0 {
        let front = data.drop_last();
        lemma_weighted_sum_is_total(front);
        assert(terms.drop_last() =~= Seq::new(front.len(), |i: int| (i + 1) * front[i]));
        assert(terms.last() == data.len() * data.last());
        assert(data.last() as nat * data.len() == data.len() * data.last()) by (nonlinear_arith);
    }
}

/// Whether a barcode is a start symbol, data symbols, the check symbol that belongs to them (the
/// start symbol and every data symbol times its place, modulo 103, the sum being kept in 32 bits) and
/// the stop.
pub open spec fn draws(runs: Seq<u8>, start: u8, data: Seq<u8>) -> bool {
    let n = data.len() as int;
    &&& runs.len() == 6 * n + 19
    &&& widths_at(runs, 0) == widths(start)
    &&& forall|i: int|
        0 <= i < n ==> #[trigger] data[i] <= 102 && widths_at(runs, i + 1) == widths(data[i])
    &&& widths_at(runs, n + 1) == widths(
        ((start + total(Seq::new(data.len(), |i: int| (i + 1) * data[i]))) % 0x1_0000_0000
            % 103) as u8,
    )
    &&& n <= 6400 ==> widths_at(runs, n + 1) == widths(
        ((start + total(Seq::new(data.len(), |i: int| (i + 1) * data[i]))) % 103) as u8,
    )
    &&& runs.skip(6 * n + 12) == seq![2u8, 3, 3, 1, 1, 1, 2]
}

/// A barcode is the start symbol of the set that its text chooses, or of set B; the symbols of the
/// text behind that choice; the check symbol and the stop.
#[verifier::spinoff_prover]
pub proof fn lemma_bars_of_a_text(text: Seq<char>)
    ensures
        ({
            let chosen = text.len() >= 2 && text[0] == '{' && (text[1] == 'A' || text[1] == 'B'
                || text[1] == 'C');
            let (start, set) = if chosen && text[1] == 'A' {
                (103u8, CodeSet::A)
            } else if chosen && text[1] == 'C' {
                (105u8, CodeSet::C)
            } else {
                (104u8, CodeSet::B)
            };
            let body = if chosen {
                text.skip(2)
            } else {
                text
            };
            draws(bars(all_symbols(text)), start, symbols(encode_utf8(body), set))
        }),
{
    let set = first_set(text);
    let start = start_symbol(set);
    let bytes = encode_utf8(without_choice(text));
    let data = symbols(bytes, set);
    let n = data.len() as int;
    let check = check_symbol(start, data);
    let all = all_symbols(text);
    let front = all.drop_last();
    lemma_symbols_are_data(bytes, set);
    lemma_check_symbol_is_weighted_sum(bytes, set);
    lemma_weighted_sum_is_total(data);
    assert(front =~= seq![start] + data + seq![check]);
    assert forall|k: int| 0 <= k < front.len() implies #[trigger] front[k] < 106 by {
        if 0 < k <= n {
            assert(front[k] == data[k - 1]);
        }
    }
    lemma_bars_of_symbols(front);
    let runs = bars(all);
    let stop = widths(106);
    assert(stop =~= seq![2u8, 3, 3, 1, 1, 1, 2]);
    assert(all.last() == 106);
    assert(runs == bars(front) + stop);
    assert forall|k: int| 0 <= k < front.len() implies #[trigger] widths_at(runs, k) == widths(
        front[k],
    ) by {
        assert(widths_at(runs, k) =~= widths_at(bars(front), k));
    }
    assert(front[0] == start);
    assert(widths_at(runs, 0) == widths(start));
    assert forall|i: int| 0 <= i < n implies #[trigger] data[i] <= 102 && widths_at(runs, i + 1)
        == widths(data[i]) by {
        assert(front[i + 1] == data[i]);
    }
    assert(front[n + 1] == check);
    assert(widths_at(runs, n + 1) == widths(check));
    assert(runs.skip(6 * n + 12) =~= stop);
}

/// The widths of a text of printable ASCII characters other than braces say what it is: behind the
/// start of set B stand the widths of one symbol for each character, the one whose number is the
/// code of the character less 32.
#[verifier::spinoff_prover]
pub proof fn lemma_printable_text_is_read_back(text: Seq<char>)
    requires
        forall|i: int| 0 <= i < text.len() ==> ' ' <= #[trigger] text[i] <= '~' && text[i] != '{',
    ensures
        bars(all_symbols(text)).len() == 6 * text.len() + 19,
        widths_at(bars(all_symbols(text)), 0) == widths(104),
        forall|i: int|
            0 <= i < text.len() ==> widths_at(bars(all_symbols(text)), i + 1) == widths(
                (#[trigger] text[i] as u8 - 32) as u8,
            ),
        hri_text(text) == text,
{
    assert(is_ascii_chars(text));
    is_ascii_chars_encode_utf8(text);
    let bytes = encode_utf8(text);
    assert forall|i: int| 0 <= i < bytes.len() implies 32 <= #[trigger] bytes[i] <= 126 && bytes[i]
        != 0x7B && bytes[i] == text[i] as u8 by {
        assert(text[i] as u8 == bytes[i]);
    }
    assert forall|i: int| !#[trigger] is_escape(bytes, i) by {
    }
    lemma_set_b_is_read_back(bytes);
    lemma_bars_of_a_text(text);
    let runs = bars(all_symbols(text));
    let data = symbols(bytes, CodeSet::B);
    assert forall|i: int| 0 <= i < text.len() implies widths_at(runs, i + 1) == widths(
        (#[trigger] text[i] as u8 - 32) as u8,
    ) by {
        assert(data[i] + 32 == bytes[i]);
        assert(data[i] <= 102);
    }
    lemma_text_without_braces_is_shown(text);
}

/// Different texts of printable ASCII characters other than braces have different bars.
#[verifier::spinoff_prover]
pub proof fn lemma_different_texts_differ(a: Seq<char>, b: Seq<char>)
    requires
        forall|i: int| 0 <= i < a.len() ==> ' ' <= #[trigger] a[i] <= '~' && a[i] != '{',
        forall|i: int| 0 <= i < b.len() ==> ' ' <= #[trigger] b[i] <= '~' && b[i] != '{',
    ensures
        bars(all_symbols(a)) == bars(all_symbols(b)) <==> a == b,
{
    if bars(all_symbols(a)) == bars(all_symbols(b)) {
        lemma_printable_text_is_read_back(a);
        lemma_printable_text_is_read_back(b);
        assert forall|i: int| 0 <= i < a.len() implies #[trigger] a[i] == b[i] by {
            let x = (a[i] as u8 - 32) as u8;
            let y = (b[i] as u8 - 32) as u8;
            lemma_symbols_differ(x, y);
        }
        assert(a =~= b);
    }
}

/// A text without braces is shown as it is.
#[verifier::spinoff_prover]
pub proof fn lemma_text_without_braces_is_shown(text: Seq<char>)
    requires
        forall|i: int| 0 <= i < text.len() ==> #[trigger] text[i] != '{',
    ensures
        unescaped(text) == text,
        hri_text(text) == text,
    decreases text.len(),
{
    if text.len() > 0 {
        assert(text[0] != '{');
        let rest = text.skip(1);
        assert forall|i: int| 0 <= i < rest.len() implies #[trigger] rest[i] != '{' by {
            assert(rest[i] == text[i + 1]);
        }
        lemma_text_without_braces_is_shown(rest);
        assert(unescaped(text) =~= text);
    } else {
        assert(unescaped(text) =~= text);
    }
}

/// Of a brace and what follows it, `{{` is shown as one brace, and the choices of a set and the four
/// function characters are not shown. Any other brace is shown, and so is what follows it. The
/// text before a brace is shown as it is.
#[verifier::spinoff_prover]
pub proof fn lemma_braces_in_a_text(before: Seq<char>, c: char, rest: Seq<char>)
    requires
        forall|i: int| 0 <= i < before.len() ==> #[trigger] before[i] != '{',
    ensures
        unescaped(before + seq!['{', c] + rest) == before + (if c == '{' {
            seq!['{'] + unescaped(rest)
        } else if "ABC1234"@.contains(c) {
            unescaped(rest)
        } else {
            seq!['{', c] + unescaped(rest)
        }),
        unescaped(before + seq!['{']) == before + seq!['{'],
        "ABC"@.contains(c) ==> hri_text(seq!['{', c] + rest) == unescaped(rest),
    decreases before.len(),
{
    reveal_strlit("ABC1234");
    reveal_strlit("ABC");
    let whole = before + seq!['{', c] + rest;
    let lone = before + seq!['{'];
    let choice = seq!['{', c] + rest;
    assert(choice.skip(2) =~= rest);
    assert("ABC1234"@.contains(c) <==> c == 'A' || c == 'B' || c == 'C' || '1' <= c <= '4') by {
        let signs = "ABC1234"@;
        assert(signs[0] == 'A' && signs[1] == 'B' && signs[2] == 'C' && signs[3] == '1' && signs[4]
            == '2' && signs[5] == '3' && signs[6] == '4' && signs.len() == 7);
    }
    assert("ABC"@.contains(c) <==> c == 'A' || c == 'B' || c == 'C') by {
        let signs = "ABC"@;
        assert(signs[0] == 'A' && signs[1] == 'B' && signs[2] == 'C' && signs.len() == 3);
    }
    if before.len() > 0 {
        assert(before[0] != '{');
        let next = before.skip(1);
        assert forall|i: int| 0 <= i < next.len() implies #[trigger] next[i] != '{' by {
            assert(next[i] == before[i + 1]);
        }
        lemma_braces_in_a_text(next, c, rest);
        assert(whole.skip(1) =~= next + seq!['{', c] + rest);
        assert(lone.skip(1) =~= next + seq!['{']);
        assert(whole[0] == before[0] && lone[0] == before[0]);
        assert(unescaped(whole) =~= before + (if c == '{' {
            seq!['{'] + unescaped(rest)
        } else if "ABC1234"@.contains(c) {
            unescaped(rest)
        } else {
            seq!['{', c] + unescaped(rest)
        }));
        assert(unescaped(lone) =~= before + seq!['{']);
    } else {
        assert(whole =~= choice);
        assert(whole.skip(1) =~= seq![c] + rest);
        assert((seq![c] + rest).skip(1) =~= rest);
        assert(lone =~= seq!['{']);
        assert(lone.skip(1) =~= Seq::<char>::empty());
        assert(unescaped(lone.skip(1)) =~= Seq::<char>::empty());
        assert(unescaped(lone) =~= before + seq!['{']);
        assert(unescaped(seq![c] + rest) == if c == '{' {
            unescaped(seq![c] + rest)
        } else {
            seq![c] + unescaped(rest)
        });
        assert(unescaped(whole) =~= before + (if c == '{' {
            seq!['{'] + unescaped(rest)
        } else if "ABC1234"@.contains(c) {
            unescaped(rest)
        } else {
            seq!['{', c] + unescaped(rest)
        }));
    }
}

} // verus!
