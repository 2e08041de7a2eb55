//! Characters, numerals and UTF-8, as the other modules write them.

use vstd::prelude::*;
use vstd::utf8::*;

verus! {

broadcast use vstd::seq_lib::group_seq_properties;

/// `String::push`: appends one character at the end.
pub assume_specification[ String::push ](s: &mut String, c: char)
    ensures
        final(s)@ == old(s)@.push(c),
;

/// The text that `String::from_utf8_lossy` reads in a byte sequence.
pub uninterp spec fn lossy_text(bytes: Seq<u8>) -> Seq<char>;

/// Whether the first `n` bytes are ASCII characters.
pub open spec fn starts_in_ascii(bytes: Seq<u8>, n: int) -> bool {
    forall|k: int| 0 <= k < n ==> #[trigger] bytes[k] < 0x80
}

/// The characters of ASCII bytes.
pub open spec fn ascii_text(bytes: Seq<u8>) -> Seq<char> {
    bytes.map_values(|b: u8| b as char)
}

/// Whether a text holds ASCII characters alone.
pub open spec fn is_ascii_text(text: Seq<char>) -> bool {
    forall|k: int| 0 <= k < text.len() ==> #[trigger] text[k] as int <= 0x7F
}

/// `String::from_utf8_lossy`: bytes that are valid UTF-8 are read as they are, and every other
/// sequence becomes U+FFFD. So ASCII characters at the beginning are read as they are, and what is
/// behind them as if it stood alone; and a text that begins with ASCII characters was read from
/// bytes that begin with them. U+FFFD takes three bytes and stands for at least one, so the text is
/// encoded in at most three times as many bytes as were read.
#[verifier::external_body]
pub(crate) fn from_utf8_lossy(bytes: &[u8]) -> (text: String)
    ensures
        text@ == lossy_text(bytes@),
        valid_utf8(bytes@) ==> text@ == decode_utf8(bytes@),
        forall|n: int|
            0 <= n <= bytes@.len() && starts_in_ascii(bytes@, n) ==> text@ == ascii_text(
                bytes@.take(n),
            ) + lossy_text(#[trigger] bytes@.skip(n)),
        forall|n: int|
            0 <= n <= text@.len() && is_ascii_text(#[trigger] text@.take(n)) ==> n <= bytes@.len()
                && starts_in_ascii(bytes@, n) && ascii_text(bytes@.take(n)) == text@.take(n),
        encode_utf8(text@).len() <= 3 * bytes@.len(),
{
    String::from_utf8_lossy(bytes).into_owned()
}

/// The characters of a string.
pub fn chars_of(s: &str) -> (chars: Vec<char>)
    ensures
        chars@ == s@,
{
    let mut chars: Vec<char> = Vec::new();
    for c in it: s.chars()
        invariant
            chars@ == it.seq().take(it.index()),
            it.seq() == s@,
    {
        chars.push(c);
        assert(it.seq().take(it.index() + 1) =~= it.seq().take(it.index()).push(c));
    }
    assert(s@.take(s@.len() as int) =~= s@);
    chars
}

/// The string made of `chars`.
pub fn string_of(chars: &Vec<char>) -> (s: String)
    ensures
        s@ == chars@,
{
    let mut s = String::new();
    for i in 0..chars.len()
        invariant
            s@ == chars@.take(i as int),
    {
        s.push(chars[i]);
        assert(chars@.take(i + 1) =~= chars@.take(i as int).push(chars@[i as int]));
    }
    assert(chars@.take(chars@.len() as int) =~= chars@);
    s
}

/// `n` copies of `c`.
pub open spec fn repeated(c: char, n: nat) -> Seq<char> {
    Seq::new(n, |i: int| c)
}

/// Appends `n` copies of `c`.
pub fn push_repeated(out: &mut String, c: char, n: usize)
    ensures
        final(out)@ == old(out)@ + repeated(c, n as nat),
{
    let ghost start = out@;
    for i in 0..n
        invariant
            out@ == start + repeated(c, i as nat),
    {
        out.push(c);
        assert(out@ =~= start + repeated(c, (i + 1) as nat));
    }
    assert(n == 0 ==> out@ =~= start + repeated(c, 0));
}

/// The character of a decimal digit.
pub open spec fn decimal_digit(d: int) -> char {
    if d == 0 {
        '0'
    } else if d == 1 {
        '1'
    } else if d == 2 {
        '2'
    } else if d == 3 {
        '3'
    } else if d == 4 {
        '4'
    } else if d == 5 {
        '5'
    } else if d == 6 {
        '6'
    } else if d == 7 {
        '7'
    } else if d == 8 {
        '8'
    } else {
        '9'
    }
}

/// The decimal numeral of `n`, with leading zeros up to `width` characters.
pub open spec fn decimal(n: nat, width: nat) -> Seq<char>
    decreases n, width,
{
    if n < 10 && width <= 1 {
        seq![decimal_digit(n as int)]
    } else {
        decimal(n / 10, if width == 0 { 0 } else { (width - 1) as nat }).push(
            decimal_digit((n % 10) as int),
        )
    }
}

/// The decimal numeral of an integer that may be negative.
pub open spec fn signed_decimal(n: int) -> Seq<char> {
    if n < 0 {
        seq!['-'] + decimal((-n) as nat, 0)
    } else {
        decimal(n as nat, 0)
    }
}

fn decimal_digit_char(d: u64) -> (c: char)
    requires
        d < 10,
    ensures
        c == decimal_digit(d as int),
{
    match d {
        0 => '0',
        1 => '1',
        2 => '2',
        3 => '3',
        4 => '4',
        5 => '5',
        6 => '6',
        7 => '7',
        8 => '8',
        _ => '9',
    }
}

/// Appends the decimal numeral of `n`, at least `width` characters long.
pub fn push_decimal(out: &mut String, n: u64, width: usize)
    ensures
        final(out)@ == old(out)@ + decimal(n as nat, width as nat),
    decreases n, width,
{
    let ghost start = out@;
    if n < 10 && width <= 1 {
        out.push(decimal_digit_char(n));
        assert(out@ =~= start + decimal(n as nat, width as nat));
    } else {
        let narrower: usize = if width == 0 {
            0
        } else {
            width - 1
        };
        push_decimal(out, n / 10, narrower);
        out.push(decimal_digit_char(n % 10));
        assert(out@ =~= start + decimal(n as nat, width as nat));
    }
}

/// Appends the decimal numeral of `n`, with a minus sign where it is negative.
pub fn push_signed(out: &mut String, n: i64)
    requires
        n > i64::MIN,
    ensures
        final(out)@ == old(out)@ + signed_decimal(n as int),
{
    let ghost start = out@;
    if n < 0 {
        out.push('-');
        push_decimal(out, (-n) as u64, 0);
        assert(out@ =~= start + signed_decimal(n as int));
    } else {
        push_decimal(out, n as u64, 0);
    }
}

/// The character of a hexadecimal digit.
pub open spec fn hex_digit(d: int, upper: bool) -> char {
    if d < 10 {
        decimal_digit(d)
    } else if d == 10 {
        if upper { 'A' } else { 'a' }
    } else if d == 11 {
        if upper { 'B' } else { 'b' }
    } else if d == 12 {
        if upper { 'C' } else { 'c' }
    } else if d == 13 {
        if upper { 'D' } else { 'd' }
    } else if d == 14 {
        if upper { 'E' } else { 'e' }
    } else {
        if upper { 'F' } else { 'f' }
    }
}

/// The hexadecimal numeral of `n`, with leading zeros up to `width` characters.
pub open spec fn hex(n: nat, width: nat, upper: bool) -> Seq<char>
    decreases n, width,
{
    if n < 16 && width <= 1 {
        seq![hex_digit(n as int, upper)]
    } else {
        hex(n / 16, if width == 0 { 0 } else { (width - 1) as nat }, upper).push(
            hex_digit((n % 16) as int, upper),
        )
    }
}

fn hex_digit_char(d: u64, upper: bool) -> (c: char)
    requires
        d < 16,
    ensures
        c == hex_digit(d as int, upper),
{
    match d {
        10 => if upper { 'A' } else { 'a' },
        11 => if upper { 'B' } else { 'b' },
        12 => if upper { 'C' } else { 'c' },
        13 => if upper { 'D' } else { 'd' },
        14 => if upper { 'E' } else { 'e' },
        15 => if upper { 'F' } else { 'f' },
        _ => decimal_digit_char(d),
    }
}

/// Appends the hexadecimal numeral of `n`, at least `width` characters long.
pub fn push_hex(out: &mut String, n: u64, width: usize, upper: bool)
    ensures
        final(out)@ == old(out)@ + hex(n as nat, width as nat, upper),
    decreases n, width,
{
    let ghost start = out@;
    if n < 16 && width <= 1 {
        out.push(hex_digit_char(n, upper));
        assert(out@ =~= start + hex(n as nat, width as nat, upper));
    } else {
        let narrower: usize = if width == 0 {
            0
        } else {
            width - 1
        };
        push_hex(out, n / 16, narrower, upper);
        out.push(hex_digit_char(n % 16, upper));
        assert(out@ =~= start + hex(n as nat, width as nat, upper));
    }
}

/// Whether `c` is one of the ten ASCII digits.
pub open spec fn is_digit(c: char) -> bool {
    '0' <= c <= '9'
}

/// The value of an ASCII digit.
pub open spec fn digit_value(c: char) -> int {
    c as int - '0' as int
}

/// The digits of a text, without anything else.
pub open spec fn digits_of(text: Seq<char>) -> Seq<char> {
    text.filter(|c: char| is_digit(c))
}

/// Collects the digits of a text.
pub fn digits_only(text: &str) -> (digits: Vec<char>)
    ensures
        digits@ == digits_of(text@),
        forall|k: int| 0 <= k < digits@.len() ==> is_digit(#[trigger] digits@[k]),
{
    let chars = chars_of(text);
    let mut digits: Vec<char> = Vec::new();
    let ghost wanted = |c: char| is_digit(c);
    proof {
        reveal(Seq::filter);
    }
    for i in 0..chars.len()
        invariant
            wanted == (|c: char| is_digit(c)),
            digits@ == chars@.take(i as int).filter(wanted),
            forall|k: int| 0 <= k < digits@.len() ==> is_digit(#[trigger] digits@[k]),
    {
        proof {
            reveal(Seq::filter);
            assert(chars@.take(i + 1).drop_last() =~= chars@.take(i as int));
        }
        let c = chars[i];
        if '0' <= c && c <= '9' {
            digits.push(c);
        }
    }
    assert(chars@.take(chars@.len() as int) =~= chars@);
    digits
}

/// The digits are the ten signs from 0 to 9, and each has the value of its place among them.
pub proof fn lemma_digits_by_place(c: char, d: int)
    ensures
        is_digit(c) <==> "0123456789"@.contains(c),
        is_digit(c) ==> 0 <= digit_value(c) < 10 && "0123456789"@[digit_value(c)] == c,
        0 <= d < 10 ==> decimal_digit(d) == "0123456789"@[d] && digit_value(decimal_digit(d)) == d,
        0 <= d < 16 ==> hex_digit(d, true) == "0123456789ABCDEF"@[d] && hex_digit(d, false)
            == "0123456789abcdef"@[d],
{
    reveal_strlit("0123456789");
    reveal_strlit("0123456789ABCDEF");
    reveal_strlit("0123456789abcdef");
    let digits = "0123456789"@;
    assert(is_digit(c) ==> digits[digit_value(c)] == c);
    assert(digits.contains(c) ==> is_digit(c)) by {
        assert forall|k: int| 0 <= k < 10 && #[trigger] digits[k] == c implies is_digit(c) by {
        }
    }
}

/// The number that a row of digits writes, from left to right in base ten.
pub open spec fn number_written(digits: Seq<char>) -> int
    decreases digits.len(),
{
    if digits.len() == 0 {
        0
    } else {
        10 * number_written(digits.drop_last()) + digit_value(digits.last())
    }
}

/// A decimal numeral is made of digits and writes its number. It is at least as long as asked for,
/// and longer only where the number needs it: then it has no zero in front.
pub proof fn lemma_decimal_writes_the_number(n: nat, width: nat)
    ensures
        number_written(decimal(n, width)) == n,
        forall|k: int| 0 <= k < decimal(n, width).len() ==> is_digit(#[trigger] decimal(n, width)[k]),
        decimal(n, width).len() >= 1,
        decimal(n, width).len() >= width,
        decimal(n, width).len() > width && decimal(n, width).len() > 1 ==> decimal(n, width)[0]
            != '0',
    decreases n, width,
{
    lemma_digits_by_place('0', (n % 10) as int);
    assert(is_digit(decimal_digit((n % 10) as int)));
    if n < 10 && width <= 1 {
        let one = decimal(n, width);
        assert(one =~= seq![decimal_digit(n as int)]);
        assert(one.drop_last() =~= Seq::<char>::empty());
        assert(number_written(one.drop_last()) == 0);
    } else {
        let narrower = if width == 0 {
            0
        } else {
            (width - 1) as nat
        };
        lemma_decimal_writes_the_number(n / 10, narrower);
        let front = decimal(n / 10, narrower);
        let whole = decimal(n, width);
        assert(whole.drop_last() =~= front);
        if whole.len() > width && whole.len() > 1 {
            assert(whole[0] == front[0]);
            if front.len() == 1 {
                assert(narrower == 0);
                assert(front =~= seq![decimal_digit((n / 10) as int)]) by {
                    lemma_one_digit(n / 10);
                }
                lemma_digits_by_place('0', (n / 10) as int);
            }
        }
    }
}

proof fn lemma_one_digit(n: nat)
    requires
        decimal(n, 0).len() == 1,
    ensures
        n < 10,
        decimal(n, 0) == seq![decimal_digit(n as int)],
{
    reveal_with_fuel(decimal, 2);
}

/// A negative number is written as its sign and the numeral of what it is without it.
pub proof fn lemma_signed_numeral(n: int)
    ensures
        n >= 0 ==> number_written(signed_decimal(n)) == n,
        n < 0 ==> signed_decimal(n).len() > 1 && signed_decimal(n)[0] == '-' && number_written(
            signed_decimal(n).skip(1),
        ) == -n,
{
    if n >= 0 {
        lemma_decimal_writes_the_number(n as nat, 0);
    } else {
        lemma_decimal_writes_the_number((-n) as nat, 0);
        assert(signed_decimal(n).skip(1) =~= decimal((-n) as nat, 0));
    }
}

/// A byte is written in hexadecimal as two digits, the one worth sixteen first.
pub proof fn lemma_hex_of_a_byte(byte: u8, upper: bool)
    ensures
        hex(byte as nat, 2, upper) == seq![
            hex_digit(byte as int / 16, upper),
            hex_digit(byte as int % 16, upper),
        ],
{
    reveal_with_fuel(hex, 3);
    assert(hex(byte as nat, 2, upper) =~= seq![
        hex_digit(byte as int / 16, upper),
        hex_digit(byte as int % 16, upper),
    ]);
}

/// The last digit of a hexadecimal numeral is the remainder by sixteen, and what stands before it is
/// the numeral of the quotient. A numeral is at least as long as asked for.
pub proof fn lemma_hex_by_digits(n: nat, width: nat, upper: bool)
    ensures
        hex(n, width, upper).len() >= 1,
        hex(n, width, upper).len() >= width,
        hex(n, width, upper).last() == hex_digit((n % 16) as int, upper),
        n >= 16 || width > 1 ==> hex(n, width, upper).drop_last() == hex(
            n / 16,
            if width == 0 {
                0
            } else {
                (width - 1) as nat
            },
            upper,
        ),
    decreases n, width,
{
    if n >= 16 || width > 1 {
        let narrower = if width == 0 {
            0
        } else {
            (width - 1) as nat
        };
        lemma_hex_by_digits(n / 16, narrower, upper);
        assert(hex(n, width, upper).drop_last() =~= hex(n / 16, narrower, upper));
    }
}

/// The digits of a text are picked out of it in order, and nothing else is.
pub proof fn lemma_digits_by_characters(a: Seq<char>, c: char, b: Seq<char>)
    ensures
        digits_of(a + b) == digits_of(a) + digits_of(b),
        digits_of(seq![c]) == if '0' <= c && c <= '9' {
            seq![c]
        } else {
            seq![]
        },
        digits_of(seq![]) == Seq::<char>::empty(),
{
    let wanted = |x: char| is_digit(x);
    Seq::filter_distributes_over_add(a, b, wanted);
    reveal(Seq::filter);
    assert(seq![c].drop_last() =~= Seq::<char>::empty());
    assert(Seq::<char>::empty().filter(wanted) =~= Seq::<char>::empty());
    assert(digits_of(seq![c]) =~= if '0' <= c && c <= '9' {
        seq![c]
    } else {
        seq![]
    });
}

/// So many copies of a character.
pub proof fn lemma_repeated(c: char, n: nat, i: int)
    ensures
        repeated(c, n).len() == n,
        0 <= i < n ==> repeated(c, n)[i] == c,
{
}

} // verus!
