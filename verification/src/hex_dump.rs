//! Hexadecimal listings of bytes.

use crate::text::{hex, hex_digit, push_hex};
use vstd::prelude::*;

verus! {

/// Bytes in a line of a listing.
pub const LINE: usize = 16;

/// The bytes of a line, each as two digits and a space.
pub open spec fn byte_columns(bytes: Seq<u8>) -> Seq<char>
    decreases bytes.len(),
{
    if bytes.len() == 0 {
        seq![]
    } else {
        byte_columns(bytes.drop_last()) + hex(bytes.last() as nat, 2, false) + seq![' ']
    }
}

/// The bytes that stand in line `k`.
pub open spec fn line_bytes(data: Seq<u8>, k: int) -> Seq<u8> {
    data.subrange(
        LINE * k,
        if LINE * (k + 1) < data.len() {
            LINE * (k + 1)
        } else {
            data.len() as int
        },
    )
}

/// Line `k`: the offset of its first byte, a colon, its bytes and a line feed.
pub open spec fn dump_line(data: Seq<u8>, k: int) -> Seq<char> {
    hex((LINE * k) as nat, 4, false) + seq![':', ' '] + byte_columns(line_bytes(data, k)) + seq![
        '\n',
    ]
}

/// The first `n` lines.
pub open spec fn dump_lines(data: Seq<u8>, n: int) -> Seq<char>
    decreases n,
{
    if n <= 0 {
        seq![]
    } else {
        dump_lines(data, n - 1) + dump_line(data, n - 1)
    }
}

/// The listing of `data`, sixteen bytes a line.
pub open spec fn hex_listing(data: Seq<u8>) -> Seq<char> {
    dump_lines(data, (data.len() as int + LINE - 1) / (LINE as int))
}

/// The characters in the first `n` lines, all of them full.
pub open spec fn full_width(n: int) -> int
    decreases n,
{
    if n <= 0 {
        0
    } else {
        full_width(n - 1) + hex((LINE * (n - 1)) as nat, 4, false).len() + 3 * LINE + 3
    }
}

/// Where byte `i` begins in a listing.
pub open spec fn byte_place(i: int) -> int {
    full_width(i / 16) + hex((LINE * (i / 16)) as nat, 4, false).len() + 2 + 3 * (i % 16)
}

/// Lists bytes in hexadecimal, sixteen a line, each line with the offset of its first byte.
pub fn pretty_hex(data: &[u8]) -> (output: String)
    ensures
        output@ == hex_listing(data@),
{
    let mut output = String::new();
    let held: usize = data.len();
    let mut start: usize = 0;
    let ghost mut k: int = 0;
    while start < held
        invariant
            held == data@.len(),
            start <= held,
            k >= 0,
            start == if LINE * k < held {
                LINE * k
            } else {
                held as int
            },
            start == held ==> k == (held as int + LINE - 1) / (LINE as int),
            output@ == dump_lines(data@, k),
        decreases held - start,
    {
        let ghost before = output@;
        let end: usize = if held - start > LINE {
            start + LINE
        } else {
            held
        };
        push_hex(&mut output, start as u64, 4, false);
        output.push(':');
        output.push(' ');
        let ghost head = output@;
        for i in start..end
            invariant
                start <= end <= held,
                held == data@.len(),
                output@ == head + byte_columns(data@.subrange(start as int, i as int)),
        {
            let ghost row = output@;
            push_hex(&mut output, data[i] as u64, 2, false);
            output.push(' ');
            proof {
                let shown = data@.subrange(start as int, i + 1);
                assert(shown.drop_last() =~= data@.subrange(start as int, i as int));
                assert(output@ =~= head + byte_columns(shown));
            }
        }
        output.push('\n');
        proof {
            assert(line_bytes(data@, k) == data@.subrange(start as int, end as int));
            assert(head =~= before + (hex(start as nat, 4, false) + seq![':', ' ']));
            assert(output@ =~= before + dump_line(data@, k));
            k = k + 1;
        }
        start = end;
    }
    output
}

proof fn lemma_byte_columns(bytes: Seq<u8>)
    ensures
        byte_columns(bytes).len() == 3 * bytes.len(),
        forall|j: int|
            0 <= j < bytes.len() ==> #[trigger] byte_columns(bytes)[3 * j] == hex_digit(
                bytes[j] as int / 16,
                false,
            ) && byte_columns(bytes)[3 * j + 1] == hex_digit(bytes[j] as int % 16, false),
    decreases bytes.len(),
{
    reveal_with_fuel(hex, 2);
    if bytes.len() > 0 {
        let front = bytes.drop_last();
        lemma_byte_columns(front);
        let b = bytes.last() as nat;
        assert(hex(b, 2, false) =~= seq![
            hex_digit(b as int / 16, false),
            hex_digit(b as int % 16, false),
        ]);
        assert forall|j: int| 0 <= j < bytes.len() implies #[trigger] byte_columns(bytes)[3 * j]
            == hex_digit(bytes[j] as int / 16, false) && byte_columns(bytes)[3 * j + 1]
            == hex_digit(bytes[j] as int % 16, false) by {
            if j < front.len() {
                assert(byte_columns(bytes)[3 * j] == byte_columns(front)[3 * j]);
                assert(byte_columns(bytes)[3 * j + 1] == byte_columns(front)[3 * j + 1]);
            }
        }
    }
}

proof fn lemma_offset_width(n: nat)
    requires
        n < 0x1_0000,
    ensures
        hex(n, 4, false).len() == 4,
{
    reveal_with_fuel(hex, 4);
}

proof fn lemma_full_lines(data: Seq<u8>, n: int)
    requires
        0 <= n,
        LINE * n <= data.len(),
    ensures
        dump_lines(data, n).len() == full_width(n),
    decreases n,
{
    if n > 0 {
        lemma_full_lines(data, n - 1);
        lemma_byte_columns(line_bytes(data, n - 1));
    }
}

proof fn lemma_short_lines(n: int)
    requires
        0 <= n <= 0x1000,
    ensures
        full_width(n) == 55 * n,
    decreases n,
{
    if n > 0 {
        lemma_short_lines(n - 1);
        lemma_offset_width((LINE * (n - 1)) as nat);
    }
}

/// Later lines leave earlier ones in place.
proof fn lemma_lines_extend(data: Seq<u8>, n: int, m: int)
    requires
        0 <= n <= m,
    ensures
        dump_lines(data, n).len() <= dump_lines(data, m).len(),
        forall|p: int|
            0 <= p < dump_lines(data, n).len() ==> #[trigger] dump_lines(data, m)[p] == dump_lines(
                data,
                n,
            )[p],
    decreases m - n,
{
    if n < m {
        lemma_lines_extend(data, n, m - 1);
        assert(dump_lines(data, m) == dump_lines(data, m - 1) + dump_line(data, m - 1));
    }
}

/// Every byte is listed in its own place, as two digits. Up to 64 KiB that is column
/// `6 + 3 * (i % 16)` of line `i / 16`, where a full line has 55 characters.
pub proof fn lemma_listing_shows_every_byte(data: Seq<u8>, i: int)
    requires
        0 <= i < data.len(),
    ensures
        byte_place(i) + 1 < hex_listing(data).len(),
        hex_listing(data)[byte_place(i)] == hex_digit(data[i] as int / 16, false),
        hex_listing(data)[byte_place(i) + 1] == hex_digit(data[i] as int % 16, false),
        i < 0x1_0000 ==> byte_place(i) == 55 * (i / 16) + 6 + 3 * (i % 16),
{
    let k = i / 16;
    let j = i % 16;
    let n = (data.len() as int + LINE - 1) / (LINE as int);
    let p = byte_place(i);
    lemma_full_lines(data, k);
    if i < 0x1_0000 {
        lemma_short_lines(k);
        lemma_offset_width((LINE * k) as nat);
    }
    let bytes = line_bytes(data, k);
    lemma_byte_columns(bytes);
    lemma_lines_extend(data, k + 1, n);
    let columns = byte_columns(bytes);
    assert(bytes[j] == data[i]);
    assert(columns[3 * j] == hex_digit(data[i] as int / 16, false));
    let line = dump_line(data, k);
    let head = hex((LINE * k) as nat, 4, false).len() + 2;
    assert(line[head + 3 * j] == columns[3 * j]);
    assert(line[head + 3 * j + 1] == columns[3 * j + 1]);
    let upto = dump_lines(data, k + 1);
    assert(upto == dump_lines(data, k) + line);
    assert(upto[p] == line[head + 3 * j]);
    assert(upto[p + 1] == line[head + 3 * j + 1]);
    assert(hex_listing(data)[p] == upto[p]);
    assert(hex_listing(data)[p + 1] == upto[p + 1]);
}

/// A listing ends where a further byte would begin, or one character behind that.
proof fn lemma_listing_ends(data: Seq<u8>)
    ensures
        hex_listing(data).len() <= byte_place(data.len() as int) + 1,
{
    let k = data.len() as int / 16;
    lemma_full_lines(data, k);
    if data.len() % 16 > 0 {
        let n = (data.len() as int + LINE - 1) / (LINE as int);
        assert(n == k + 1);
        lemma_byte_columns(line_bytes(data, k));
        assert(hex_listing(data) == dump_lines(data, k) + dump_line(data, k));
    }
}

proof fn lemma_hex_digits_differ(a: int, b: int)
    requires
        0 <= a < 16,
        0 <= b < 16,
        hex_digit(a, false) == hex_digit(b, false),
    ensures
        a == b,
{
}

proof fn lemma_longer_listing(a: Seq<u8>, b: Seq<u8>)
    requires
        a.len() < b.len(),
    ensures
        hex_listing(a).len() < hex_listing(b).len(),
{
    lemma_listing_ends(a);
    lemma_listing_shows_every_byte(b, a.len() as int);
}

/// Different bytes have different listings.
pub proof fn lemma_different_listings(a: Seq<u8>, b: Seq<u8>)
    ensures
        hex_listing(a) == hex_listing(b) <==> a == b,
{
    if hex_listing(a) == hex_listing(b) {
        if a.len() < b.len() {
            lemma_longer_listing(a, b);
        }
        if b.len() < a.len() {
            lemma_longer_listing(b, a);
        }
        assert forall|i: int| 0 <= i < a.len() implies #[trigger] a[i] == b[i] by {
            lemma_listing_shows_every_byte(a, i);
            lemma_listing_shows_every_byte(b, i);
            lemma_hex_digits_differ(a[i] as int / 16, b[i] as int / 16);
            lemma_hex_digits_differ(a[i] as int % 16, b[i] as int % 16);
        }
        assert(a =~= b);
    }
}

proof fn lemma_same_lines(a: Seq<u8>, b: Seq<u8>, n: int)
    requires
        0 <= n,
        LINE * n <= a.len(),
    ensures
        dump_lines(a + b, n) == dump_lines(a, n),
    decreases n,
{
    if n > 0 {
        lemma_same_lines(a, b, n - 1);
        assert(line_bytes(a + b, n - 1) =~= line_bytes(a, n - 1));
    }
}

/// The listing of whole lines is the beginning of the listing of those bytes with more behind
/// them.
pub proof fn lemma_listing_of_whole_lines(a: Seq<u8>, b: Seq<u8>)
    requires
        a.len() % 16 == 0,
    ensures
        hex_listing(a).is_prefix_of(hex_listing(a + b)),
{
    let k = a.len() as int / 16;
    let n = ((a + b).len() as int + LINE - 1) / (LINE as int);
    lemma_same_lines(a, b, k);
    lemma_lines_extend(a + b, k, n);
    assert((a.len() as int + LINE - 1) / (LINE as int) == k);
    assert(hex_listing(a) =~= hex_listing(a + b).take(hex_listing(a).len() as int));
}

/// A line begins with the offset of its first byte in four digits, a colon and a space. A space
/// stands behind every byte, and a line feed behind the last byte of a line.
pub proof fn lemma_frame_of_a_listing(data: Seq<u8>, i: int)
    requires
        0 <= i < data.len() <= 0x1_0000,
    ensures
        ({
            let listing = hex_listing(data);
            let line = 55 * (i / 16);
            let offset = 16 * (i / 16);
            let place = line + 6 + 3 * (i % 16);
            &&& listing[line] == hex_digit(offset / 4096, false)
            &&& listing[line + 1] == hex_digit(offset / 256 % 16, false)
            &&& listing[line + 2] == hex_digit(offset / 16 % 16, false)
            &&& listing[line + 3] == hex_digit(0, false)
            &&& listing[line + 4] == ':'
            &&& listing[line + 5] == ' '
            &&& listing[place + 2] == ' '
            &&& i % 16 == 15 || i == data.len() - 1 ==> listing[place + 3] == '\n'
            &&& i == data.len() - 1 ==> listing.len() == place + 4
        }),
{
    let k = i / 16;
    let j = i % 16;
    let n = (data.len() as int + LINE - 1) / (LINE as int);
    let offset = (LINE * k) as nat;
    lemma_full_lines(data, k);
    lemma_short_lines(k);
    lemma_offset_width(offset);
    lemma_offset_digits(offset);
    let bytes = line_bytes(data, k);
    lemma_byte_columns(bytes);
    lemma_byte_spaces(bytes, j);
    lemma_lines_extend(data, k + 1, n);
    let line = dump_line(data, k);
    let upto = dump_lines(data, k + 1);
    assert(upto == dump_lines(data, k) + line);
    assert(line.len() == 3 * bytes.len() + 7);
    assert(line[4] == ':' && line[5] == ' ');
    let start = 55 * k;
    let listing = hex_listing(data);
    assert(upto[start + 0] == line[0] && listing[start + 0] == upto[start + 0]);
    assert(upto[start + 1] == line[1] && listing[start + 1] == upto[start + 1]);
    assert(upto[start + 2] == line[2] && listing[start + 2] == upto[start + 2]);
    assert(upto[start + 3] == line[3] && listing[start + 3] == upto[start + 3]);
    assert(upto[start + 4] == line[4] && listing[start + 4] == upto[start + 4]);
    assert(upto[start + 5] == line[5] && listing[start + 5] == upto[start + 5]);
    assert(line[6 + 3 * j + 2] == byte_columns(bytes)[3 * j + 2]);
    let space = start + 6 + 3 * j + 2;
    assert(upto[space] == line[6 + 3 * j + 2] && listing[space] == upto[space]);
    if j == 15 || i == data.len() - 1 {
        assert(bytes.len() == j + 1);
        assert(line[6 + 3 * j + 3] == '\n');
        assert(upto[space + 1] == line[6 + 3 * j + 3] && listing[space + 1] == upto[space + 1]);
    }
    if i == data.len() - 1 {
        assert(n == k + 1);
    }
}

proof fn lemma_byte_spaces(bytes: Seq<u8>, j: int)
    requires
        0 <= j < bytes.len(),
    ensures
        byte_columns(bytes)[3 * j + 2] == ' ',
    decreases bytes.len(),
{
    let front = bytes.drop_last();
    lemma_byte_columns(front);
    lemma_byte_columns(bytes);
    if j < front.len() {
        lemma_byte_spaces(front, j);
        assert(byte_columns(bytes)[3 * j + 2] == byte_columns(front)[3 * j + 2]);
    }
}

proof fn lemma_offset_digits(n: nat)
    requires
        n < 0x1_0000,
    ensures
        hex(n, 4, false) == seq![
            hex_digit(n as int / 4096, false),
            hex_digit(n as int / 256 % 16, false),
            hex_digit(n as int / 16 % 16, false),
            hex_digit(n as int % 16, false),
        ],
{
    reveal_with_fuel(hex, 5);
    assert(n / 16 / 16 / 16 == n / 4096);
    assert(n / 16 / 16 == n / 256);
    assert(hex(n, 4, false) =~= seq![
        hex_digit(n as int / 4096, false),
        hex_digit(n as int / 256 % 16, false),
        hex_digit(n as int / 16 % 16, false),
        hex_digit(n as int % 16, false),
    ]);
}

/// Every line, however long the data is, begins with the hexadecimal numeral of the offset of its
/// first byte, sixteen times its number, in at least four digits.
pub proof fn lemma_offset_of_a_line(data: Seq<u8>, k: int)
    requires
        0 <= k,
        16 * k < data.len(),
    ensures
        ({
            let offset = hex((16 * k) as nat, 4, false);
            &&& full_width(k) + offset.len() + 2 <= hex_listing(data).len()
            &&& hex_listing(data).subrange(full_width(k), full_width(k) + offset.len() + 2)
                == offset + seq![':', ' ']
        }),
{
    let n = (data.len() as int + LINE - 1) / (LINE as int);
    let offset = hex((16 * k) as nat, 4, false);
    lemma_full_lines(data, k);
    lemma_lines_extend(data, k + 1, n);
    let before = dump_lines(data, k);
    let line = dump_line(data, k);
    let upto = dump_lines(data, k + 1);
    assert(upto == before + line);
    let listing = hex_listing(data);
    let start = full_width(k);
    let part = listing.subrange(start, start + offset.len() + 2);
    assert forall|j: int| 0 <= j < part.len() implies #[trigger] part[j] == (offset + seq![
        ':',
        ' ',
    ])[j] by {
        assert(listing[start + j] == upto[start + j]);
        assert(upto[start + j] == line[j]);
    }
    assert(part =~= offset + seq![':', ' ']);
}

} // verus!
