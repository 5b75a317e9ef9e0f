//! Basic memory models.
//!
//! The [`Ram`] and [`Rom`] memory models work similarly to one another, with
//! the obvious exception that [`Rom`] rejects all writes. Both are devices,
//! so they can be mapped into another address space through a
//! [`Bus`](crate::bus::Bus), and both render their contents as a hex dump.

use vstd::prelude::*;
use vstd::string::StringExecFns;

pub mod ram;
pub mod rom;

pub use self::ram::Ram;
pub use self::rom::Rom;

verus! {

/// Bytes per dump row: eight two-byte words.
pub const ROW: usize = 16;

/// The lowercase hex digit for a value below sixteen.
pub open spec fn hex_digit(n: int) -> char {
    if n == 0 {
        '0'
    } else if n == 1 {
        '1'
    } else if n == 2 {
        '2'
    } else if n == 3 {
        '3'
    } else if n == 4 {
        '4'
    } else if n == 5 {
        '5'
    } else if n == 6 {
        '6'
    } else if n == 7 {
        '7'
    } else if n == 8 {
        '8'
    } else if n == 9 {
        '9'
    } else if n == 10 {
        'a'
    } else if n == 11 {
        'b'
    } else if n == 12 {
        'c'
    } else if n == 13 {
        'd'
    } else if n == 14 {
        'e'
    } else {
        'f'
    }
}

/// A byte as two hex digits.
pub open spec fn byte_hex(b: u8) -> Seq<char> {
    seq![hex_digit(b as int / 16), hex_digit(b as int % 16)]
}

/// A number as `digits` hex digits, zero-padded at the front.
pub open spec fn addr_hex(n: int, digits: nat) -> Seq<char>
    decreases digits,
{
    if digits == 0 {
        Seq::empty()
    } else {
        addr_hex(n / 16, (digits - 1) as nat).push(hex_digit(n % 16))
    }
}

/// How many hex digits a number needs.
pub open spec fn hex_digits(n: int) -> nat
    decreases n,
{
    if n < 16 {
        1
    } else {
        1 + hex_digits(n / 16)
    }
}

/// A row's bytes as space-separated two-byte words.
pub open spec fn row_hex(row: Seq<u8>) -> Seq<char>
    decreases row.len(),
{
    if row.len() == 0 {
        Seq::empty()
    } else if row.len() == 1 {
        seq![' '] + byte_hex(row[0])
    } else {
        seq![' '] + byte_hex(row[0]) + byte_hex(row[1]) + row_hex(row.skip(2))
    }
}

/// Whether every byte of the row is zero.
pub open spec fn zero_row(row: Seq<u8>) -> bool {
    forall|i: int| 0 <= i < row.len() ==> row[i] == 0u8
}

/// The bytes of row `r`.
pub open spec fn row_of(data: Seq<u8>, r: int) -> Seq<u8> {
    data.subrange(
        ROW as int * r,
        if ROW as int * (r + 1) <= data.len() {
            ROW as int * (r + 1)
        } else {
            data.len() as int
        },
    )
}

/// How many rows the dump has.
pub open spec fn rows_of(data: Seq<u8>) -> int {
    (data.len() + ROW - 1) as int / ROW as int
}

/// The dump width: the widest row address, rendered `0x`-prefixed.
pub open spec fn dump_width(data: Seq<u8>) -> nat {
    2 + hex_digits(data.len() as int)
}

/// The dump from row `r` on. Rows stand one per line; a row of zeroes is
/// written once under a dotted address, and the zero rows after it are left
/// out until a row holds data again.
pub open spec fn dump_from(data: Seq<u8>, r: int, skipping: bool) -> Seq<char>
    decreases rows_of(data) - r,
{
    if r < 0 || r >= rows_of(data) {
        Seq::empty()
    } else {
        let row = row_of(data, r);
        if skipping && zero_row(row) {
            dump_from(data, r + 1, true)
        } else {
            let head: Seq<char> = if r != 0 {
                seq!['\n']
            } else {
                Seq::empty()
            };
            if zero_row(row) {
                head + Seq::new(dump_width(data), |i: int| '.') + seq![':'] + row_hex(row)
                    + dump_from(data, r + 1, true)
            } else {
                head + seq!['0', 'x'] + addr_hex(ROW as int * r, (dump_width(data) - 2) as nat)
                    + seq![':'] + row_hex(row) + dump_from(data, r + 1, false)
            }
        }
    }
}

/// The hex dump of a memory's contents.
pub open spec fn dump_of(data: Seq<u8>) -> Seq<char> {
    dump_from(data, 0, false)
}

/// Sixteen to the given power.
pub open spec fn pow16(d: nat) -> int
    decreases d,
{
    if d == 0 {
        1
    } else {
        16 * pow16((d - 1) as nat)
    }
}

/// A machine-sized number has at most sixteen hex digits.
proof fn lemma_hex_digits_usize(n: int)
    requires
        0 <= n <= usize::MAX,
    ensures
        hex_digits(n) <= 16,
{
    assert(pow16(16) == 0x10000000000000000) by {
        reveal_with_fuel(pow16, 17);
    }
    lemma_hex_digits_le(n, 16);
}

/// A number below sixteen to the `d` has at most `d` hex digits.
proof fn lemma_hex_digits_le(n: int, d: nat)
    requires
        0 <= n < pow16(d),
        1 <= d,
    ensures
        hex_digits(n) <= d,
    decreases d,
{
    if n >= 16 {
        assert(pow16(1) == 16) by {
            reveal_with_fuel(pow16, 2);
        }
        if d == 1 {
            assert(false);
        } else {
            assert(pow16(d) == 16 * pow16((d - 1) as nat));
            lemma_hex_digits_le(n / 16, (d - 1) as nat);
        }
    }
}

/// Appends one hex digit.
fn push_hex_digit(s: &mut String, d: u8)
    requires
        d < 16,
    ensures
        final(s)@ == old(s)@.push(hex_digit(d as int)),
{
    proof {
        reveal_strlit("0");
        reveal_strlit("1");
        reveal_strlit("2");
        reveal_strlit("3");
        reveal_strlit("4");
        reveal_strlit("5");
        reveal_strlit("6");
        reveal_strlit("7");
        reveal_strlit("8");
        reveal_strlit("9");
        reveal_strlit("a");
        reveal_strlit("b");
        reveal_strlit("c");
        reveal_strlit("d");
        reveal_strlit("e");
        reveal_strlit("f");
    }
    match d {
        0 => s.append("0"),
        1 => s.append("1"),
        2 => s.append("2"),
        3 => s.append("3"),
        4 => s.append("4"),
        5 => s.append("5"),
        6 => s.append("6"),
        7 => s.append("7"),
        8 => s.append("8"),
        9 => s.append("9"),
        10 => s.append("a"),
        11 => s.append("b"),
        12 => s.append("c"),
        13 => s.append("d"),
        14 => s.append("e"),
        _ => s.append("f"),
    }
    proof {
        assert(s@ =~= old(s)@.push(hex_digit(d as int)));
    }
}

/// Appends one byte as two hex digits.
fn push_byte(s: &mut String, b: u8)
    ensures
        final(s)@ == old(s)@ + byte_hex(b),
{
    push_hex_digit(s, b / 16);
    push_hex_digit(s, b % 16);
    proof {
        assert(s@ =~= old(s)@ + byte_hex(b));
    }
}

/// Appends a row address as `digits` zero-padded hex digits.
fn push_addr(s: &mut String, addr: usize, digits: usize)
    ensures
        final(s)@ == old(s)@ + addr_hex(addr as int, digits as nat),
    decreases digits,
{
    if digits == 0 {
        proof {
            assert(s@ =~= old(s)@ + addr_hex(addr as int, 0));
        }
    } else {
        push_addr(s, addr / 16, digits - 1);
        push_hex_digit(s, (addr % 16) as u8);
        proof {
            assert(s@ =~= old(s)@ + addr_hex(addr as int, digits as nat));
        }
    }
}

/// How many hex digits the widest row address of `n` bytes needs.
fn width_digits(n: usize) -> (r: usize)
    ensures
        r == hex_digits(n as int),
    decreases n,
{
    if n < 16 {
        1
    } else {
        proof {
            lemma_hex_digits_usize(n as int / 16);
        }
        1 + width_digits(n / 16)
    }
}

/// Appends one row's bytes, two-byte words split by spaces.
#[verifier::loop_isolation(false)]
fn push_row(s: &mut String, data: &Vec<u8>, start: usize, end: usize)
    requires
        start <= end <= data@.len(),
    ensures
        final(s)@ == old(s)@ + row_hex(data@.subrange(start as int, end as int)),
{
    proof {
        reveal_strlit(" ");
    }
    let mut i = start;
    while i < end
        invariant
            start <= i <= end,
            s@ + row_hex(data@.subrange(i as int, end as int)) =~= old(s)@ + row_hex(
                data@.subrange(start as int, end as int),
            ),
        decreases end - i,
    {
        s.append(" ");
        push_byte(s, data[i]);
        if i + 1 < end {
            push_byte(s, data[i + 1]);
            proof {
                assert(data@.subrange(i as int, end as int).skip(2) =~= data@.subrange(
                    i as int + 2,
                    end as int,
                ));
            }
            i = i + 2;
        } else {
            proof {
                assert(data@.subrange(i as int, end as int).len() == 1);
            }
            i = i + 1;
        }
    }
    proof {
        assert(row_hex(data@.subrange(end as int, end as int)) =~= Seq::<char>::empty());
        assert(s@ =~= old(s)@ + row_hex(data@.subrange(start as int, end as int)));
    }
}

/// Renders a memory's contents as a hex dump.
#[verifier::loop_isolation(false)]
#[verifier::rlimit(100)]
pub(crate) fn render(data: &Vec<u8>) -> (r: String)
    ensures
        r@ == dump_of(data@),
{
    proof {
        reveal_strlit(":");
        reveal_strlit(".");
        reveal_strlit("\n");
        reveal_strlit("0x");
    }
    let n = data.len();
    let digits = width_digits(n);
    proof {
        lemma_hex_digits_usize(n as int);
    }
    let width = digits + 2;
    let mut out = String::new();
    let nrows = n / ROW + (if n % ROW != 0 {
        1
    } else {
        0
    });
    proof {
        assert(nrows == rows_of(data@));
    }
    let mut r: usize = 0;
    let mut skipping = false;
    while r < nrows
        invariant
            r <= nrows,
            out@ + dump_from(data@, r as int, skipping) =~= dump_of(data@),
        decreases nrows - r,
    {
        let start = r * ROW;
        let end = if n - start > ROW {
            start + ROW
        } else {
            n
        };
        proof {
            assert(row_of(data@, r as int) =~= data@.subrange(start as int, end as int));
        }
        // Scan the row for data.
        let mut zero = true;
        let mut i = start;
        while i < end
            invariant
                start <= i <= end,
                zero == (forall|k: int| start <= k < i ==> data@[k] == 0u8),
            decreases end - i,
        {
            if data[i] != 0 {
                zero = false;
            }
            i = i + 1;
        }
        proof {
            let row = row_of(data@, r as int);
            if zero {
                assert(forall|j: int|
                    0 <= j < row.len() ==> #[trigger] row[j] == data@[start + j]);
            } else {
                assert(exists|k: int| start <= k < end && data@[k] != 0u8);
                let k = choose|k: int| start <= k < end && data@[k] != 0u8;
                assert(row[k - start] == data@[k]);
            }
            assert(zero == zero_row(row));
        }
        if !(skipping && zero) {
            let ghost pre = out@;
            let ghost head: Seq<char> = if r != 0 {
                seq!['\n']
            } else {
                Seq::empty()
            };
            if r != 0 {
                out.append("\n");
            }
            if zero {
                let mut d: usize = 0;
                while d < width
                    invariant
                        d <= width,
                        out@ =~= pre + head + Seq::new(d as nat, |k: int| '.'),
                    decreases width - d,
                {
                    out.append(".");
                    proof {
                        assert(out@ =~= pre + head + Seq::new(d as nat + 1, |k: int| '.'));
                    }
                    d = d + 1;
                }
                proof {
                    assert(Seq::new(width as nat, |k: int| '.') =~= Seq::new(
                        dump_width(data@),
                        |k: int| '.',
                    ));
                }
            } else {
                out.append("0x");
                push_addr(&mut out, start, digits);
            }
            out.append(":");
            push_row(&mut out, data, start, end);
        }
        proof {
            assert(out@ + dump_from(data@, r as int + 1, zero) =~= dump_of(data@));
        }
        skipping = zero;
        r = r + 1;
    }
    out
}

} // verus!
