//! Numbers in decimal notation.

use vstd::prelude::*;
use vstd::string::*;
use vstd::utf8::*;

verus! {

/// The ten digits, in order.
pub open spec fn digits() -> Seq<char> {
    seq!['0', '1', '2', '3', '4', '5', '6', '7', '8', '9']
}

/// The decimal notation of `n`, without sign or leading zeros.
pub open spec fn decimal(n: nat) -> Seq<char>
    decreases n,
{
    if n < 10 {
        seq![digits()[n as int]]
    } else {
        decimal(n / 10) + seq![digits()[(n % 10) as int]]
    }
}

/// Decimal notation is made of digits, at least one.
pub proof fn lemma_decimal_digits(n: nat)
    ensures
        decimal(n).len() > 0,
        forall|i: int| 0 <= i < decimal(n).len() ==> '0' <= #[trigger] decimal(n)[i] <= '9',
    decreases n,
{
    if n >= 10 {
        lemma_decimal_digits(n / 10);
    }
}

/// Writes `n` in decimal notation at the end of `out`.
pub fn append_decimal(out: &mut String, n: usize)
    ensures
        final(out)@ == old(out)@ + decimal(n as nat),
    decreases n,
{
    if n >= 10 {
        append_decimal(out, n / 10);
    }
    let d: usize = n % 10;
    proof {
        reveal_strlit("0123456789");
    }
    out.append("0123456789".substring_ascii(d, d + 1));
}

/// Whether `c` is one of the ten digits.
pub open spec fn is_digit(c: char) -> bool {
    '0' <= c <= '9'
}

/// The number that a row of digits denotes; leading zeros count for nothing.
pub open spec fn value(row: Seq<char>) -> nat
    decreases row.len(),
{
    if row.len() == 0 {
        0
    } else {
        value(row.drop_last()) * 10 + (row.last() as u32 - '0' as u32) as nat
    }
}

/// Whether `row` holds digits only.
pub open spec fn all_digits(row: Seq<char>) -> bool {
    forall|i: int| 0 <= i < row.len() ==> is_digit(#[trigger] row[i])
}

/// The number that a row of characters denotes, where they are digits, and at
/// least one.
pub open spec fn row_value(row: Seq<char>) -> Option<nat> {
    if row.len() > 0 && all_digits(row) {
        Some(value(row))
    } else {
        None
    }
}

/// The number that a text denotes: a plus sign or none, then digits and
/// nothing else, at least one.
pub open spec fn denoted(t: Seq<char>) -> Option<nat> {
    if t.len() > 0 && t[0] == '+' {
        row_value(t.drop_first())
    } else {
        row_value(t)
    }
}

/// A row of digits denotes no less than any row that it begins with.
proof fn lemma_value_grows(row: Seq<char>, k: int)
    requires
        0 <= k <= row.len(),
        all_digits(row),
    ensures
        value(row.take(k)) <= value(row),
    decreases row.len() - k,
{
    if k < row.len() {
        lemma_value_grows(row, k + 1);
        assert(row.take(k + 1).drop_last() =~= row.take(k));
    } else {
        assert(row.take(k) =~= row);
    }
}

/// The digits of a number's decimal notation have the number as their value.
proof fn lemma_decimal_value(n: nat)
    ensures
        value(decimal(n)) == n,
    decreases n,
{
    if n < 10 {
        assert(seq![digits()[n as int]].drop_last() =~= Seq::<char>::empty());
        assert(value(Seq::<char>::empty()) == 0);
    } else {
        lemma_decimal_value(n / 10);
        let longer = decimal(n / 10) + seq![digits()[(n % 10) as int]];
        assert(longer.drop_last() =~= decimal(n / 10));
    }
}

/// The decimal notation of a number denotes that number.
pub proof fn lemma_decimal_denotes(n: nat)
    ensures
        denoted(decimal(n)) == Some(n),
{
    lemma_decimal_digits(n);
    lemma_decimal_value(n);
}

/// Reads a count in decimal notation: `None` where `s` denotes no number, or
/// one that a `usize` cannot hold.
pub fn parse_count(s: &str) -> (r: Option<usize>)
    ensures
        r == match denoted(s@) {
            Some(n) => if n <= usize::MAX {
                Some(n as usize)
            } else {
                None
            },
            None => None,
        },
{
    if !s.is_ascii() {
        proof {
            let i = choose|i: int| 0 <= i < s@.len() && !('\0' <= #[trigger] s@[i] <= '\u{7f}');
            if s@[0] == '+' {
                assert(!is_digit(s@.drop_first()[i - 1]));
            }
        }
        return None;
    }
    let bytes = s.as_bytes();
    let n: usize = bytes.len();
    proof {
        is_ascii_chars_encode_utf8(s@);
    }
    let start: usize = if n > 0 && bytes[0] == 0x2b {
        1
    } else {
        0
    };
    let ghost row = if s@.len() > 0 && s@[0] == '+' {
        s@.drop_first()
    } else {
        s@
    };
    if start == n {
        return None;
    }
    let mut acc: usize = 0;
    let mut i: usize = start;
    while i < n
        invariant
            start <= i <= n,
            n == bytes@.len(),
            n == s@.len(),
            row == s@.skip(start as int),
            denoted(s@) == row_value(row),
            forall|x: int| 0 <= x < n ==> (#[trigger] s@[x]) as u8 == bytes@[x],
            is_ascii_chars(s@),
            forall|x: int| 0 <= x < i - start ==> is_digit(#[trigger] row[x]),
            acc == value(row.take(i - start)),
        decreases n - i,
    {
        let b: u8 = bytes[i];
        if b < 0x30 || b > 0x39 {
            assert(!is_digit(row[i - start]));
            return None;
        }
        let d: usize = (b - 0x30) as usize;
        proof {
            assert(row.take(i - start + 1).drop_last() =~= row.take(i - start));
        }
        let next = match acc.checked_mul(10) {
            Some(tenfold) => tenfold.checked_add(d),
            None => None,
        };
        match next {
            Some(sum) => {
                acc = sum;
            },
            None => {
                proof {
                    if all_digits(row) {
                        lemma_value_grows(row, i - start + 1);
                    }
                }
                return None;
            },
        }
        i += 1;
    }
    proof {
        assert(row.take(n - start) =~= row);
    }
    Some(acc)
}

} // verus!
