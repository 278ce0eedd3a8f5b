//! Character-level helpers on strings, stated over their views (sequences of
//! chars).

use vstd::prelude::*;
use vstd::string::{StrSliceExecFns, StringExecFns};

verus! {

/// `s[from..to]`, counted in chars, equals `lit`.
pub fn range_eq(s: &str, from: usize, to: usize, lit: &str) -> (r: bool)
    requires
        from <= to <= s@.len(),
    ensures
        r == (s@.subrange(from as int, to as int) == lit@),
{
    let n = lit.unicode_len();
    if to - from != n {
        proof {
            assert(s@.subrange(from as int, to as int).len() != lit@.len());
        }
        return false;
    }
    let mut i: usize = 0;
    while i < n
        invariant
            n == lit@.len(),
            from <= to <= s@.len(),
            to - from == n,
            i <= n,
            forall|t: int| 0 <= t < i ==> s@[from + t] == lit@[t],
        decreases n - i,
    {
        if s.get_char(from + i) != lit.get_char(i) {
            proof {
                assert(s@.subrange(from as int, to as int)[i as int] != lit@[i as int]);
            }
            return false;
        }
        i = i + 1;
    }
    assert(s@.subrange(from as int, to as int) =~= lit@);
    true
}

/// Whole-string equality.
pub fn str_eq(a: &str, b: &str) -> (r: bool)
    ensures
        r == (a@ == b@),
{
    let n = a.unicode_len();
    let r = range_eq(a, 0, n, b);
    proof {
        assert(a@.subrange(0, n as int) =~= a@);
    }
    r
}

/// The lower-case hex digit of `n` (0 to 15).
pub open spec fn hex_digit(n: int) -> char {
    "0123456789abcdef"@[n]
}

/// Two lower-case hex digits per byte.
pub open spec fn hex_of(b: Seq<u8>) -> Seq<char>
    decreases b.len(),
{
    if b.len() == 0 {
        Seq::empty()
    } else {
        hex_of(b.drop_last()) + seq![hex_digit(b.last() as int / 16), hex_digit(b.last() as int % 16)]
    }
}

/// The first eight bytes (or fewer) in hex: a short fingerprint for logs.
pub open spec fn hex_fingerprint(b: Seq<u8>) -> Seq<char> {
    hex_of(b.take(if b.len() < 8 { b.len() as int } else { 8 }))
}

/// The hex digit of `n` as a one-char string.
fn hex_digit_str(n: u8) -> (r: &'static str)
    requires
        n < 16,
    ensures
        r@ == seq![hex_digit(n as int)],
{
    let table = "0123456789abcdef";
    proof {
        reveal_strlit("0123456789abcdef");
    }
    let r = table.substring_char(n as usize, n as usize + 1);
    proof {
        assert(r@ =~= seq![hex_digit(n as int)]);
    }
    r
}

/// Hex of the first eight bytes (or fewer), two lower-case digits per byte.
pub fn hex_short(bytes: &[u8]) -> (r: String)
    ensures
        r@ == hex_fingerprint(bytes@),
{
    let take = if bytes.len() < 8 { bytes.len() } else { 8 };
    let mut out = String::new();
    let mut i: usize = 0;
    proof {
        assert(bytes@.take(0) =~= Seq::<u8>::empty());
    }
    while i < take
        invariant
            take <= bytes@.len(),
            take == (if bytes@.len() < 8 { bytes@.len() as int } else { 8 }),
            i <= take,
            out@ == hex_of(bytes@.take(i as int)),
        decreases take - i,
    {
        let b = bytes[i];
        proof {
            assert(bytes@.take(i + 1).drop_last() =~= bytes@.take(i as int));
            assert(bytes@.take(i + 1).last() == b);
        }
        out.append(hex_digit_str(b / 16));
        out.append(hex_digit_str(b % 16));
        i = i + 1;
    }
    out
}

} // verus!
