use vstd::arithmetic::div_mod::{lemma_div_denominator, lemma_fundamental_div_mod};
use vstd::prelude::*;

verus! {

/// 256 to the power `width`: one past the largest value that `width` bytes hold.
pub open spec fn pow256(width: nat) -> nat
    decreases width,
{
    if width == 0 {
        1
    } else {
        256 * pow256((width - 1) as nat)
    }
}

/// The value of a big-endian byte string.
pub open spec fn be_value(bytes: Seq<u8>) -> nat
    decreases bytes.len(),
{
    if bytes.len() == 0 {
        0
    } else {
        be_value(bytes.drop_last()) * 256 + bytes.last() as nat
    }
}

/// The low `width` bytes of `n`, most significant first.
pub open spec fn be_bytes(n: nat, width: nat) -> Seq<u8>
    decreases width,
{
    if width == 0 {
        seq![]
    } else {
        be_bytes(n / 256, (width - 1) as nat).push((n % 256) as u8)
    }
}

pub proof fn lemma_pow256_facts()
    ensures
        pow256(2) == 0x1_0000,
        pow256(7) == 0x100_0000_0000_0000,
        pow256(8) == 0x1_0000_0000_0000_0000,
{
    reveal_with_fuel(pow256, 9);
}

pub proof fn lemma_pow256_positive(width: nat)
    ensures
        pow256(width) >= 1,
    decreases width,
{
    if width > 0 {
        lemma_pow256_positive((width - 1) as nat);
    }
}

pub proof fn lemma_be_bytes_len(n: nat, width: nat)
    ensures
        be_bytes(n, width).len() == width,
    decreases width,
{
    if width > 0 {
        lemma_be_bytes_len(n / 256, (width - 1) as nat);
    }
}

pub proof fn lemma_be_value_bound(bytes: Seq<u8>)
    ensures
        be_value(bytes) < pow256(bytes.len()),
    decreases bytes.len(),
{
    if bytes.len() > 0 {
        lemma_be_value_bound(bytes.drop_last());
    }
}

/// Decoding the `width` low bytes of a value that fits in them gives the value back.
pub proof fn lemma_be_round_trip(n: nat, width: nat)
    requires
        n < pow256(width),
    ensures
        be_value(be_bytes(n, width)) == n,
    decreases width,
{
    if width > 0 {
        let w1 = (width - 1) as nat;
        assert(n / 256 < pow256(w1)) by {
            lemma_fundamental_div_mod(n as int, 256);
        }
        lemma_be_round_trip(n / 256, w1);
        let b = be_bytes(n, width);
        assert(b.drop_last() =~= be_bytes(n / 256, w1));
        lemma_fundamental_div_mod(n as int, 256);
    }
}

/// The value `n` as `width` bytes, most significant first.
pub fn encode_be(n: u64, width: usize) -> (r: Vec<u8>)
    requires
        1 <= width <= 8,
        n < pow256(width as nat),
    ensures
        r@ == be_bytes(n as nat, width as nat),
        r@.len() == width,
{
    let mut d: u64 = 1;
    let mut k: usize = 1;
    while k < width
        invariant
            1 <= k <= width <= 8,
            d as nat == pow256((k - 1) as nat),
        decreases width - k,
    {
        proof {
            lemma_pow256_facts();
            lemma_pow256_monotone(k as nat, 7);
            assert(pow256(k as nat) == 256 * pow256((k - 1) as nat));
        }
        d = d * 256;
        k = k + 1;
    }
    let mut out: Vec<u8> = Vec::new();
    let mut i: usize = 0;
    while i < width
        invariant
            i <= width <= 8,
            n < pow256(width as nat),
            i < width ==> d as nat == pow256((width - 1 - i) as nat),
            out@ == be_bytes(n as nat / pow256((width - i) as nat), i as nat),
        decreases width - i,
    {
        proof {
            lemma_pow256_positive((width - 1 - i) as nat);
            lemma_div_denominator(n as int, d as int, 256);
            assert(pow256((width - i) as nat) == d * 256);
            assert(d * 256 == 256 * d) by (nonlinear_arith);
        }
        let q = n / d;
        out.push((q % 256) as u8);
        proof {
            assert(out@ =~= be_bytes(q as nat / 256, i as nat).push((q as nat % 256) as u8));
            assert(pow256((width - (i + 1)) as nat) == d);
        }
        if i + 1 < width {
            d = d / 256;
        }
        i = i + 1;
    }
    proof {
        assert(pow256(0) == 1);
        assert(n as nat / 1 == n as nat);
        lemma_be_bytes_len(n as nat, width as nat);
    }
    out
}

pub proof fn lemma_pow256_monotone(a: nat, b: nat)
    requires
        a <= b,
    ensures
        pow256(a) <= pow256(b),
    decreases b - a,
{
    if a < b {
        lemma_pow256_monotone(a, (b - 1) as nat);
        lemma_pow256_positive((b - 1) as nat);
    }
}

/// The big-endian value of the first `width` bytes of `bytes`.
pub fn decode_be(bytes: &[u8], width: usize) -> (r: u64)
    requires
        width <= 8,
        width <= bytes@.len(),
    ensures
        r as nat == be_value(bytes@.subrange(0, width as int)),
{
    let mut acc: u64 = 0;
    let mut i: usize = 0;
    while i < width
        invariant
            i <= width <= 8,
            width <= bytes@.len(),
            acc as nat == be_value(bytes@.subrange(0, i as int)),
        decreases width - i,
    {
        proof {
            let pre = bytes@.subrange(0, i as int);
            lemma_be_value_bound(pre);
            lemma_pow256_monotone(i as nat, 7);
            lemma_pow256_facts();
            assert(pow256(8) == 256 * pow256(7));
            assert(bytes@.subrange(0, i + 1).drop_last() =~= pre);
        }
        acc = acc * 256 + bytes[i] as u64;
        i = i + 1;
    }
    acc
}

/// Whether `b` is an ASCII decimal digit.
pub open spec fn is_digit(b: u8) -> bool {
    0x30 <= b <= 0x39
}

/// The decimal digits of `n`, most significant first, without leading zeros.
pub open spec fn decimal_digits(n: nat) -> Seq<u8>
    decreases n,
{
    if n < 10 {
        seq![(0x30 + n) as u8]
    } else {
        decimal_digits(n / 10).push((0x30 + n % 10) as u8)
    }
}

/// The value of a string of decimal digits.
pub open spec fn decimal_value(digits: Seq<u8>) -> nat
    decreases digits.len(),
{
    if digits.len() == 0 {
        0
    } else {
        decimal_value(digits.drop_last()) * 10 + (digits.last() - 0x30) as nat
    }
}

/// Whether every byte of `s` is a decimal digit.
pub open spec fn all_digits(s: Seq<u8>) -> bool {
    forall|i: int| 0 <= i < s.len() ==> is_digit(#[trigger] s[i])
}

/// What follows an optional leading `+`.
pub open spec fn unsigned_digits(text: Seq<u8>) -> Seq<u8> {
    if text.len() > 0 && text[0] == 0x2b {
        text.drop_first()
    } else {
        text
    }
}

/// The text of an unsigned number as `u64`'s parser reads it: an optional
/// leading `+`, then at least one digit, with a value that fits in 64 bits.
pub open spec fn unsigned_value(text: Seq<u8>) -> Option<u64> {
    let digits = unsigned_digits(text);
    if digits.len() > 0 && all_digits(digits) && decimal_value(digits) <= u64::MAX {
        Some(decimal_value(digits) as u64)
    } else {
        None
    }
}

/// Appends the decimal digits of `n` to `out`.
pub fn push_decimal(n: u64, out: &mut Vec<u8>)
    ensures
        final(out)@ == old(out)@ + decimal_digits(n as nat),
    decreases n,
{
    if n >= 10 {
        push_decimal(n / 10, out);
    }
    out.push(0x30 + (n % 10) as u8);
    proof {
        if n >= 10 {
            assert(decimal_digits(n as nat) == decimal_digits(n as nat / 10).push(
                (0x30 + n as nat % 10) as u8,
            ));
        }
        assert(final(out)@ =~= old(out)@ + decimal_digits(n as nat));
    }
}

/// Reads an unsigned decimal number: `None` unless the whole text is one.
pub fn parse_unsigned(text: &[u8]) -> (r: Option<u64>)
    ensures
        r == unsigned_value(text@),
{
    let start: usize = if text.len() > 0 && text[0] == 0x2b {
        1
    } else {
        0
    };
    let ghost digits = text@.subrange(start as int, text@.len() as int);
    proof {
        if text@.len() > 0 && text@[0] == 0x2b {
            assert(digits =~= text@.drop_first());
        } else {
            assert(digits =~= text@);
        }
    }
    let mut acc: u64 = 0;
    let mut overflow = false;
    let mut all_digits = true;
    let mut i: usize = start;
    while i < text.len()
        invariant
            start <= i <= text@.len(),
            digits == text@.subrange(start as int, text@.len() as int),
            all_digits <==> forall|j: int| start <= j < i ==> is_digit(#[trigger] text@[j]),
            all_digits && !overflow ==> acc as nat == decimal_value(
                text@.subrange(start as int, i as int),
            ),
            all_digits && overflow ==> decimal_value(text@.subrange(start as int, i as int))
                > u64::MAX,
        decreases text@.len() - i,
    {
        let b = text[i];
        let ghost pre = text@.subrange(start as int, i as int);
        let ghost next = text@.subrange(start as int, i + 1);
        proof {
            assert(next.drop_last() =~= pre);
        }
        if b < 0x30 || b > 0x39 {
            all_digits = false;
        } else if !overflow {
            if acc > (u64::MAX - (b - 0x30) as u64) / 10 {
                proof {
                    let d = (b - 0x30) as int;
                    let m = u64::MAX as int;
                    let a = acc as int;
                    assert(a * 10 + d > m) by (nonlinear_arith)
                        requires
                            a > (m - d) / 10,
                            0 <= d <= 9,
                            m > 9,
                    ;
                }
                overflow = true;
            } else {
                proof {
                    let d = (b - 0x30) as int;
                    let m = u64::MAX as int;
                    let a = acc as int;
                    assert(a * 10 + d <= m) by (nonlinear_arith)
                        requires
                            a <= (m - d) / 10,
                            0 <= d <= 9,
                    ;
                }
                acc = acc * 10 + (b - 0x30) as u64;
            }
        }
        i = i + 1;
    }
    proof {
        assert(text@.subrange(start as int, text@.len() as int) == digits);
        assert(unsigned_digits(text@) == digits);
        if all_digits {
            assert forall|j: int| 0 <= j < digits.len() implies is_digit(#[trigger] digits[j]) by {
                assert(digits[j] == text@[start + j]);
            }
        } else {
            let j = choose|j: int| start <= j < text@.len() && !is_digit(#[trigger] text@[j]);
            assert(!is_digit(digits[j - start]));
        }
    }
    if !all_digits || overflow || i == start {
        None
    } else {
        Some(acc)
    }
}

} // verus!
