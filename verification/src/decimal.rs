//! Decimal codec for the fixed-width size field of a member header.
//!
//! A size field holds the payload length as a run of ASCII digits padded
//! with spaces to the field width of 10 bytes.

use vstd::prelude::*;

verus! {

/// Whether `b` is an ASCII decimal digit.
pub open spec fn is_digit(b: u8) -> bool {
    48 <= b && b <= 57
}

/// The numeric value of an ASCII digit.
pub open spec fn digit_val(b: u8) -> nat
    recommends
        is_digit(b),
{
    (b - 48) as nat
}

/// The shortest ASCII decimal representation of `n`, most significant
/// digit first.
pub open spec fn dec_digits(n: nat) -> Seq<u8>
    decreases n,
{
    if n < 10 {
        seq![(48 + n) as u8]
    } else {
        dec_digits(n / 10).push((48 + n % 10) as u8)
    }
}

/// The value of a digit run, read most significant digit first.
pub open spec fn digits_value(s: Seq<u8>) -> nat
    decreases s.len(),
{
    if s.len() == 0 {
        0
    } else {
        digits_value(s.drop_last()) * 10 + digit_val(s.last())
    }
}

/// How many digits stand at the front of `s`.
pub open spec fn digits_prefix_len(s: Seq<u8>) -> int
    decreases s.len(),
{
    if s.len() == 0 || !is_digit(s[0]) {
        0
    } else {
        1 + digits_prefix_len(s.drop_first())
    }
}

/// `n` space bytes.
pub open spec fn spaces(n: nat) -> Seq<u8> {
    Seq::new(n, |i| 32u8)
}

/// The `n`-th power of ten.
pub open spec fn pow10(n: nat) -> nat
    decreases n,
{
    if n == 0 {
        1
    } else {
        10 * pow10((n - 1) as nat)
    }
}

/// What a well-formed size field holds: at least one digit, then only
/// spaces up to the field width.
pub open spec fn parse_size_field(s: Seq<u8>) -> Option<nat> {
    let k = digits_prefix_len(s);
    if k > 0 && (forall|i: int| k <= i < s.len() ==> s[i] == 32u8) {
        Some(digits_value(s.subrange(0, k)))
    } else {
        None
    }
}

/// The encoded size field: the digits of `n` padded with spaces to 10 bytes.
pub open spec fn size_field(n: nat) -> Seq<u8>
    recommends
        dec_digits(n).len() <= 10,
{
    dec_digits(n) + spaces((10 - dec_digits(n).len()) as nat)
}

/// The decimal representation is never empty and holds only digits.
proof fn lemma_dec_digits_all(n: nat)
    ensures
        dec_digits(n).len() >= 1,
        forall|i: int| 0 <= i < dec_digits(n).len() ==> is_digit(dec_digits(n)[i]),
    decreases n,
{
    if n >= 10 {
        lemma_dec_digits_all(n / 10);
    }
}

/// Powers of ten do not decrease.
proof fn lemma_pow10_increases(a: nat, b: nat)
    requires
        a <= b,
    ensures
        pow10(a) <= pow10(b),
    decreases b - a,
{
    if a < b {
        lemma_pow10_increases(a, (b - 1) as nat);
    }
}

/// A number below the `k`-th power of ten has at most `k` digits.
pub proof fn lemma_dec_digits_len(n: nat, k: nat)
    requires
        1 <= k,
        n < pow10(k),
    ensures
        dec_digits(n).len() <= k,
    decreases n,
{
    if n >= 10 {
        assert(k >= 2) by {
            if k == 1 {
                assert(pow10(1) == 10) by {
                    reveal_with_fuel(pow10, 2);
                }
            }
        }
        assert(n / 10 < pow10((k - 1) as nat)) by {
            assert(n == 10 * (n / 10) + n % 10);
            assert(pow10(k) == 10 * pow10((k - 1) as nat));
        }
        lemma_dec_digits_len(n / 10, (k - 1) as nat);
    }
}

/// A run of `k` digits is worth less than the `k`-th power of ten.
proof fn lemma_digits_value_bound(s: Seq<u8>)
    requires
        forall|i: int| 0 <= i < s.len() ==> is_digit(s[i]),
    ensures
        digits_value(s) < pow10(s.len() as nat),
    decreases s.len(),
{
    if s.len() > 0 {
        lemma_digits_value_bound(s.drop_last());
        assert(pow10(s.len() as nat) == 10 * pow10((s.len() - 1) as nat));
    }
}

/// Reading back the decimal representation yields the number itself.
proof fn lemma_dec_digits_value(n: nat)
    ensures
        digits_value(dec_digits(n)) == n,
    decreases n,
{
    if n < 10 {
        let s = seq![(48 + n) as u8];
        assert(s.drop_last() =~= Seq::<u8>::empty());
        assert(digits_value(s.drop_last()) == 0);
        assert(s.last() == (48 + n) as u8);
        assert(digit_val(s.last()) == n);
    } else {
        lemma_dec_digits_value(n / 10);
        let s = dec_digits(n / 10).push((48 + n % 10) as u8);
        assert(s.drop_last() =~= dec_digits(n / 10));
        assert(s.last() == (48 + n % 10) as u8);
        assert(n == (n / 10) * 10 + n % 10);
    }
}

/// The digit prefix of `s` ends exactly where the digits end.
proof fn lemma_digits_prefix_len_at(s: Seq<u8>, k: int)
    requires
        0 <= k <= s.len(),
        forall|j: int| 0 <= j < k ==> is_digit(s[j]),
        k < s.len() ==> !is_digit(s[k]),
    ensures
        digits_prefix_len(s) == k,
    decreases k,
{
    if k == 0 {
        assert(s.len() == 0 || !is_digit(s[0]));
    } else {
        let t = s.drop_first();
        assert(forall|j: int| 0 <= j < k - 1 ==> is_digit(t[j]));
        assert(k - 1 < t.len() ==> !is_digit(t[k - 1]));
        lemma_digits_prefix_len_at(t, k - 1);
    }
}

/// The size field of `n` reads back as `n`.
pub proof fn lemma_parse_size_field_roundtrip(n: nat)
    requires
        dec_digits(n).len() <= 10,
    ensures
        parse_size_field(size_field(n)) == Some(n),
{
    let d = dec_digits(n);
    let s = size_field(n);
    lemma_dec_digits_all(n);
    assert(forall|j: int| 0 <= j < d.len() ==> s[j] == d[j]);
    assert((d.len() as int) < s.len() ==> s[d.len() as int] == 32u8);
    assert(!is_digit(32u8));
    lemma_digits_prefix_len_at(s, d.len() as int);
    assert(s.subrange(0, d.len() as int) =~= d);
    lemma_dec_digits_value(n);
}

/// Appends the decimal digits of `n`.
pub fn push_dec(out: &mut Vec<u8>, n: u64)
    ensures
        final(out)@ == old(out)@ + dec_digits(n as nat),
    decreases n,
{
    if n < 10 {
        out.push(48 + n as u8);
        assert(out@ =~= old(out)@ + dec_digits(n as nat));
    } else {
        push_dec(out, n / 10);
        out.push(48u8 + (n % 10) as u8);
        assert((n as nat) / 10 == (n / 10) as nat);
        assert(out@ =~= old(out)@ + dec_digits(n as nat));
    }
}

/// Appends `k` space bytes.
pub fn push_spaces(out: &mut Vec<u8>, k: usize)
    ensures
        final(out)@ == old(out)@ + spaces(k as nat),
{
    let mut j: usize = 0;
    while j < k
        invariant
            0 <= j <= k,
            out@ == old(out)@ + spaces(j as nat),
        decreases k - j,
    {
        out.push(32);
        assert(out@ =~= old(out)@ + spaces((j + 1) as nat));
        j = j + 1;
    }
}

/// Appends the 10-byte size field of `n`.
pub fn write_size_field(out: &mut Vec<u8>, n: u64)
    requires
        n <= 9_999_999_999,
    ensures
        final(out)@ == old(out)@ + size_field(n as nat),
        size_field(n as nat).len() == 10,
{
    proof {
        assert(pow10(10) == 10_000_000_000) by {
            reveal_with_fuel(pow10, 11);
        }
        lemma_dec_digits_len(n as nat, 10);
        lemma_dec_digits_all(n as nat);
    }
    let before = out.len();
    push_dec(out, n);
    let mut written = out.len() - before;
    let ghost dlen = dec_digits(n as nat).len();
    assert(written == dlen);
    while written < 10
        invariant
            dlen <= written <= 10,
            dlen == dec_digits(n as nat).len(),
            out@ == old(out)@ + dec_digits(n as nat) + spaces((written - dlen) as nat),
        decreases 10 - written,
    {
        out.push(32);
        assert(out@ =~= old(out)@ + dec_digits(n as nat) + spaces((written + 1 - dlen) as nat));
        written = written + 1;
    }
    assert(out@ =~= old(out)@ + size_field(n as nat));
}

/// Reads the 10-byte size field at `start`.
pub fn parse_size_field_exec(bytes: &Vec<u8>, start: usize) -> (r: Option<u64>)
    requires
        start + 10 <= bytes@.len(),
    ensures
        ({
            let field = bytes@.subrange(start as int, start as int + 10);
            match r {
                Some(v) => parse_size_field(field) == Some(v as nat),
                None => parse_size_field(field) is None,
            }
        }),
{
    let ghost field = bytes@.subrange(start as int, start as int + 10);
    let n = bytes.len();
    let mut i: usize = 0;
    let mut acc: u64 = 0;
    while i < 10 && 48 <= bytes[start + i] && bytes[start + i] <= 57
        invariant
            0 <= i <= 10,
            n == bytes@.len(),
            start + 10 <= n,
            field == bytes@.subrange(start as int, start as int + 10),
            forall|j: int| 0 <= j < i ==> is_digit(field[j]),
            acc == digits_value(field.subrange(0, i as int)),
        decreases 10 - i,
    {
        let b = bytes[start + i];
        proof {
            lemma_digits_value_bound(field.subrange(0, i as int));
            lemma_pow10_increases(i as nat, 9);
            assert(pow10(9) == 1_000_000_000) by {
                reveal_with_fuel(pow10, 10);
            }
            assert(field.subrange(0, (i + 1) as int).drop_last() =~= field.subrange(0, i as int));
        }
        acc = acc * 10 + (b - 48) as u64;
        i = i + 1;
    }
    let k = i;
    proof {
        lemma_digits_prefix_len_at(field, k as int);
    }
    if k == 0 {
        return None;
    }
    let mut j: usize = k;
    while j < 10
        invariant
            k <= j <= 10,
            n == bytes@.len(),
            start + 10 <= n,
            field == bytes@.subrange(start as int, start as int + 10),
            digits_prefix_len(field) == k,
            k > 0,
            acc == digits_value(field.subrange(0, k as int)),
            forall|m: int| k <= m < j ==> field[m] == 32u8,
        decreases 10 - j,
    {
        if bytes[start + j] != 32 {
            proof {
                assert(field[j as int] == bytes@[start as int + j as int]);
                assert(field[j as int] != 32u8);
            }
            return None;
        }
        j = j + 1;
    }
    Some(acc)
}

} // verus!
