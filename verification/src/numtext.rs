//! Decimal text: the digit strings of the wire format.
//!
//! Numbers appear on the wire in two shapes: shortest-form decimals for
//! identifiers and byte values, and zero-padded fixed-width fields
//! inside timestamps.  Both are given spec-level writers and parsers
//! and the lemmas that close the round trip.

use vstd::prelude::*;

verus! {

/// An ASCII decimal digit.
pub open spec fn is_digit(b: u8) -> bool {
    0x30 <= b <= 0x39
}

/// The digit byte of a value below ten.
pub open spec fn digit_of(n: nat) -> u8 {
    (0x30 + n) as u8
}

/// Ten to the `k`.
pub open spec fn pow10(k: nat) -> nat
    decreases k,
{
    if k == 0 {
        1
    } else {
        10 * pow10((k - 1) as nat)
    }
}

/// The shortest decimal digit string of `n`.
pub open spec fn dec_digits(n: nat) -> Seq<u8>
    decreases n,
{
    if n < 10 {
        seq![digit_of(n)]
    } else {
        dec_digits(n / 10).push(digit_of(n % 10))
    }
}

/// The value of a digit string.
pub open spec fn dec_val(s: Seq<u8>) -> nat
    decreases s.len(),
{
    if s.len() == 0 {
        0
    } else {
        dec_val(s.drop_last()) * 10 + (if is_digit(s.last()) {
            (s.last() - 0x30) as nat
        } else {
            0
        })
    }
}

/// `pow10` never vanishes.
pub proof fn lemma_pow10_pos(k: nat)
    ensures
        pow10(k) >= 1,
    decreases k,
{
    if k > 0 {
        lemma_pow10_pos((k - 1) as nat);
    }
}

/// `pow10` only grows.
pub proof fn lemma_pow10_mono(a: nat, b: nat)
    requires
        a <= b,
    ensures
        pow10(a) <= pow10(b),
        pow10(a) >= 1,
    decreases b,
{
    lemma_pow10_pos(a);
    if a < b {
        lemma_pow10_mono(a, (b - 1) as nat);
    }
}

/// Shape of the shortest digit string: nonempty, digits throughout, a
/// leading zero only for zero itself, and as long as the value demands.
pub proof fn lemma_dec_digits_props(n: nat)
    ensures
        dec_digits(n).len() >= 1,
        forall|k: int| 0 <= k < dec_digits(n).len() ==> is_digit(#[trigger] dec_digits(n)[k]),
        (dec_digits(n)[0] == 0x30u8 <==> n == 0),
        n < pow10(dec_digits(n).len() as nat),
        dec_digits(n).len() == 1 || n >= pow10((dec_digits(n).len() - 1) as nat),
    decreases n,
{
    if n < 10 {
        assert(pow10(1) == 10 * pow10(0));
    } else {
        lemma_dec_digits_props(n / 10);
        let d = dec_digits(n / 10);
        let whole = dec_digits(n);
        assert(whole == d.push(digit_of(n % 10)));
        assert(whole[0] == d[0]);
        assert(whole.len() == d.len() + 1);
        assert(n / 10 < pow10(d.len() as nat));
        assert(pow10(whole.len() as nat) == 10 * pow10(d.len() as nat));
        assert(n < 10 * pow10(d.len() as nat)) by {
            assert(n == 10 * (n / 10) + n % 10);
            assert(n / 10 + 1 <= pow10(d.len() as nat));
            assert(10 * (n / 10) + 10 <= 10 * pow10(d.len() as nat)) by (nonlinear_arith)
                requires
                    n / 10 + 1 <= pow10(d.len() as nat),
            ;
        }
        if d.len() == 1 {
            assert(n >= 10);
            assert(pow10((whole.len() - 1) as nat) == 10);
        } else {
            assert(n / 10 >= pow10((d.len() - 1) as nat));
            assert(n >= 10 * (n / 10));
            assert(10 * (n / 10) >= 10 * pow10((d.len() - 1) as nat)) by (nonlinear_arith)
                requires
                    n / 10 >= pow10((d.len() - 1) as nat),
            ;
            assert(pow10((whole.len() - 1) as nat) == 10 * pow10((d.len() - 1) as nat));
        }
    }
}

/// Reading the shortest digit string of `n` yields `n`.
pub proof fn lemma_dec_val_of_digits(n: nat)
    ensures
        dec_val(dec_digits(n)) == n,
    decreases n,
{
    if n < 10 {
        assert(dec_digits(n) == seq![digit_of(n)]);
        assert(dec_digits(n).drop_last() =~= Seq::<u8>::empty());
        assert(dec_digits(n).last() == digit_of(n));
        assert(is_digit(digit_of(n)));
        assert((digit_of(n) - 0x30) as nat == n);
        assert(dec_val(dec_digits(n)) == dec_val(dec_digits(n).drop_last()) * 10 + n);
        assert(dec_val(dec_digits(n)) == n);
    } else {
        lemma_dec_val_of_digits(n / 10);
        assert(dec_digits(n).drop_last() =~= dec_digits(n / 10));
        assert(dec_digits(n).last() == digit_of(n % 10));
        assert(is_digit(digit_of(n % 10)));
        assert((digit_of(n % 10) - 0x30) as nat == n % 10);
        assert(dec_val(dec_digits(n)) == (n / 10) * 10 + n % 10);
        assert((n / 10) * 10 + n % 10 == n) by (nonlinear_arith);
        assert(dec_val(dec_digits(n)) == n);
    }
}

/// A digit string of width `w` reads below ten to the `w`.
pub proof fn lemma_dec_val_bound(s: Seq<u8>)
    ensures
        dec_val(s) < pow10(s.len() as nat),
    decreases s.len(),
{
    if s.len() == 0 {
    } else {
        lemma_dec_val_bound(s.drop_last());
        assert(pow10(s.len() as nat) == 10 * pow10((s.len() - 1) as nat));
    }
}

/// Where a digit span ends: the first position at or past `i` that is
/// not a digit.
pub open spec fn sp_digits_end(s: Seq<u8>, i: int) -> int
    decreases s.len() - i,
{
    if 0 <= i < s.len() && is_digit(s[i]) {
        sp_digits_end(s, i + 1)
    } else {
        i
    }
}

/// A span known to hold digits and to stop at `j` is the span the
/// scanner finds.
pub proof fn lemma_sp_digits_end(s: Seq<u8>, i: int, j: int)
    requires
        0 <= i <= j <= s.len(),
        forall|k: int| i <= k < j ==> is_digit(#[trigger] s[k]),
        j == s.len() || !is_digit(s[j]),
    ensures
        sp_digits_end(s, i) == j,
    decreases j - i,
{
    if i < j {
        lemma_sp_digits_end(s, i + 1, j);
    }
}

/// The wire's shortest-form unsigned number: a nonempty digit span, no
/// leading zero, ten digits at most, value within 32 bits.
pub open spec fn sp_u32(s: Seq<u8>, i: int) -> Option<(u32, int)> {
    let j = sp_digits_end(s, i);
    if j == i {
        None
    } else if s[i] == 0x30u8 && j > i + 1 {
        None
    } else if j - i > 10 {
        None
    } else if dec_val(s.subrange(i, j)) > 0xFFFF_FFFF {
        None
    } else {
        Some((dec_val(s.subrange(i, j)) as u32, j))
    }
}

/// Parsing right after writing: at a position where the shortest digit
/// string of `n` lies, followed by the input's end or a non-digit,
/// `sp_u32` reads back exactly `n`.
pub proof fn lemma_sp_u32_of_ser(s: Seq<u8>, i: int, n: u32)
    requires
        0 <= i,
        i + dec_digits(n as nat).len() <= s.len(),
        s.subrange(i, i + dec_digits(n as nat).len()) == dec_digits(n as nat),
        i + dec_digits(n as nat).len() == s.len() || !is_digit(
            s[i + dec_digits(n as nat).len()],
        ),
    ensures
        sp_u32(s, i) == Some((n, i + dec_digits(n as nat).len())),
{
    let d = dec_digits(n as nat);
    let j = i + d.len();
    lemma_dec_digits_props(n as nat);
    assert(forall|k: int| i <= k < j ==> s[k] == d[k - i] && is_digit(#[trigger] s[k]));
    lemma_sp_digits_end(s, i, j);
    if d.len() > 10 {
        lemma_pow10_mono(10, (d.len() - 1) as nat);
        assert(pow10(10) == 10000000000) by {
            reveal_with_fuel(pow10, 11);
        }
        assert(n as nat >= pow10((d.len() - 1) as nat));
    }
    assert(s.subrange(i, j) =~= d);
    lemma_dec_val_of_digits(n as nat);
    if s[i] == 0x30u8 && j > i + 1 {
        assert(d[0] == 0x30u8);
    }
}

/// Appends the shortest digit string of `n`.
pub fn write_u32(out: &mut Vec<u8>, n: u32)
    ensures
        final(out)@ == old(out)@ + dec_digits(n as nat),
    decreases n,
{
    if n < 10 {
        out.push(0x30 + n as u8);
        proof {
            assert(final(out)@ =~= old(out)@ + dec_digits(n as nat));
        }
    } else {
        write_u32(out, n / 10);
        out.push(0x30 + (n % 10) as u8);
        proof {
            assert(final(out)@ =~= old(out)@ + dec_digits(n as nat));
        }
    }
}

/// Reads a shortest-form unsigned number, as `sp_u32` says.
pub fn parse_u32(s: &Vec<u8>, i: usize) -> (r: Option<(u32, usize)>)
    requires
        i <= s@.len(),
    ensures
        match r {
            Some((v, j)) => i < j <= s@.len() && sp_u32(s@, i as int) == Some((v, j as int)),
            None => sp_u32(s@, i as int) is None,
        },
{
    let mut k: usize = i;
    while k < s.len() && s[k] >= 0x30 && s[k] <= 0x39
        invariant
            i <= k <= s@.len(),
            sp_digits_end(s@, i as int) == sp_digits_end(s@, k as int),
            forall|l: int| i <= l < k ==> is_digit(#[trigger] s@[l]),
        decreases s@.len() - k,
    {
        k += 1;
    }
    proof {
        assert(sp_digits_end(s@, k as int) == k);
    }
    if k == i {
        return None;
    }
    if s[i] == 0x30 && k > i + 1 {
        return None;
    }
    if k - i > 10 {
        return None;
    }
    let mut val: u64 = 0;
    let mut m: usize = i;
    proof {
        assert(s@.subrange(i as int, i as int) =~= Seq::<u8>::empty());
        lemma_pow10_mono(0, 0);
    }
    while m < k
        invariant
            i <= m <= k <= s@.len(),
            k - i <= 10,
            sp_digits_end(s@, i as int) == k,
            forall|l: int| i <= l < k ==> is_digit(#[trigger] s@[l]),
            val == dec_val(s@.subrange(i as int, m as int)),
            val < pow10((m - i) as nat),
        decreases k - m,
    {
        proof {
            assert(s@.subrange(i as int, m as int + 1).drop_last() =~= s@.subrange(
                i as int,
                m as int,
            ));
            assert(s@.subrange(i as int, m as int + 1).last() == s@[m as int]);
            lemma_pow10_mono((m - i) as nat, 9);
            assert(pow10(9) == 1000000000) by {
                reveal_with_fuel(pow10, 10);
            }
        }
        val = val * 10 + (s[m] - 0x30) as u64;
        m += 1;
    }
    if val > 0xFFFF_FFFF {
        return None;
    }
    Some((val as u32, k))
}

/// The zero-padded digit string of `n` in exactly `w` places.
pub open spec fn dec_fixed(n: nat, w: nat) -> Seq<u8>
    decreases w,
{
    if w == 0 {
        Seq::empty()
    } else {
        dec_fixed(n / 10, (w - 1) as nat).push(digit_of(n % 10))
    }
}

/// Shape of a fixed-width field: exactly `w` digits.
pub proof fn lemma_dec_fixed_props(n: nat, w: nat)
    ensures
        dec_fixed(n, w).len() == w,
        forall|k: int| 0 <= k < w ==> is_digit(#[trigger] dec_fixed(n, w)[k]),
    decreases w,
{
    if w > 0 {
        lemma_dec_fixed_props(n / 10, (w - 1) as nat);
    }
}

/// Reading a fixed-width field of a value that fits yields the value.
pub proof fn lemma_dec_val_of_fixed(n: nat, w: nat)
    requires
        n < pow10(w),
    ensures
        dec_val(dec_fixed(n, w)) == n,
    decreases w,
{
    if w == 0 {
    } else {
        assert(n / 10 < pow10((w - 1) as nat)) by (nonlinear_arith)
            requires
                n < pow10(w),
                pow10(w) == 10 * pow10((w - 1) as nat),
        ;
        lemma_dec_val_of_fixed(n / 10, (w - 1) as nat);
        assert(dec_fixed(n, w).drop_last() =~= dec_fixed(n / 10, (w - 1) as nat));
    }
}

/// The wire's fixed-width number: exactly `w` digits starting at `i`.
pub open spec fn sp_fixed(s: Seq<u8>, i: int, w: nat) -> Option<nat> {
    if 0 <= i && i + w <= s.len() && (forall|k: int| i <= k < i + w ==> is_digit(#[trigger] s[k])) {
        Some(dec_val(s.subrange(i, i + w)))
    } else {
        None
    }
}

/// Parsing right after writing a fixed-width field.
pub proof fn lemma_sp_fixed_of_ser(s: Seq<u8>, i: int, n: nat, w: nat)
    requires
        0 <= i,
        n < pow10(w),
        i + w <= s.len(),
        s.subrange(i, i + w) == dec_fixed(n, w),
    ensures
        sp_fixed(s, i, w) == Some(n),
{
    lemma_dec_fixed_props(n, w);
    assert(forall|k: int| i <= k < i + w ==> s[k] == dec_fixed(n, w)[k - i] && is_digit(
        #[trigger] s[k],
    ));
    lemma_dec_val_of_fixed(n, w);
}

/// Appends the zero-padded `w`-digit string of `n`.
pub fn write_fixed(out: &mut Vec<u8>, n: u32, w: usize)
    requires
        w <= 9,
        (n as nat) < pow10(w as nat),
    ensures
        final(out)@ == old(out)@ + dec_fixed(n as nat, w as nat),
    decreases w,
{
    if w == 0 {
        proof {
            assert(final(out)@ =~= old(out)@ + dec_fixed(n as nat, 0));
        }
    } else {
        proof {
            assert(((n / 10) as nat) < pow10((w - 1) as nat)) by (nonlinear_arith)
                requires
                    (n as nat) < pow10(w as nat),
                    pow10(w as nat) == 10 * pow10((w - 1) as nat),
            ;
        }
        write_fixed(out, n / 10, w - 1);
        out.push(0x30 + (n % 10) as u8);
        proof {
            assert(final(out)@ =~= old(out)@ + dec_fixed(n as nat, w as nat));
        }
    }
}

/// Reads a fixed-width number, as `sp_fixed` says.
pub fn parse_fixed(s: &Vec<u8>, i: usize, w: usize) -> (r: Option<u32>)
    requires
        i <= s@.len(),
        w <= 9,
    ensures
        match r {
            Some(v) => sp_fixed(s@, i as int, w as nat) == Some(v as nat) && i + w <= s@.len(),
            None => sp_fixed(s@, i as int, w as nat) is None,
        },
{
    if s.len() - i < w {
        return None;
    }
    let end: usize = i + w;
    let mut val: u32 = 0;
    let mut m: usize = i;
    proof {
        assert(s@.subrange(i as int, i as int) =~= Seq::<u8>::empty());
    }
    while m < end
        invariant
            end == i + w,
            i <= m <= i + w,
            i + w <= s@.len(),
            w <= 9,
            forall|l: int| i <= l < m ==> is_digit(#[trigger] s@[l]),
            val == dec_val(s@.subrange(i as int, m as int)),
            val < pow10((m - i) as nat),
        decreases end - m,
    {
        if s[m] < 0x30 || s[m] > 0x39 {
            return None;
        }
        proof {
            assert(s@.subrange(i as int, m as int + 1).drop_last() =~= s@.subrange(
                i as int,
                m as int,
            ));
            assert(s@.subrange(i as int, m as int + 1).last() == s@[m as int]);
            lemma_pow10_mono((m - i) as nat, 8);
            assert(pow10(8) == 100000000) by {
                reveal_with_fuel(pow10, 9);
            }
        }
        val = val * 10 + (s[m] - 0x30) as u32;
        m += 1;
    }
    Some(val)
}

} // verus!
