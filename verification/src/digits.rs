//! Decimal numbers on the wire: parsing argument tokens and formatting
//! response fields, both specified against one mathematical reading of a
//! digit string.

use vstd::prelude::*;

verus! {

/// Byte value of the ASCII digit `'0'`.
pub const DIGIT_ZERO: u8 = 0x30;

/// Byte value of the ASCII digit `'9'`.
pub const DIGIT_NINE: u8 = 0x39;

/// Byte value of ASCII `'-'`.
pub const MINUS: u8 = 0x2d;

/// Byte value of ASCII `'+'`.
pub const PLUS: u8 = 0x2b;

/// `b` is an ASCII decimal digit.
pub open spec fn is_digit(b: u8) -> bool {
    DIGIT_ZERO <= b && b <= DIGIT_NINE
}

/// Every byte of `s` is an ASCII decimal digit.
pub open spec fn all_digits(s: Seq<u8>) -> bool {
    forall|i: int| 0 <= i < s.len() ==> is_digit(#[trigger] s[i])
}

/// `s` is a nonempty run of ASCII decimal digits.
pub open spec fn dec_valid(s: Seq<u8>) -> bool {
    s.len() > 0 && all_digits(s)
}

/// The number the digit bytes of `s` write in decimal, most significant
/// digit first.  Meaningful when `all_digits(s)`; it is then nonnegative.
pub open spec fn dec_val(s: Seq<u8>) -> int
    decreases s.len(),
{
    if s.len() == 0 {
        0
    } else {
        dec_val(s.drop_last()) * 10 + (s.last() - DIGIT_ZERO)
    }
}

pub proof fn lemma_all_digits_prefix(s: Seq<u8>, i: int)
    requires
        all_digits(s),
        0 <= i <= s.len(),
    ensures
        all_digits(s.take(i)),
{
    assert forall|j: int| 0 <= j < s.take(i).len() implies is_digit(#[trigger] s.take(i)[j]) by {
        assert(s.take(i)[j] == s[j]);
    }
}

pub proof fn lemma_dec_val_nonneg(s: Seq<u8>)
    requires
        all_digits(s),
    ensures
        dec_val(s) >= 0,
    decreases s.len(),
{
    if s.len() > 0 {
        assert(s.drop_last() == s.take(s.len() - 1));
        lemma_all_digits_prefix(s, s.len() - 1);
        lemma_dec_val_nonneg(s.drop_last());
        assert(is_digit(s.last()));
    }
}

/// Reading more digits never makes the number smaller: the value of a
/// prefix of a digit string is at most the value of the whole.
pub proof fn lemma_dec_val_prefix(s: Seq<u8>, i: int)
    requires
        all_digits(s),
        0 <= i <= s.len(),
    ensures
        dec_val(s.take(i)) <= dec_val(s),
    decreases s.len() - i,
{
    if i == s.len() {
        assert(s.take(i) =~= s);
    } else {
        lemma_dec_val_prefix(s, i + 1);
        assert(s.take(i + 1).drop_last() =~= s.take(i));
        assert(s.take(i + 1).last() == s[i]);
        lemma_all_digits_prefix(s, i);
        lemma_dec_val_nonneg(s.take(i));
        assert(is_digit(s[i]));
        assert(dec_val(s.take(i + 1)) == dec_val(s.take(i)) * 10 + (s[i] - DIGIT_ZERO));
    }
}

/// Parse `s` as an unsigned decimal number of value at most `limit`.
/// Returns the value exactly when `s` is a nonempty all-digit run whose
/// value fits; returns `None` otherwise.
pub fn parse_dec(s: &Vec<u8>, limit: u64) -> (r: Option<u64>)
    ensures
        dec_valid(s@) && dec_val(s@) <= limit ==> r == Some(dec_val(s@) as u64),
        !(dec_valid(s@) && dec_val(s@) <= limit) ==> r is None,
{
    if s.len() == 0 {
        return None;
    }
    let mut acc: u128 = 0;
    let mut i: usize = 0;
    while i < s.len()
        invariant
            0 < s@.len(),
            0 <= i <= s@.len(),
            all_digits(s@.take(i as int)),
            acc == dec_val(s@.take(i as int)),
            acc <= limit,
        decreases s@.len() - i,
    {
        let b = s[i];
        if b < DIGIT_ZERO || b > DIGIT_NINE {
            proof {
                assert(!is_digit(s@[i as int]));
                assert(!all_digits(s@));
            }
            return None;
        }
        let d: u128 = (b - DIGIT_ZERO) as u128;
        let next: u128 = acc * 10 + d;
        proof {
            assert(s@.take(i + 1).drop_last() =~= s@.take(i as int));
            assert(s@.take(i + 1).last() == s@[i as int]);
            assert(dec_val(s@.take(i + 1)) == dec_val(s@.take(i as int)) * 10 + (s@[i as int]
                - DIGIT_ZERO));
            assert(all_digits(s@.take(i + 1))) by {
                assert forall|j: int| 0 <= j < i + 1 implies is_digit(#[trigger] s@.take(i + 1)[j])
                    by {
                    if j < i {
                        assert(s@.take(i + 1)[j] == s@.take(i as int)[j]);
                    }
                }
            }
        }
        if next > limit as u128 {
            proof {
                if dec_valid(s@) && dec_val(s@) <= limit {
                    lemma_dec_val_prefix(s@, i + 1);
                }
            }
            return None;
        }
        acc = next;
        i += 1;
    }
    proof {
        assert(s@.take(s@.len() as int) =~= s@);
    }
    Some(acc as u64)
}

/// `s` is a signed decimal token: an optional single `'-'` or `'+'`
/// followed by a nonempty run of digits.
pub open spec fn int_tok_valid(s: Seq<u8>) -> bool {
    if s.len() > 0 && (s[0] == MINUS || s[0] == PLUS) {
        dec_valid(s.skip(1))
    } else {
        dec_valid(s)
    }
}

/// The signed value a decimal token writes.
pub open spec fn int_tok_val(s: Seq<u8>) -> int {
    if s.len() > 0 && s[0] == MINUS {
        -dec_val(s.skip(1))
    } else if s.len() > 0 && s[0] == PLUS {
        dec_val(s.skip(1))
    } else {
        dec_val(s)
    }
}

/// `s` writes a number representable as an `i32`.
pub open spec fn i32_tok_valid(s: Seq<u8>) -> bool {
    int_tok_valid(s) && -0x8000_0000 <= int_tok_val(s) && int_tok_val(s) <= 0x7fff_ffff
}

/// Parse `s` as a signed 32-bit decimal number.  Returns the value exactly
/// when `s` is an optionally signed nonempty digit run in `i32` range;
/// returns `None` otherwise.
pub fn parse_i32(s: &Vec<u8>) -> (r: Option<i32>)
    ensures
        i32_tok_valid(s@) ==> r == Some(int_tok_val(s@) as i32),
        !i32_tok_valid(s@) ==> r is None,
{
    if s.len() == 0 {
        return None;
    }
    let b0 = s[0];
    if b0 == MINUS || b0 == PLUS {
        let rest = copy_from(s, 1);
        proof {
            assert(rest@ == s@.skip(1));
        }
        let limit: u64 = if b0 == MINUS {
            0x8000_0000
        } else {
            0x7fff_ffff
        };
        match parse_dec(&rest, limit) {
            Some(v) => {
                proof {
                    lemma_dec_val_nonneg(rest@);
                }
                if b0 == MINUS {
                    Some((-(v as i64)) as i32)
                } else {
                    Some(v as i32)
                }
            },
            None => None,
        }
    } else {
        match parse_dec(s, 0x7fff_ffff) {
            Some(v) => {
                proof {
                    lemma_dec_val_nonneg(s@);
                }
                Some(v as i32)
            },
            None => None,
        }
    }
}

/// Copy of the bytes of `s` from index `from` to the end.
pub fn copy_from(s: &Vec<u8>, from: usize) -> (r: Vec<u8>)
    requires
        from <= s@.len(),
    ensures
        r@ == s@.skip(from as int),
{
    let mut r: Vec<u8> = Vec::new();
    let mut j: usize = from;
    while j < s.len()
        invariant
            from <= j <= s@.len(),
            r@ == s@.subrange(from as int, j as int),
        decreases s@.len() - j,
    {
        let b = s[j];
        r.push(b);
        proof {
            assert(s@.subrange(from as int, j + 1) =~= s@.subrange(from as int, j as int).push(
                s@[j as int]));
        }
        j += 1;
    }
    proof {
        assert(s@.subrange(from as int, s@.len() as int) =~= s@.skip(from as int));
    }
    r
}

/// The decimal digits of `n`, most significant first.  Meaningful for
/// `n >= 0`.
pub open spec fn dec_of(n: int) -> Seq<u8>
    decreases n,
    via dec_of_decreases
{
    if n < 10 {
        seq![(DIGIT_ZERO + n) as u8]
    } else {
        dec_of(n / 10).push((DIGIT_ZERO + n % 10) as u8)
    }
}

#[via_fn]
proof fn dec_of_decreases(n: int) {
    if n >= 10 {
        assert(n / 10 < n) by (nonlinear_arith)
            requires
                n >= 10,
        ;
        assert(n / 10 >= 0) by (nonlinear_arith)
            requires
                n >= 10,
        ;
    }
}

/// Formatting yields a nonempty all-digit string.
pub proof fn lemma_dec_of_digits(n: int)
    requires
        n >= 0,
    ensures
        dec_of(n).len() > 0,
        all_digits(dec_of(n)),
    decreases n,
{
    if n < 10 {
        assert(all_digits(dec_of(n))) by {
            assert(dec_of(n) =~= seq![(DIGIT_ZERO + n) as u8]);
            assert(is_digit(dec_of(n)[0]));
        }
    } else {
        assert(0 <= n / 10 < n) by (nonlinear_arith)
            requires
                n >= 10,
        ;
        lemma_dec_of_digits(n / 10);
        assert(0 <= n % 10 < 10) by (nonlinear_arith)
            requires
                n >= 10,
        ;
        assert(all_digits(dec_of(n))) by {
            let d = dec_of(n / 10);
            assert(dec_of(n) == d.push((DIGIT_ZERO + n % 10) as u8));
            assert(forall|i: int| 0 <= i < d.len() ==> dec_of(n)[i] == d[i]);
            assert(is_digit(dec_of(n)[d.len() as int]));
        }
    }
}

/// Formatting then reading back in decimal is the identity.
pub proof fn lemma_dec_of_val(n: int)
    requires
        n >= 0,
    ensures
        dec_val(dec_of(n)) == n,
    decreases n,
{
    if n < 10 {
        assert(dec_of(n) =~= seq![(DIGIT_ZERO + n) as u8]);
        assert(dec_of(n).drop_last() =~= Seq::<u8>::empty());
        assert(((DIGIT_ZERO + n) as u8) == DIGIT_ZERO + n);
        assert(dec_of(n).last() == (DIGIT_ZERO + n) as u8);
        assert(dec_val(Seq::<u8>::empty()) == 0);
        assert(dec_val(dec_of(n)) == 0 * 10 + (DIGIT_ZERO + n - DIGIT_ZERO));
    } else {
        assert(0 <= n / 10 < n) by (nonlinear_arith)
            requires
                n >= 10,
        ;
        lemma_dec_of_val(n / 10);
        let d = dec_of(n / 10);
        assert(dec_of(n) == d.push((DIGIT_ZERO + n % 10) as u8));
        assert(dec_of(n).drop_last() =~= d);
        assert(0 <= n % 10 < 10) by (nonlinear_arith)
            requires
                n >= 10,
        ;
        assert(dec_val(dec_of(n)) == (n / 10) * 10 + n % 10);
        assert((n / 10) * 10 + n % 10 == n) by (nonlinear_arith);
    }
}

/// The signed decimal form reads back as the number it was made from,
/// for any number in the signed 32-bit range.
pub proof fn lemma_int_dec_of_val(n: int)
    requires
        -0x8000_0000 <= n <= 0x7fff_ffff,
    ensures
        i32_tok_valid(int_dec_of(n)),
        int_tok_val(int_dec_of(n)) == n,
{
    if n < 0 {
        lemma_dec_of_digits(-n);
        lemma_dec_of_val(-n);
        let s = int_dec_of(n);
        assert(s[0] == MINUS);
        assert(s.skip(1) =~= dec_of(-n));
    } else {
        lemma_dec_of_digits(n);
        lemma_dec_of_val(n);
        let s = int_dec_of(n);
        assert(is_digit(s[0]));
        assert(s[0] != MINUS && s[0] != PLUS);
    }
}

/// A decimal digit is not whitespace, so formatted numbers survive
/// whitespace splitting as single tokens.
pub proof fn lemma_dec_of_no_ws(n: int)
    requires
        n >= 0,
    ensures
        forall|i: int|
            0 <= i < dec_of(n).len() ==> !crate::tokens::is_ws(#[trigger] dec_of(n)[i]),
{
    lemma_dec_of_digits(n);
}

/// Neither a sign nor a digit is whitespace.
pub proof fn lemma_int_dec_of_no_ws(n: int)
    ensures
        forall|i: int|
            0 <= i < int_dec_of(n).len() ==> !crate::tokens::is_ws(#[trigger] int_dec_of(n)[i]),
{
    if n < 0 {
        lemma_dec_of_digits(-n);
        let s = int_dec_of(n);
        assert(forall|i: int| 0 <= i < s.len() ==> i == 0 || s[i] == dec_of(-n)[i - 1]);
        assert(!crate::tokens::is_ws(s[0]));
    } else {
        lemma_dec_of_digits(n);
    }
}

/// The decimal form of `n` with a leading `'-'` when `n` is negative.
pub open spec fn int_dec_of(n: int) -> Seq<u8> {
    if n < 0 {
        seq![MINUS] + dec_of(-n)
    } else {
        dec_of(n)
    }
}

/// Format `n` in decimal.
pub fn fmt_u64(n: u64) -> (r: Vec<u8>)
    ensures
        r@ == dec_of(n as int),
    decreases n,
{
    if n < 10 {
        let mut v: Vec<u8> = Vec::new();
        v.push(DIGIT_ZERO + (n as u8));
        proof {
            assert(v@ =~= dec_of(n as int));
        }
        v
    } else {
        proof {
            assert(n / 10 < n) by (nonlinear_arith)
                requires
                    n >= 10,
            ;
        }
        let mut v = fmt_u64(n / 10);
        v.push(DIGIT_ZERO + ((n % 10) as u8));
        v
    }
}

/// Format `n` in decimal, with a leading `'-'` when negative.
pub fn fmt_i32(n: i32) -> (r: Vec<u8>)
    ensures
        r@ == int_dec_of(n as int),
{
    if n < 0 {
        let mut v: Vec<u8> = Vec::new();
        v.push(MINUS);
        let m: u64 = (-(n as i64)) as u64;
        let mut d = fmt_u64(m);
        v.append(&mut d);
        proof {
            assert(v@ =~= int_dec_of(n as int));
        }
        v
    } else {
        fmt_u64(n as u64)
    }
}

} // verus!
