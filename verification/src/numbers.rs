//! Decimal integer tokens: what they denote and how they are read.

use vstd::prelude::*;

verus! {

/// Whether `c` is a decimal digit.
pub open spec fn is_digit(c: char) -> bool {
    48 <= c as u32 <= 57
}

/// The value of a decimal digit.
pub open spec fn digit_val(c: char) -> int {
    c as u32 - 48
}

/// Whether every character of `s` is a decimal digit.
pub open spec fn all_digits(s: Seq<char>) -> bool {
    forall|i: int| 0 <= i < s.len() ==> is_digit(s[i])
}

/// The number denoted by a sequence of decimal digits, most significant
/// first.
pub open spec fn digits_val(s: Seq<char>) -> int
    decreases s.len(),
{
    if s.len() == 0 {
        0
    } else {
        digits_val(s.drop_last()) * 10 + digit_val(s.last())
    }
}

/// Whether a token carries a leading minus sign.
pub open spec fn int_neg(w: Seq<char>) -> bool {
    w.len() > 0 && w[0] == '-'
}

/// The digit part of a possibly signed token: the token without its leading
/// sign, if it has one.
pub open spec fn int_ds(w: Seq<char>) -> Seq<char> {
    if w.len() > 0 && (w[0] == '-' || w[0] == '+') {
        w.drop_first()
    } else {
        w
    }
}

/// The 64-bit signed integer denoted by a token, if the token is an integer
/// literal: an optional sign followed by one or more decimal digits, with a
/// value that fits in 64 signed bits; `None` for any other token.
pub open spec fn int_token(w: Seq<char>) -> Option<i64> {
    let neg = int_neg(w);
    let ds = int_ds(w);
    if ds.len() == 0 || !all_digits(ds) {
        None
    } else {
        let v = if neg {
            -digits_val(ds)
        } else {
            digits_val(ds)
        };
        if i64::MIN <= v <= i64::MAX {
            Some(v as i64)
        } else {
            None
        }
    }
}

/// A digit string denotes a number no smaller than any of its prefixes.
proof fn lemma_digits_val_prefix(s: Seq<char>, i: int)
    requires
        all_digits(s),
        0 <= i <= s.len(),
    ensures
        0 <= digits_val(s.take(i)) <= digits_val(s),
    decreases s.len(),
{
    if i == s.len() {
        assert(s.take(i) =~= s);
        lemma_digits_nonneg(s);
    } else {
        let d = s.drop_last();
        assert(all_digits(d));
        assert(d.take(i) =~= s.take(i));
        lemma_digits_val_prefix(d, i);
        lemma_digits_nonneg(d);
        assert(digits_val(s) == digits_val(d) * 10 + digit_val(s.last()));
        assert(digit_val(s.last()) >= 0);
        assert(digits_val(d) * 10 >= digits_val(d)) by (nonlinear_arith)
            requires digits_val(d) >= 0;
    }
}

/// A digit string denotes a non-negative number.
proof fn lemma_digits_nonneg(s: Seq<char>)
    requires
        all_digits(s),
    ensures
        digits_val(s) >= 0,
    decreases s.len(),
{
    if s.len() > 0 {
        let d = s.drop_last();
        assert(all_digits(d));
        lemma_digits_nonneg(d);
        assert(digits_val(d) * 10 >= 0) by (nonlinear_arith)
            requires digits_val(d) >= 0;
    }
}

/// Reads an integer literal: `Some` exactly when the token is an optional
/// sign followed by decimal digits whose value fits in 64 signed bits.
pub fn parse_int(token: &Vec<char>) -> (r: Option<i64>)
    ensures
        r == int_token(token@),
{
    let n = token.len();
    let signed = n > 0 && (token[0] == '-' || token[0] == '+');
    let neg = n > 0 && token[0] == '-';
    let start: usize = if signed {
        1
    } else {
        0
    };
    let ghost ds = int_ds(token@);
    proof {
        assert(ds =~= token@.subrange(start as int, n as int));
        assert(neg == int_neg(token@));
    }
    if n == start {
        return None;
    }
    let mut mag: u64 = 0;
    let mut i: usize = start;
    while i < n
        invariant
            start <= i <= n == token@.len(),
            ds == int_ds(token@),
            ds =~= token@.subrange(start as int, n as int),
            all_digits(token@.subrange(start as int, i as int)),
            mag == digits_val(token@.subrange(start as int, i as int)),
        decreases n - i,
    {
        let cu = token[i] as u32;
        if cu < 48 || cu > 57 {
            proof {
                assert(ds[i - start] == token@[i as int]);
                assert(!is_digit(ds[i - start]));
                assert(!all_digits(ds));
                assert(int_token(token@) is None);
            }
            return None;
        }
        let d: u64 = (cu - 48) as u64;
        let ghost pre = token@.subrange(start as int, i as int);
        let ghost pre1 = token@.subrange(start as int, i as int + 1);
        proof {
            assert(pre1.drop_last() =~= pre);
            assert(pre1.last() == token@[i as int]);
            assert(all_digits(pre1));
            assert(digits_val(pre1) == mag * 10 + d);
        }
        if mag > 1844674407370955160u64 {
            proof {
                if all_digits(ds) {
                    assert(pre1 =~= ds.take(i + 1 - start));
                    lemma_digits_val_prefix(ds, i + 1 - start);
                    assert(mag * 10 + d > 9223372036854775808int) by (nonlinear_arith)
                        requires
                            mag > 1844674407370955160u64,
                            d >= 0,
                    ;
                    assert(digits_val(pre1) == digits_val(ds.take(i + 1 - start)));
                    assert(digits_val(ds) >= mag * 10 + d);
                    assert(ds.len() > 0);
                    assert(digits_val(ds) > 9223372036854775808int);
                }
                assert(int_token(token@) is None);
            }
            return None;
        }
        proof {
            assert(mag * 10 + d <= u64::MAX) by (nonlinear_arith)
                requires
                    mag <= 1844674407370955160u64,
                    d <= 9,
            ;
        }
        mag = mag * 10 + d;
        i = i + 1;
    }
    proof {
        assert(token@.subrange(start as int, i as int) =~= ds);
    }
    if neg {
        if mag > 9223372036854775808u64 {
            return None;
        }
        if mag == 9223372036854775808u64 {
            Some(i64::MIN)
        } else {
            Some(-(mag as i64))
        }
    } else {
        if mag > 9223372036854775807u64 {
            return None;
        }
        Some(mag as i64)
    }
}

} // verus!
