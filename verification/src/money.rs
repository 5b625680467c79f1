//! Decimal currency amounts. The wire format is a decimal string with an
//! integer part and up to two fractional digits ("35.35", "9", "0.5");
//! internally an amount is a number of cents, so that the round-dollar and
//! quarter tests are exact integer arithmetic.

use vstd::prelude::*;

verus! {

/// Whether `c` is an ASCII decimal digit.
pub open spec fn is_digit(c: char) -> bool {
    '0' as int <= c as int <= '9' as int
}

/// The numeric value of one ASCII decimal digit.
pub open spec fn digit_val(c: char) -> nat {
    (c as int - '0' as int) as nat
}

/// Whether every character of `s` is an ASCII decimal digit.
pub open spec fn all_digits(s: Seq<char>) -> bool {
    forall|i: int| 0 <= i < s.len() ==> is_digit(#[trigger] s[i])
}

/// The value of a digit string read in base ten; the empty string reads as 0.
pub open spec fn digits_val(s: Seq<char>) -> nat
    decreases s.len(),
{
    if s.len() == 0 {
        0
    } else {
        digits_val(s.drop_last()) * 10 + digit_val(s.last())
    }
}

/// The index of the first '.' in `s`, or `s.len()` if there is none.
pub open spec fn first_dot(s: Seq<char>) -> int
    decreases s.len(),
{
    if s.len() == 0 {
        0
    } else if s[0] == '.' {
        0
    } else {
        1 + first_dot(s.skip(1))
    }
}

/// Whether `s` is a well-formed currency string: one or more digits, then
/// optionally a dot followed by one or two digits.
pub open spec fn money_shape(s: Seq<char>) -> bool {
    let d = first_dot(s);
    &&& 1 <= d
    &&& all_digits(s.take(d))
    &&& (d < s.len() ==> 1 <= s.len() - d - 1 <= 2 && all_digits(s.skip(d + 1)))
}

/// The amount that a well-formed currency string denotes, in cents.
pub open spec fn money_cents(s: Seq<char>) -> nat {
    let d = first_dot(s);
    if d == s.len() {
        digits_val(s) * 100
    } else if s.len() - d - 1 == 1 {
        digits_val(s.take(d)) * 100 + digits_val(s.skip(d + 1)) * 10
    } else {
        digits_val(s.take(d)) * 100 + digits_val(s.skip(d + 1))
    }
}

pub proof fn lemma_first_dot(s: Seq<char>)
    ensures
        0 <= first_dot(s) <= s.len(),
        forall|k: int| 0 <= k < first_dot(s) ==> s[k] != '.',
        first_dot(s) < s.len() ==> s[first_dot(s)] == '.',
    decreases s.len(),
{
    if s.len() == 0 {
    } else if s[0] == '.' {
    } else {
        lemma_first_dot(s.skip(1));
        assert forall|k: int| 0 <= k < first_dot(s) implies s[k] != '.' by {
            if k > 0 {
                assert(s.skip(1)[k - 1] == s[k]);
            }
        }
        if first_dot(s) < s.len() {
            assert(s.skip(1)[first_dot(s) - 1] == s[first_dot(s)]);
        }
    }
}

pub proof fn lemma_first_dot_unique(s: Seq<char>, i: int)
    requires
        0 <= i <= s.len(),
        forall|k: int| 0 <= k < i ==> s[k] != '.',
        i < s.len() ==> s[i] == '.',
    ensures
        i == first_dot(s),
    decreases s.len(),
{
    if s.len() == 0 {
    } else if s[0] == '.' {
        assert(i == 0);
    } else {
        assert(i >= 1);
        assert forall|k: int| 0 <= k < i - 1 implies s.skip(1)[k] != '.' by {
            assert(s.skip(1)[k] == s[k + 1]);
        }
        if i - 1 < s.skip(1).len() {
            assert(s.skip(1)[i - 1] == s[i]);
        }
        lemma_first_dot_unique(s.skip(1), i - 1);
    }
}

/// Reading one more digit never shrinks the value.
proof fn lemma_digits_val_mono(s: Seq<char>, j: int)
    requires
        0 <= j <= s.len(),
    ensures
        digits_val(s.take(j)) <= digits_val(s),
    decreases s.len(),
{
    if j == s.len() {
        assert(s.take(j) =~= s);
    } else {
        assert(s.drop_last().take(j) =~= s.take(j));
        lemma_digits_val_mono(s.drop_last(), j);
    }
}

/// A short digit string reads as a small number: one digit below ten, and so
/// on up to four digits below ten thousand.
pub proof fn lemma_digits_val_small(s: Seq<char>)
    requires
        all_digits(s),
        s.len() <= 4,
    ensures
        digits_val(s) <= 9999,
        s.len() <= 3 ==> digits_val(s) <= 999,
        s.len() <= 2 ==> digits_val(s) <= 99,
        s.len() <= 1 ==> digits_val(s) <= 9,
    decreases s.len(),
{
    if s.len() > 0 {
        assert(all_digits(s.drop_last())) by {
            assert(forall|i: int|
                0 <= i < s.drop_last().len() ==> #[trigger] s.drop_last()[i] == s[i]);
        }
        lemma_digits_val_small(s.drop_last());
        assert(is_digit(s.last()));
        assert(digit_val(s.last()) <= 9);
    }
}

/// Reads `v[start..end]` as a base-ten number. Returns the value when the
/// range holds digits only and the value fits in `u64`.
pub fn parse_digits(v: &Vec<char>, start: usize, end: usize) -> (r: Option<u64>)
    requires
        start <= end <= v@.len(),
    ensures
        match r {
            Some(x) => all_digits(v@.subrange(start as int, end as int)) && x == digits_val(
                v@.subrange(start as int, end as int),
            ),
            None => !(all_digits(v@.subrange(start as int, end as int)) && digits_val(
                v@.subrange(start as int, end as int),
            ) <= u64::MAX),
        },
{
    let ghost s = v@.subrange(start as int, end as int);
    let mut acc: u64 = 0;
    let mut j: usize = start;
    while j < end
        invariant
            start <= j <= end <= v@.len(),
            s == v@.subrange(start as int, end as int),
            all_digits(s.take(j - start)),
            acc == digits_val(s.take(j - start)),
        decreases end - j,
    {
        let c = v[j];
        proof {
            assert(s.take(j - start + 1).drop_last() =~= s.take(j - start));
            assert(s.take(j - start + 1).last() == s[j - start]);
            assert(s[j - start] == v@[j as int]);
        }
        if c < '0' || c > '9' {
            proof {
                assert(!is_digit(s[j - start]));
            }
            return None;
        }
        proof {
            assert(c as int <= 0x10FFFF);
        }
        let d = (c as u32 - 48) as u64;
        proof {
            assert(is_digit(s[j - start]));
            assert(d == digit_val(s[j - start]));
            assert(all_digits(s.take(j - start + 1))) by {
                assert(forall|k: int|
                    0 <= k < j - start + 1 ==> #[trigger] s.take(j - start + 1)[k] == s[k]);
                assert(forall|k: int|
                    0 <= k < j - start ==> #[trigger] s.take(j - start)[k] == s[k]);
            }
        }
        if acc > (u64::MAX - d) / 10 {
            proof {
                assert(acc * 10 + d > u64::MAX) by (nonlinear_arith)
                    requires
                        acc > (u64::MAX - d) / 10,
                        d <= 9,
                ;
                lemma_digits_val_mono(s, j - start + 1);
            }
            return None;
        }
        proof {
            assert(acc * 10 + d <= u64::MAX) by (nonlinear_arith)
                requires
                    acc <= (u64::MAX - d) / 10,
                    d <= 9,
            ;
        }
        acc = acc * 10 + d;
        j = j + 1;
    }
    proof {
        assert(s.take(end - start) =~= s);
    }
    Some(acc)
}

/// Parses a currency string into cents. Returns the amount exactly when the
/// string is well formed and the amount fits in `u64`.
pub fn parse_money(s: &str) -> (r: Option<u64>)
    ensures
        match r {
            Some(c) => money_shape(s@) && money_cents(s@) <= u64::MAX && c == money_cents(s@),
            None => !(money_shape(s@) && money_cents(s@) <= u64::MAX),
        },
{
    let v = crate::text::chars_of(s);
    let n = v.len();
    let mut i: usize = 0;
    while i < n && v[i] != '.'
        invariant
            0 <= i <= n == v@.len(),
            forall|k: int| 0 <= k < i ==> v@[k] != '.',
        decreases n - i,
    {
        i = i + 1;
    }
    proof {
        lemma_first_dot_unique(v@, i as int);
    }
    let d = i;
    if d == 0 {
        return None;
    }
    let whole = match parse_digits(&v, 0, d) {
        Some(w) => w,
        None => {
            proof {
                assert(v@.subrange(0, d as int) =~= v@.take(d as int));
                if all_digits(v@.take(d as int)) && money_shape(v@) {
                    lemma_money_cents_ge_whole(v@);
                }
            }
            return None;
        },
    };
    proof {
        assert(v@.subrange(0, d as int) =~= v@.take(d as int));
    }
    let frac_scaled: u64 = if d < n {
        let f = n - d - 1;
        if f < 1 || f > 2 {
            return None;
        }
        let frac = match parse_digits(&v, d + 1, n) {
            Some(x) => x,
            None => {
                proof {
                    assert(v@.subrange(d + 1, n as int) =~= v@.skip(d + 1));
                    if all_digits(v@.skip(d + 1)) {
                        lemma_digits_val_small(v@.skip(d + 1));
                    }
                }
                return None;
            },
        };
        proof {
            assert(v@.subrange(d + 1, n as int) =~= v@.skip(d + 1));
            lemma_digits_val_small(v@.skip(d + 1));
        }
        if f == 1 {
            frac * 10
        } else {
            frac
        }
    } else {
        0
    };
    proof {
        assert(money_shape(v@));
        if d == n {
            assert(v@.take(d as int) =~= v@);
        } else if v@.len() - d - 1 == 1 {
            assert(frac_scaled == digits_val(v@.skip(d + 1)) * 10);
        }
    }
    let total: u128 = whole as u128 * 100 + frac_scaled as u128;
    proof {
        assert(total == money_cents(v@));
    }
    if total > u64::MAX as u128 {
        return None;
    }
    let c = total as u64;
    Some(c)
}

/// A well-formed currency string denotes at least a hundred times its
/// integer part.
proof fn lemma_money_cents_ge_whole(s: Seq<char>)
    requires
        money_shape(s),
    ensures
        money_cents(s) >= digits_val(s.take(first_dot(s))) * 100,
{
    lemma_first_dot(s);
    if first_dot(s) == s.len() {
        assert(s.take(first_dot(s)) =~= s);
    }
}

} // verus!
