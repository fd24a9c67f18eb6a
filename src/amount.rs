use vstd::prelude::*;

verus! {

/// Amounts are counted in ten-thousandths of a unit.
pub const AMOUNT_SCALE: u64 = 10000;

/// The most fractional digits an amount may be written with.
pub const MAX_FRACTION_DIGITS: usize = 4;

/// An ASCII decimal digit.
pub open spec fn is_digit(b: u8) -> bool {
    48 <= b <= 57
}

pub open spec fn all_digits(s: Seq<u8>) -> bool {
    forall|i: int| 0 <= i < s.len() ==> is_digit(#[trigger] s[i])
}

/// The number written by a sequence of decimal digits, most significant
/// first.
pub open spec fn digits_value(s: Seq<u8>) -> nat
    decreases s.len(),
{
    if s.len() == 0 {
        0
    } else {
        digits_value(s.drop_last()) * 10 + (s.last() - 48) as nat
    }
}

pub open spec fn pow10(n: nat) -> nat
    decreases n,
{
    if n == 0 {
        1
    } else {
        10 * pow10((n - 1) as nat)
    }
}

/// `s` is digits, a '.' at position `i`, and one to four digits.
pub open spec fn point_at(s: Seq<u8>, i: int) -> bool {
    &&& 0 < i
    &&& i + 1 < s.len()
    &&& s.len() - i - 1 <= MAX_FRACTION_DIGITS
    &&& s[i] == 46
    &&& all_digits(s.take(i))
    &&& all_digits(s.skip(i + 1))
}

/// The amount, in ten-thousandths, that the text `s` writes: one or more
/// digits, optionally followed by a '.' and one to four digits. `None` for
/// any other text.
pub open spec fn amount_value(s: Seq<u8>) -> Option<int> {
    if s.len() > 0 && all_digits(s) {
        Some(digits_value(s) * AMOUNT_SCALE)
    } else if exists|i: int| point_at(s, i) {
        let i = choose|i: int| point_at(s, i);
        let frac = s.skip(i + 1);
        Some(digits_value(s.take(i)) * AMOUNT_SCALE + digits_value(frac) * pow10(
            (MAX_FRACTION_DIGITS - frac.len()) as nat,
        ))
    } else {
        None
    }
}

proof fn lemma_digits_prefix_grows(s: Seq<u8>, j: int, k: int)
    requires
        0 <= j <= k <= s.len(),
        all_digits(s),
    ensures
        digits_value(s.take(j)) <= digits_value(s.take(k)),
    decreases k - j,
{
    if j < k {
        lemma_digits_prefix_grows(s, j, k - 1);
        assert(s.take(k).drop_last() =~= s.take(k - 1));
    }
}

/// Reads the digits `s[start..end]` into a number; `None` exactly when that
/// number does not fit in a `u64`.
fn read_digits(s: &[u8], start: usize, end: usize) -> (r: Option<u64>)
    requires
        start <= end <= s@.len(),
        all_digits(s@.subrange(start as int, end as int)),
    ensures
        r is Some <==> digits_value(s@.subrange(start as int, end as int)) <= u64::MAX,
        r is Some ==> r->0 == digits_value(s@.subrange(start as int, end as int)),
{
    let ghost d = s@.subrange(start as int, end as int);
    let mut v: u64 = 0;
    let mut k: usize = start;
    assert(d.take(0) =~= Seq::<u8>::empty());
    while k < end
        invariant
            start <= k <= end <= s@.len(),
            d == s@.subrange(start as int, end as int),
            all_digits(d),
            v == digits_value(d.take(k - start)),
        decreases end - k,
    {
        let ghost n = k - start;
        assert(d.take(n + 1).drop_last() =~= d.take(n));
        assert(d[n] == s@[k as int]);
        let digit = (s[k] - 48) as u64;
        if v > (u64::MAX - digit) / 10 {
            proof {
                lemma_digits_prefix_grows(d, n + 1, d.len() as int);
                assert(d.take(d.len() as int) =~= d);
            }
            return None;
        }
        v = v * 10 + digit;
        k = k + 1;
    }
    assert(d.take(end - start) =~= d);
    Some(v)
}

/// Parses a non-negative decimal amount written as ASCII text into
/// ten-thousandths of a unit. `None` when the text is not of that form or
/// the amount does not fit in a `u64`.
pub fn parse_amount(s: &[u8]) -> (r: Option<u64>)
    ensures
        r is Some <==> (amount_value(s@) is Some && amount_value(s@)->0 <= u64::MAX),
        r is Some ==> r->0 == amount_value(s@)->0,
{
    let n = s.len();
    let mut i: usize = 0;
    while i < n && s[i] != 46
        invariant
            i <= n == s@.len(),
            forall|j: int| 0 <= j < i ==> s@[j] != 46,
        decreases n - i,
    {
        i = i + 1;
    }
    let mut k: usize = 0;
    while k < n && (k == i || (48 <= s[k] && s[k] <= 57))
        invariant
            k <= n == s@.len(),
            forall|j: int| 0 <= j < k && j != i ==> is_digit(s@[j]),
        decreases n - k,
    {
        k = k + 1;
    }
    proof {
        assert forall|j: int| point_at(s@, j) implies j == i by {
            if j < i {
                assert(s@[j] != 46);
            } else if j > i {
                assert(s@.take(j)[i as int] == s@[i as int]);
            }
        }
    }
    if k < n {
        proof {
            assert(!is_digit(s@[k as int]));
            assert(!all_digits(s@));
            assert forall|j: int| !point_at(s@, j) by {
                if point_at(s@, j) {
                    if k < j {
                        assert(s@.take(j)[k as int] == s@[k as int]);
                    } else if k > j {
                        assert(s@.skip(j + 1)[k - j - 1] == s@[k as int]);
                    }
                }
            }
        }
        return None;
    }
    if n == 0 {
        return None;
    }
    if i == n {
        assert(all_digits(s@));
        assert(s@.subrange(0, n as int) =~= s@);
        return match read_digits(s, 0, n) {
            Some(v) => {
                if v > u64::MAX / AMOUNT_SCALE {
                    None
                } else {
                    Some(v * AMOUNT_SCALE)
                }
            },
            None => None,
        };
    }
    assert(s@[i as int] == 46);
    assert(!all_digits(s@));
    let frac_len = n - i - 1;
    if i == 0 || frac_len == 0 || frac_len > MAX_FRACTION_DIGITS {
        assert(!point_at(s@, i as int));
        return None;
    }
    proof {
        assert forall|j: int| 0 <= j < i implies is_digit(#[trigger] s@.take(i as int)[j]) by {
            assert(s@.take(i as int)[j] == s@[j]);
        }
        assert forall|j: int| 0 <= j < frac_len implies is_digit(#[trigger] s@.skip(i + 1)[j]) by {
            assert(s@.skip(i + 1)[j] == s@[i + 1 + j]);
        }
        assert(point_at(s@, i as int));
        assert(s@.subrange(0, i as int) =~= s@.take(i as int));
        assert(s@.subrange(i + 1, n as int) =~= s@.skip(i + 1));
    }
    let ghost whole_digits = s@.take(i as int);
    let ghost frac_digits = s@.skip(i + 1);
    proof {
        let j = choose|j: int| point_at(s@, j);
        assert(j == i);
        reveal_with_fuel(pow10, 5);
        lemma_digits_below_pow10(frac_digits);
    }
    let scale: u64 = if frac_len == 1 {
        1000
    } else if frac_len == 2 {
        100
    } else if frac_len == 3 {
        10
    } else {
        1
    };
    let frac = match read_digits(s, i + 1, n) {
        Some(v) => v,
        None => {
            return None;
        },
    };
    let whole = match read_digits(s, 0, i) {
        Some(v) => v,
        None => {
            assert(digits_value(whole_digits) * 10000 + frac * scale > u64::MAX) by (nonlinear_arith)
                requires
                    digits_value(whole_digits) > u64::MAX,
            {
            }
            return None;
        },
    };
    assert(frac * scale < 10000) by (nonlinear_arith)
        requires
            frac < pow10(frac_len as nat),
            scale * pow10(frac_len as nat) == 10000,
    {
    }
    if whole > (u64::MAX - frac * scale) / AMOUNT_SCALE {
        return None;
    }
    Some(whole * AMOUNT_SCALE + frac * scale)
}

proof fn lemma_digits_below_pow10(s: Seq<u8>)
    requires
        all_digits(s),
    ensures
        digits_value(s) < pow10(s.len()),
    decreases s.len(),
{
    if s.len() > 0 {
        assert(is_digit(s[s.len() - 1]));
        lemma_digits_below_pow10(s.drop_last());
    }
}

} // verus!
