use vstd::prelude::*;
use crate::error::CycleError;

verus! {

/// The largest scale that `parse_decimal` takes: 10^38 still fits in a `u128`.
pub const MAX_SCALE: u32 = 38;

pub open spec fn is_digit(c: u8) -> bool {
    48 <= c <= 57
}

pub open spec fn all_digits(s: Seq<u8>) -> bool {
    forall|i: int| 0 <= i < s.len() ==> is_digit(s[i])
}

/// The number that a run of decimal digits writes.
pub open spec fn digits_value(s: Seq<u8>) -> nat
    decreases s.len(),
{
    if s.len() == 0 {
        0
    } else {
        digits_value(s.drop_last()) * 10 + (s.last() - 48) as nat
    }
}

pub open spec fn pow10(n: nat) -> nat
    decreases n,
{
    if n == 0 {
        1
    } else {
        10 * pow10((n - 1) as nat)
    }
}

/// Whether `s` is digits, a point at `d`, and digits again, with at least one
/// digit on each side and at most `scale` after the point.
pub open spec fn point_at(s: Seq<u8>, d: int, scale: nat) -> bool {
    &&& 0 < d < s.len() - 1
    &&& s[d] == 46
    &&& all_digits(s.take(d))
    &&& all_digits(s.skip(d + 1))
    &&& s.len() - d - 1 <= scale
}

/// The value of a non-negative decimal text in units of `10^-scale`: plain
/// digits, or digits, a point and at most `scale` digits; anything else has
/// no value.
pub open spec fn decimal_value(s: Seq<u8>, scale: nat) -> Option<nat> {
    if s.len() > 0 && all_digits(s) {
        Some(digits_value(s) * pow10(scale))
    } else if exists|d: int| point_at(s, d, scale) {
        let d = choose|d: int| point_at(s, d, scale);
        Some(
            digits_value(s.take(d)) * pow10(scale) + digits_value(s.skip(d + 1)) * pow10(
                (scale - (s.len() - d - 1)) as nat,
            ),
        )
    } else {
        None
    }
}

/// A decimal text read as a fixed-point `u128`: a text with no value, or a
/// value too large for a `u128`, is a conversion error.
pub open spec fn parse_spec(s: Seq<u8>, scale: nat) -> Result<u128, CycleError> {
    match decimal_value(s, scale) {
        Some(v) => if v <= u128::MAX {
            Ok(v as u128)
        } else {
            Err(CycleError::Conversion)
        },
        None => Err(CycleError::Conversion),
    }
}

proof fn lemma_digits_step(t: Seq<u8>, j: int)
    requires
        0 <= j < t.len(),
    ensures
        digits_value(t.take(j + 1)) == digits_value(t.take(j)) * 10 + (t[j] - 48) as nat,
{
    assert(t.take(j + 1).drop_last() =~= t.take(j));
}

proof fn lemma_digits_prefix_le(s: Seq<u8>, k: int)
    requires
        0 <= k <= s.len(),
        all_digits(s),
    ensures
        digits_value(s.take(k)) <= digits_value(s),
    decreases s.len(),
{
    if k == s.len() {
        assert(s.take(k) =~= s);
    } else {
        let t = s.drop_last();
        assert(all_digits(t));
        lemma_digits_prefix_le(t, k);
        assert(t.take(k) =~= s.take(k));
    }
}

proof fn lemma_pow10_positive(n: nat)
    ensures
        pow10(n) >= 1,
    decreases n,
{
    if n > 0 {
        lemma_pow10_positive((n - 1) as nat);
    }
}

/// The number written by the digits `s[lo..hi]`, or `None` where one of them
/// is not a digit or the number does not fit in a `u128`.
fn digits_in(s: &[u8], lo: usize, hi: usize) -> (r: Option<u128>)
    requires
        lo <= hi <= s@.len(),
    ensures
        r is Some <==> (all_digits(s@.subrange(lo as int, hi as int)) && digits_value(
            s@.subrange(lo as int, hi as int),
        ) <= u128::MAX),
        r is Some ==> r->0 == digits_value(s@.subrange(lo as int, hi as int)),
{
    let ghost t = s@.subrange(lo as int, hi as int);
    let mut acc: u128 = 0;
    let mut i: usize = lo;
    while i < hi
        invariant
            lo <= i <= hi <= s@.len(),
            t == s@.subrange(lo as int, hi as int),
            all_digits(t.take(i - lo)),
            acc == digits_value(t.take(i - lo)),
        decreases hi - i,
    {
        let c = s[i];
        if c < 48 || c > 57 {
            proof {
                assert(!is_digit(t[i - lo]));
            }
            return None;
        }
        let d: u128 = (c - 48) as u128;
        proof {
            lemma_digits_step(t, i - lo);
        }
        if acc > (u128::MAX - d) / 10 {
            proof {
                assert(all_digits(t) ==> digits_value(t) > u128::MAX) by {
                    if all_digits(t) {
                        lemma_digits_prefix_le(t, i - lo + 1);
                    }
                }
            }
            return None;
        }
        acc = acc * 10 + d;
        proof {
            assert(all_digits(t.take(i - lo + 1)));
        }
        i = i + 1;
    }
    assert(t.take(hi - lo) =~= t);
    Some(acc)
}

/// `10^n`, for an `n` whose power fits in a `u128`.
fn pow10_u128(n: u32) -> (r: u128)
    requires
        n <= MAX_SCALE,
    ensures
        r == pow10(n as nat),
{
    let mut p: u128 = 1;
    let mut i: u32 = 0;
    while i < n
        invariant
            i <= n <= MAX_SCALE,
            p == pow10(i as nat),
        decreases n - i,
    {
        proof {
            lemma_pow10_monotone(i as nat + 1, MAX_SCALE as nat);
        }
        p = p * 10;
        i = i + 1;
    }
    p
}

proof fn lemma_pow10_monotone(a: nat, b: nat)
    requires
        a <= b <= 38,
    ensures
        pow10(a) <= pow10(b),
        pow10(b) <= u128::MAX,
    decreases b,
{
    lemma_pow10_le_38(b);
    if b > a {
        lemma_pow10_monotone(a, (b - 1) as nat);
        assert(pow10(b) == 10 * pow10((b - 1) as nat));
    }
}

proof fn lemma_pow10_le_38(b: nat)
    requires
        b <= 38,
    ensures
        pow10(b) <= pow10(38),
        pow10(38) == 100_000_000_000_000_000_000_000_000_000_000_000_000,
    decreases 38 - b,
{
    reveal_with_fuel(pow10, 39);
    if b < 38 {
        lemma_pow10_le_38(b + 1);
    }
}

proof fn lemma_pow10_add(a: nat, b: nat)
    ensures
        pow10(a) * pow10(b) == pow10(a + b),
    decreases a,
{
    if a > 0 {
        lemma_pow10_add((a - 1) as nat, b);
        assert(pow10(a + b) == 10 * pow10((a + b - 1) as nat));
        let c = (a - 1) as nat;
        assert(c + b == (a + b - 1) as nat);
        assert(pow10(c) * pow10(b) == pow10(c + b));
        assert(pow10(a) * pow10(b) == 10 * (pow10((a - 1) as nat) * pow10(b))) by (nonlinear_arith)
            requires
                pow10(a) == 10 * pow10((a - 1) as nat),
        ;
    } else {
        assert(pow10(a) == 1);
    }
}

proof fn lemma_digits_below_pow10(t: Seq<u8>)
    requires
        all_digits(t),
    ensures
        digits_value(t) < pow10(t.len()),
    decreases t.len(),
{
    if t.len() > 0 {
        let u = t.drop_last();
        assert(all_digits(u));
        lemma_digits_below_pow10(u);
        assert(is_digit(t.last()));
        assert(digits_value(u) * 10 + ((t.last() - 48) as nat) < 10 * pow10(u.len()))
            by (nonlinear_arith)
            requires
                digits_value(u) < pow10(u.len()),
                ((t.last() - 48) as nat) <= 9,
        ;
    }
}

/// With no point before `k`, a point at `k` is the only one that a well-formed
/// text can have.
proof fn lemma_point_is_first(s: Seq<u8>, k: int, scale: nat)
    requires
        0 <= k <= s.len(),
        k < s.len() ==> s[k] == 46,
        forall|j: int| 0 <= j < k ==> s[j] != 46,
    ensures
        forall|d: int| point_at(s, d, scale) ==> d == k,
{
    assert forall|d: int| point_at(s, d, scale) implies d == k by {
        if d > k {
            assert(s.take(d)[k] == 46);
        }
    }
}

/// Reads a non-negative decimal text such as `0.05` or `1200` as a number of
/// units of `10^-scale`: `parse_decimal(b"0.05", 12)` is `50_000_000_000`.
/// A text that is not digits with at most one point, that has more than
/// `scale` digits after the point, or whose value does not fit in a `u128`,
/// is a conversion error.
pub fn parse_decimal(s: &[u8], scale: u32) -> (r: Result<u128, CycleError>)
    requires
        scale <= MAX_SCALE,
    ensures
        r == parse_spec(s@, scale as nat),
{
    let n: usize = s.len();
    let mut k: usize = 0;
    while k < n && s[k] != 46
        invariant
            k <= n == s@.len(),
            forall|j: int| 0 <= j < k ==> s@[j] != 46,
        decreases n - k,
    {
        k = k + 1;
    }
    let unit: u128 = pow10_u128(scale);
    proof {
        lemma_point_is_first(s@, k as int, scale as nat);
        lemma_pow10_positive(scale as nat);
    }
    if k == n {
        assert(s@.subrange(0, n as int) =~= s@);
        if n == 0 {
            return Err(CycleError::Conversion);
        }
        let whole = match digits_in(s, 0, n) {
            Some(v) => v,
            None => {
                proof {
                    if all_digits(s@) {
                        assert(digits_value(s@) * pow10(scale as nat) >= digits_value(s@))
                            by (nonlinear_arith)
                            requires
                                pow10(scale as nat) >= 1,
                        ;
                    }
                }
                return Err(CycleError::Conversion);
            },
        };
        return match whole.checked_mul(unit) {
            Some(v) => Ok(v),
            None => Err(CycleError::Conversion),
        };
    }
    assert(!is_digit(s@[k as int]));
    if k == 0 || k + 1 >= n || n - k - 1 > scale as usize {
        return Err(CycleError::Conversion);
    }
    let fl: u32 = (n - k - 1) as u32;
    let ghost int_part = s@.take(k as int);
    let ghost frac_part = s@.skip(k + 1);
    assert(s@.subrange(0, k as int) =~= int_part);
    assert(s@.subrange(k + 1, n as int) =~= frac_part);
    let whole_opt = digits_in(s, 0, k);
    let frac_opt = digits_in(s, k + 1, n);
    let frac_unit: u128 = pow10_u128(scale - fl);
    proof {
        lemma_pow10_positive((scale - fl) as nat);
        if point_at(s@, k as int, scale as nat) {
            let v = digits_value(int_part) * pow10(scale as nat) + digits_value(frac_part) * pow10(
                (scale - fl) as nat,
            );
            assert(v >= digits_value(int_part) && v >= digits_value(frac_part)) by (nonlinear_arith)
                requires
                    v == digits_value(int_part) * pow10(scale as nat) + digits_value(frac_part)
                        * pow10((scale - fl) as nat),
                    pow10(scale as nat) >= 1,
                    pow10((scale - fl) as nat) >= 1,
            ;
        }
    }
    let whole = match whole_opt {
        Some(v) => v,
        None => {
            return Err(CycleError::Conversion);
        },
    };
    let frac = match frac_opt {
        Some(v) => v,
        None => {
            return Err(CycleError::Conversion);
        },
    };
    proof {
        lemma_digits_below_pow10(frac_part);
        lemma_pow10_add(fl as nat, (scale - fl) as nat);
        lemma_pow10_monotone(scale as nat, 38);
        assert(frac * frac_unit < pow10(scale as nat)) by (nonlinear_arith)
            requires
                frac < pow10(fl as nat),
                pow10(fl as nat) * frac_unit == pow10(scale as nat),
                frac_unit >= 1,
        ;
    }
    let tail: u128 = frac * frac_unit;
    let head = match whole.checked_mul(unit) {
        Some(v) => v,
        None => {
            return Err(CycleError::Conversion);
        },
    };
    match head.checked_add(tail) {
        Some(v) => Ok(v),
        None => Err(CycleError::Conversion),
    }
}

} // verus!
