//! Decimal coin amounts, as the marketplace states them ("0.0005"), read
//! exactly into the smallest indivisible unit.
use vstd::prelude::*;
use vstd::string::StringSliceAdditionalSpecFns;

verus! {

/// Smallest units in one whole coin.
pub const UNITS_PER_COIN: u64 = 100_000_000;

/// Number of fraction digits that one whole coin is divided into.
pub const FRACTION_DIGITS: usize = 8;

pub const DOT: u8 = 46;

pub open spec fn is_digit(c: u8) -> bool {
    48 <= c && c <= 57
}

pub open spec fn all_digits(s: Seq<u8>) -> bool {
    forall|i: int| 0 <= i < s.len() ==> is_digit(#[trigger] s[i])
}

/// The number that a run of decimal digits spells.
pub open spec fn digits_value(s: Seq<u8>) -> nat
    decreases s.len(),
{
    if s.len() == 0 {
        0
    } else {
        digits_value(s.drop_last()) * 10 + (s.last() - 48) as nat
    }
}

pub open spec fn pow10(n: nat) -> nat
    decreases n,
{
    if n == 0 {
        1
    } else {
        10 * pow10((n - 1) as nat)
    }
}

/// `k` is where the first dot stands, or the length when there is none.
pub open spec fn is_first_dot(b: Seq<u8>, k: int) -> bool {
    &&& 0 <= k <= b.len()
    &&& k < b.len() ==> b[k] == DOT
    &&& forall|j: int| 0 <= j < k ==> b[j] != DOT
}

pub open spec fn dot_index(b: Seq<u8>) -> int {
    choose|k: int| is_first_dot(b, k)
}

pub open spec fn whole_part(b: Seq<u8>) -> Seq<u8> {
    b.take(dot_index(b))
}

pub open spec fn fraction_part(b: Seq<u8>) -> Seq<u8> {
    if dot_index(b) < b.len() {
        b.skip(dot_index(b) + 1)
    } else {
        Seq::empty()
    }
}

/// The value of the fraction digits in smallest units; digits past the
/// eighth are below one unit and do not count.
pub open spec fn fraction_units(f: Seq<u8>) -> nat {
    let n: nat = if f.len() <= 8 { f.len() } else { 8 };
    digits_value(f.take(n as int)) * pow10((8 - n) as nat)
}

/// An amount is digits, optionally a dot and more digits, with at least one
/// digit in all.
pub open spec fn is_amount_text(b: Seq<u8>) -> bool {
    &&& all_digits(whole_part(b))
    &&& all_digits(fraction_part(b))
    &&& whole_part(b).len() + fraction_part(b).len() > 0
}

/// The amount that the text states, in smallest units.
pub open spec fn amount_units(b: Seq<u8>) -> Option<nat> {
    if is_amount_text(b) {
        Some(digits_value(whole_part(b)) * 100_000_000 + fraction_units(fraction_part(b)))
    } else {
        None
    }
}

/// The amount as a `u64` of smallest units, where the text is an amount and
/// the value fits.
pub open spec fn parsed_units(b: Seq<u8>) -> Option<u64> {
    match amount_units(b) {
        Some(n) => if n <= u64::MAX { Some(n as u64) } else { None },
        None => None,
    }
}

proof fn lemma_first_dot_unique(b: Seq<u8>, k: int)
    requires
        is_first_dot(b, k),
    ensures
        dot_index(b) == k,
{
    let c = dot_index(b);
    assert(is_first_dot(b, c));
    if c < k {
        assert(b[c] != DOT);
    } else if k < c {
        assert(b[k] != DOT);
    }
}

proof fn lemma_digits_prefix(s: Seq<u8>, i: int)
    requires
        0 <= i <= s.len(),
    ensures
        digits_value(s.take(i)) <= digits_value(s),
    decreases s.len() - i,
{
    if i < s.len() {
        lemma_digits_prefix(s, i + 1);
        assert(s.take(i + 1).drop_last() =~= s.take(i));
    } else {
        assert(s.take(i) =~= s);
    }
}

proof fn lemma_digits_step(s: Seq<u8>, i: int)
    requires
        0 <= i < s.len(),
    ensures
        digits_value(s.take(i + 1)) == digits_value(s.take(i)) * 10 + (s[i] - 48) as nat,
{
    assert(s.take(i + 1).drop_last() =~= s.take(i));
}

proof fn lemma_pow10_eight()
    ensures
        pow10(8) == 100_000_000,
{
    reveal_with_fuel(pow10, 9);
}

/// Reads the digits `b[lo..hi]`; `None` where one of them is no digit or the
/// value passes `cap`.
fn read_digits(b: &[u8], lo: usize, hi: usize, cap: u64) -> (r: Option<u64>)
    requires
        lo <= hi <= b@.len(),
        cap <= u64::MAX / 10 - 9,
    ensures
        match r {
            Some(v) => all_digits(b@.subrange(lo as int, hi as int)) && v == digits_value(
                b@.subrange(lo as int, hi as int),
            ) && v <= cap,
            None => !all_digits(b@.subrange(lo as int, hi as int)) || digits_value(
                b@.subrange(lo as int, hi as int),
            ) > cap,
        },
{
    let ghost s = b@.subrange(lo as int, hi as int);
    let mut acc: u64 = 0;
    let mut i: usize = lo;
    while i < hi
        invariant
            lo <= i <= hi <= b@.len(),
            s == b@.subrange(lo as int, hi as int),
            cap <= u64::MAX / 10 - 9,
            all_digits(s.take(i - lo)),
            acc == digits_value(s.take(i - lo)),
            acc <= cap,
        decreases hi - i,
    {
        let c = b[i];
        proof {
            lemma_digits_step(s, i - lo);
        }
        if c < 48 || c > 57 {
            assert(s[i - lo] == c);
            return None;
        }
        let next: u64 = acc * 10 + (c - 48) as u64;
        if next > cap {
            proof {
                lemma_digits_prefix(s, i - lo + 1);
            }
            return None;
        }
        proof {
            assert forall|j: int| 0 <= j < i + 1 - lo implies is_digit(#[trigger] s.take(i + 1 - lo)[j]) by {
                if j < i - lo {
                    assert(s.take(i - lo)[j] == s.take(i + 1 - lo)[j]);
                }
            }
        }
        acc = next;
        i = i + 1;
    }
    assert(s.take(hi - lo) =~= s);
    Some(acc)
}

/// The amount that `text` states, in smallest units (one hundred millionth
/// of a coin): digits, optionally followed by a dot and fraction digits.
/// Fraction digits past the eighth are dropped. `None` where the text is no
/// such amount or the value does not fit in a `u64`.
pub fn parse_amount(text: &str) -> (r: Option<u64>)
    ensures
        r == parsed_units(text.spec_bytes()),
{
    let b = text.as_bytes();
    let n = b.len();
    let mut k: usize = 0;
    while k < n && b[k] != DOT
        invariant
            k <= n == b@.len(),
            forall|j: int| 0 <= j < k ==> b@[j] != DOT,
        decreases n - k,
    {
        k = k + 1;
    }
    proof {
        lemma_first_dot_unique(b@, k as int);
        assert(whole_part(b@) =~= b@.subrange(0, k as int));
    }
    let frac_lo: usize = if k < n { k + 1 } else { n };
    proof {
        if k < n {
            assert(fraction_part(b@) =~= b@.subrange(frac_lo as int, n as int));
        } else {
            assert(fraction_part(b@) =~= b@.subrange(frac_lo as int, n as int));
        }
    }
    if k == 0 && frac_lo == n {
        return None;
    }
    let whole = match read_digits(b, 0, k, 184_467_440_737) {
        Some(v) => v,
        None => {
            proof {
                let w = whole_part(b@);
                if is_amount_text(b@) {
                    assert(digits_value(w) * 100_000_000 >= 184_467_440_738 * 100_000_000)
                        by (nonlinear_arith)
                        requires
                            digits_value(w) >= 184_467_440_738,
                    ;
                    assert(amount_units(b@).unwrap() > u64::MAX);
                }
            }
            return None;
        }
    };
    let frac_hi: usize = if n - frac_lo <= FRACTION_DIGITS { n } else { frac_lo + FRACTION_DIGITS };
    let ghost f = fraction_part(b@);
    let ghost m: int = frac_hi - frac_lo;
    proof {
        assert(b@.subrange(frac_lo as int, frac_hi as int) =~= f.take(m));
        assert(b@.subrange(frac_hi as int, n as int) =~= f.skip(m));
    }
    let head = match read_digits(b, frac_lo, frac_hi, 99_999_999) {
        Some(v) => v,
        None => {
            proof {
                if all_digits(f) {
                    assert(all_digits(f.take(m)));
                    lemma_digits_below_pow(f.take(m));
                    lemma_pow10_monotone(m as nat, 8);
                    lemma_pow10_eight();
                }
            }
            return None;
        }
    };
    if !all_digit_bytes(b, frac_hi, n) {
        proof {
            if all_digits(f) {
                assert(all_digits(f.skip(m)));
            }
        }
        return None;
    }
    let scale = pow10_exec(FRACTION_DIGITS - (frac_hi - frac_lo));
    proof {
        assert forall|j: int| 0 <= j < f.len() implies is_digit(#[trigger] f[j]) by {
            if j < m {
                assert(f[j] == f.take(m)[j]);
            } else {
                assert(f[j] == f.skip(m)[j - m]);
            }
        }
        lemma_digits_below_pow(f.take(m));
        lemma_pow10_add(m as nat, (8 - m) as nat);
        lemma_pow10_eight();
        assert(head * scale < 100_000_000) by (nonlinear_arith)
            requires
                head < pow10(m as nat),
                pow10(m as nat) * scale == 100_000_000,
        ;
    }
    let units = head * scale;
    let base = whole * UNITS_PER_COIN;
    if base > u64::MAX - units {
        return None;
    }
    Some(base + units)
}

proof fn lemma_digits_below_pow(s: Seq<u8>)
    requires
        all_digits(s),
    ensures
        digits_value(s) < pow10(s.len()),
    decreases s.len(),
{
    if s.len() > 0 {
        let t = s.drop_last();
        assert(all_digits(t)) by {
            assert forall|i: int| 0 <= i < t.len() implies is_digit(#[trigger] t[i]) by {
                assert(t[i] == s[i]);
            }
        }
        lemma_digits_below_pow(t);
        assert(is_digit(s[s.len() - 1]));
        assert(digits_value(s) < pow10(s.len())) by (nonlinear_arith)
            requires
                digits_value(s) == digits_value(t) * 10 + (s.last() - 48) as nat,
                digits_value(t) < pow10(t.len()),
                pow10(s.len()) == 10 * pow10(t.len()),
                (s.last() - 48) as nat <= 9,
        ;
    }
}

proof fn lemma_pow10_add(a: nat, b: nat)
    ensures
        pow10(a) * pow10(b) == pow10(a + b),
    decreases a,
{
    if a > 0 {
        lemma_pow10_add((a - 1) as nat, b);
        let c: nat = (a - 1) as nat;
        assert(pow10(a + b) == 10 * pow10(c + b));
        assert(pow10(a) == 10 * pow10(c));
        assert(pow10(c) * pow10(b) == pow10(c + b));
        assert(pow10(a) * pow10(b) == 10 * (pow10((a - 1) as nat) * pow10(b))) by (nonlinear_arith)
            requires
                pow10(a) == 10 * pow10((a - 1) as nat),
        ;
    } else {
        assert(a == 0);
        assert(pow10(a) == 1);
        assert(a + b == b);
    }
}

proof fn lemma_pow10_monotone(a: nat, b: nat)
    requires
        a <= b,
    ensures
        pow10(a) <= pow10(b),
    decreases b,
{
    if a < b {
        lemma_pow10_monotone(a, (b - 1) as nat);
    }
}

fn pow10_exec(n: usize) -> (r: u64)
    requires
        n <= 8,
    ensures
        r == pow10(n as nat),
{
    let mut r: u64 = 1;
    let mut i: usize = 0;
    while i < n
        invariant
            i <= n <= 8,
            r == pow10(i as nat),
            r <= 100_000_000,
        decreases n - i,
    {
        proof {
            lemma_pow10_monotone((i + 1) as nat, 8);
            lemma_pow10_eight();
        }
        r = r * 10;
        i = i + 1;
    }
    r
}

fn all_digit_bytes(b: &[u8], lo: usize, hi: usize) -> (r: bool)
    requires
        lo <= hi <= b@.len(),
    ensures
        r == all_digits(b@.subrange(lo as int, hi as int)),
{
    let ghost s = b@.subrange(lo as int, hi as int);
    let mut i: usize = lo;
    while i < hi
        invariant
            lo <= i <= hi <= b@.len(),
            s == b@.subrange(lo as int, hi as int),
            forall|j: int| 0 <= j < i - lo ==> is_digit(#[trigger] s[j]),
        decreases hi - i,
    {
        if b[i] < 48 || b[i] > 57 {
            assert(!is_digit(s[i - lo]));
            return false;
        }
        i = i + 1;
    }
    true
}

} // verus!
