//! Decimal number recognition: 64-bit integer parsing, and the
//! recognizer for strings that denote a finite 64-bit float.

use vstd::prelude::*;

use crate::text::str_to_chars;

verus! {

broadcast use {
    vstd::seq::group_seq_axioms,
    vstd::std_specs::vec::group_vec_axioms,
};

/// Whether `c` is a decimal digit.
pub open spec fn is_digit(c: char) -> bool {
    '0' <= c && c <= '9'
}

/// The numeric value of a decimal digit.
pub open spec fn digit_val(c: char) -> int {
    c as u32 - '0' as u32
}

/// Whether every character of `s` is a decimal digit.
pub open spec fn all_digits(s: Seq<char>) -> bool {
    forall|i: int| 0 <= i < s.len() ==> is_digit(#[trigger] s[i])
}

/// The value of a sequence of decimal digits, most significant first.
pub open spec fn digits_val(s: Seq<char>) -> int
    decreases s.len(),
{
    if s.len() == 0 {
        0
    } else {
        digits_val(s.drop_last()) * 10 + digit_val(s.last())
    }
}

/// A digit sequence has a non-negative value.
pub proof fn lemma_digits_val_nonneg(s: Seq<char>)
    requires
        all_digits(s),
    ensures
        digits_val(s) >= 0,
    decreases s.len(),
{
    if s.len() > 0 {
        assert(all_digits(s.drop_last()));
        lemma_digits_val_nonneg(s.drop_last());
    }
}

/// Extending a digit sequence by one digit multiplies its value by ten
/// and adds the digit.
pub proof fn lemma_digits_val_step(s: Seq<char>, i: int)
    requires
        0 <= i < s.len(),
    ensures
        digits_val(s.take(i + 1)) == digits_val(s.take(i)) * 10 + digit_val(s[i]),
{
    assert(s.take(i + 1).drop_last() =~= s.take(i));
    assert(s.take(i + 1).last() == s[i]);
}

/// The value of a digit sequence is at least the value of any prefix.
pub proof fn lemma_digits_val_grows(s: Seq<char>, i: int)
    requires
        all_digits(s),
        0 <= i <= s.len(),
    ensures
        digits_val(s) >= digits_val(s.take(i)),
    decreases s.len() - i,
{
    if i < s.len() {
        lemma_digits_val_step(s, i);
        assert(all_digits(s.take(i)));
        lemma_digits_val_nonneg(s.take(i));
        lemma_digits_val_grows(s, i + 1);
    } else {
        assert(s.take(i) =~= s);
    }
}

/// What parsing a 64-bit signed integer yields: an optional leading
/// minus sign, then only digits, at least one, and a value in range;
/// anything else is no integer.
pub open spec fn int_of(s: Seq<char>) -> Option<i64> {
    if s.len() >= 2 && s[0] == '-' && all_digits(s.subrange(1, s.len() as int)) {
        let mag = digits_val(s.subrange(1, s.len() as int));
        if mag <= i64::MAX as int + 1 {
            Some((-mag) as i64)
        } else {
            None
        }
    } else if s.len() >= 1 && all_digits(s) {
        if digits_val(s) <= i64::MAX as int {
            Some(digits_val(s) as i64)
        } else {
            None
        }
    } else {
        None
    }
}

/// Parse a 64-bit signed integer: an optional leading `-`, digits only,
/// and the value must fit.
#[verifier::loop_isolation(false)]
pub fn parse_int64(s: &str) -> (r: Option<i64>)
    ensures
        r == int_of(s@),
{
    let chars = str_to_chars(s);
    let n = chars.len();
    let negative = n >= 1 && chars[0] == '-';
    let lo: usize = if negative {
        1
    } else {
        0
    };
    let ghost ds = s@.subrange(lo as int, n as int);
    proof {
        if negative {
            assert(s@.subrange(1, n as int) == ds);
            assert(!is_digit(s@[0]));
        } else {
            assert(ds =~= s@);
        }
    }
    if n == lo {
        proof {
            assert(int_of(s@) is None);
        }
        return None;
    }
    let mut mag: u64 = 0;
    let mut j: usize = lo;
    while j < n
        invariant
            n == s@.len(),
            chars@ == s@,
            ds == s@.subrange(lo as int, n as int),
            lo <= j <= n,
            lo + ds.len() == n,
            all_digits(ds.take(j - lo)),
            mag as int == digits_val(ds.take(j - lo)),
            mag <= 9223372036854775809,
        decreases n - j,
    {
        let c = chars[j];
        if c < '0' || c > '9' {
            proof {
                assert(ds[j - lo] == s@[j as int]);
                assert(!is_digit(ds[j - lo]));
                assert(!all_digits(ds));
                if negative {
                    assert(!is_digit(s@[0]));
                    assert(!all_digits(s@));
                }
                assert(int_of(s@) is None);
            }
            return None;
        }
        if mag > 922337203685477580 {
            proof {
                assert(ds[j - lo] == s@[j as int]);
                assert(is_digit(ds[j - lo]));
                lemma_digits_val_step(ds, j - lo);
                assert(digit_val(ds[j - lo]) >= 0);
                assert(digits_val(ds.take(j - lo + 1)) > 9223372036854775808int) by {
                    assert(digits_val(ds.take(j - lo)) * 10 > 9223372036854775800int);
                }
                if all_digits(ds) {
                    lemma_digits_val_grows(ds, j - lo + 1);
                    assert(digits_val(ds) > 9223372036854775808int);
                }
                if negative {
                    assert(!is_digit(s@[0]));
                    assert(!all_digits(s@));
                }
                assert(int_of(s@) is None);
            }
            return None;
        }
        let d: u64 = (c as u32 - 48) as u64;
        proof {
            assert(ds[j - lo] == s@[j as int]);
            assert(is_digit(ds[j - lo]));
            lemma_digits_val_step(ds, j - lo);
            assert(d as int == digit_val(ds[j - lo]));
        }
        mag = mag * 10 + d;
        j = j + 1;
    }
    proof {
        assert(ds.take(n - lo) =~= ds);
    }
    if negative {
        if mag > 9223372036854775807 {
            if mag == 9223372036854775808 {
                proof {
                    assert(s@.subrange(1, n as int) == ds);
                }
                Some(i64::MIN)
            } else {
                None
            }
        } else {
            proof {
                assert(s@.subrange(1, n as int) == ds);
            }
            Some(-(mag as i64))
        }
    } else {
        proof {
            assert(ds =~= s@);
        }
        if mag <= 9223372036854775807 {
            Some(mag as i64)
        } else {
            None
        }
    }
}

/// The sequence without a leading `+` or `-` sign, if one is there.
pub open spec fn strip_sign(s: Seq<char>) -> Seq<char> {
    if s.len() >= 1 && (s[0] == '+' || s[0] == '-') {
        s.subrange(1, s.len() as int)
    } else {
        s
    }
}

/// The first position at or after `j` holding `a` or `b`, or the length
/// if there is none.
pub open spec fn scan_for(s: Seq<char>, a: char, b: char, j: int) -> int
    decreases s.len() - j,
{
    if j >= s.len() {
        s.len() as int
    } else if s[j] == a || s[j] == b {
        j
    } else {
        scan_for(s, a, b, j + 1)
    }
}

/// How many `.` characters a sequence holds.
pub open spec fn dot_count(m: Seq<char>) -> int
    decreases m.len(),
{
    if m.len() == 0 {
        0
    } else {
        dot_count(m.drop_last()) + if m.last() == '.' {
            1int
        } else {
            0int
        }
    }
}

/// How many decimal digits a sequence holds.
pub open spec fn digit_count(m: Seq<char>) -> int
    decreases m.len(),
{
    if m.len() == 0 {
        0
    } else {
        digit_count(m.drop_last()) + if is_digit(m.last()) {
            1int
        } else {
            0int
        }
    }
}

/// Counting one more character adjusts the dot and digit counts by that
/// character.
pub proof fn lemma_count_step(m: Seq<char>, i: int)
    requires
        0 <= i < m.len(),
    ensures
        dot_count(m.take(i + 1)) == dot_count(m.take(i)) + if m[i] == '.' {
            1int
        } else {
            0int
        },
        digit_count(m.take(i + 1)) == digit_count(m.take(i)) + if is_digit(m[i]) {
            1int
        } else {
            0int
        },
{
    assert(m.take(i + 1).drop_last() =~= m.take(i));
    assert(m.take(i + 1).last() == m[i]);
}

/// A well-formed mantissa: only digits and at most one decimal point,
/// with at least one digit.
pub open spec fn mantissa_ok(m: Seq<char>) -> bool {
    &&& forall|i: int| 0 <= i < m.len() ==> (is_digit(#[trigger] m[i]) || m[i] == '.')
    &&& dot_count(m) <= 1
    &&& digit_count(m) >= 1
}

/// A well-formed exponent part: an optional sign, then at least one
/// digit.
pub open spec fn exp_ok(x: Seq<char>) -> bool {
    strip_sign(x).len() >= 1 && all_digits(strip_sign(x))
}

/// The signed value of an exponent part.
pub open spec fn exp_value(x: Seq<char>) -> int {
    if x.len() >= 1 && x[0] == '-' {
        -digits_val(strip_sign(x))
    } else {
        digits_val(strip_sign(x))
    }
}

/// The float grammar: an optional sign, a mantissa, and an optional
/// exponent introduced by `e` or `E`. The word spellings of infinities
/// and of the not-a-number value are left out: they are never finite.
pub open spec fn float_syntax(s: Seq<char>) -> bool {
    let t = strip_sign(s);
    let p = scan_for(t, 'e', 'E', 0);
    &&& mantissa_ok(t.subrange(0, p))
    &&& (p < t.len() ==> exp_ok(t.subrange(p + 1, t.len() as int)))
}

/// The digits of a mantissa, with the decimal point removed.
pub open spec fn mantissa_digits(m: Seq<char>) -> Seq<char>
    decreases m.len(),
{
    if m.len() == 0 {
        Seq::empty()
    } else if m[0] == '.' {
        mantissa_digits(m.subrange(1, m.len() as int))
    } else {
        seq![m[0]] + mantissa_digits(m.subrange(1, m.len() as int))
    }
}

/// The first position at or after `j` holding a character other than
/// `0`, or the length if there is none.
pub open spec fn first_nonzero(d: Seq<char>, j: int) -> int
    decreases d.len() - j,
{
    if j >= d.len() {
        d.len() as int
    } else if d[j] != '0' {
        j
    } else {
        first_nonzero(d, j + 1)
    }
}

/// Whether the decimal fraction `0.a` is strictly below `0.b`, comparing
/// digit by digit from position `i`, with missing digits read as zero.
pub open spec fn frac_lt_from(a: Seq<char>, b: Seq<char>, i: int) -> bool
    decreases (if a.len() >= b.len() {
        a.len() as int
    } else {
        b.len() as int
    }) - i,
{
    if i >= a.len() && i >= b.len() {
        false
    } else {
        let da = if i < a.len() {
            digit_val(a[i])
        } else {
            0
        };
        let db = if i < b.len() {
            digit_val(b[i])
        } else {
            0
        };
        if da < db {
            true
        } else if da > db {
            false
        } else {
            frac_lt_from(a, b, i + 1)
        }
    }
}

/// Whether the decimal fraction `0.a` is strictly below `0.b`.
pub open spec fn frac_lt(a: Seq<char>, b: Seq<char>) -> bool {
    frac_lt_from(a, b, 0)
}

/// The decimal digits of the rounding midpoint between the largest
/// finite 64-bit float and the next power of two: a decimal whose
/// magnitude reaches this value rounds up to infinity, and one below it
/// rounds to a finite value.
pub open spec fn overflow_midpoint_digits() -> Seq<char> {
    ("179769313486231580793728971405303415079934132710037826936173778980444968292764750946649017977587207096330286416692887910946555547851940402630657488671505820681908902000708383676273854845817711531764475730270069855571366959622842914819860834936475292719074168444365510704342711559699508093042880177904174497792")@
}

/// Whether a mantissa with exponent `x` denotes a magnitude below the
/// overflow midpoint, so that it parses to a finite float. A mantissa of
/// zeros is zero, whatever the exponent.
pub open spec fn finite_magnitude(m: Seq<char>, x: int) -> bool {
    let d = mantissa_digits(m);
    let k = scan_for(m, '.', '.', 0);
    let z = first_nonzero(d, 0);
    if z == d.len() {
        true
    } else {
        let e = k - 1 - z + x;
        if e < 308 {
            true
        } else if e > 308 {
            false
        } else {
            frac_lt(d.subrange(z, d.len() as int), overflow_midpoint_digits())
        }
    }
}

/// Whether a string denotes a finite 64-bit float: it matches the float
/// grammar and its magnitude stays below the overflow midpoint.
pub open spec fn finite_float(s: Seq<char>) -> bool {
    let t = strip_sign(s);
    let p = scan_for(t, 'e', 'E', 0);
    let m = t.subrange(0, p);
    let x = if p < t.len() {
        exp_value(t.subrange(p + 1, t.len() as int))
    } else {
        0
    };
    float_syntax(s) && finite_magnitude(m, x)
}

/// Decide whether a string denotes a finite 64-bit float.
#[verifier::loop_isolation(false)]
#[verifier::rlimit(100)]
pub fn is_finite_float(s: &str) -> (r: bool)
    ensures
        r == finite_float(s@),
{
    let chars = str_to_chars(s);
    let n = chars.len();
    let lo: usize = if n >= 1 && (chars[0] == '+' || chars[0] == '-') {
        1
    } else {
        0
    };
    let ghost t = strip_sign(s@);
    proof {
        assert(t =~= s@.subrange(lo as int, n as int));
    }
    let mut p: usize = lo;
    while p < n && chars[p] != 'e' && chars[p] != 'E'
        invariant
            lo <= p <= n,
            scan_for(t, 'e', 'E', 0) == scan_for(t, 'e', 'E', p - lo),
        decreases n - p,
    {
        proof {
            assert(t[p - lo] == s@[p as int]);
        }
        p = p + 1;
    }
    proof {
        if p < n {
            assert(t[p - lo] == s@[p as int]);
        }
        assert(scan_for(t, 'e', 'E', 0) == p - lo);
    }
    let ghost m = t.subrange(0, p - lo);
    proof {
        assert(forall|i: int| 0 <= i < m.len() ==> #[trigger] m[i] == s@[lo + i]);
    }
    let mut dots: usize = 0;
    let mut digits: usize = 0;
    let mut j: usize = lo;
    while j < p
        invariant
            lo <= j <= p,
            dots as int == dot_count(m.take(j - lo)),
            digits as int == digit_count(m.take(j - lo)),
            dots <= j,
            digits <= j,
            forall|i: int| 0 <= i < j - lo ==> (is_digit(#[trigger] m[i]) || m[i] == '.'),
        decreases p - j,
    {
        let c = chars[j];
        proof {
            lemma_count_step(m, j - lo);
        }
        if c == '.' {
            dots = dots + 1;
        } else if c >= '0' && c <= '9' {
            digits = digits + 1;
        } else {
            proof {
                assert(!(is_digit(m[j - lo]) || m[j - lo] == '.'));
                assert(!mantissa_ok(m));
            }
            return false;
        }
        j = j + 1;
    }
    proof {
        assert(m.take(p - lo) =~= m);
    }
    if dots > 1 || digits == 0 {
        proof {
            assert(!mantissa_ok(m));
        }
        return false;
    }
    proof {
        assert(mantissa_ok(m));
    }
    let ghost xs = t.subrange(p - lo + 1, t.len() as int);
    let mut xneg = false;
    let mut xmag: u128 = 0;
    if p < n {
        proof {
            assert(forall|i: int| 0 <= i < xs.len() ==> #[trigger] xs[i] == s@[p + 1 + i]);
        }
        let mut q: usize = p + 1;
        if q < n && (chars[q] == '+' || chars[q] == '-') {
            xneg = chars[q] == '-';
            q = q + 1;
        }
        let ghost xd = strip_sign(xs);
        proof {
            assert(xd =~= s@.subrange(q as int, n as int));
        }
        if q == n {
            proof {
                assert(!exp_ok(xs));
                assert(!float_syntax(s@));
            }
            return false;
        }
        let mut i: usize = q;
        while i < n
            invariant
                q <= i <= n,
                all_digits(xd.take(i - q)),
                (xmag as int == digits_val(xd.take(i - q)) && xmag
                    < 100000000000000000000000000000) || (xmag == 100000000000000000000000000000
                    && digits_val(xd.take(i - q)) >= 100000000000000000000000000000),
            decreases n - i,
        {
            let c = chars[i];
            if c < '0' || c > '9' {
                proof {
                    assert(xd[i - q] == s@[i as int]);
                    assert(!is_digit(xd[i - q]));
                    assert(!all_digits(xd));
                    assert(!exp_ok(xs));
                    assert(!float_syntax(s@));
                }
                return false;
            }
            let d: u128 = (c as u32 - 48) as u128;
            proof {
                assert(xd[i - q] == s@[i as int]);
                lemma_digits_val_step(xd, i - q);
                assert(all_digits(xd.take(i - q)));
                lemma_digits_val_nonneg(xd.take(i - q));
                assert(d as int == digit_val(xd[i - q]));
            }
            if xmag < 100000000000000000000000000000 {
                xmag = xmag * 10 + d;
                if xmag > 100000000000000000000000000000 {
                    xmag = 100000000000000000000000000000;
                }
            } else {
                proof {
                    let prev = digits_val(xd.take(i - q));
                    assert(digits_val(xd.take(i - q + 1)) == prev * 10 + digit_val(
                        xd[i - q],
                    ));
                    assert(prev * 10 >= prev) by {
                        assert(prev * 9 >= 0);
                    }
                }
            }
            i = i + 1;
        }
        proof {
            assert(xd.take(n - q) =~= xd);
            assert(exp_ok(xs));
            assert(float_syntax(s@));
        }
    } else {
        proof {
            assert(float_syntax(s@));
        }
    }
    let ghost x: int = if p - lo < t.len() {
        exp_value(xs)
    } else {
        0
    };
    proof {
        if p < n {
            if xneg {
                assert(xs[0] == '-');
                assert(x == -digits_val(strip_sign(xs)));
            } else {
                assert(x == digits_val(strip_sign(xs)));
                assert(x >= 0) by {
                    lemma_digits_val_nonneg(strip_sign(xs));
                }
            }
        }
    }
    let mut dvec: Vec<char> = Vec::new();
    let mut j2: usize = lo;
    while j2 < p
        invariant
            lo <= j2 <= p,
            dvec.len() <= j2,
            mantissa_digits(m) == dvec@ + mantissa_digits(m.subrange(j2 - lo, m.len() as int)),
        decreases p - j2,
    {
        let ghost rest = m.subrange(j2 - lo, m.len() as int);
        let c = chars[j2];
        proof {
            assert(rest[0] == m[j2 - lo]);
            assert(rest.subrange(1, rest.len() as int) =~= m.subrange(
                j2 - lo + 1,
                m.len() as int,
            ));
        }
        if c != '.' {
            dvec.push(c);
        }
        j2 = j2 + 1;
    }
    proof {
        assert(m.subrange(p - lo, m.len() as int) =~= Seq::<char>::empty());
        assert(mantissa_digits(m) =~= dvec@);
    }
    let dn = dvec.len();
    let mut z: usize = 0;
    while z < dn && dvec[z] == '0'
        invariant
            z <= dn,
            first_nonzero(dvec@, 0) == first_nonzero(dvec@, z as int),
        decreases dn - z,
    {
        z = z + 1;
    }
    proof {
        assert(first_nonzero(dvec@, 0) == z);
    }
    if z == dn {
        return true;
    }
    let mut kpos: usize = lo;
    while kpos < p && chars[kpos] != '.'
        invariant
            lo <= kpos <= p,
            scan_for(m, '.', '.', 0) == scan_for(m, '.', '.', kpos - lo),
        decreases p - kpos,
    {
        proof {
            assert(m[kpos - lo] == s@[kpos as int]);
        }
        kpos = kpos + 1;
    }
    proof {
        if kpos < p {
            assert(m[kpos - lo] == s@[kpos as int]);
        }
        assert(scan_for(m, '.', '.', 0) == kpos - lo);
    }
    if p < n && xmag == 100000000000000000000000000000 {
        if xneg {
            proof {
                assert(x <= -100000000000000000000000000000int);
                assert((kpos - lo) as int - 1 - z + x < 308);
            }
            return true;
        } else {
            proof {
                assert(x >= 100000000000000000000000000000int);
                assert((kpos - lo) as int - 1 - z + x > 308);
            }
            return false;
        }
    }
    let xsint: i128 = if xneg {
        -(xmag as i128)
    } else {
        xmag as i128
    };
    proof {
        assert(xsint as int == x);
    }
    let e: i128 = (kpos - lo) as i128 - 1 - (z as i128) + xsint;
    proof {
        assert(e as int == (kpos - lo) as int - 1 - z + x);
    }
    if e < 308 {
        return true;
    }
    if e > 308 {
        return false;
    }
    let bound = str_to_chars(
        "179769313486231580793728971405303415079934132710037826936173778980444968292764750946649017977587207096330286416692887910946555547851940402630657488671505820681908902000708383676273854845817711531764475730270069855571366959622842914819860834936475292719074168444365510704342711559699508093042880177904174497792",
    );
    let ghost aseq = dvec@.subrange(z as int, dn as int);
    let alen = dn - z;
    let blen = bound.len();
    let mut i2: usize = 0;
    while i2 < alen || i2 < blen
        invariant
            frac_lt(aseq, overflow_midpoint_digits()) == frac_lt_from(
                aseq,
                overflow_midpoint_digits(),
                i2 as int,
            ),
            aseq.len() == alen,
            bound@ == overflow_midpoint_digits(),
        decreases (if alen >= blen {
            alen
        } else {
            blen
        }) - i2,
    {
        let da: i64 = if i2 < alen {
            dvec[z + i2] as u32 as i64 - 48
        } else {
            0
        };
        let db: i64 = if i2 < blen {
            bound[i2] as u32 as i64 - 48
        } else {
            0
        };
        proof {
            if i2 < alen {
                assert(aseq[i2 as int] == dvec@[z + i2]);
            }
        }
        if da < db {
            return true;
        }
        if da > db {
            return false;
        }
        i2 = i2 + 1;
    }
    proof {
        assert(!frac_lt_from(aseq, overflow_midpoint_digits(), i2 as int));
    }
    false
}

} // verus!
