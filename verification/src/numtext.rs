//! Numeric text: decimal digit runs, signed integers, decimal magnitude
//! tokens in thousandths (milli-units), and decimal rendering.
//!
//! Spectral magnitudes and latency figures reach the engine as decimal text;
//! the engine holds them as exact scaled integers. A magnitude token is an
//! optionally signed mantissa of at most eighteen digits with an optional
//! fraction and an optional exponent suffix of up to three digits; its value
//! is kept in milli-units, truncated toward zero, and tokens beyond
//! `MAG_MILLI_CAP` in absolute value are rejected as out of range.

use vstd::prelude::*;
use vstd::arithmetic::div_mod::lemma_basic_div;
use crate::strutil::{spec_is_space, first_sat, lemma_first_sat_at, subvec};

verus! {

/// Largest magnitude, in milli-units, that a parsed token may carry.
pub const MAG_MILLI_CAP: i64 = 1_000_000_000_000;

/// Whether `c` is a decimal digit.
pub open spec fn spec_is_digit(c: char) -> bool {
    '0' <= c && c <= '9'
}

/// The value of a decimal digit.
pub open spec fn digit_val(c: char) -> int {
    c as int - 48
}

/// The character of a decimal digit value.
pub open spec fn digit_char(d: int) -> char {
    (48 + d) as char
}

/// Whether every character of `s` is a decimal digit.
pub open spec fn all_digits(s: Seq<char>) -> bool {
    forall|i: int| 0 <= i < s.len() ==> spec_is_digit(#[trigger] s[i])
}

/// The value of a digit run, most significant digit first.
pub open spec fn digits_val(s: Seq<char>) -> int
    decreases s.len(),
{
    if s.len() == 0 {
        0
    } else {
        digits_val(s.drop_last()) * 10 + digit_val(s.last())
    }
}

/// A digit run has a non-negative value.
pub proof fn lemma_digits_val_nonneg(s: Seq<char>)
    requires
        all_digits(s),
    ensures
        digits_val(s) >= 0,
    decreases s.len(),
{
    if s.len() > 0 {
        lemma_digits_val_nonneg(s.drop_last());
    }
}

/// Extending a digit run multiplies its value by ten and adds the new digit.
pub proof fn lemma_digits_val_step(s: Seq<char>, k: int)
    requires
        0 <= k < s.len(),
    ensures
        digits_val(s.take(k + 1)) == digits_val(s.take(k)) * 10 + digit_val(s[k]),
{
    assert(s.take(k + 1).drop_last() =~= s.take(k));
    assert(s.take(k + 1).last() == s[k]);
}

/// The value of the digit run `v@.subrange(lo, hi)`, capped: `Some(x)` when
/// the range is all digits and worth at most `cap`; `None` when a character
/// is not a digit or the value exceeds `cap`.
pub fn digits_value_capped(v: &Vec<char>, lo: usize, hi: usize, cap: u64) -> (r: Option<u64>)
    requires
        lo <= hi <= v@.len(),
        cap <= 1_000_000_000_000_000_000,
    ensures
        match r {
            Some(x) => all_digits(v@.subrange(lo as int, hi as int)) && x == digits_val(
                v@.subrange(lo as int, hi as int),
            ) && x <= cap,
            None => !all_digits(v@.subrange(lo as int, hi as int)) || digits_val(
                v@.subrange(lo as int, hi as int),
            ) > cap,
        },
{
    let ghost whole = v@.subrange(lo as int, hi as int);
    let mut acc: u64 = 0;
    let mut over: bool = false;
    let mut i: usize = lo;
    while i < hi
        invariant
            lo <= i <= hi <= v@.len(),
            cap <= 1_000_000_000_000_000_000,
            whole == v@.subrange(lo as int, hi as int),
            forall|k: int| 0 <= k < i - lo ==> spec_is_digit(#[trigger] whole[k]),
            !over ==> acc == digits_val(whole.take(i - lo)) && acc <= cap,
            over ==> digits_val(whole.take(i - lo)) > cap,
        decreases hi - i,
    {
        let c = v[i];
        proof {
            assert(whole[i - lo] == v@[i as int]);
        }
        if !('0' <= c && c <= '9') {
            proof {
                assert(!all_digits(whole));
            }
            return None;
        }
        let d: u64 = (c as u64) - 48;
        proof {
            lemma_digits_val_step(whole, i - lo);
        }
        if over {
        } else if d > cap {
            proof {
                lemma_digits_val_nonneg(whole.take(i - lo));
                assert(digits_val(whole.take(i - lo)) * 10 >= 0) by (nonlinear_arith)
                    requires
                        digits_val(whole.take(i - lo)) >= 0,
                ;
            }
            over = true;
        } else if acc > (cap - d) / 10 {
            proof {
                lemma_digits_val_nonneg(whole.take(i - lo));
                assert(digits_val(whole.take(i - lo + 1)) > cap) by {
                    assert(acc * 10 + d > cap) by (nonlinear_arith)
                        requires
                            acc > (cap - d) / 10 >= 0,
                            d <= 9,
                            cap >= d,
                    ;
                }
            }
            over = true;
        } else {
            proof {
                assert(acc * 10 + d <= cap) by (nonlinear_arith)
                    requires
                        0 <= acc <= (cap - d) / 10,
                        0 <= d <= 9,
                        cap >= d,
                ;
            }
            acc = acc * 10 + d;
        }
        i = i + 1;
    }
    if over {
        proof {
            assert(whole.take(hi - lo) =~= whole);
        }
        None
    } else {
        proof {
            assert(whole.take(hi - lo) =~= whole);
        }
        Some(acc)
    }
}

/// Whether the whole of `v@.subrange(lo, hi)` is decimal digits.
pub fn all_digits_range(v: &Vec<char>, lo: usize, hi: usize) -> (r: bool)
    requires
        lo <= hi <= v@.len(),
    ensures
        r == all_digits(v@.subrange(lo as int, hi as int)),
{
    let ghost whole = v@.subrange(lo as int, hi as int);
    let mut i: usize = lo;
    while i < hi
        invariant
            lo <= i <= hi <= v@.len(),
            whole == v@.subrange(lo as int, hi as int),
            forall|k: int| 0 <= k < i - lo ==> spec_is_digit(#[trigger] whole[k]),
        decreases hi - i,
    {
        let c = v[i];
        proof {
            assert(whole[i - lo] == v@[i as int]);
        }
        if !('0' <= c && c <= '9') {
            return false;
        }
        i = i + 1;
    }
    true
}

/// The signed integer a piece of text denotes: an optional sign, then one or
/// more digits; anything else is no integer.
pub open spec fn spec_parse_int(s: Seq<char>) -> Option<int> {
    if s.len() == 0 {
        None
    } else {
        let ds = if s[0] == '-' || s[0] == '+' {
            s.drop_first()
        } else {
            s
        };
        if ds.len() >= 1 && all_digits(ds) {
            if s[0] == '-' {
                Some(-digits_val(ds))
            } else {
                Some(digits_val(ds))
            }
        } else {
            None
        }
    }
}

/// The 32-bit signed integer a piece of text denotes, when it fits.
pub open spec fn spec_parse_i32(s: Seq<char>) -> Option<i32> {
    match spec_parse_int(s) {
        Some(x) => if -0x8000_0000 <= x <= 0x7fff_ffff {
            Some(x as i32)
        } else {
            None
        },
        None => None,
    }
}

/// Parse `v@.subrange(lo, hi)` as a 32-bit signed integer.
pub fn parse_i32_range(v: &Vec<char>, lo: usize, hi: usize) -> (r: Option<i32>)
    requires
        lo <= hi <= v@.len(),
    ensures
        r == spec_parse_i32(v@.subrange(lo as int, hi as int)),
{
    let ghost whole = v@.subrange(lo as int, hi as int);
    if lo == hi {
        return None;
    }
    let c0 = v[lo];
    proof {
        assert(whole[0] == v@[lo as int]);
    }
    let signed: bool = c0 == '-' || c0 == '+';
    let dlo: usize = if signed {
        lo + 1
    } else {
        lo
    };
    proof {
        if signed {
            assert(whole.drop_first() =~= v@.subrange(dlo as int, hi as int));
        } else {
            assert(whole =~= v@.subrange(dlo as int, hi as int));
        }
    }
    if dlo == hi {
        return None;
    }
    match digits_value_capped(v, dlo, hi, 0x8000_0000) {
        None => {
            proof {
                if all_digits(v@.subrange(dlo as int, hi as int)) {
                    lemma_digits_val_nonneg(v@.subrange(dlo as int, hi as int));
                }
            }
            None
        },
        Some(x) => {
            if c0 == '-' {
                if x == 0x8000_0000 {
                    Some(i32::MIN)
                } else {
                    Some(-(x as i32))
                }
            } else if x <= 0x7fff_ffff {
                Some(x as i32)
            } else {
                None
            }
        },
    }
}

/// Ten to the `k`.
pub open spec fn pow10(k: nat) -> int
    decreases k,
{
    if k == 0 {
        1
    } else {
        10 * pow10((k - 1) as nat)
    }
}

/// The first position of `c` in `s`, or `s.len()` when absent.
pub open spec fn first_idx(s: Seq<char>, c: char) -> int
    decreases s.len(),
{
    if s.len() == 0 {
        0
    } else if s[0] == c {
        0
    } else {
        1 + first_idx(s.drop_first(), c)
    }
}

/// A position with nothing equal to `c` before it, and `c` at it when in
/// range, is exactly `first_idx`.
pub proof fn lemma_first_idx_at(s: Seq<char>, c: char, k: int)
    requires
        0 <= k <= s.len(),
        forall|i: int| 0 <= i < k ==> s[i] != c,
        k < s.len() ==> s[k] == c,
    ensures
        first_idx(s, c) == k,
    decreases s.len(),
{
    if s.len() == 0 {
    } else if s[0] == c {
        assert(k == 0);
    } else {
        assert(k >= 1);
        assert forall|i: int| 0 <= i < k - 1 implies s.drop_first()[i] != c by {
            assert(s.drop_first()[i] == s[i + 1]);
        }
        if k - 1 < s.drop_first().len() {
            assert(s.drop_first()[k - 1] == s[k]);
        }
        lemma_first_idx_at(s.drop_first(), c, k - 1);
    }
}

/// The exponent an exponent suffix denotes: an optional sign, then one to
/// three digits; anything else is no exponent.
pub open spec fn spec_exp_value(x: Seq<char>) -> Option<int> {
    if x.len() == 0 {
        None
    } else {
        let xd = if x[0] == '-' || x[0] == '+' {
            x.drop_first()
        } else {
            x
        };
        if 1 <= xd.len() <= 3 && all_digits(xd) {
            if x[0] == '-' {
                Some(-digits_val(xd))
            } else {
                Some(digits_val(xd))
            }
        } else {
            None
        }
    }
}

/// The mantissa of a magnitude token, as its digit value and fraction
/// length: one or more integer digits, optionally a point followed by one
/// or more fraction digits, at most eighteen digits in all.
pub open spec fn spec_mantissa(m: Seq<char>) -> Option<(int, int)> {
    let d = first_idx(m, '.');
    if d == m.len() {
        if 1 <= m.len() <= 18 && all_digits(m) {
            Some((digits_val(m), 0int))
        } else {
            None
        }
    } else {
        let ip = m.take(d);
        let fp = m.skip(d + 1);
        if ip.len() >= 1 && fp.len() >= 1 && ip.len() + fp.len() <= 18 && all_digits(ip)
            && all_digits(fp) {
            Some((digits_val(ip + fp), fp.len() as int))
        } else {
            None
        }
    }
}

/// The magnitude, in milli-units truncated toward zero, that a decimal
/// token denotes: an optional sign, a mantissa of at most eighteen digits
/// with an optional fraction, and an optional `e`/`E` exponent suffix of up
/// to three digits — the value is the mantissa scaled by ten to the
/// exponent, in thousandths, truncated toward zero. Anything else is no
/// magnitude.
pub open spec fn spec_mag_milli(s: Seq<char>) -> Option<int> {
    if s.len() == 0 {
        None
    } else {
        let t = if s[0] == '-' || s[0] == '+' {
            s.drop_first()
        } else {
            s
        };
        let neg = s[0] == '-';
        if t.len() == 0 {
            None
        } else {
            let e = first_sat(t, |c: char| c == 'e' || c == 'E');
            let ev = if e == t.len() {
                Some(0int)
            } else {
                spec_exp_value(t.skip(e + 1))
            };
            match (spec_mantissa(t.take(e)), ev) {
                (Some(mf), Some(x)) => {
                    let k = x - mf.1 + 3;
                    let abs = if k >= 0 {
                        mf.0 * pow10(k as nat)
                    } else {
                        mf.0 / pow10((-k) as nat)
                    };
                    if neg {
                        Some(-abs)
                    } else {
                        Some(abs)
                    }
                },
                _ => None,
            }
        }
    }
}

/// Ten to the `k` is positive.
pub proof fn lemma_pow10_pos(k: nat)
    ensures
        pow10(k) >= 1,
    decreases k,
{
    if k > 0 {
        lemma_pow10_pos((k - 1) as nat);
    }
}

/// Ten to a larger power is at least ten to a smaller one.
pub proof fn lemma_pow10_mono(a: nat, b: nat)
    requires
        a <= b,
    ensures
        pow10(a) <= pow10(b),
    decreases b,
{
    if a < b {
        lemma_pow10_mono(a, (b - 1) as nat);
        lemma_pow10_pos((b - 1) as nat);
    }
}

/// The powers of ten the magnitude parser compares against.
pub proof fn lemma_pow10_vals()
    ensures
        pow10(3) == 1000,
        pow10(12) == 1_000_000_000_000,
        pow10(13) == 10_000_000_000_000,
        pow10(17) == 100_000_000_000_000_000,
        pow10(18) == 1_000_000_000_000_000_000,
{
    assert(pow10(0) == 1);
    assert(pow10(1) == 10);
    assert(pow10(2) == 100);
    assert(pow10(3) == 1000);
    assert(pow10(4) == 10_000);
    assert(pow10(5) == 100_000);
    assert(pow10(6) == 1_000_000);
    assert(pow10(7) == 10_000_000);
    assert(pow10(8) == 100_000_000);
    assert(pow10(9) == 1_000_000_000);
    assert(pow10(10) == 10_000_000_000);
    assert(pow10(11) == 100_000_000_000);
    assert(pow10(12) == 1_000_000_000_000);
    assert(pow10(13) == 10_000_000_000_000);
    assert(pow10(14) == 100_000_000_000_000);
    assert(pow10(15) == 1_000_000_000_000_000);
    assert(pow10(16) == 10_000_000_000_000_000);
    assert(pow10(17) == 100_000_000_000_000_000);
    assert(pow10(18) == 1_000_000_000_000_000_000);
}

/// Concatenating digit runs combines their values positionally.
pub proof fn lemma_digits_val_concat(a: Seq<char>, b: Seq<char>)
    ensures
        digits_val(a + b) == digits_val(a) * pow10(b.len()) + digits_val(b),
    decreases b.len(),
{
    if b.len() == 0 {
        assert(a + b =~= a);
        assert(pow10(0) == 1);
    } else {
        lemma_digits_val_concat(a, b.drop_last());
        assert((a + b).drop_last() =~= a + b.drop_last());
        assert((a + b).last() == b.last());
        assert(digits_val(a) * pow10((b.len() - 1) as nat) * 10 == digits_val(a) * pow10(
            b.len(),
        )) by (nonlinear_arith)
            requires
                pow10(b.len()) == 10 * pow10((b.len() - 1) as nat),
        ;
    }
}

/// Ten to the `k`, computed.
pub fn pow10_u64(k: usize) -> (r: u64)
    requires
        k <= 18,
    ensures
        r as int == pow10(k as nat),
    decreases k,
{
    if k == 0 {
        1
    } else {
        let p = pow10_u64(k - 1);
        proof {
            lemma_pow10_mono((k - 1) as nat, 17);
            lemma_pow10_vals();
        }
        10 * p
    }
}

/// Parse the exponent suffix starting at `xlo`: an optional sign, then one
/// to three digits.
fn parse_exp_part(t: &Vec<char>, xlo: usize) -> (r: Option<i64>)
    requires
        xlo <= t@.len(),
    ensures
        match (r, spec_exp_value(t@.skip(xlo as int))) {
            (Some(a), Some(b)) => a as int == b && -999 <= a <= 999,
            (None, None) => true,
            _ => false,
        },
{
    let ghost x = t@.skip(xlo as int);
    let n = t.len();
    if xlo == n {
        return None;
    }
    let x0 = t[xlo];
    proof {
        assert(x[0] == t@[xlo as int]);
    }
    let xsigned: bool = x0 == '-' || x0 == '+';
    let xneg: bool = x0 == '-';
    let xdlo: usize = if xsigned {
        xlo + 1
    } else {
        xlo
    };
    let ghost xd = if xsigned {
        x.drop_first()
    } else {
        x
    };
    proof {
        assert(xd =~= t@.subrange(xdlo as int, n as int));
    }
    if n - xdlo < 1 || n - xdlo > 3 {
        return None;
    }
    match digits_value_capped(t, xdlo, n, 999) {
        Some(xv) => {
            if xneg {
                Some(-(xv as i64))
            } else {
                Some(xv as i64)
            }
        },
        None => {
            proof {
                if all_digits(xd) {
                    lemma_digits_val_upper(xd);
                    lemma_pow10_vals();
                    lemma_pow10_mono(xd.len(), 3);
                    assert(false);
                }
            }
            None
        },
    }
}

/// Parse the mantissa `t@.take(e)`: the digit value and the fraction
/// length.
fn parse_mantissa_part(t: &Vec<char>, e: usize) -> (r: Option<(u64, usize)>)
    requires
        e <= t@.len(),
    ensures
        match (r, spec_mantissa(t@.take(e as int))) {
            (Some(p), Some(q)) => p.0 as int == q.0 && p.1 as int == q.1 && (p.0 as int)
                < 1_000_000_000_000_000_000 && p.1 <= 17,
            (None, None) => true,
            _ => false,
        },
{
    let ghost m = t@.take(e as int);
    let mut dot: usize = 0;
    while dot < e && t[dot] != '.'
        invariant
            0 <= dot <= e <= t@.len(),
            m == t@.take(e as int),
            forall|i: int| 0 <= i < dot ==> (#[trigger] m[i]) != '.',
        decreases e - dot,
    {
        proof {
            assert(m[dot as int] == t@[dot as int]);
        }
        dot = dot + 1;
    }
    proof {
        if dot < e {
            assert(m[dot as int] == t@[dot as int]);
        }
        lemma_first_idx_at(m, '.', dot as int);
    }
    if dot == e {
        if e < 1 || e > 18 {
            return None;
        }
        proof {
            assert(m =~= t@.subrange(0, e as int));
        }
        match digits_value_capped(t, 0, e, 1_000_000_000_000_000_000) {
            Some(x) => {
                proof {
                    lemma_digits_val_upper(m);
                    lemma_pow10_mono(m.len(), 18);
                    lemma_pow10_vals();
                }
                Some((x, 0))
            },
            None => {
                proof {
                    if all_digits(m) {
                        lemma_digits_val_upper(m);
                        lemma_pow10_mono(m.len(), 18);
                        lemma_pow10_vals();
                        assert(false);
                    }
                }
                None
            },
        }
    } else {
        let ghost ip = m.take(dot as int);
        let ghost fp = m.skip(dot + 1);
        proof {
            assert(ip =~= t@.subrange(0, dot as int));
            assert(fp =~= t@.subrange(dot + 1, e as int));
        }
        if dot < 1 || e - (dot + 1) < 1 || dot + (e - dot - 1) > 18 {
            return None;
        }
        let fl = e - dot - 1;
        let iv = match digits_value_capped(t, 0, dot, 1_000_000_000_000_000_000) {
            Some(x) => x,
            None => {
                proof {
                    if all_digits(ip) {
                        lemma_digits_val_upper(ip);
                        lemma_pow10_mono(ip.len(), 18);
                        lemma_pow10_vals();
                        assert(false);
                    }
                }
                return None;
            },
        };
        let fv = match digits_value_capped(t, dot + 1, e, 1_000_000_000_000_000_000) {
            Some(x) => x,
            None => {
                proof {
                    if all_digits(fp) {
                        lemma_digits_val_upper(fp);
                        lemma_pow10_mono(fp.len(), 18);
                        lemma_pow10_vals();
                        assert(false);
                    }
                }
                return None;
            },
        };
        let p = pow10_u64(fl);
        proof {
            lemma_digits_val_upper(ip);
            lemma_digits_val_upper(fp);
            lemma_pow10_mono(ip.len(), 17);
            lemma_pow10_mono(fp.len(), 17);
            lemma_pow10_vals();
            assert((iv as int) * (p as int) <= 100_000_000_000_000_000
                * 100_000_000_000_000_000) by (nonlinear_arith)
                requires
                    0 <= iv as int <= 100_000_000_000_000_000,
                    0 <= p as int <= 100_000_000_000_000_000,
            ;
        }
        let wide: u128 = (iv as u128) * (p as u128) + (fv as u128);
        proof {
            lemma_digits_val_concat(ip, fp);
            assert(fp.len() == fl as int);
            assert(wide as int == digits_val(ip + fp));
            assert(spec_mantissa(m) == Some((digits_val(ip + fp), fl as int)));
            assert forall|i: int| 0 <= i < (ip + fp).len() implies spec_is_digit(
                #[trigger] (ip + fp)[i],
            ) by {
                if i < ip.len() {
                    assert((ip + fp)[i] == ip[i]);
                } else {
                    assert((ip + fp)[i] == fp[i - ip.len()]);
                }
            }
            lemma_digits_val_upper(ip + fp);
            lemma_pow10_mono((ip + fp).len(), 18);
            assert((wide as int) < 1_000_000_000_000_000_000);
        }
        Some((wide as u64, fl))
    }
}

/// Parse `v@.subrange(lo, hi)` as a magnitude in milli-units; tokens worth
/// more than `MAG_MILLI_CAP` in absolute value are out of range and yield
/// `None`.
#[verifier::rlimit(50)]
pub fn parse_mag_milli(v: &Vec<char>, lo: usize, hi: usize) -> (r: Option<i64>)
    requires
        lo <= hi <= v@.len(),
    ensures
        match spec_mag_milli(v@.subrange(lo as int, hi as int)) {
            Some(m) => r == if -MAG_MILLI_CAP <= m <= MAG_MILLI_CAP {
                Some(m as i64)
            } else {
                None::<i64>
            },
            None => r == None::<i64>,
        },
{
    let ghost whole = v@.subrange(lo as int, hi as int);
    if lo == hi {
        return None;
    }
    let c0 = v[lo];
    proof {
        assert(whole[0] == v@[lo as int]);
    }
    let signed: bool = c0 == '-' || c0 == '+';
    let neg: bool = c0 == '-';
    let tlo: usize = if signed {
        lo + 1
    } else {
        lo
    };
    let t = subvec(v, tlo, hi);
    proof {
        if signed {
            assert(t@ =~= whole.drop_first());
        } else {
            assert(t@ =~= whole);
        }
    }
    let ghost ts = t@;
    let n = t.len();
    if n == 0 {
        return None;
    }
    // Locate the exponent marker, if any.
    let mut e: usize = 0;
    while e < n && !(t[e] == 'e' || t[e] == 'E')
        invariant
            0 <= e <= n,
            n == ts.len(),
            ts == t@,
            forall|i: int| 0 <= i < e ==> !((#[trigger] ts[i]) == 'e' || ts[i] == 'E'),
        decreases n - e,
    {
        e = e + 1;
    }
    proof {
        lemma_first_sat_at(ts, |c: char| c == 'e' || c == 'E', e as int);
    }
    // The exponent value.
    let mut expv: i64 = 0;
    if e < n {
        match parse_exp_part(&t, e + 1) {
            Some(x) => {
                expv = x;
            },
            None => {
                return None;
            },
        }
    }
    let ghost ev_spec: Option<int> = if e as int == ts.len() {
        Some(0int)
    } else {
        spec_exp_value(ts.skip(e + 1))
    };
    proof {
        assert(ev_spec == Some(expv as int));
    }
    // The mantissa, before the marker.
    let (mant, fraclen) = match parse_mantissa_part(&t, e) {
        Some(p) => p,
        None => {
            return None;
        },
    };
    // Scale by the exponent, in thousandths, truncated toward zero.
    let ghost k_g: int = expv as int - fraclen as int + 3;
    let ghost abs_g: int = if k_g >= 0 {
        (mant as int) * pow10(k_g as nat)
    } else {
        (mant as int) / pow10((-k_g) as nat)
    };
    proof {
        assert(spec_mag_milli(whole) == (if neg {
            Some(-abs_g)
        } else {
            Some(abs_g)
        }));
    }
    match scale_milli(mant, fraclen, expv) {
        Some(a) => {
            proof {
                assert(a as int == abs_g);
                assert(0 <= abs_g <= MAG_MILLI_CAP as int);
                assert((-abs_g) as i64 == -a);
            }
            if neg {
                Some(-a)
            } else {
                Some(a)
            }
        },
        None => {
            proof {
                assert(abs_g > MAG_MILLI_CAP as int);
            }
            None
        },
    }
}

/// The non-negative milli-unit value of a mantissa scaled by an exponent:
/// the mantissa times ten to the exponent, in thousandths, truncated toward
/// zero — or nothing when it exceeds `MAG_MILLI_CAP`.
fn scale_milli(mant: u64, fraclen: usize, expv: i64) -> (r: Option<i64>)
    requires
        (mant as int) < 1_000_000_000_000_000_000,
        fraclen <= 17,
        -999 <= expv <= 999,
    ensures
        ({
            let k = expv as int - fraclen as int + 3;
            let abs = if k >= 0 {
                (mant as int) * pow10(k as nat)
            } else {
                (mant as int) / pow10((-k) as nat)
            };
            &&& (abs <= MAG_MILLI_CAP as int ==> (r matches Some(a) && a as int == abs))
            &&& (abs > MAG_MILLI_CAP as int ==> r is None)
        }),
        (r matches Some(a) ==> 0 <= a <= MAG_MILLI_CAP),
{
    let k: i64 = expv - (fraclen as i64) + 3;
    let abs128: u128;
    if mant == 0 {
        abs128 = 0;
        proof {
            if k < 0 {
                lemma_pow10_pos((-(k as int)) as nat);
                lemma_basic_div(0int, pow10((-(k as int)) as nat));
            }
        }
    } else if k >= 0 {
        if k > 12 {
            proof {
                lemma_pow10_pos(k as nat);
                assert((mant as int) * pow10(k as nat) >= pow10(k as nat)) by (nonlinear_arith)
                    requires
                        mant as int >= 1,
                        pow10(k as nat) >= 1,
                ;
                lemma_pow10_mono(13, k as nat);
                lemma_pow10_vals();
            }
            return None;
        }
        let p = pow10_u64(k as usize);
        proof {
            lemma_pow10_mono(k as nat, 12);
            lemma_pow10_vals();
            assert((mant as int) * (p as int) <= 1_000_000_000_000_000_000
                * 1_000_000_000_000) by (nonlinear_arith)
                requires
                    0 <= mant as int <= 1_000_000_000_000_000_000,
                    0 <= p as int <= 1_000_000_000_000,
            ;
        }
        abs128 = (mant as u128) * (p as u128);
        proof {
            assert(abs128 as int == (mant as int) * pow10(k as nat));
        }
    } else {
        let j = (0i64 - k) as usize;
        if j >= 18 {
            abs128 = 0;
            proof {
                lemma_pow10_mono(18, j as nat);
                lemma_pow10_vals();
                lemma_basic_div(mant as int, pow10(j as nat));
            }
        } else {
            let p = pow10_u64(j);
            proof {
                lemma_pow10_pos(j as nat);
            }
            abs128 = (mant as u128) / (p as u128);
            proof {
                assert(abs128 as int == (mant as int) / pow10(j as nat));
            }
        }
    }
    if abs128 > MAG_MILLI_CAP as u128 {
        return None;
    }
    Some(abs128 as i64)
}

/// A digit run of `n` digits is worth less than ten to the `n`.
pub proof fn lemma_digits_val_upper(s: Seq<char>)
    requires
        all_digits(s),
    ensures
        0 <= digits_val(s) < pow10(s.len()),
    decreases s.len(),
{
    if s.len() == 0 {
    } else {
        lemma_digits_val_upper(s.drop_last());
        assert(digits_val(s.drop_last()) * 10 + 9 < pow10(s.drop_last().len()) * 10)
            by (nonlinear_arith)
            requires
                0 <= digits_val(s.drop_last()) < pow10(s.drop_last().len()),
        ;
    }
}

/// The decimal rendering of a non-negative number.
pub open spec fn spec_dec(n: int) -> Seq<char>
    decreases n,
{
    if n < 10 {
        seq![digit_char(n)]
    } else {
        spec_dec(n / 10).push(digit_char(n % 10))
    }
}

/// A decimal rendering holds at least one digit.
pub proof fn lemma_spec_dec_min_len(n: int)
    ensures
        spec_dec(n).len() >= 1,
    decreases n,
{
    if n >= 10 {
        lemma_spec_dec_min_len(n / 10);
    }
}

/// Render a number in decimal.
pub fn u64_to_chars(n: u64) -> (r: Vec<char>)
    ensures
        r@ == spec_dec(n as int),
    decreases n,
{
    if n < 10 {
        let c = ((n as u8) + 48) as char;
        let mut r: Vec<char> = Vec::new();
        r.push(c);
        proof {
            assert(r@ =~= spec_dec(n as int));
        }
        r
    } else {
        let mut r = u64_to_chars(n / 10);
        let c = (((n % 10) as u8) + 48) as char;
        r.push(c);
        r
    }
}

/// Trimmed bounds of a token: whether `v@.subrange(lo, hi)` trimmed of
/// whitespace is empty.
pub open spec fn spec_trimmed_empty(s: Seq<char>) -> bool {
    forall|i: int| 0 <= i < s.len() ==> spec_is_space(#[trigger] s[i])
}

} // verus!
