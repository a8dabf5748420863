//! Numbers written as decimal text.

use crate::bignat::BigNat;
use crate::binary64::{one_unit, rounded, Binary64, Real};
use crate::rounding::{lemma_large_ratio, lemma_small_ratio};
use vstd::arithmetic::power2::{
    lemma2_to64, lemma_pow2_adds, lemma_pow2_pos, lemma_pow2_strictly_increases, pow2,
};
use vstd::prelude::*;
use vstd::string::StrSliceExecFns;

verus! {

/// An exponent of ten that no text can bring back into range.
const HUGE: i128 = 1_000_000_000_000_000_000_000_000_000_000;

pub open spec fn is_digit(c: char) -> bool {
    '0' <= c && c <= '9'
}

pub open spec fn all_digits(s: Seq<char>) -> bool {
    forall|i: int| 0 <= i < s.len() ==> is_digit(#[trigger] s[i])
}

/// The number that a run of decimal digits stands for.
pub open spec fn digits_value(s: Seq<char>) -> nat
    decreases s.len(),
{
    if s.len() == 0 {
        0
    } else {
        digits_value(s.drop_last()) * 10 + (s.last() as nat - '0' as nat) as nat
    }
}

pub open spec fn ten_to(n: nat) -> nat
    decreases n,
{
    if n == 0 {
        1
    } else {
        10 * ten_to((n - 1) as nat)
    }
}

/// Text without a sign in front, if it has one.
pub open spec fn unsigned_part(s: Seq<char>) -> Seq<char> {
    if s.len() > 0 && (s[0] == '+' || s[0] == '-') {
        s.subrange(1, s.len() as int)
    } else {
        s
    }
}

pub open spec fn has_minus(s: Seq<char>) -> bool {
    s.len() > 0 && s[0] == '-'
}

/// The unsigned integer that a text stands for: decimal digits, at least one,
/// after an optional plus sign.
pub open spec fn u64_of_text(s: Seq<char>) -> Option<u64> {
    let body = unsigned_part(s);
    if !has_minus(s) && body.len() > 0 && all_digits(body) && digits_value(body) <= u64::MAX {
        Some(digits_value(body) as u64)
    } else {
        None
    }
}

/// The position of the first character that is `a` or `b`, or the length.
pub open spec fn first_of(s: Seq<char>, a: char, b: char) -> nat
    decreases s.len(),
{
    if s.len() == 0 || s[0] == a || s[0] == b {
        0
    } else {
        1 + first_of(s.subrange(1, s.len() as int), a, b)
    }
}

/// Whether `s` is `word`, given in lower case, but for the case of letters.
pub open spec fn is_word(s: Seq<char>, word: Seq<char>) -> bool {
    &&& s.len() == word.len()
    &&& forall|i: int|
        0 <= i < s.len() ==> #[trigger] same_letter(s[i], word[i])
}

/// Whether `c` is `w`, or its ASCII upper case form.
pub open spec fn same_letter(c: char, w: char) -> bool {
    c == w || ('A' <= c && c <= 'Z' && c as int + 32 == w as int)
}

/// The part of `s` before the exponent mark.
pub open spec fn mantissa(s: Seq<char>) -> Seq<char> {
    s.subrange(0, first_of(s, 'e', 'E') as int)
}

/// The digits of a mantissa before its point.
pub open spec fn whole_digits(m: Seq<char>) -> Seq<char> {
    m.subrange(0, first_of(m, '.', '.') as int)
}

/// The digits of a mantissa after its point.
pub open spec fn fraction_digits(m: Seq<char>) -> Seq<char> {
    let dot = first_of(m, '.', '.');
    if dot < m.len() {
        m.subrange((dot + 1) as int, m.len() as int)
    } else {
        Seq::empty()
    }
}

/// The exponent after the exponent mark; zero without a mark.
pub open spec fn exponent(s: Seq<char>) -> Option<int> {
    let e = first_of(s, 'e', 'E');
    if e == s.len() {
        Some(0)
    } else {
        let tail = s.subrange((e + 1) as int, s.len() as int);
        let body = unsigned_part(tail);
        if body.len() > 0 && all_digits(body) {
            if has_minus(tail) {
                Some(-(digits_value(body) as int))
            } else {
                Some(digits_value(body) as int)
            }
        } else {
            None
        }
    }
}

/// The number nearest to `digits * 10^exp`.
pub open spec fn decimal_real(negative: bool, digits: nat, exp: int) -> Real {
    if exp >= 0 {
        rounded(negative, digits * ten_to(exp as nat) * one_unit(), 1)
    } else {
        rounded(negative, digits * one_unit(), ten_to((-exp) as nat))
    }
}

/// The number that a decimal text without a sign stands for.
pub open spec fn decimal_of_text(negative: bool, s: Seq<char>) -> Option<Real> {
    let m = mantissa(s);
    let whole = whole_digits(m);
    let fraction = fraction_digits(m);
    if all_digits(whole) && all_digits(fraction) && whole.len() + fraction.len() > 0 && exponent(
        s,
    ) is Some {
        Some(
            decimal_real(
                negative,
                digits_value(whole + fraction),
                exponent(s)->0 - fraction.len(),
            ),
        )
    } else {
        None
    }
}

/// The binary64 number that a text stands for: an optional sign, then `inf`,
/// `infinity`, `nan` (in any case), or a decimal number with an optional point
/// and an optional exponent.
pub open spec fn real_of_text(s: Seq<char>) -> Option<Real> {
    let body = unsigned_part(s);
    if is_word(body, "inf"@) || is_word(body, "infinity"@) {
        Some(Real::Infinite { negative: has_minus(s) })
    } else if is_word(body, "nan"@) {
        Some(Real::Nan)
    } else {
        decimal_of_text(has_minus(s), body)
    }
}

/// The characters of a text.
fn chars_of(text: &str) -> (r: Vec<char>)
    ensures
        r@ == text@,
{
    let n: usize = text.unicode_len();
    let mut r: Vec<char> = Vec::new();
    let mut i: usize = 0;
    while i < n
        invariant
            i <= n,
            n == text@.len(),
            r@ == text@.subrange(0, i as int),
        decreases n - i,
    {
        r.push(text.get_char(i));
        i = i + 1;
        assert(r@ =~= text@.subrange(0, i as int));
    }
    r
}

fn digit_at(s: &Vec<char>, i: usize) -> (r: Option<u32>)
    requires
        i < s@.len(),
    ensures
        r is Some == is_digit(s@[i as int]),
        r matches Some(d) ==> d == s@[i as int] as nat - '0' as nat && d <= 9,
{
    let c: char = s[i];
    if '0' <= c && c <= '9' {
        Some(c as u32 - '0' as u32)
    } else {
        None
    }
}

proof fn lemma_digits_step(s: Seq<char>, lo: int, i: int)
    requires
        0 <= lo <= i < s.len(),
    ensures
        digits_value(s.subrange(lo, i + 1)) == digits_value(s.subrange(lo, i)) * 10 + (s[i] as nat
            - '0' as nat) as nat,
        all_digits(s.subrange(lo, i + 1)) <==> all_digits(s.subrange(lo, i)) && is_digit(s[i]),
{
    let a = s.subrange(lo, i + 1);
    let b = s.subrange(lo, i);
    assert(a.drop_last() =~= b);
    assert(a.last() == s[i]);
    if all_digits(a) {
        assert forall|j: int| 0 <= j < b.len() implies is_digit(#[trigger] b[j]) by {
            assert(b[j] == a[j]);
        }
        assert(is_digit(a[i - lo]));
    }
    if all_digits(b) && is_digit(s[i]) {
        assert forall|j: int| 0 <= j < a.len() implies is_digit(#[trigger] a[j]) by {
            if j < b.len() {
                assert(a[j] == b[j]);
            }
        }
    }
}

proof fn lemma_digits_prefix(s: Seq<char>, lo: int, i: int, hi: int)
    requires
        0 <= lo <= i <= hi <= s.len(),
        all_digits(s.subrange(lo, hi)),
    ensures
        all_digits(s.subrange(lo, i)),
        digits_value(s.subrange(lo, i)) <= digits_value(s.subrange(lo, hi)),
    decreases hi - i,
{
    if i < hi {
        lemma_digits_step(s, lo, hi - 1);
        lemma_digits_prefix(s, lo, i, hi - 1);
    }
}

/// Whether `s[lo..hi]` holds digits alone.
fn only_digits(s: &Vec<char>, lo: usize, hi: usize) -> (r: bool)
    requires
        lo <= hi <= s@.len(),
    ensures
        r == all_digits(s@.subrange(lo as int, hi as int)),
{
    let mut i: usize = lo;
    while i < hi
        invariant
            lo <= i <= hi <= s@.len(),
            all_digits(s@.subrange(lo as int, i as int)),
        decreases hi - i,
    {
        proof {
            lemma_digits_step(s@, lo as int, i as int);
        }
        if digit_at(s, i).is_none() {
            proof {
                if all_digits(s@.subrange(lo as int, hi as int)) {
                    lemma_digits_prefix(s@, lo as int, i + 1, hi as int);
                }
            }
            return false;
        }
        i = i + 1;
    }
    true
}

/// Reads an unsigned integer.
pub fn parse_u64(text: &str) -> (r: Option<u64>)
    ensures
        r == u64_of_text(text@),
{
    let s: Vec<char> = chars_of(text);
    if s.len() > 0 && s[0] == '-' {
        return None;
    }
    let lo: usize = if s.len() > 0 && s[0] == '+' {
        1
    } else {
        0
    };
    let hi: usize = s.len();
    assert(s@.subrange(0, s@.len() as int) =~= s@);
    assert(unsigned_part(s@) =~= s@.subrange(lo as int, hi as int));
    if lo == hi || !only_digits(&s, lo, hi) {
        return None;
    }
    let mut v: u64 = 0;
    let mut i: usize = lo;
    while i < hi
        invariant
            lo <= i <= hi,
            hi == s@.len(),
            all_digits(s@.subrange(lo as int, hi as int)),
            v == digits_value(s@.subrange(lo as int, i as int)),
            unsigned_part(s@) == s@.subrange(lo as int, hi as int),
            text@ == s@,
        decreases hi - i,
    {
        proof {
            lemma_digits_step(s@, lo as int, i as int);
            lemma_digits_prefix(s@, lo as int, i + 1, hi as int);
        }
        let d: u64 = match digit_at(&s, i) {
            Some(d) => d as u64,
            None => 0,
        };
        if v > (u64::MAX - d) / 10 {
            return None;
        }
        v = v * 10 + d;
        i = i + 1;
    }
    Some(v)
}

/// The first of the two characters stands where none stands before.
pub proof fn lemma_first_of(s: Seq<char>, a: char, b: char, i: int)
    requires
        0 <= i <= s.len(),
        forall|j: int| 0 <= j < i ==> s[j] != a && s[j] != b,
        i < s.len() ==> s[i] == a || s[i] == b,
    ensures
        first_of(s, a, b) == i,
    decreases i,
{
    if i > 0 {
        let t = s.subrange(1, s.len() as int);
        assert forall|j: int| 0 <= j < i - 1 implies t[j] != a && t[j] != b by {
            assert(t[j] == s[j + 1]);
        }
        lemma_first_of(t, a, b, i - 1);
    }
}

/// The position of the first `a` or `b` in `s[lo..hi]`, or `hi`.
fn find(s: &Vec<char>, lo: usize, hi: usize, a: char, b: char) -> (r: usize)
    requires
        lo <= hi <= s@.len(),
    ensures
        lo <= r <= hi,
        r - lo == first_of(s@.subrange(lo as int, hi as int), a, b),
{
    let mut i: usize = lo;
    let ghost t = s@.subrange(lo as int, hi as int);
    while i < hi && s[i] != a && s[i] != b
        invariant
            lo <= i <= hi <= s@.len(),
            t == s@.subrange(lo as int, hi as int),
            forall|j: int| 0 <= j < i - lo ==> t[j] != a && t[j] != b,
        decreases hi - i,
    {
        i = i + 1;
    }
    proof {
        lemma_first_of(t, a, b, i - lo);
    }
    i
}

/// Whether `s[lo..]` is `word` in any case, `word` being in lower case.
fn matches_word(s: &Vec<char>, lo: usize, word: &str) -> (r: bool)
    requires
        lo <= s@.len(),
    ensures
        r == is_word(s@.subrange(lo as int, s@.len() as int), word@),
{
    let n: usize = word.unicode_len();
    let ghost t = s@.subrange(lo as int, s@.len() as int);
    let total: usize = s.len();
    if total - lo != n {
        return false;
    }
    let mut i: usize = 0;
    while i < n
        invariant
            i <= n,
            n == word@.len(),
            lo + n == total,
            total == s@.len(),
            t == s@.subrange(lo as int, s@.len() as int),
            forall|j: int|
                0 <= j < i ==> #[trigger] same_letter(t[j], word@[j]),
        decreases n - i,
    {
        let c: char = s[lo + i];
        let w: char = word.get_char(i);
        assert(t[i as int] == c);
        if !(c == w || ('A' <= c && c <= 'Z' && c as u32 + 32 == w as u32)) {
            assert(!same_letter(t[i as int], word@[i as int]));
            return false;
        }
        i = i + 1;
    }
    true
}

proof fn lemma_ten_to_adds(a: nat, b: nat)
    ensures
        ten_to(a + b) == ten_to(a) * ten_to(b),
    decreases a,
{
    if a > 0 {
        lemma_ten_to_adds((a - 1) as nat, b);
        let x = ten_to((a - 1) as nat) as int;
        let y = ten_to(b) as int;
        assert(10 * (x * y) == (10 * x) * y) by (nonlinear_arith);
    } else {
        assert(1 * ten_to(b) == ten_to(b));
    }
}

pub proof fn lemma_ten_to_order(a: nat, b: nat)
    requires
        a <= b,
    ensures
        0 < ten_to(a) <= ten_to(b),
    decreases b,
{
    if a < b {
        lemma_ten_to_order(a, (b - 1) as nat);
    } else if a > 0 {
        lemma_ten_to_order((a - 1) as nat, (b - 1) as nat);
    }
}

proof fn lemma_ten_to_large(n: nat)
    ensures
        ten_to(n) >= pow2(3 * n),
    decreases n,
{
    lemma2_to64();
    if n > 0 {
        lemma_ten_to_large((n - 1) as nat);
        lemma_pow2_adds(3, (3 * (n - 1)) as nat);
    }
}

/// A decimal of magnitude `10^400` or more is out of range.
proof fn lemma_decimal_large(negative: bool, digits: nat, n: nat, exp: int)
    requires
        n > 0,
        digits >= ten_to((n - 1) as nat),
        n + exp >= 401,
    ensures
        decimal_real(negative, digits, exp) == (Real::Infinite { negative }),
{
    let c = one_unit();
    let top = ten_to(400);
    lemma_pow2_pos(1074);
    lemma_ten_to_large(400);
    lemma_pow2_adds(1200, 1074);
    lemma_pow2_strictly_increases(2099, 2274);
    assert(top * c >= pow2(2099)) by {
        assert(top * c >= pow2(1200) * c) by (nonlinear_arith)
            requires
                top >= pow2(1200),
                c > 0,
        ;
    }
    if exp >= 0 {
        let e = ten_to(exp as nat);
        lemma_ten_to_order(0, exp as nat);
        lemma_ten_to_adds((n - 1) as nat, exp as nat);
        lemma_ten_to_order(400, (n - 1 + exp) as nat);
        let low = ten_to((n - 1) as nat);
        assert(digits * e >= low * e) by (nonlinear_arith)
            requires
                digits >= low,
                e > 0,
        ;
        assert(digits * e * c >= top * c) by (nonlinear_arith)
            requires
                digits * e >= top,
                c > 0,
        ;
        assert(1 * pow2(2099) == pow2(2099));
        lemma_large_ratio(digits * e * c, 1);
    } else {
        let den = ten_to((-exp) as nat);
        lemma_ten_to_order(0, (-exp) as nat);
        let gap = (n - 1 + exp) as nat;
        lemma_ten_to_adds(gap, (-exp) as nat);
        lemma_ten_to_order(400, gap);
        let g = ten_to(gap);
        assert(digits * c >= (g * den) * c) by (nonlinear_arith)
            requires
                digits >= g * den,
                c > 0,
        ;
        assert((g * den) * c >= den * (top * c)) by (nonlinear_arith)
            requires
                g >= top,
                den > 0,
                c > 0,
        ;
        let w = pow2(2099);
        assert(den * (top * c) >= den * w) by (nonlinear_arith)
            requires
                top * c >= w,
                den > 0,
        ;
        lemma_large_ratio(digits * c, den);
    }
}

/// A decimal of magnitude below `10^-400` rounds to zero.
proof fn lemma_decimal_small(negative: bool, digits: nat, n: nat, exp: int)
    requires
        digits < ten_to(n),
        n + exp <= -400,
    ensures
        decimal_real(negative, digits, exp) == (Real::Finite { negative, units: 0 }),
{
    let c = one_unit();
    lemma_pow2_pos(1074);
    lemma_ten_to_large(400);
    lemma_pow2_strictly_increases(1075, 1200);
    vstd::arithmetic::power2::lemma_pow2_unfold(1075);
    let den = ten_to((-exp) as nat);
    let a = ten_to(n);
    let top = ten_to(400);
    lemma_ten_to_adds(n, 400);
    lemma_ten_to_order(n + 400, (-exp) as nat);
    assert(2 * (digits * c) < a * top) by (nonlinear_arith)
        requires
            digits < a,
            2 * c <= top,
            c > 0,
    ;
    lemma_small_ratio(digits * c, den);
    lemma_pow2_pos(2098);
}

/// Zero digits stand for zero, whatever the exponent.
proof fn lemma_decimal_zero(negative: bool, exp: int)
    ensures
        decimal_real(negative, 0, exp) == (Real::Finite { negative, units: 0 }),
{
    lemma_pow2_pos(2098);
    if exp >= 0 {
        assert(0 * ten_to(exp as nat) * one_unit() == 0) by (nonlinear_arith);
        lemma_small_ratio(0, 1);
    } else {
        assert(0 * one_unit() == 0);
        lemma_ten_to_order(0, (-exp) as nat);
        lemma_small_ratio(0, ten_to((-exp) as nat));
    }
}

/// Multiplies by `10^n`.
fn times_ten_to(x: &mut BigNat, n: u128)
    ensures
        final(x)@ == old(x)@ * ten_to(n as nat),
{
    let ghost start = x@;
    let mut i: u128 = 0;
    assert(start * 1 == start);
    while i < n
        invariant
            i <= n,
            x@ == start * ten_to(i as nat),
        decreases n - i,
    {
        x.mul_add(10, 0);
        proof {
            let t = ten_to(i as nat) as int;
            assert(start * t * 10 == start * (10 * t)) by (nonlinear_arith);
        }
        i = i + 1;
    }
}

/// The number nearest to `digits * 10^exp`, where `digits` has `n` significant
/// decimal digits.
fn decimal_number(negative: bool, digits: BigNat, n: u64, exp: i128) -> (r: Binary64)
    requires
        n == 0 ==> digits@ == 0,
        n > 0 ==> ten_to((n - 1) as nat) <= digits@,
        digits@ < ten_to(n as nat),
        -2 * HUGE <= exp <= 2 * HUGE,
    ensures
        r@ == decimal_real(negative, digits@, exp as int),
{
    if n == 0 {
        proof {
            lemma_decimal_zero(negative, exp as int);
        }
        return Binary64::zero(negative);
    }
    if n as i128 + exp >= 401 {
        proof {
            lemma_decimal_large(negative, digits@, n as nat, exp as int);
        }
        return Binary64::infinite(negative);
    }
    if n as i128 + exp <= -400 {
        proof {
            lemma_decimal_small(negative, digits@, n as nat, exp as int);
        }
        return Binary64::zero(negative);
    }
    let mut num: BigNat = digits;
    let mut den: BigNat = BigNat::from_u64(1);
    if exp >= 0 {
        times_ten_to(&mut num, exp as u128);
    } else {
        times_ten_to(&mut den, (-exp) as u128);
        proof {
            lemma_ten_to_order(0, (-exp) as nat);
            assert(1 * ten_to((-exp) as nat) == ten_to((-exp) as nat));
        }
    }
    num.shift_left(1074);
    Binary64::round(negative, num, den)
}

/// Reads the exponent in `s[lo..]`, kept within `HUGE` on either side.
fn parse_exponent(s: &Vec<char>, lo: usize) -> (r: Option<i128>)
    requires
        lo <= s@.len(),
    ensures
        ({
            let tail = s@.subrange(lo as int, s@.len() as int);
            let body = unsigned_part(tail);
            let e = digits_value(body) as int;
            match r {
                None => !(body.len() > 0 && all_digits(body)),
                Some(x) => {
                    &&& body.len() > 0 && all_digits(body)
                    &&& e < HUGE ==> x == if has_minus(tail) {
                        -e
                    } else {
                        e
                    }
                    &&& e >= HUGE ==> x == if has_minus(tail) {
                        -HUGE
                    } else {
                        HUGE as int
                    }
                },
            }
        }),
{
    let hi: usize = s.len();
    let negative: bool = lo < hi && s[lo] == '-';
    let start: usize = if lo < hi && (s[lo] == '+' || s[lo] == '-') {
        lo + 1
    } else {
        lo
    };
    let ghost tail = s@.subrange(lo as int, hi as int);
    let ghost body = s@.subrange(start as int, hi as int);
    assert(unsigned_part(tail) =~= body);
    if start == hi || !only_digits(s, start, hi) {
        return None;
    }
    let mut v: i128 = 0;
    let mut i: usize = start;
    while i < hi
        invariant
            start <= i <= hi,
            hi == s@.len(),
            all_digits(s@.subrange(start as int, hi as int)),
            0 <= v <= HUGE,
            ({
                let e = digits_value(s@.subrange(start as int, i as int)) as int;
                v == if e < HUGE {
                    e
                } else {
                    HUGE as int
                }
            }),
        decreases hi - i,
    {
        proof {
            lemma_digits_step(s@, start as int, i as int);
            lemma_digits_prefix(s@, start as int, i + 1, hi as int);
        }
        let d: i128 = match digit_at(s, i) {
            Some(d) => d as i128,
            None => 0,
        };
        v = v * 10 + d;
        if v > HUGE {
            v = HUGE;
        }
        i = i + 1;
    }
    if negative {
        Some(-v)
    } else {
        Some(v)
    }
}

/// The digits of `s[lo..dot]` and `s[after..hi]` as one number, with the count
/// of its significant digits.
fn joined_digits(s: &Vec<char>, lo: usize, dot: usize, after: usize, hi: usize) -> (r: (
    BigNat,
    u64,
))
    requires
        lo <= dot <= after <= hi <= s@.len(),
        s@.len() <= u64::MAX,
        all_digits(s@.subrange(lo as int, dot as int)),
        all_digits(s@.subrange(after as int, hi as int)),
    ensures
        r.0@ == digits_value(
            s@.subrange(lo as int, dot as int) + s@.subrange(after as int, hi as int),
        ),
        r.1 == 0 ==> r.0@ == 0,
        r.1 > 0 ==> ten_to((r.1 - 1) as nat) <= r.0@,
        r.0@ < ten_to(r.1 as nat),
{
    let ghost whole = s@.subrange(lo as int, dot as int);
    let ghost all = whole + s@.subrange(after as int, hi as int);
    let mut v: BigNat = BigNat::from_u64(0);
    let mut n: u64 = 0;
    let mut i: usize = lo;
    let ghost mut k: int = 0;
    assert(all.subrange(0, 0) =~= Seq::empty());
    while i < hi
        invariant
            lo <= i <= hi,
            lo <= dot <= after <= hi <= s@.len(),
            s@.len() <= u64::MAX,
            i <= dot || i >= after,
            whole == s@.subrange(lo as int, dot as int),
            all == whole + s@.subrange(after as int, hi as int),
            all_digits(whole),
            all_digits(s@.subrange(after as int, hi as int)),
            k == if i <= dot {
                i - lo
            } else {
                dot - lo + i - after
            },
            0 <= k <= all.len(),
            n <= k,
            v@ == digits_value(all.subrange(0, k)),
            n == 0 ==> v@ == 0,
            n > 0 ==> ten_to((n - 1) as nat) <= v@,
            v@ < ten_to(n as nat),
        decreases hi - i,
    {
        if i == dot && dot < after {
            i = after;
        } else {
            proof {
                assert(all[k] == s@[i as int]);
                if i < dot {
                    assert(whole[k] == s@[i as int]);
                } else {
                    assert(s@.subrange(after as int, hi as int)[i - after] == s@[i as int]);
                }
                lemma_digits_step(all, 0, k);
            }
            let d: u32 = match digit_at(s, i) {
                Some(d) => d,
                None => 0,
            };
            v.mul_add(10, d);
            if n > 0 || d != 0 {
                n = n + 1;
            }
            i = i + 1;
            proof {
                k = k + 1;
            }
        }
    }
    assert(all.subrange(0, k) =~= all);
    (v, n)
}

/// Beyond `HUGE` the exact exponent no longer matters.
proof fn lemma_saturated(negative: bool, digits: nat, n: nat, e: int, x: int, shift: int)
    requires
        n == 0 ==> digits == 0,
        n > 0 ==> ten_to((n - 1) as nat) <= digits,
        digits < ten_to(n),
        0 <= shift <= u64::MAX,
        n <= u64::MAX,
        -HUGE < e < HUGE ==> x == e,
        e >= HUGE ==> x == HUGE,
        e <= -HUGE ==> x == -HUGE,
    ensures
        decimal_real(negative, digits, x - shift) == decimal_real(negative, digits, e - shift),
{
    if n == 0 {
        lemma_decimal_zero(negative, x - shift);
        lemma_decimal_zero(negative, e - shift);
    } else if e >= HUGE {
        lemma_decimal_large(negative, digits, n, x - shift);
        lemma_decimal_large(negative, digits, n, e - shift);
    } else if e <= -HUGE {
        lemma_decimal_small(negative, digits, n, x - shift);
        lemma_decimal_small(negative, digits, n, e - shift);
    }
}

/// Reads the decimal number in `s[lo..]`.
#[verifier::spinoff_prover]
#[verifier::rlimit(60)]
fn parse_decimal(s: &Vec<char>, lo: usize, negative: bool) -> (r: Option<Binary64>)
    requires
        lo <= s@.len(),
        s@.len() <= u64::MAX,
    ensures
        match (r, decimal_of_text(negative, s@.subrange(lo as int, s@.len() as int))) {
            (None, None) => true,
            (Some(x), Some(v)) => x@ == v,
            _ => false,
        },
{
    let end: usize = s.len();
    let ghost t = s@.subrange(lo as int, end as int);
    let hi: usize = find(s, lo, end, 'e', 'E');
    let dot: usize = find(s, lo, hi, '.', '.');
    let after: usize = if dot < hi {
        dot + 1
    } else {
        hi
    };
    let ghost m = s@.subrange(lo as int, hi as int);
    proof {
        assert(mantissa(t) =~= m);
        assert(whole_digits(m) =~= s@.subrange(lo as int, dot as int));
        assert(fraction_digits(m) =~= s@.subrange(after as int, hi as int));
    }
    if !only_digits(s, lo, dot) || !only_digits(s, after, hi) {
        return None;
    }
    if dot - lo == 0 && hi - after == 0 {
        return None;
    }
    let exp: i128 = if hi == end {
        0
    } else {
        proof {
            assert(t.subrange(hi - lo + 1, t.len() as int) =~= s@.subrange(hi + 1, end as int));
        }
        match parse_exponent(s, hi + 1) {
            Some(x) => x,
            None => {
                return None;
            },
        }
    };
    let (digits, n): (BigNat, u64) = joined_digits(s, lo, dot, after, hi);
    let shift: usize = hi - after;
    proof {
        lemma_saturated(
            negative,
            digits@,
            n as nat,
            exponent(t)->0,
            exp as int,
            shift as int,
        );
    }
    Some(decimal_number(negative, digits, n, exp - shift as i128))
}

/// Reads a binary64 number.
pub fn parse_binary64(text: &str) -> (r: Option<Binary64>)
    ensures
        match (r, real_of_text(text@)) {
            (None, None) => true,
            (Some(x), Some(v)) => x@ == v,
            _ => false,
        },
{
    let s: Vec<char> = chars_of(text);
    let negative: bool = s.len() > 0 && s[0] == '-';
    let lo: usize = if s.len() > 0 && (s[0] == '+' || s[0] == '-') {
        1
    } else {
        0
    };
    assert(unsigned_part(s@) =~= s@.subrange(lo as int, s@.len() as int));
    if matches_word(&s, lo, "inf") || matches_word(&s, lo, "infinity") {
        Some(Binary64::infinite(negative))
    } else if matches_word(&s, lo, "nan") {
        Some(Binary64::nan())
    } else {
        parse_decimal(&s, lo, negative)
    }
}

} // verus!
