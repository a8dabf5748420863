//! Which texts are numbers, and which numbers they are.

use crate::binary64::{one_unit, rounded, Real};
use crate::decimal::{
    all_digits, decimal_of_text, digits_value, exponent, first_of, fraction_digits, has_minus,
    is_digit, is_word, lemma_first_of, mantissa, real_of_text, same_letter, ten_to, u64_of_text,
    unsigned_part, whole_digits,
};
use vstd::prelude::*;

verus! {

/// A further digit counts one, and the digits before it ten times as much.
pub proof fn law_digits(s: Seq<char>, c: char)
    requires
        '0' <= c && c <= '9',
    ensures
        digits_value(Seq::<char>::empty()) == 0,
        digits_value(s.push(c)) == 10 * digits_value(s) + (c as int - '0' as int),
{
    assert(s.push(c).drop_last() =~= s);
}

/// Powers of ten.
pub proof fn law_powers_of_ten(n: nat)
    ensures
        ten_to(0) == 1,
        ten_to(n + 1) == 10 * ten_to(n),
{
}

/// Digits are an unsigned integer where that fits, with or without a plus sign;
/// with a minus sign they are none.
pub proof fn law_unsigned_text(t: Seq<char>)
    requires
        t.len() > 0,
        forall|i: int| 0 <= i < t.len() ==> '0' <= #[trigger] t[i] && t[i] <= '9',
    ensures
        digits_value(t) <= u64::MAX ==> u64_of_text(t) == Some(digits_value(t) as u64),
        digits_value(t) > u64::MAX ==> u64_of_text(t) is None,
        u64_of_text(seq!['+'] + t) == u64_of_text(t),
        u64_of_text(seq!['-'] + t) is None,
{
    let plus = seq!['+'] + t;
    assert(plus.subrange(1, plus.len() as int) =~= t);
    assert(all_digits(t)) by {
        assert forall|i: int| 0 <= i < t.len() implies is_digit(#[trigger] t[i]) by {}
    }
}

/// An unsigned integer has digits only, after a plus sign at most.
pub proof fn law_unsigned_text_only(t: Seq<char>)
    requires
        u64_of_text(t) is Some,
    ensures
        t.len() > 0,
        t.len() == 1 ==> t[0] != '+',
        '0' <= t[0] && t[0] <= '9' || t[0] == '+',
        forall|i: int| 1 <= i < t.len() ==> '0' <= #[trigger] t[i] && t[i] <= '9',
{
    let body = unsigned_part(t);
    if t[0] == '+' {
        assert forall|i: int| 1 <= i < t.len() implies '0' <= #[trigger] t[i] && t[i] <= '9' by {
            assert(is_digit(body[i - 1]));
        }
    } else {
        assert(is_digit(body[0]));
        assert forall|i: int| 1 <= i < t.len() implies '0' <= #[trigger] t[i] && t[i] <= '9' by {
            assert(is_digit(body[i]));
        }
    }
}

/// A minus sign in front negates a number, a plus sign leaves it.
pub proof fn law_signed_text(t: Seq<char>)
    requires
        t.len() > 0,
        t[0] != '+',
        t[0] != '-',
    ensures
        real_of_text(seq!['+'] + t) == real_of_text(t),
        real_of_text(seq!['-'] + t) is Some <==> real_of_text(t) is Some,
        real_of_text(t) matches Some(v) ==> real_of_text(seq!['-'] + t) == Some(v.negated()),
{
    let plus = seq!['+'] + t;
    let minus = seq!['-'] + t;
    assert(plus.subrange(1, plus.len() as int) =~= t);
    assert(minus.subrange(1, minus.len() as int) =~= t);
}

/// How a text splits into digits before and after a point, and an exponent.
proof fn lemma_parts(w: Seq<char>, f: Seq<char>, dot: bool, tail: Seq<char>)
    requires
        all_digits(w),
        all_digits(f),
        w.len() + f.len() > 0,
        dot || f.len() == 0,
        tail.len() > 0 ==> tail[0] == 'e' || tail[0] == 'E',
    ensures
        ({
            let text = if dot {
                w + seq!['.'] + f + tail
            } else {
                w + tail
            };
            &&& mantissa(text).len() + tail.len() == text.len()
            &&& first_of(text, 'e', 'E') == text.len() - tail.len()
            &&& whole_digits(mantissa(text)) == w
            &&& fraction_digits(mantissa(text)) == f
            &&& unsigned_part(text) == text
            &&& !has_minus(text)
            &&& !is_word(text, "inf"@)
            &&& !is_word(text, "infinity"@)
            &&& !is_word(text, "nan"@)
        }),
{
    reveal_strlit("inf");
    reveal_strlit("infinity");
    reveal_strlit("nan");
    let front = if dot {
        w + seq!['.'] + f
    } else {
        w
    };
    let text = if dot {
        w + seq!['.'] + f + tail
    } else {
        w + tail
    };
    assert(text =~= front + tail);
    let n = front.len() as int;
    assert forall|i: int| 0 <= i < n implies (is_digit(text[i]) || text[i] == '.') && text[i]
        == front[i] by {
        if i < w.len() {
            assert(text[i] == w[i]);
            assert(is_digit(w[i]));
        } else if i > w.len() {
            assert(text[i] == f[i - w.len() - 1]);
            assert(is_digit(f[i - w.len() - 1]));
        }
    }
    assert forall|i: int| 0 <= i < n implies text[i] != 'e' && text[i] != 'E' by {
        assert(is_digit(text[i]) || text[i] == '.');
    }
    if tail.len() > 0 {
        assert(text[n] == tail[0]);
    }
    lemma_first_of(text, 'e', 'E', n);
    let m = mantissa(text);
    assert(m =~= front);
    assert forall|i: int| 0 <= i < w.len() implies m[i] != '.' by {
        assert(m[i] == w[i]);
        assert(is_digit(w[i]));
    }
    lemma_first_of(m, '.', '.', w.len() as int);
    assert(whole_digits(m) =~= w);
    assert(fraction_digits(m) =~= f);
    assert(is_digit(text[0]) || text[0] == '.');
    assert(!is_word(text, "inf"@)) by {
        if is_word(text, "inf"@) {
            assert(same_letter(text[0], "inf"@[0]));
        }
    }
    assert(!is_word(text, "infinity"@)) by {
        if is_word(text, "infinity"@) {
            assert(same_letter(text[0], "infinity"@[0]));
        }
    }
    assert(!is_word(text, "nan"@)) by {
        if is_word(text, "nan"@) {
            assert(same_letter(text[0], "nan"@[0]));
        }
    }
}

/// Digits with a point are the number nearest to all of them over the power of
/// ten of those after the point.
pub proof fn law_point_text(w: Seq<char>, f: Seq<char>)
    requires
        forall|i: int| 0 <= i < w.len() ==> '0' <= #[trigger] w[i] && w[i] <= '9',
        forall|i: int| 0 <= i < f.len() ==> '0' <= #[trigger] f[i] && f[i] <= '9',
        w.len() + f.len() > 0,
    ensures
        real_of_text(w + seq!['.'] + f) == Some(
            rounded(false, digits_value(w + f) * one_unit(), ten_to(f.len())),
        ),
        w.len() > 0 ==> real_of_text(w) == Some(rounded(false, digits_value(w) * one_unit(), 1)),
{
    assert(all_digits(w)) by {
        assert forall|i: int| 0 <= i < w.len() implies is_digit(#[trigger] w[i]) by {}
    }
    assert(all_digits(f)) by {
        assert forall|i: int| 0 <= i < f.len() implies is_digit(#[trigger] f[i]) by {}
    }
    let none = Seq::<char>::empty();
    let text = w + seq!['.'] + f;
    lemma_parts(w, f, true, none);
    assert(text + none =~= text);
    assert(ten_to(0) == 1);
    assert(digits_value(w + f) * 1 == digits_value(w + f));
    if w.len() > 0 {
        lemma_parts(w, none, false, none);
        assert(w + none =~= w);
        assert(digits_value(w) * 1 == digits_value(w));
    }
}

/// An exponent, after either mark and an optional sign, scales by its power of
/// ten.
pub proof fn law_exponent_text(
    w: Seq<char>,
    f: Seq<char>,
    dot: bool,
    mark: char,
    sign: Seq<char>,
    x: Seq<char>,
)
    requires
        forall|i: int| 0 <= i < w.len() ==> '0' <= #[trigger] w[i] && w[i] <= '9',
        forall|i: int| 0 <= i < f.len() ==> '0' <= #[trigger] f[i] && f[i] <= '9',
        forall|i: int| 0 <= i < x.len() ==> '0' <= #[trigger] x[i] && x[i] <= '9',
        w.len() + f.len() > 0,
        dot || f.len() == 0,
        mark == 'e' || mark == 'E',
        sign == Seq::<char>::empty() || sign == seq!['+'] || sign == seq!['-'],
        x.len() > 0,
    ensures
        ({
            let text = if dot {
                w + seq!['.'] + f + (seq![mark] + sign + x)
            } else {
                w + (seq![mark] + sign + x)
            };
            let power = if sign == seq!['-'] {
                -(digits_value(x) as int) - f.len()
            } else {
                digits_value(x) as int - f.len()
            };
            let digits = digits_value(w + f);
            &&& power >= 0 ==> real_of_text(text) == Some(
                rounded(false, digits * ten_to(power as nat) * one_unit(), 1),
            )
            &&& power < 0 ==> real_of_text(text) == Some(
                rounded(false, digits * one_unit(), ten_to((-power) as nat)),
            )
        }),
{
    assert(all_digits(w)) by {
        assert forall|i: int| 0 <= i < w.len() implies is_digit(#[trigger] w[i]) by {}
    }
    assert(all_digits(f)) by {
        assert forall|i: int| 0 <= i < f.len() implies is_digit(#[trigger] f[i]) by {}
    }
    assert(all_digits(x)) by {
        assert forall|i: int| 0 <= i < x.len() implies is_digit(#[trigger] x[i]) by {}
    }
    let tail = seq![mark] + sign + x;
    let text = if dot {
        w + seq!['.'] + f + tail
    } else {
        w + tail
    };
    lemma_parts(w, f, dot, tail);
    let e = first_of(text, 'e', 'E') as int;
    let after = text.subrange(e + 1, text.len() as int);
    assert(after =~= sign + x);
    assert(is_digit(x[0]));
    if sign.len() > 0 {
        assert(after[0] == sign[0]);
        assert(after.subrange(1, after.len() as int) =~= x);
        assert(unsigned_part(after) == x);
        assert(sign == seq!['-'] || sign == seq!['+']);
        assert(has_minus(after) == (sign == seq!['-'])) by {
            if sign == seq!['+'] {
                assert(sign[0] == '+');
            }
        }
    } else {
        assert(after =~= x);
        assert(after[0] == x[0]);
        assert(unsigned_part(after) == x);
    }
    assert(exponent(text) is Some);
    assert(!(sign.len() == 0 && sign == seq!['-'])) by {
        if sign == seq!['-'] {
            assert(sign.len() == 1);
        }
    }
}

/// The word for what is not a number, in any case, is the only text for it.
pub proof fn law_nan_text(t: Seq<char>)
    ensures
        real_of_text(t) == Some(Real::Nan) <==> ({
            let b = if t.len() > 0 && (t[0] == '+' || t[0] == '-') {
                t.subrange(1, t.len() as int)
            } else {
                t
            };
            &&& b.len() == 3
            &&& b[0] == 'n' || b[0] == 'N'
            &&& b[1] == 'a' || b[1] == 'A'
            &&& b[2] == 'n' || b[2] == 'N'
        }),
{
    reveal_strlit("inf");
    reveal_strlit("infinity");
    reveal_strlit("nan");
    let b = unsigned_part(t);
    if is_word(b, "nan"@) {
        assert(same_letter(b[0], "nan"@[0]));
        assert(same_letter(b[1], "nan"@[1]));
        assert(same_letter(b[2], "nan"@[2]));
    }
    if b.len() == 3 && (b[0] == 'n' || b[0] == 'N') {
        if is_word(b, "inf"@) {
            assert(same_letter(b[0], "inf"@[0]));
        }
    }
}

/// The words for infinity, in any case.
pub proof fn law_infinity_text(t: Seq<char>, negative: bool)
    requires
        t.len() == 3 || t.len() == 8,
        t[0] == 'i' || t[0] == 'I',
        t[1] == 'n' || t[1] == 'N',
        t[2] == 'f' || t[2] == 'F',
        t.len() == 8 ==> {
            &&& t[3] == 'i' || t[3] == 'I'
            &&& t[4] == 'n' || t[4] == 'N'
            &&& t[5] == 'i' || t[5] == 'I'
            &&& t[6] == 't' || t[6] == 'T'
            &&& t[7] == 'y' || t[7] == 'Y'
        },
    ensures
        real_of_text(t) == Some(Real::Infinite { negative: false }),
        real_of_text(seq!['-'] + t) == Some(Real::Infinite { negative: true }),
        real_of_text(seq!['+'] + t) == Some(Real::Infinite { negative: false }),
{
    reveal_strlit("inf");
    reveal_strlit("infinity");
    law_signed_text(t);
    if t.len() == 3 {
        assert(is_word(t, "inf"@));
    } else {
        assert(is_word(t, "infinity"@));
    }
}

/// The place that is found holds one of the two characters.
proof fn lemma_found(s: Seq<char>, a: char, b: char)
    ensures
        first_of(s, a, b) <= s.len(),
        first_of(s, a, b) < s.len() ==> s[first_of(s, a, b) as int] == a || s[first_of(
            s,
            a,
            b,
        ) as int] == b,
    decreases s.len(),
{
    if s.len() > 0 && s[0] != a && s[0] != b {
        let t = s.subrange(1, s.len() as int);
        lemma_found(t, a, b);
    }
}

/// Whether a text is a sign, digits, a point with digits, and an exponent, each
/// in its form, one after the other.
pub open spec fn has_number_form(
    t: Seq<char>,
    sign: Seq<char>,
    w: Seq<char>,
    point: Seq<char>,
    f: Seq<char>,
    mark: Seq<char>,
    power_sign: Seq<char>,
    x: Seq<char>,
) -> bool {
    let none = Seq::<char>::empty();
    &&& t == sign + ((w + (point + f)) + (mark + (power_sign + x)))
    &&& sign == none || sign == seq!['+'] || sign == seq!['-']
    &&& forall|i: int| 0 <= i < w.len() ==> '0' <= #[trigger] w[i] && w[i] <= '9'
    &&& point == none && f == none || point == seq!['.']
    &&& forall|i: int| 0 <= i < f.len() ==> '0' <= #[trigger] f[i] && f[i] <= '9'
    &&& w.len() + f.len() > 0
    &&& mark == none && power_sign == none && x == none || (mark == seq!['e'] || mark == seq!['E'])
        && x.len() > 0
    &&& power_sign == none || power_sign == seq!['+'] || power_sign == seq!['-']
    &&& forall|i: int| 0 <= i < x.len() ==> '0' <= #[trigger] x[i] && x[i] <= '9'
}

/// A text that starts with a digit or a point, after a sign at most, is no word.
proof fn lemma_no_word(t: Seq<char>)
    requires
        ({
            let b = if t.len() > 0 && (t[0] == '+' || t[0] == '-') {
                t.subrange(1, t.len() as int)
            } else {
                t
            };
            b.len() > 0 ==> '0' <= b[0] && b[0] <= '9' || b[0] == '.'
        }),
    ensures
        !is_word(unsigned_part(t), "inf"@),
        !is_word(unsigned_part(t), "infinity"@),
        !is_word(unsigned_part(t), "nan"@),
{
    reveal_strlit("inf");
    reveal_strlit("infinity");
    reveal_strlit("nan");
    let b = unsigned_part(t);
    if b.len() > 0 {
        if is_word(b, "inf"@) {
            assert(same_letter(b[0], "inf"@[0]));
        }
        if is_word(b, "infinity"@) {
            assert(same_letter(b[0], "infinity"@[0]));
        }
        if is_word(b, "nan"@) {
            assert(same_letter(b[0], "nan"@[0]));
        }
    }
}

/// A text that starts with a letter, after a sign at most, is a number only as
/// the word for infinity, short or long, or for what is not a number.
pub proof fn law_words_only(t: Seq<char>)
    requires
        real_of_text(t) is Some,
    ensures
        ({
            let b = if t.len() > 0 && (t[0] == '+' || t[0] == '-') {
                t.subrange(1, t.len() as int)
            } else {
                t
            };
            b.len() > 0 && !('0' <= b[0] && b[0] <= '9') && b[0] != '.' ==> {
                ||| b.len() == 3 && (b[0] == 'n' || b[0] == 'N') && (b[1] == 'a' || b[1] == 'A') && (
                b[2] == 'n' || b[2] == 'N')
                ||| (b.len() == 3 || b.len() == 8) && (b[0] == 'i' || b[0] == 'I') && (b[1] == 'n'
                    || b[1] == 'N') && (b[2] == 'f' || b[2] == 'F') && (b.len() == 8 ==> {
                    &&& b[3] == 'i' || b[3] == 'I'
                    &&& b[4] == 'n' || b[4] == 'N'
                    &&& b[5] == 'i' || b[5] == 'I'
                    &&& b[6] == 't' || b[6] == 'T'
                    &&& b[7] == 'y' || b[7] == 'Y'
                })
            }
        }),
{
    reveal_strlit("inf");
    reveal_strlit("infinity");
    reveal_strlit("nan");
    let b = unsigned_part(t);
    if is_word(b, "nan"@) {
        assert(forall|i: int| 0 <= i < 3 ==> #[trigger] same_letter(b[i], "nan"@[i]));
        assert(same_letter(b[0], "nan"@[0]) && same_letter(b[1], "nan"@[1]) && same_letter(
            b[2],
            "nan"@[2],
        ));
    } else if is_word(b, "inf"@) {
        assert(same_letter(b[0], "inf"@[0]) && same_letter(b[1], "inf"@[1]) && same_letter(
            b[2],
            "inf"@[2],
        ));
    } else if is_word(b, "infinity"@) {
        let z = "infinity"@;
        assert(same_letter(b[0], z[0]) && same_letter(b[1], z[1]) && same_letter(b[2], z[2]));
        assert(same_letter(b[3], z[3]) && same_letter(b[4], z[4]) && same_letter(b[5], z[5]));
        assert(same_letter(b[6], z[6]) && same_letter(b[7], z[7]));
    } else if b.len() > 0 {
        let m = mantissa(b);
        lemma_found(b, 'e', 'E');
        lemma_found(m, '.', '.');
        assert(m.len() > 0);
        assert(m[0] == b[0]);
        if whole_digits(m).len() > 0 {
            assert(is_digit(whole_digits(m)[0]));
        }
    }
}

/// A text is its sign and the rest.
proof fn lemma_sign_form(t: Seq<char>) -> (sign: Seq<char>)
    ensures
        t == sign + unsigned_part(t),
        sign == Seq::<char>::empty() || sign == seq!['+'] || sign == seq!['-'],
{
    if unsigned_part(t).len() < t.len() {
        let sign = seq![t[0]];
        assert(t =~= sign + unsigned_part(t));
        sign
    } else {
        let sign = Seq::<char>::empty();
        assert(t =~= sign + unsigned_part(t));
        sign
    }
}

/// A mantissa is its digits around the point.
proof fn lemma_mantissa_form(m: Seq<char>) -> (point: Seq<char>)
    ensures
        m == whole_digits(m) + (point + fraction_digits(m)),
        point == Seq::<char>::empty() && fraction_digits(m) == Seq::<char>::empty() || point
            == seq!['.'],
{
    let d = first_of(m, '.', '.') as int;
    lemma_found(m, '.', '.');
    if d < m.len() {
        let point = seq![m[d]];
        assert(m =~= whole_digits(m) + (point + fraction_digits(m)));
        point
    } else {
        let point = Seq::<char>::empty();
        assert(m =~= whole_digits(m) + (point + fraction_digits(m)));
        point
    }
}

/// A text without a sign is its mantissa and the exponent after a mark.
proof fn lemma_mark_form(b: Seq<char>) -> (mark: Seq<char>)
    requires
        first_of(b, 'e', 'E') < b.len(),
    ensures
        b == mantissa(b) + (mark + b.subrange(first_of(b, 'e', 'E') as int + 1, b.len() as int)),
        mark == seq!['e'] || mark == seq!['E'],
{
    let e = first_of(b, 'e', 'E') as int;
    lemma_found(b, 'e', 'E');
    let mark = seq![b[e]];
    assert(b =~= mantissa(b) + (mark + b.subrange(e + 1, b.len() as int)));
    mark
}

/// A text that is a number and starts with a digit or a point, after a sign at
/// most, has the form of one.
pub proof fn law_number_text_form(t: Seq<char>)
    requires
        real_of_text(t) is Some,
        ({
            let b = if t.len() > 0 && (t[0] == '+' || t[0] == '-') {
                t.subrange(1, t.len() as int)
            } else {
                t
            };
            b.len() > 0 ==> '0' <= b[0] && b[0] <= '9' || b[0] == '.'
        }),
    ensures
        exists|
            sign: Seq<char>,
            w: Seq<char>,
            point: Seq<char>,
            f: Seq<char>,
            mark: Seq<char>,
            power_sign: Seq<char>,
            x: Seq<char>,
        |
            has_number_form(t, sign, w, point, f, mark, power_sign, x),
{
    let none = Seq::<char>::empty();
    let b = unsigned_part(t);
    lemma_no_word(t);
    let sign = lemma_sign_form(t);
    let m = mantissa(b);
    let (w, f) = (whole_digits(m), fraction_digits(m));
    let point = lemma_mantissa_form(m);
    lemma_found(b, 'e', 'E');
    lemma_all_digits(w);
    lemma_all_digits(f);
    let e = first_of(b, 'e', 'E') as int;
    if e == b.len() {
        assert(none + (none + none) =~= none);
        assert(b =~= m + none);
        assert(has_number_form(t, sign, w, point, f, none, none, none));
    } else {
        let mark = lemma_mark_form(b);
        let tail = b.subrange(e + 1, b.len() as int);
        let power_sign = lemma_sign_form(tail);
        let x = unsigned_part(tail);
        lemma_all_digits(x);
        assert(has_number_form(t, sign, w, point, f, mark, power_sign, x));
    }
}

proof fn lemma_all_digits(s: Seq<char>)
    ensures
        all_digits(s) ==> (forall|i: int|
            0 <= i < s.len() ==> '0' <= #[trigger] s[i] && s[i] <= '9'),
{
    if all_digits(s) {
        assert forall|i: int| 0 <= i < s.len() implies '0' <= #[trigger] s[i] && s[i] <= '9' by {
            assert(is_digit(s[i]));
        }
    }
}

/// A text without a digit is no finite number, and the empty text is none at
/// all.
pub proof fn law_number_text_has_digits(t: Seq<char>)
    ensures
        t.len() == 0 ==> real_of_text(t) is None,
        real_of_text(t) is Some && real_of_text(t)->0 is Finite ==> exists|i: int|
            0 <= i < t.len() && '0' <= #[trigger] t[i] && t[i] <= '9',
{
    reveal_strlit("inf");
    reveal_strlit("infinity");
    reveal_strlit("nan");
    let body = unsigned_part(t);
    if real_of_text(t) is Some && (real_of_text(t)->0 is Finite || t.len() == 0) {
        assert(decimal_of_text(has_minus(t), body) is Some);
        lemma_found(body, 'e', 'E');
        let m = mantissa(body);
        lemma_found(m, '.', '.');
        let d = first_of(m, '.', '.') as int;
        let shift = t.len() - body.len();
        if whole_digits(m).len() > 0 {
            assert(is_digit(whole_digits(m)[0]));
            assert(t[shift] == whole_digits(m)[0]);
        } else {
            assert(is_digit(fraction_digits(m)[0]));
            assert(t[shift + d + 1] == fraction_digits(m)[0]);
        }
    }
}

} // verus!
