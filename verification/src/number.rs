//! Decimal numbers as text: integers as the protocol and the requests write
//! them, and fixed-point numbers with four decimal places.

use crate::text::{is_digit, strip_trailing, without_trailing};
use vstd::arithmetic::div_mod::{
    lemma_basic_div, lemma_div_denominator, lemma_div_pos_is_pos,
    lemma_fundamental_div_mod_converse_div,
};
use vstd::arithmetic::power::{
    lemma_pow0, lemma_pow_adds, lemma_pow_increases, lemma_pow_positive, pow,
};
use vstd::prelude::*;

verus! {

/// The largest magnitude, in ten-thousandths, that `parse_scaled` accepts.
pub const SCALED_LIMIT: i64 = 1_000_000_000_000;

/// What the digit `c` counts for.
pub open spec fn digit_value(c: char) -> int {
    c as int - 48
}

/// The character for the digit `d`, `0 <= d < 10`.
pub open spec fn digit_char(d: int) -> char {
    (d + 48) as char
}

/// Every character of `s` is a decimal digit.
pub open spec fn all_digits(s: Seq<char>) -> bool {
    forall|i: int| 0 <= i < s.len() ==> is_digit(#[trigger] s[i])
}

/// The number that the digits `s` write in base ten (0 for no digits).
pub open spec fn digits_value(s: Seq<char>) -> nat
    decreases s.len(),
{
    if s.len() == 0 {
        0
    } else {
        (digits_value(s.drop_last()) * 10 + digit_value(s.last())) as nat
    }
}

/// A plus or minus sign.
pub open spec fn is_sign(c: char) -> bool {
    c == '+' || c == '-'
}

/// `s` without a leading sign.
pub open spec fn unsigned_part(s: Seq<char>) -> Seq<char> {
    if s.len() > 0 && is_sign(s[0]) {
        s.subrange(1, s.len() as int)
    } else {
        s
    }
}

/// Whether `s` starts with a minus sign.
pub open spec fn is_negative(s: Seq<char>) -> bool {
    s.len() > 0 && s[0] == '-'
}

/// The integer that `s` writes: an optional sign, then at least one digit and
/// nothing else. `None` for any other text.
pub open spec fn integer_value(s: Seq<char>) -> Option<int> {
    let body = unsigned_part(s);
    if body.len() > 0 && all_digits(body) {
        Some(
            if is_negative(s) {
                -(digits_value(body) as int)
            } else {
                digits_value(body) as int
            },
        )
    } else {
        None
    }
}

/// The integer that `s` writes if it lies between `lo` and `hi`.
pub open spec fn integer_within(s: Seq<char>, lo: int, hi: int) -> Option<int> {
    match integer_value(s) {
        Some(n) => if lo <= n <= hi {
            Some(n)
        } else {
            None
        },
        None => None,
    }
}

/// The decimal digits of `n`, without leading zeros.
pub open spec fn decimal(n: nat) -> Seq<char>
    decreases n,
{
    if n < 10 {
        seq![digit_char(n as int)]
    } else {
        decimal(n / 10).push(digit_char((n % 10) as int))
    }
}

/// The first index at or after `i` where `s` holds `c`, or the length.
pub open spec fn find_char(s: Seq<char>, c: char, i: int) -> int
    decreases s.len() - i,
{
    if 0 <= i < s.len() && s[i] != c {
        find_char(s, c, i + 1)
    } else {
        i
    }
}

/// The letter that starts an exponent.
pub open spec fn is_exponent_mark(c: char) -> bool {
    c == 'e' || c == 'E'
}

/// The first index at or after `i` where `s` holds an exponent's letter, or
/// the length.
pub open spec fn find_mark(s: Seq<char>, i: int) -> int
    decreases s.len() - i,
{
    if 0 <= i < s.len() && !is_exponent_mark(s[i]) {
        find_mark(s, i + 1)
    } else {
        i
    }
}

/// What stands before the exponent's letter of `s`.
pub open spec fn mantissa_part(s: Seq<char>) -> Seq<char> {
    s.subrange(0, find_mark(s, 0))
}

/// The exponent of `s`: the integer behind the exponent's letter, 0 where
/// there is no such letter, `None` where no integer follows it.
pub open spec fn exponent_value(s: Seq<char>) -> Option<int> {
    let q = find_mark(s, 0);
    if q < s.len() {
        integer_value(s.subrange(q + 1, s.len() as int))
    } else {
        Some(0)
    }
}

/// What stands before the decimal point of `s`.
pub open spec fn whole_part(s: Seq<char>) -> Seq<char> {
    s.subrange(0, find_char(s, '.', 0))
}

/// What stands after the decimal point of `s`; empty where there is none.
pub open spec fn fraction_part(s: Seq<char>) -> Seq<char> {
    let p = find_char(s, '.', 0);
    if p < s.len() {
        s.subrange(p + 1, s.len() as int)
    } else {
        Seq::empty()
    }
}

/// `d` times the `k`-th power of ten, rounded towards zero.
pub open spec fn scaled_by(d: int, k: int) -> int {
    if k >= 0 {
        d * pow(10, k as nat)
    } else {
        d / pow(10, (-k) as nat)
    }
}

/// The magnitude, in ten-thousandths, of the unsigned decimal number `s`:
/// digits, optionally a point and more digits, with at least one digit in
/// all, and optionally an exponent (`e` or `E` and an integer). What lies
/// beyond the fourth decimal place is cut off.
pub open spec fn magnitude(s: Seq<char>) -> Option<int> {
    let w = whole_part(mantissa_part(s));
    let f = fraction_part(mantissa_part(s));
    match exponent_value(s) {
        Some(e) => if all_digits(w) && all_digits(f) && w.len() + f.len() > 0 {
            Some(scaled_by(digits_value(w + f) as int, e + 4 - f.len()))
        } else {
            None
        },
        None => None,
    }
}

/// The number that `s` writes in decimal notation, in ten-thousandths: an
/// optional sign and a magnitude. `None` for any other text (an infinity and
/// a not-a-number among them) and for a magnitude above `SCALED_LIMIT`.
pub open spec fn scaled_value(s: Seq<char>) -> Option<int> {
    match magnitude(unsigned_part(s)) {
        Some(m) => if m <= SCALED_LIMIT {
            Some(
                if is_negative(s) {
                    -m
                } else {
                    m
                },
            )
        } else {
            None
        },
        None => None,
    }
}

/// The four decimal places of `f` ten-thousandths, `0 <= f < 10000`.
pub open spec fn four_places(f: int) -> Seq<char> {
    seq![
        digit_char(f / 1000),
        digit_char((f / 100) % 10),
        digit_char((f / 10) % 10),
        digit_char(f % 10),
    ]
}

/// The magnitude of `v`.
pub open spec fn abs(v: int) -> int {
    if v < 0 {
        -v
    } else {
        v
    }
}

/// The number of `v` ten-thousandths in plain decimal notation: a minus sign
/// if it is negative, the whole part, and, unless the fraction is zero, a
/// point and the decimal places without the zeros at their end.
pub open spec fn scaled_text(v: int) -> Seq<char> {
    let sign = if v < 0 {
        seq!['-']
    } else {
        Seq::<char>::empty()
    };
    let places = without_trailing(four_places(abs(v) % 10000), '0');
    let fraction = if places.len() > 0 {
        seq!['.'] + places
    } else {
        Seq::<char>::empty()
    };
    sign + decimal((abs(v) / 10000) as nat) + fraction
}

/// Where `find_char` stops.
pub proof fn lemma_find_char(s: Seq<char>, c: char, i: int)
    requires
        0 <= i <= s.len(),
    ensures
        i <= find_char(s, c, i) <= s.len(),
        forall|k: int| i <= k < find_char(s, c, i) ==> #[trigger] s[k] != c,
        find_char(s, c, i) < s.len() ==> s[find_char(s, c, i)] == c,
    decreases s.len() - i,
{
    if i < s.len() && s[i] != c {
        lemma_find_char(s, c, i + 1);
    }
}

/// `find_char` stops at the first index that holds `c`.
pub proof fn lemma_find_char_at(s: Seq<char>, c: char, i: int, p: int)
    requires
        0 <= i <= p <= s.len(),
        forall|k: int| i <= k < p ==> #[trigger] s[k] != c,
        p < s.len() ==> s[p] == c,
    ensures
        find_char(s, c, i) == p,
    decreases p - i,
{
    if i < p {
        lemma_find_char_at(s, c, i + 1, p);
    }
}

/// Appending one digit multiplies by ten and adds the digit.
pub proof fn lemma_digits_push(s: Seq<char>, c: char)
    ensures
        digits_value(s.push(c)) == (digits_value(s) * 10 + digit_value(c)) as nat,
{
    assert(s.push(c).drop_last() =~= s);
}

/// Digits never lose value by being continued.
pub proof fn lemma_digits_prefix(s: Seq<char>, i: int)
    requires
        all_digits(s),
        0 <= i <= s.len(),
    ensures
        digits_value(s.take(i)) <= digits_value(s),
    decreases s.len() - i,
{
    if i < s.len() {
        lemma_digits_prefix(s, i + 1);
        assert(s.take(i + 1).drop_last() =~= s.take(i));
        assert(is_digit(s[i]));
        assert(s.take(i + 1).last() == s[i]);
    } else {
        assert(s.take(i) =~= s);
    }
}

/// What `decimal` writes is read back as the same number.
pub proof fn lemma_decimal(n: nat)
    ensures
        decimal(n).len() >= 1,
        all_digits(decimal(n)),
        digits_value(decimal(n)) == n,
        integer_value(decimal(n)) == Some(n as int),
    decreases n,
{
    if n < 10 {
        let s = decimal(n);
        assert(s.len() == 1);
        assert(s[0] == digit_char(n as int));
        assert(s.drop_last() =~= Seq::<char>::empty());
        assert(digits_value(s.drop_last()) == 0);
    } else {
        lemma_decimal(n / 10);
        lemma_digits_push(decimal(n / 10), digit_char((n % 10) as int));
        assert(decimal(n)[0] == decimal(n / 10)[0]);
    }
    assert(is_digit(decimal(n)[0]));
}

/// Tests for a decimal digit.
pub fn digit(c: char) -> (r: bool)
    ensures
        r == is_digit(c),
{
    '0' <= c && c <= '9'
}

/// Reads the integer that `v` writes, if it lies between `lo` and `hi`.
pub fn parse_integer(v: &Vec<char>, lo: i64, hi: i64) -> (r: Option<i64>)
    ensures
        match r {
            Some(n) => integer_within(v@, lo as int, hi as int) == Some(n as int),
            None => integer_within(v@, lo as int, hi as int) is None,
        },
{
    let n = v.len();
    if n == 0 {
        return None;
    }
    let negative = v[0] == '-';
    let start: usize = if v[0] == '-' || v[0] == '+' {
        1
    } else {
        0
    };
    let ghost body = unsigned_part(v@);
    assert(body =~= v@.subrange(start as int, n as int));
    if start == n {
        return None;
    }
    let mut acc: u128 = 0;
    let mut i: usize = start;
    assert(body.take(0) =~= Seq::<char>::empty());
    while i < n
        invariant
            start <= i <= n,
            n == v.len(),
            body == v@.subrange(start as int, n as int),
            body == unsigned_part(v@),
            all_digits(body.take(i - start)),
            acc == digits_value(body.take(i - start)),
            acc <= 0x8000_0000_0000_0000,
        decreases n - i,
    {
        let c = v[i];
        if !digit(c) {
            assert(body[i - start] == c);
            return None;
        }
        let d: u128 = (c as u32 - 48) as u128;
        proof {
            assert(body.take(i - start + 1) =~= body.take(i - start).push(c));
            lemma_digits_push(body.take(i - start), c);
            assert forall|k: int| 0 <= k < i - start + 1 implies is_digit(
                #[trigger] body.take(i - start + 1)[k],
            ) by {
                if k < i - start {
                    assert(body.take(i - start)[k] == body[k]);
                }
            }
        }
        acc = acc * 10 + d;
        if acc > 0x8000_0000_0000_0000 {
            proof {
                if all_digits(body) {
                    lemma_digits_prefix(body, i - start + 1);
                }
            }
            return None;
        }
        i += 1;
    }
    assert(body.take(n - start) =~= body);
    if negative {
        if acc == 0x8000_0000_0000_0000 {
            if lo == i64::MIN {
                Some(i64::MIN)
            } else {
                None
            }
        } else {
            let m: i64 = -(acc as i64);
            if lo <= m && m <= hi {
                Some(m)
            } else {
                None
            }
        }
    } else {
        if acc == 0x8000_0000_0000_0000 {
            None
        } else {
            let m: i64 = acc as i64;
            if lo <= m && m <= hi {
                Some(m)
            } else {
                None
            }
        }
    }
}

/// Appends the decimal digits of `n` to `out`.
pub fn push_decimal(out: &mut Vec<char>, n: u64)
    ensures
        final(out)@ == old(out)@ + decimal(n as nat),
    decreases n,
{
    if n < 10 {
        let c = (n as u8 + 48) as char;
        out.push(c);
        assert(out@ =~= old(out)@ + decimal(n as nat));
    } else {
        push_decimal(out, n / 10);
        let c = ((n % 10) as u8 + 48) as char;
        out.push(c);
        assert(out@ =~= old(out)@ + decimal(n as nat));
    }
}

/// The largest magnitude of an exponent that is told apart: beyond it an
/// exponent counts as this much.
pub const EXPONENT_CAP: i128 = 100_000_000_000_000_000_000;

/// `x`, but no further from zero than `EXPONENT_CAP`.
pub open spec fn capped(x: int) -> int {
    if x > EXPONENT_CAP {
        EXPONENT_CAP as int
    } else if x < -EXPONENT_CAP {
        -EXPONENT_CAP
    } else {
        x
    }
}

/// Where `find_mark` stops.
pub proof fn lemma_find_mark(s: Seq<char>, i: int)
    requires
        0 <= i <= s.len(),
    ensures
        i <= find_mark(s, i) <= s.len(),
        forall|k: int| i <= k < find_mark(s, i) ==> !is_exponent_mark(#[trigger] s[k]),
        find_mark(s, i) < s.len() ==> is_exponent_mark(s[find_mark(s, i)]),
    decreases s.len() - i,
{
    if i < s.len() && !is_exponent_mark(s[i]) {
        lemma_find_mark(s, i + 1);
    }
}

/// Digits write a number below the power of ten of their count.
pub proof fn lemma_digits_bound(s: Seq<char>)
    requires
        all_digits(s),
    ensures
        digits_value(s) < pow(10, s.len()),
    decreases s.len(),
{
    reveal_with_fuel(pow, 2);
    if s.len() > 0 {
        let head = s.drop_last();
        assert forall|k: int| 0 <= k < head.len() implies is_digit(#[trigger] head[k]) by {
            assert(head[k] == s[k]);
        }
        lemma_digits_bound(head);
        assert(is_digit(s.last()));
        assert(pow(10, s.len()) == 10 * pow(10, head.len()));
    }
}

/// Cutting digits off the end divides by the power of ten of their count.
pub proof fn lemma_digits_truncate(s: Seq<char>, j: int)
    requires
        all_digits(s),
        0 <= j <= s.len(),
    ensures
        digits_value(s) as int / pow(10, (s.len() - j) as nat) == digits_value(s.take(j)),
    decreases s.len() - j,
{
    reveal_with_fuel(pow, 2);
    if j == s.len() {
        assert(s.take(j) =~= s);
        assert(pow(10, 0) == 1);
    } else {
        lemma_digits_truncate(s, j + 1);
        let a = digits_value(s.take(j)) as int;
        let d = digit_value(s[j]);
        assert(s.take(j + 1).drop_last() =~= s.take(j));
        assert(s.take(j + 1).last() == s[j]);
        assert(is_digit(s[j]));
        assert(digits_value(s.take(j + 1)) == a * 10 + d);
        let c = pow(10, (s.len() - j - 1) as nat);
        lemma_pow_positive(10, (s.len() - j - 1) as nat);
        assert(pow(10, (s.len() - j) as nat) == 10 * c);
        lemma_div_denominator(digits_value(s) as int, c, 10);
        assert(c * 10 == 10 * c);
        lemma_fundamental_div_mod_converse_div(a * 10 + d, 10, a, d);
    }
}

/// A number of digits moved down by at least their count leaves nothing.
pub proof fn lemma_scaled_small(s: Seq<char>, k: int)
    requires
        all_digits(s),
        k <= -s.len(),
    ensures
        scaled_by(digits_value(s) as int, k) == 0,
{
    lemma_digits_bound(s);
    lemma_pow0(10);
    if k < 0 {
        lemma_pow_increases(10, s.len(), (-k) as nat);
        lemma_basic_div(digits_value(s) as int, pow(10, (-k) as nat));
    } else {
        assert(s.len() == 0 && k == 0);
        assert(digits_value(s) == 0);
        let p = pow(10, 0);
        assert(0 * p == 0) by (nonlinear_arith);
    }
}

/// Nothing stays nothing at every power of ten, and anything else moved up
/// by thirteen places or more is beyond the limit.
pub proof fn lemma_scaled_large(d: int, k: int)
    requires
        0 <= d,
        13 <= k,
    ensures
        d == 0 ==> scaled_by(d, k) == 0,
        d >= 1 ==> scaled_by(d, k) > SCALED_LIMIT,
{
    assert(pow(10, 13) == 10_000_000_000_000) by {
        reveal_with_fuel(pow, 14);
    }
    lemma_pow_increases(10, 13, k as nat);
    let p = pow(10, k as nat);
    if d >= 1 {
        assert(d * p >= p) by (nonlinear_arith)
            requires
                d >= 1,
                p >= 0,
        ;
    } else {
        assert(d * p == 0) by (nonlinear_arith)
            requires
                d == 0,
        ;
    }
}

/// Moving a number that is not negative by powers of ten leaves it so.
pub proof fn lemma_scaled_by_is_not_negative(d: int, k: int)
    requires
        0 <= d,
    ensures
        0 <= scaled_by(d, k),
{
    if k >= 0 {
        lemma_pow_positive(10, k as nat);
        let p = pow(10, k as nat);
        assert(d * p >= 0) by (nonlinear_arith)
            requires
                d >= 0,
                p >= 0,
        ;
    } else {
        lemma_pow_positive(10, (-k) as nat);
        lemma_div_pos_is_pos(d, pow(10, (-k) as nat));
    }
}

/// What `scaled_value` gives lies within the limit on either side of zero.
pub proof fn lemma_scaled_value_bound(s: Seq<char>)
    ensures
        scaled_value(s) is Some ==> -SCALED_LIMIT <= scaled_value(s)->Some_0 <= SCALED_LIMIT,
{
    let body = unsigned_part(s);
    if magnitude(body) is Some {
        let w = whole_part(mantissa_part(body));
        let f = fraction_part(mantissa_part(body));
        lemma_scaled_by_is_not_negative(
            digits_value(w + f) as int,
            exponent_value(body)->Some_0 + 4 - f.len(),
        );
    }
}

/// `find_mark` stops at the first index that holds an exponent's letter.
pub proof fn lemma_find_mark_at(s: Seq<char>, i: int, p: int)
    requires
        0 <= i <= p <= s.len(),
        forall|k: int| i <= k < p ==> !is_exponent_mark(#[trigger] s[k]),
        p < s.len() ==> is_exponent_mark(s[p]),
    ensures
        find_mark(s, i) == p,
    decreases p - i,
{
    if i < p {
        lemma_find_mark_at(s, i + 1, p);
    }
}

/// Digits behind other digits count on from their power of ten.
pub proof fn lemma_digits_concat(a: Seq<char>, b: Seq<char>)
    requires
        all_digits(b),
    ensures
        digits_value(a + b) == digits_value(a) * pow(10, b.len()) + digits_value(b),
    decreases b.len(),
{
    reveal_with_fuel(pow, 2);
    if b.len() == 0 {
        assert(a + b =~= a);
        assert(digits_value(a) * pow(10, 0) == digits_value(a)) by (nonlinear_arith)
            requires
                pow(10, 0) == 1,
        ;
    } else {
        let head = b.drop_last();
        assert forall|k: int| 0 <= k < head.len() implies is_digit(#[trigger] head[k]) by {
            assert(head[k] == b[k]);
        }
        lemma_digits_concat(a, head);
        assert((a + b).drop_last() =~= a + head);
        assert((a + b).last() == b.last());
        assert(is_digit(b.last()));
        let x = digits_value(a) as int;
        let p = pow(10, head.len());
        assert(pow(10, b.len()) == 10 * p);
        assert((x * p + digits_value(head)) * 10 == x * (10 * p) + digits_value(head) * 10)
            by (nonlinear_arith);
    }
}

/// Digits without the zeros at their end write the same number, but for the
/// power of ten of the zeros that went.
pub proof fn lemma_digits_without_zeros(s: Seq<char>)
    requires
        all_digits(s),
    ensures
        all_digits(without_trailing(s, '0')),
        without_trailing(s, '0').len() <= s.len(),
        digits_value(s) == digits_value(without_trailing(s, '0')) * pow(
            10,
            (s.len() - without_trailing(s, '0').len()) as nat,
        ),
    decreases s.len(),
{
    reveal_with_fuel(pow, 2);
    let t = without_trailing(s, '0');
    if s.len() > 0 && s.last() == '0' {
        let head = s.drop_last();
        assert forall|k: int| 0 <= k < head.len() implies is_digit(#[trigger] head[k]) by {
            assert(head[k] == s[k]);
        }
        lemma_digits_without_zeros(head);
        let x = digits_value(t) as int;
        let p = pow(10, (head.len() - t.len()) as nat);
        assert(pow(10, (s.len() - t.len()) as nat) == 10 * p);
        assert((x * p) * 10 == x * (10 * p)) by (nonlinear_arith);
    } else {
        assert(digits_value(t) * pow(10, 0) == digits_value(t)) by (nonlinear_arith)
            requires
                pow(10, 0) == 1,
        ;
    }
}

/// The four decimal places write the ten-thousandths that they stand for.
pub proof fn lemma_four_places(f: int)
    requires
        0 <= f < 10000,
    ensures
        all_digits(four_places(f)),
        digits_value(four_places(f)) == f,
{
    let s = four_places(f);
    let s3 = s.drop_last();
    let s2 = s3.drop_last();
    let s1 = s2.drop_last();
    assert(s1.drop_last() =~= Seq::<char>::empty());
    assert(digits_value(s1.drop_last()) == 0);
    assert(s1.last() == digit_char(f / 1000));
    assert(digits_value(s1) == f / 1000);
    assert(s2.last() == digit_char((f / 100) % 10));
    assert(digits_value(s2) == f / 100);
    assert(s3.last() == digit_char((f / 10) % 10));
    assert(digits_value(s3) == f / 10);
    assert(s.last() == digit_char(f % 10));
}

/// What `scaled_text` writes is read back as the same number.
pub proof fn lemma_scaled_text_is_read(v: int)
    requires
        -SCALED_LIMIT <= v <= SCALED_LIMIT,
    ensures
        scaled_value(scaled_text(v)) == Some(v),
{
    let whole = abs(v) / 10000;
    let rest = abs(v) % 10000;
    let dw = decimal(whole as nat);
    let four = four_places(rest);
    let places = without_trailing(four, '0');
    let fraction = if places.len() > 0 {
        seq!['.'] + places
    } else {
        Seq::<char>::empty()
    };
    let body = dw + fraction;
    let text = scaled_text(v);
    lemma_decimal(whole as nat);
    lemma_four_places(rest);
    lemma_digits_without_zeros(four);
    assert(is_digit(dw[0]));
    if v < 0 {
        assert(text =~= seq!['-'] + body);
        assert(text[0] == '-');
        assert(unsigned_part(text) =~= body);
    } else {
        assert(text =~= body);
        assert(text[0] == dw[0]);
    }
    // Neither an exponent nor a second point stands in what was written.
    assert forall|k: int| 0 <= k < body.len() implies !is_exponent_mark(#[trigger] body[k]) by {
        if k < dw.len() {
            assert(body[k] == dw[k]);
            assert(is_digit(dw[k]));
        } else if k > dw.len() {
            assert(body[k] == places[k - dw.len() - 1]);
            assert(is_digit(places[k - dw.len() - 1]));
        }
    }
    lemma_find_mark_at(body, 0, body.len() as int);
    assert(mantissa_part(body) =~= body);
    assert forall|k: int| 0 <= k < dw.len() implies #[trigger] body[k] != '.' by {
        assert(body[k] == dw[k]);
        assert(is_digit(dw[k]));
    }
    lemma_find_char_at(body, '.', 0, dw.len() as int);
    assert(whole_part(body) =~= dw);
    assert(fraction_part(body) =~= places);
    lemma_digits_concat(dw, places);
    // The places and the zeros that went make up the four decimal places.
    let up = pow(10, places.len());
    let down = pow(10, (4 - places.len()) as nat);
    lemma_pow_adds(10, places.len(), (4 - places.len()) as nat);
    assert(pow(10, 4) == 10000) by {
        reveal_with_fuel(pow, 5);
    }
    let w = whole as int;
    let d = digits_value(places) as int;
    assert((w * up + d) * down == w * (up * down) + d * down) by (nonlinear_arith);
    assert(scaled_by(digits_value(dw + places) as int, 4 - places.len()) == abs(v));
}

/// Reads the integer that `v[from..]` writes, capped at `EXPONENT_CAP`.
fn parse_capped(v: &Vec<char>, from: usize) -> (r: Option<i128>)
    requires
        from <= v.len(),
    ensures
        match integer_value(v@.subrange(from as int, v.len() as int)) {
            Some(x) => r == Some(capped(x) as i128),
            None => r is None,
        },
{
    let n = v.len();
    let ghost s = v@.subrange(from as int, n as int);
    if from == n {
        return None;
    }
    assert(s[0] == v[from as int]);
    let negative = v[from] == '-';
    let start: usize = if v[from] == '-' || v[from] == '+' {
        from + 1
    } else {
        from
    };
    let ghost body = unsigned_part(s);
    assert(body =~= v@.subrange(start as int, n as int));
    if start == n {
        return None;
    }
    let mut acc: i128 = 0;
    let mut i: usize = start;
    assert(body.take(0) =~= Seq::<char>::empty());
    while i < n
        invariant
            start <= i <= n,
            n == v.len(),
            s == v@.subrange(from as int, n as int),
            body == v@.subrange(start as int, n as int),
            body == unsigned_part(s),
            all_digits(body.take(i - start)),
            acc == if digits_value(body.take(i - start)) > EXPONENT_CAP {
                EXPONENT_CAP as int
            } else {
                digits_value(body.take(i - start)) as int
            },
        decreases n - i,
    {
        let c = v[i];
        if !digit(c) {
            assert(body[i - start] == c);
            return None;
        }
        let d: i128 = (c as u32 - 48) as i128;
        proof {
            assert(body.take(i - start + 1) =~= body.take(i - start).push(c));
            lemma_digits_push(body.take(i - start), c);
            assert forall|k: int| 0 <= k < i - start + 1 implies is_digit(
                #[trigger] body.take(i - start + 1)[k],
            ) by {
                if k < i - start {
                    assert(body.take(i - start)[k] == body[k]);
                }
            }
        }
        acc = acc * 10 + d;
        if acc > EXPONENT_CAP {
            acc = EXPONENT_CAP;
        }
        i += 1;
    }
    assert(body.take(n - start) =~= body);
    if negative {
        Some(-acc)
    } else {
        Some(acc)
    }
}

/// The number that the digits `d` write, moved by `k` powers of ten and
/// rounded towards zero; `None` where it is beyond the limit.
fn scale_digits(d: &Vec<char>, k: i128) -> (r: Option<i64>)
    requires
        all_digits(d@),
    ensures
        match r {
            Some(x) => scaled_by(digits_value(d@) as int, k as int) == x && 0 <= x
                <= SCALED_LIMIT,
            None => scaled_by(digits_value(d@) as int, k as int) > SCALED_LIMIT,
        },
{
    let n = d.len();
    let keep: usize = if k >= 0 {
        n
    } else if k <= -(n as i128) {
        0
    } else {
        (n as i128 + k) as usize
    };
    let ghost kept = d@.take(keep as int);
    assert forall|t: int| 0 <= t < kept.len() implies is_digit(#[trigger] kept[t]) by {
        assert(kept[t] == d@[t]);
    }
    proof {
        lemma_pow0(10);
        if k >= 0 {
            assert(kept =~= d@);
            lemma_pow_positive(10, k as nat);
        } else if -k >= n as int {
            lemma_scaled_small(d@, k as int);
            assert(kept =~= Seq::<char>::empty());
        } else {
            lemma_digits_truncate(d@, keep as int);
        }
    }
    // Here scaled_by, for k below zero, is the number that the kept digits write.
    assert(k < 0 ==> scaled_by(digits_value(d@) as int, k as int) == digits_value(kept));
    let mut acc: i64 = 0;
    let mut i: usize = 0;
    assert(kept.take(0) =~= Seq::<char>::empty());
    while i < keep
        invariant
            i <= keep <= d.len(),
            kept == d@.take(keep as int),
            all_digits(kept),
            acc == digits_value(kept.take(i as int)),
            0 <= acc <= SCALED_LIMIT,
            k >= 0 ==> kept == d@,
            k < 0 ==> scaled_by(digits_value(d@) as int, k as int) == digits_value(kept),
        decreases keep - i,
    {
        let c = d[i];
        assert(kept[i as int] == c);
        assert(is_digit(c));
        let v: i64 = (c as u32 - 48) as i64;
        proof {
            assert(kept.take(i + 1) =~= kept.take(i as int).push(c));
            lemma_digits_push(kept.take(i as int), c);
        }
        acc = acc * 10 + v;
        if acc > SCALED_LIMIT {
            proof {
                lemma_digits_prefix(kept, i + 1);
                if k >= 0 {
                    lemma_pow_positive(10, k as nat);
                    let whole = digits_value(kept) as int;
                    let p = pow(10, k as nat);
                    assert(whole * p >= whole) by (nonlinear_arith)
                        requires
                            whole >= 0,
                            p >= 1,
                    ;
                }
            }
            return None;
        }
        i += 1;
    }
    assert(kept.take(keep as int) =~= kept);
    if k <= 0 {
        proof {
            if k == 0 {
                assert(acc * pow(10, 0) == acc) by (nonlinear_arith)
                    requires
                        pow(10, 0) == 1,
                ;
            }
        }
        return Some(acc);
    }
    if acc == 0 {
        assert(0 * pow(10, k as nat) == 0) by (nonlinear_arith);
        return Some(0);
    }
    let mut cur: i64 = acc;
    let mut t: i128 = 0;
    assert(acc * pow(10, 0) == acc) by (nonlinear_arith)
        requires
            pow(10, 0) == 1,
    ;
    while t < k
        invariant
            0 <= t <= k,
            1 <= acc <= SCALED_LIMIT,
            acc == digits_value(d@),
            cur == acc * pow(10, t as nat),
            1 <= cur <= SCALED_LIMIT,
        decreases k - t,
    {
        proof {
            reveal_with_fuel(pow, 2);
            assert(pow(10, (t + 1) as nat) == 10 * pow(10, t as nat));
            let p = pow(10, t as nat);
            assert(acc * (10 * p) == (acc * p) * 10) by (nonlinear_arith);
        }
        if cur > SCALED_LIMIT / 10 {
            proof {
                lemma_pow_increases(10, (t + 1) as nat, k as nat);
                let lo = pow(10, (t + 1) as nat);
                let hi = pow(10, k as nat);
                assert(acc * hi >= acc * lo) by (nonlinear_arith)
                    requires
                        acc >= 1,
                        hi >= lo,
                ;
            }
            return None;
        }
        cur = cur * 10;
        t = t + 1;
    }
    Some(cur)
}

/// The first index at or after `start` where `v` holds an exponent's
/// letter, or the length.
fn find_exponent(v: &Vec<char>, start: usize) -> (q: usize)
    requires
        start <= v.len(),
    ensures
        start <= q <= v.len(),
        q - start == find_mark(v@.subrange(start as int, v.len() as int), 0),
{
    let n = v.len();
    let ghost body = v@.subrange(start as int, n as int);
    let mut q: usize = start;
    proof {
        lemma_find_mark(body, 0);
    }
    while q < n && !(v[q] == 'e' || v[q] == 'E')
        invariant
            start <= q <= n,
            n == v.len(),
            body == v@.subrange(start as int, n as int),
            find_mark(body, q - start) == find_mark(body, 0),
        decreases n - q,
    {
        assert(body[q - start] == v[q as int]);
        q += 1;
    }
    q
}

/// The digits of the mantissa `v[start..q]`, those before the point and
/// those behind it in one row, with the number of those behind it; `None`
/// where something other than digits stands on either side of the point.
fn mantissa_digits(v: &Vec<char>, start: usize, q: usize) -> (r: Option<(Vec<char>, usize)>)
    requires
        start <= q <= v.len(),
    ensures
        match r {
            Some((d, fl)) => {
                &&& all_digits(whole_part(v@.subrange(start as int, q as int)))
                &&& all_digits(fraction_part(v@.subrange(start as int, q as int)))
                &&& d@ == whole_part(v@.subrange(start as int, q as int)) + fraction_part(
                    v@.subrange(start as int, q as int),
                )
                &&& fl == fraction_part(v@.subrange(start as int, q as int)).len()
                &&& all_digits(d@)
            },
            None => !all_digits(whole_part(v@.subrange(start as int, q as int))) || !all_digits(
                fraction_part(v@.subrange(start as int, q as int)),
            ),
        },
{
    let ghost m = v@.subrange(start as int, q as int);
    let mut digits: Vec<char> = Vec::new();
    let mut p: usize = start;
    proof {
        lemma_find_char(m, '.', 0);
        assert(m.take(0) =~= Seq::<char>::empty());
    }
    while p < q && v[p] != '.'
        invariant
            start <= p <= q <= v.len(),
            m == v@.subrange(start as int, q as int),
            find_char(m, '.', p - start) == find_char(m, '.', 0),
            p - start <= find_char(m, '.', 0) <= m.len(),
            digits@ == m.take(p - start),
            all_digits(digits@),
        decreases q - p,
    {
        let c = v[p];
        assert(m[p - start] == c);
        proof {
            lemma_find_char(m, '.', p - start + 1);
        }
        if !digit(c) {
            assert(whole_part(m)[p - start] == c);
            return None;
        }
        digits.push(c);
        assert(digits@ =~= m.take(p - start + 1));
        p += 1;
    }
    let ghost w = whole_part(m);
    assert(w =~= m.take(p - start));
    let fstart: usize = if p < q {
        p + 1
    } else {
        q
    };
    let ghost f = fraction_part(m);
    assert(f =~= v@.subrange(fstart as int, q as int));
    let mut j: usize = fstart;
    assert(f.take(0) =~= Seq::<char>::empty());
    assert(digits@ =~= w + f.take(0));
    while j < q
        invariant
            start <= fstart <= j <= q <= v.len(),
            m == v@.subrange(start as int, q as int),
            f == v@.subrange(fstart as int, q as int),
            f == fraction_part(m),
            all_digits(w),
            all_digits(f.take(j - fstart)),
            digits@ == w + f.take(j - fstart),
        decreases q - j,
    {
        let c = v[j];
        assert(f[j - fstart] == c);
        if !digit(c) {
            return None;
        }
        digits.push(c);
        proof {
            assert(f.take(j - fstart + 1) =~= f.take(j - fstart).push(c));
            assert(digits@ =~= w + f.take(j - fstart + 1));
            assert forall|t: int| 0 <= t < j - fstart + 1 implies is_digit(
                #[trigger] f.take(j - fstart + 1)[t],
            ) by {
                if t < j - fstart {
                    assert(f.take(j - fstart)[t] == f[t]);
                }
            }
        }
        j += 1;
    }
    assert(f.take(q - fstart) =~= f);
    assert forall|t: int| 0 <= t < digits@.len() implies is_digit(#[trigger] digits@[t]) by {
        if t < w.len() {
            assert(digits@[t] == w[t]);
        } else {
            assert(digits@[t] == f[t - w.len()]);
        }
    }
    Some((digits, q - fstart))
}

/// Reads the unsigned decimal number that `v[start..]` writes, in
/// ten-thousandths.
fn parse_magnitude(v: &Vec<char>, start: usize) -> (r: Option<i64>)
    requires
        start <= v.len(),
    ensures
        match r {
            Some(x) => magnitude(v@.subrange(start as int, v.len() as int)) == Some(x as int)
                && 0 <= x <= SCALED_LIMIT,
            None => match magnitude(v@.subrange(start as int, v.len() as int)) {
                Some(m) => m > SCALED_LIMIT,
                None => true,
            },
        },
{
    let n = v.len();
    let ghost body = v@.subrange(start as int, n as int);
    let q = find_exponent(v, start);
    assert(mantissa_part(body) =~= v@.subrange(start as int, q as int));
    let (digits, fl) = match mantissa_digits(v, start, q) {
        Some(found) => found,
        None => {
            return None;
        },
    };
    if digits.len() == 0 {
        return None;
    }
    let e: i128 = if q < n {
        assert(body.subrange(q - start + 1, body.len() as int) =~= v@.subrange(
            q + 1,
            n as int,
        ));
        match parse_capped(v, q + 1) {
            Some(e) => e,
            None => {
                return None;
            },
        }
    } else {
        0
    };
    let ghost exact = exponent_value(body)->Some_0;
    let k: i128 = e + 4 - fl as i128;
    proof {
        if exact > EXPONENT_CAP {
            lemma_scaled_large(digits_value(digits@) as int, k as int);
            lemma_scaled_large(digits_value(digits@) as int, exact + 4 - fl);
        } else if exact < -EXPONENT_CAP {
            lemma_scaled_small(digits@, k as int);
            lemma_scaled_small(digits@, exact + 4 - fl);
        }
    }
    scale_digits(&digits, k)
}

/// Reads the decimal number that `v` writes, in ten-thousandths.
pub fn parse_scaled(v: &Vec<char>) -> (r: Option<i64>)
    ensures
        match r {
            Some(n) => scaled_value(v@) == Some(n as int),
            None => scaled_value(v@) is None,
        },
        r is Some ==> -SCALED_LIMIT <= r->Some_0 <= SCALED_LIMIT,
{
    let n = v.len();
    let negative = n > 0 && v[0] == '-';
    let start: usize = if n > 0 && (v[0] == '-' || v[0] == '+') {
        1
    } else {
        0
    };
    assert(unsigned_part(v@) =~= v@.subrange(start as int, n as int));
    match parse_magnitude(v, start) {
        Some(x) => {
            if negative {
                Some(-x)
            } else {
                Some(x)
            }
        },
        None => None,
    }
}

/// Appends the number of `v` ten-thousandths in plain decimal notation.
pub fn push_scaled(out: &mut Vec<char>, v: i64)
    ensures
        final(out)@ == old(out)@ + scaled_text(v as int),
{
    let ghost before = out@;
    if v < 0 {
        out.push('-');
    }
    let m: u64 = if v >= 0 {
        v as u64
    } else if v == i64::MIN {
        0x8000_0000_0000_0000
    } else {
        (-v) as u64
    };
    assert(m == abs(v as int));
    let ghost signed = out@;
    push_decimal(out, m / 10000);
    let f: u64 = m % 10000;
    let mut four: Vec<char> = Vec::new();
    four.push(((f / 1000) as u8 + 48) as char);
    four.push((((f / 100) % 10) as u8 + 48) as char);
    four.push((((f / 10) % 10) as u8 + 48) as char);
    four.push(((f % 10) as u8 + 48) as char);
    assert(four@ =~= four_places(f as int));
    let places = strip_trailing(&four, '0');
    let ghost whole = out@;
    if places.len() > 0 {
        out.push('.');
        let mut i: usize = 0;
        while i < places.len()
            invariant
                i <= places.len(),
                out@ == whole + seq!['.'] + places@.take(i as int),
            decreases places.len() - i,
        {
            out.push(places[i]);
            assert(places@.take(i + 1) =~= places@.take(i as int).push(places@[i as int]));
            i += 1;
        }
        assert(places@.take(places.len() as int) =~= places@);
    }
    assert(out@ =~= before + scaled_text(v as int));
}

} // verus!
