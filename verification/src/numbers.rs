//! Exact numeric text: the syntax and value of base-10 literals, and the
//! arbitrary-precision comparisons and sums that the rules need.

use vstd::prelude::*;

use crate::text::{all_digits, is_digit, nat_decimal};

use bigdecimal::BigDecimal;
use num_bigint::{BigInt, BigUint};
use std::str::FromStr;

verus! {

pub open spec fn digit_value(c: char) -> nat {
    (c as int - '0' as int) as nat
}

/// Value of a string of decimal digits, most significant digit first.
pub open spec fn digits_value(s: Seq<char>) -> nat
    decreases s.len(),
{
    if s.len() == 0 {
        0
    } else {
        digits_value(s.drop_last()) * 10 + digit_value(s.last())
    }
}

pub open spec fn pow10(n: nat) -> nat
    decreases n,
{
    if n == 0 {
        1
    } else {
        10 * pow10((n - 1) as nat)
    }
}

pub open spec fn strip_leading_zeros(s: Seq<char>) -> Seq<char>
    decreases s.len(),
{
    if s.len() > 0 && s[0] == '0' {
        strip_leading_zeros(s.drop_first())
    } else {
        s
    }
}

pub open spec fn strip_trailing_zeros(s: Seq<char>) -> Seq<char>
    decreases s.len(),
{
    if s.len() > 0 && s.last() == '0' {
        strip_trailing_zeros(s.drop_last())
    } else {
        s
    }
}

/// Digits without leading zeros; "0" when nothing remains.
pub open spec fn canonical_digits(s: Seq<char>) -> Seq<char> {
    let t = strip_leading_zeros(s);
    if t.len() == 0 {
        seq!['0']
    } else {
        t
    }
}

/// Index of the first occurrence of `c`, or the length when absent.
pub open spec fn first_index_of(s: Seq<char>, c: char) -> int
    decreases s.len(),
{
    if s.len() == 0 {
        0
    } else if s[0] == c {
        0
    } else {
        1 + first_index_of(s.drop_first(), c)
    }
}

pub open spec fn has_char(s: Seq<char>, c: char) -> bool {
    exists|i: int| 0 <= i < s.len() && s[i] == c
}

pub open spec fn starts_negative(s: Seq<char>) -> bool {
    s.len() > 0 && s[0] == '-'
}

/// The text after an optional leading minus sign.
pub open spec fn unsigned_text(s: Seq<char>) -> Seq<char> {
    if starts_negative(s) {
        s.drop_first()
    } else {
        s
    }
}

/// Digits before the decimal point.
pub open spec fn integer_digits(u: Seq<char>) -> Seq<char> {
    u.take(first_index_of(u, '.'))
}

/// Text after the first decimal point (empty when there is none).
pub open spec fn fraction_digits(u: Seq<char>) -> Seq<char> {
    if first_index_of(u, '.') < u.len() {
        u.skip(first_index_of(u, '.') + 1)
    } else {
        Seq::empty()
    }
}

pub open spec fn has_point(u: Seq<char>) -> bool {
    first_index_of(u, '.') < u.len()
}

/// `[-]digits[.digits]` with at least one digit on each present side.
pub open spec fn is_plain_decimal(s: Seq<char>) -> bool {
    let u = unsigned_text(s);
    &&& integer_digits(u).len() > 0
    &&& all_digits(integer_digits(u))
    &&& has_point(u) ==> fraction_digits(u).len() > 0 && all_digits(fraction_digits(u))
}

/// Numerator of the value of a plain decimal, scaled by `10^decimal_scale`.
pub open spec fn decimal_numerator(s: Seq<char>) -> int {
    let u = unsigned_text(s);
    let magnitude = digits_value(integer_digits(u) + fraction_digits(u)) as int;
    if starts_negative(s) {
        -magnitude
    } else {
        magnitude
    }
}

pub open spec fn decimal_scale(s: Seq<char>) -> nat {
    fraction_digits(unsigned_text(s)).len()
}

pub open spec fn sign_of(v: int) -> int {
    if v < 0 {
        -1
    } else if v == 0 {
        0
    } else {
        1
    }
}

/// Sign of `value(a) - value(b)` for two plain decimals.
pub open spec fn decimal_order(a: Seq<char>, b: Seq<char>) -> int {
    sign_of(
        decimal_numerator(a) * pow10(decimal_scale(b)) - decimal_numerator(b) * pow10(
            decimal_scale(a),
        ),
    )
}

/// Sign of `value(x) - (value(a) + value(b))` for three plain decimals.
pub open spec fn decimal_order_to_sum(x: Seq<char>, a: Seq<char>, b: Seq<char>) -> int {
    let sx = pow10(decimal_scale(x));
    let sa = pow10(decimal_scale(a));
    let sb = pow10(decimal_scale(b));
    sign_of(
        decimal_numerator(x) * sa * sb - (decimal_numerator(a) * sb + decimal_numerator(b) * sa)
            * sx,
    )
}

/// `[-]digits`.
pub open spec fn is_integer_literal(s: Seq<char>) -> bool {
    unsigned_text(s).len() > 0 && all_digits(unsigned_text(s))
}

pub open spec fn integer_value(s: Seq<char>) -> int {
    if starts_negative(s) {
        -(digits_value(unsigned_text(s)) as int)
    } else {
        digits_value(unsigned_text(s)) as int
    }
}

/// `digits`.
pub open spec fn is_natural_literal(s: Seq<char>) -> bool {
    s.len() > 0 && all_digits(s)
}

/// Base-10 text of an integer, with a leading minus sign when negative.
pub open spec fn int_decimal(v: int) -> Seq<char> {
    if v < 0 {
        seq!['-'] + nat_decimal((-v) as nat)
    } else {
        nat_decimal(v as nat)
    }
}

pub proof fn lemma_pow10_positive(n: nat)
    ensures
        pow10(n) > 0,
    decreases n,
{
    if n > 0 {
        lemma_pow10_positive((n - 1) as nat);
    }
}

proof fn lemma_cross_order(na: int, nb: int, nc: int, sa: int, sb: int, sc: int)
    by (nonlinear_arith)
    requires
        sa > 0,
        sb > 0,
        sc > 0,
        na * sb <= nb * sa,
        nb * sc <= nc * sb,
    ensures
        na * sc <= nc * sa,
        na * sb < nb * sa ==> na * sc < nc * sa,
        nb * sc < nc * sb ==> na * sc < nc * sa,
{
    assert(na * sb * sc <= nb * sa * sc);
    assert(nb * sc * sa <= nc * sb * sa);
    assert(na * sc * sb <= nc * sa * sb);
}

/// Comparing plain decimals is antisymmetric and reflexive.
pub proof fn lemma_decimal_order_flip(a: Seq<char>, b: Seq<char>)
    ensures
        decimal_order(a, b) == -decimal_order(b, a),
        decimal_order(a, a) == 0,
{
}

/// Comparing plain decimals is transitive, strictly where one step is strict.
pub proof fn lemma_decimal_order_transitive(a: Seq<char>, b: Seq<char>, c: Seq<char>)
    requires
        decimal_order(a, b) <= 0,
        decimal_order(b, c) <= 0,
    ensures
        decimal_order(a, c) <= 0,
        decimal_order(a, b) < 0 || decimal_order(b, c) < 0 ==> decimal_order(a, c) < 0,
{
    let sa = pow10(decimal_scale(a)) as int;
    let sb = pow10(decimal_scale(b)) as int;
    let sc = pow10(decimal_scale(c)) as int;
    lemma_pow10_positive(decimal_scale(a));
    lemma_pow10_positive(decimal_scale(b));
    lemma_pow10_positive(decimal_scale(c));
    lemma_cross_order(decimal_numerator(a), decimal_numerator(b), decimal_numerator(c), sa, sb, sc);
}

/// Equal value is transitive among plain decimals.
pub proof fn lemma_decimal_equal_transitive(a: Seq<char>, b: Seq<char>, c: Seq<char>)
    requires
        decimal_order(a, b) == 0,
        decimal_order(b, c) == 0,
    ensures
        decimal_order(a, c) == 0,
{
    lemma_decimal_order_flip(a, b);
    lemma_decimal_order_flip(b, c);
    lemma_decimal_order_flip(a, c);
    lemma_decimal_order_transitive(a, b, c);
    lemma_decimal_order_transitive(c, b, a);
}

pub proof fn lemma_first_index_of(s: Seq<char>, c: char, p: int)
    requires
        0 <= p <= s.len(),
        forall|j: int| 0 <= j < p ==> s[j] != c,
        p == s.len() || s[p] == c,
    ensures
        first_index_of(s, c) == p,
    decreases s.len(),
{
    if s.len() > 0 && p > 0 {
        assert(s[0] != c);
        let t = s.drop_first();
        assert forall|j: int| 0 <= j < p - 1 implies t[j] != c by {
            assert(t[j] == s[j + 1]);
        }
        if p < s.len() {
            assert(t[p - 1] == s[p]);
        }
        lemma_first_index_of(t, c, p - 1);
    }
}

pub proof fn lemma_no_char_index(s: Seq<char>, c: char)
    requires
        forall|j: int| 0 <= j < s.len() ==> s[j] != c,
    ensures
        first_index_of(s, c) == s.len(),
{
    lemma_first_index_of(s, c, s.len() as int);
}

pub proof fn lemma_strip_leading(s: Seq<char>, k: int)
    requires
        0 <= k <= s.len(),
        forall|j: int| 0 <= j < k ==> s[j] == '0',
        k == s.len() || s[k] != '0',
    ensures
        strip_leading_zeros(s) == s.skip(k),
    decreases s.len(),
{
    if k > 0 {
        let t = s.drop_first();
        assert forall|j: int| 0 <= j < k - 1 implies t[j] == '0' by {
            assert(t[j] == s[j + 1]);
        }
        if k < s.len() {
            assert(t[k - 1] == s[k]);
        }
        lemma_strip_leading(t, k - 1);
        assert(t.skip(k - 1) =~= s.skip(k));
    } else {
        assert(s.skip(0) =~= s);
    }
}

pub proof fn lemma_strip_trailing(s: Seq<char>, e: int)
    requires
        0 <= e <= s.len(),
        forall|j: int| e <= j < s.len() ==> s[j] == '0',
        e == 0 || s[e - 1] != '0',
    ensures
        strip_trailing_zeros(s) == s.take(e),
    decreases s.len(),
{
    if e < s.len() {
        let t = s.drop_last();
        assert forall|j: int| e <= j < t.len() implies t[j] == '0' by {
            assert(t[j] == s[j]);
        }
        if e > 0 {
            assert(t[e - 1] == s[e - 1]);
        }
        lemma_strip_trailing(t, e);
        assert(t.take(e) =~= s.take(e));
    } else {
        assert(s.take(e) =~= s);
    }
}

/// Powers of ten multiply by adding exponents.
pub proof fn lemma_pow10_add(a: nat, b: nat)
    ensures
        pow10(a + b) == pow10(a) * pow10(b),
    decreases b,
{
    if b == 0 {
        assert(pow10(0) == 1);
        assert(a + b == a);
    } else {
        let c = (b - 1) as nat;
        lemma_pow10_add(a, c);
        let n = a + b;
        assert(((n - 1) as nat) == a + c);
        assert(pow10(n) == 10 * pow10(a + c));
        assert(pow10(b) == 10 * pow10(c));
        let x = pow10(a) as int;
        let y = pow10(c) as int;
        assert(10 * (x * y) == x * (10 * y)) by (nonlinear_arith);
    }
}

/// A leading zero adds nothing to a digit string's value.
proof fn lemma_leading_zero_value(t: Seq<char>)
    ensures
        digits_value(seq!['0'] + t) == digits_value(t),
    decreases t.len(),
{
    let x = seq!['0'] + t;
    if t.len() > 0 {
        lemma_leading_zero_value(t.drop_last());
        assert(x.drop_last() =~= seq!['0'] + t.drop_last());
        assert(x.last() == t.last());
        assert(digits_value(x) == digits_value(x.drop_last()) * 10 + digit_value(x.last()));
        assert(digits_value(t) == digits_value(t.drop_last()) * 10 + digit_value(t.last()));
    } else {
        assert(x.drop_last() =~= Seq::<char>::empty());
        assert(x.last() == '0');
        assert(digits_value(x) == digits_value(x.drop_last()) * 10 + digit_value(x.last()));
    }
}

/// The value of digits followed by more digits.
pub proof fn lemma_concat_value(a: Seq<char>, b: Seq<char>)
    ensures
        digits_value(a + b) == digits_value(a) * pow10(b.len()) + digits_value(b),
    decreases b.len(),
{
    if b.len() == 0 {
        assert(a + b =~= a);
        assert(pow10(0) == 1);
        assert(digits_value(b) == 0);
    } else {
        let c = b.drop_last();
        lemma_concat_value(a, c);
        assert((a + b).drop_last() =~= a + c);
        assert((a + b).last() == b.last());
        let va = digits_value(a) as int;
        let vc = digits_value(c) as int;
        let p = pow10(c.len()) as int;
        let d = digit_value(b.last()) as int;
        assert(pow10(b.len()) == 10 * pow10(c.len()));
        assert(digits_value(a + b) == digits_value(a + c) * 10 + d);
        assert(digits_value(b) == vc * 10 + d);
        assert((va * p + vc) * 10 + d == va * (10 * p) + (vc * 10 + d)) by (nonlinear_arith);
        assert(digits_value(a) * pow10(b.len()) == va * (10 * p));
    }
}

/// A string of zeros has value zero.
pub proof fn lemma_zeros_value(z: Seq<char>)
    requires
        forall|j: int| 0 <= j < z.len() ==> z[j] == '0',
    ensures
        digits_value(z) == 0,
    decreases z.len(),
{
    if z.len() > 0 {
        lemma_zeros_value(z.drop_last());
    }
}

/// Removing leading zeros keeps the value, leaves digits that do not
/// start with a zero, and removes nothing more when repeated.
pub proof fn lemma_strip_leading_zeros(s: Seq<char>)
    ensures
        digits_value(strip_leading_zeros(s)) == digits_value(s),
        all_digits(s) ==> all_digits(strip_leading_zeros(s)),
        strip_leading_zeros(s).len() > 0 ==> strip_leading_zeros(s)[0] != '0',
        strip_leading_zeros(strip_leading_zeros(s)) == strip_leading_zeros(s),
        strip_leading_zeros(s).len() <= s.len(),
    decreases s.len(),
{
    if s.len() > 0 && s[0] == '0' {
        let t = s.drop_first();
        lemma_strip_leading_zeros(t);
        lemma_leading_zero_value(t);
        assert(seq!['0'] + t =~= s);
        if all_digits(s) {
            assert forall|i: int| 0 <= i < t.len() implies #[trigger] is_digit(t[i]) by {
                assert(t[i] == s[i + 1]);
            }
        }
    }
}

/// Removing trailing zeros cuts only zeros, leaves digits that do not end
/// in a zero, and removes nothing more when repeated.
pub proof fn lemma_strip_trailing_zeros(s: Seq<char>)
    ensures
        strip_trailing_zeros(s).len() <= s.len(),
        strip_trailing_zeros(s) == s.take(strip_trailing_zeros(s).len() as int),
        forall|j: int| strip_trailing_zeros(s).len() <= j < s.len() ==> s[j] == '0',
        strip_trailing_zeros(s).len() > 0 ==> strip_trailing_zeros(s).last() != '0',
        strip_trailing_zeros(strip_trailing_zeros(s)) == strip_trailing_zeros(s),
        all_digits(s) ==> all_digits(strip_trailing_zeros(s)),
    decreases s.len(),
{
    if s.len() > 0 && s.last() == '0' {
        let t = s.drop_last();
        lemma_strip_trailing_zeros(t);
        let r = strip_trailing_zeros(t);
        assert(r == t.take(r.len() as int));
        assert(t.take(r.len() as int) =~= s.take(r.len() as int));
        assert forall|j: int| r.len() <= j < s.len() implies s[j] == '0' by {
            if j < t.len() {
                assert(s[j] == t[j]);
            }
        }
        if all_digits(s) {
            assert forall|i: int| 0 <= i < t.len() implies #[trigger] is_digit(t[i]) by {
                assert(t[i] == s[i]);
            }
        }
    } else {
        assert(s.take(s.len() as int) =~= s);
    }
    let r = strip_trailing_zeros(s);
    if all_digits(s) {
        assert forall|i: int| 0 <= i < r.len() implies #[trigger] is_digit(r[i]) by {
            assert(r[i] == s[i]);
        }
    }
}

/// Trailing zeros multiply a digit string's value by a power of ten.
pub proof fn lemma_trailing_zeros_value(s: Seq<char>)
    ensures
        digits_value(s) == digits_value(strip_trailing_zeros(s)) * pow10(
            (s.len() - strip_trailing_zeros(s).len()) as nat,
        ),
{
    lemma_strip_trailing_zeros(s);
    let t = strip_trailing_zeros(s);
    let z = s.skip(t.len() as int);
    assert(t + z =~= s);
    lemma_zeros_value(z);
    lemma_concat_value(t, z);
}

/// Where the first occurrence of a character stands.
pub proof fn lemma_first_index_of_bounds(s: Seq<char>, c: char)
    ensures
        0 <= first_index_of(s, c) <= s.len(),
        first_index_of(s, c) < s.len() ==> s[first_index_of(s, c)] == c,
        forall|j: int| 0 <= j < first_index_of(s, c) ==> s[j] != c,
    decreases s.len(),
{
    if s.len() > 0 && s[0] != c {
        let t = s.drop_first();
        lemma_first_index_of_bounds(t, c);
        assert forall|j: int| 0 <= j < first_index_of(s, c) implies s[j] != c by {
            if j > 0 {
                assert(s[j] == t[j - 1]);
            }
        }
    }
}

/// A plain decimal is its sign, its integer digits and, where it has a
/// point, the point and its fraction digits.
pub proof fn lemma_plain_decimal_parts(c: Seq<char>)
    requires
        is_plain_decimal(c),
    ensures
        c == (if starts_negative(c) {
            seq!['-']
        } else {
            Seq::<char>::empty()
        }) + integer_digits(unsigned_text(c)) + (if has_point(unsigned_text(c)) {
            seq!['.'] + fraction_digits(unsigned_text(c))
        } else {
            Seq::<char>::empty()
        }),
        has_point(unsigned_text(c)) <==> fraction_digits(unsigned_text(c)).len() > 0,
{
    let u = unsigned_text(c);
    let p = first_index_of(u, '.');
    lemma_first_index_of_bounds(u, '.');
    if p < u.len() {
        assert(u =~= u.take(p) + seq!['.'] + u.skip(p + 1));
    } else {
        assert(u =~= u.take(p));
    }
    if starts_negative(c) {
        assert(c =~= seq!['-'] + u);
    } else {
        assert(c =~= Seq::<char>::empty() + u);
    }
}

/// A digit's value is below ten.
proof fn lemma_digit_below_ten(c: char)
    requires
        is_digit(c),
    ensures
        digit_value(c) < 10,
        digit_value(c) == 0 <==> c == '0',
{
}

/// A digit string's value is below ten to its length.
pub proof fn lemma_digits_bound(s: Seq<char>)
    requires
        all_digits(s),
    ensures
        digits_value(s) < pow10(s.len()),
    decreases s.len(),
{
    if s.len() > 0 {
        let t = s.drop_last();
        assert(all_digits(t)) by {
            assert forall|i: int| 0 <= i < t.len() implies #[trigger] is_digit(t[i]) by {
                assert(t[i] == s[i]);
            }
        }
        lemma_digits_bound(t);
        lemma_digit_below_ten(s.last());
        let v = digits_value(t) as int;
        let d = digit_value(s.last()) as int;
        let p = pow10(t.len()) as int;
        assert(pow10(s.len()) == 10 * pow10(t.len()));
        assert(v * 10 + d < 10 * p) by (nonlinear_arith)
            requires
                v < p,
                0 <= d < 10,
        ;
    } else {
        assert(pow10(0) == 1);
    }
}

/// A digit string that does not start with a zero is at least ten to its
/// length less one.
pub proof fn lemma_leading_digit_bound(s: Seq<char>)
    requires
        all_digits(s),
        s.len() > 0,
        s[0] != '0',
    ensures
        digits_value(s) >= pow10((s.len() - 1) as nat),
    decreases s.len(),
{
    let t = s.drop_last();
    if s.len() == 1 {
        lemma_digit_below_ten(s[0]);
        assert(t.len() == 0);
        assert(pow10(0) == 1);
        assert(s.last() == s[0]);
    } else {
        assert(t[0] == s[0]);
        assert(all_digits(t)) by {
            assert forall|i: int| 0 <= i < t.len() implies #[trigger] is_digit(t[i]) by {
                assert(t[i] == s[i]);
            }
        }
        lemma_leading_digit_bound(t);
        assert(pow10((s.len() - 1) as nat) == 10 * pow10((t.len() - 1) as nat));
    }
}

/// The last digit of a digit string is its value modulo ten.
proof fn lemma_last_digit(s: Seq<char>)
    requires
        all_digits(s),
        s.len() > 0,
    ensures
        digits_value(s) % 10 == digit_value(s.last()),
        digits_value(s) / 10 == digits_value(s.drop_last()),
{
    lemma_digit_below_ten(s.last());
    let v = digits_value(s.drop_last()) as int;
    let d = digit_value(s.last()) as int;
    assert((v * 10 + d) % 10 == d && (v * 10 + d) / 10 == v) by (nonlinear_arith)
        requires
            0 <= d < 10,
            v >= 0,
    ;
}

/// Digit strings of one length and one value are equal.
pub proof fn lemma_same_length_digits(a: Seq<char>, b: Seq<char>)
    requires
        all_digits(a),
        all_digits(b),
        a.len() == b.len(),
        digits_value(a) == digits_value(b),
    ensures
        a == b,
    decreases a.len(),
{
    if a.len() > 0 {
        lemma_last_digit(a);
        lemma_last_digit(b);
        let (ta, tb) = (a.drop_last(), b.drop_last());
        assert(all_digits(ta)) by {
            assert forall|i: int| 0 <= i < ta.len() implies #[trigger] is_digit(ta[i]) by {
                assert(ta[i] == a[i]);
            }
        }
        assert(all_digits(tb)) by {
            assert forall|i: int| 0 <= i < tb.len() implies #[trigger] is_digit(tb[i]) by {
                assert(tb[i] == b[i]);
            }
        }
        lemma_same_length_digits(ta, tb);
        assert(is_digit(a[a.len() - 1]) && is_digit(b[b.len() - 1]));
        assert(digit_value(a.last()) == digit_value(b.last()));
        assert(a.last() as int == b.last() as int);
        assert(a.last() == b.last());
        assert(a =~= ta.push(a.last()));
        assert(b =~= tb.push(b.last()));
    } else {
        assert(a =~= b);
    }
}

/// A digit string ending in a non-zero digit has a value not divisible by
/// ten.
pub proof fn lemma_nonzero_last_digit(s: Seq<char>)
    requires
        all_digits(s),
        s.len() > 0,
        s.last() != '0',
    ensures
        digits_value(s) % 10 != 0,
{
    lemma_last_digit(s);
    lemma_digit_below_ten(s.last());
}

pub proof fn lemma_digit_char(d: nat)
    requires
        d < 10,
    ensures
        is_digit(crate::text::digit_char(d)),
        digit_value(crate::text::digit_char(d)) == d,
{
}

pub proof fn lemma_digits_push(s: Seq<char>, c: char)
    ensures
        digits_value(s.push(c)) == digits_value(s) * 10 + digit_value(c),
{
    assert(s.push(c).drop_last() =~= s);
}

/// The base-10 text of `n` is a digit string of value `n`, read alike as a
/// natural, an integer or a decimal literal.
pub proof fn lemma_nat_decimal(n: nat)
    ensures
        is_natural_literal(nat_decimal(n)),
        digits_value(nat_decimal(n)) == n,
        !starts_negative(nat_decimal(n)),
        is_integer_literal(nat_decimal(n)),
        integer_value(nat_decimal(n)) == n,
        is_plain_decimal(nat_decimal(n)),
        decimal_numerator(nat_decimal(n)) == n,
        decimal_scale(nat_decimal(n)) == 0,
    decreases n,
{
    let s = nat_decimal(n);
    if n < 10 {
        lemma_digit_char(n);
        assert(s.drop_last() =~= Seq::<char>::empty());
        assert(s.last() == crate::text::digit_char(n));
        assert(digits_value(s.drop_last()) == 0);
        assert(digits_value(s) == digits_value(s.drop_last()) * 10 + digit_value(s.last()));
        assert(digits_value(s) == n);
        assert(all_digits(s));
    } else {
        lemma_nat_decimal(n / 10);
        lemma_digit_char(n % 10);
        let p = nat_decimal(n / 10);
        assert(s == p.push(crate::text::digit_char(n % 10)));
        lemma_digits_push(p, crate::text::digit_char(n % 10));
        assert((n / 10) * 10 + n % 10 == n) by (nonlinear_arith);
        assert(digits_value(s) == n);
        assert forall|i: int| 0 <= i < s.len() implies #[trigger] is_digit(s[i]) by {
            if i < p.len() {
                assert(s[i] == p[i]);
            }
        }
        assert(s[0] == p[0]);
    }
    assert(is_digit(s[0]));
    assert(unsigned_text(s) == s);
    assert forall|j: int| 0 <= j < s.len() implies s[j] != '.' by {
        assert(is_digit(s[j]));
    }
    lemma_no_char_index(s, '.');
    assert(integer_digits(s) =~= s);
    assert(fraction_digits(s) =~= Seq::<char>::empty());
    assert(integer_digits(s) + fraction_digits(s) =~= s);
}

/// The base-10 text of an integer is an integer literal of that value.
pub proof fn lemma_int_decimal(v: int)
    ensures
        is_integer_literal(int_decimal(v)),
        integer_value(int_decimal(v)) == v,
{
    if v < 0 {
        lemma_nat_decimal((-v) as nat);
        let t = int_decimal(v);
        assert(t[0] == '-');
        assert(t.drop_first() =~= nat_decimal((-v) as nat));
    } else {
        lemma_nat_decimal(v as nat);
    }
}

/// Literals used by the rules, as base-10 texts.
pub proof fn lemma_rule_literals()
    ensures
        "0"@ == nat_decimal(0),
        "1"@ == nat_decimal(1),
        "2"@ == nat_decimal(2),
        "4"@ == nat_decimal(4),
        "11"@ == nat_decimal(11),
        "13"@ == nat_decimal(13),
        "16"@ == nat_decimal(16),
        "512"@ == nat_decimal(512),
{
    reveal_strlit("0");
    reveal_strlit("1");
    reveal_strlit("2");
    reveal_strlit("4");
    reveal_strlit("11");
    reveal_strlit("13");
    reveal_strlit("16");
    reveal_strlit("512");
    assert(nat_decimal(0) =~= seq!['0']);
    assert(nat_decimal(1) =~= seq!['1']);
    assert(nat_decimal(2) =~= seq!['2']);
    assert(nat_decimal(4) =~= seq!['4']);
    assert(nat_decimal(3) =~= seq!['3']);
    assert(nat_decimal(6) =~= seq!['6']);
    assert(nat_decimal(5) =~= seq!['5']);
    assert(nat_decimal(11) =~= seq!['1', '1']);
    assert(nat_decimal(13) =~= seq!['1', '3']);
    assert(nat_decimal(16) =~= seq!['1', '6']);
    assert(nat_decimal(51) =~= seq!['5', '1']);
    assert(nat_decimal(512) =~= seq!['5', '1', '2']);
    assert("0"@ =~= seq!['0']);
    assert("1"@ =~= seq!['1']);
    assert("2"@ =~= seq!['2']);
    assert("4"@ =~= seq!['4']);
    assert("11"@ =~= seq!['1', '1']);
    assert("13"@ =~= seq!['1', '3']);
    assert("16"@ =~= seq!['1', '6']);
    assert("512"@ =~= seq!['5', '1', '2']);
}

fn order_code(ordering: std::cmp::Ordering) -> (r: i8)
    ensures
        -1 <= r <= 1,
        (ordering is Less) == (r == -1),
        (ordering is Equal) == (r == 0),
        (ordering is Greater) == (r == 1),
{
    match ordering {
        std::cmp::Ordering::Less => -1,
        std::cmp::Ordering::Equal => 0,
        std::cmp::Ordering::Greater => 1,
    }
}

/// Compares two decimal literals exactly with `bigdecimal::BigDecimal`
/// (`FromStr` then `Ord::cmp`). Claimed: the result is the sign of the
/// difference of the two exact values.
#[verifier::external_body]
pub(crate) fn decimal_compare(left: &str, right: &str) -> (r: i8)
    requires
        is_plain_decimal(left@),
        is_plain_decimal(right@),
    ensures
        r == decimal_order(left@, right@),
{
    let left = BigDecimal::from_str(left).unwrap();
    let right = BigDecimal::from_str(right).unwrap();
    order_code(left.cmp(&right))
}

/// Compares `value` with the exact sum `first + second` of two decimal
/// literals with `bigdecimal::BigDecimal` (`FromStr`, `Add`, `Ord::cmp`).
/// Claimed: the result is the sign of `value - (first + second)`.
#[verifier::external_body]
pub(crate) fn decimal_compare_to_sum(value: &str, first: &str, second: &str) -> (r: i8)
    requires
        is_plain_decimal(value@),
        is_plain_decimal(first@),
        is_plain_decimal(second@),
    ensures
        r == decimal_order_to_sum(value@, first@, second@),
{
    let value = BigDecimal::from_str(value).unwrap();
    let sum = BigDecimal::from_str(first).unwrap() + BigDecimal::from_str(second).unwrap();
    order_code(value.cmp(&sum))
}

/// Compares two signed integer literals with `num_bigint::BigInt`
/// (`FromStr` then `Ord::cmp`). Claimed: the sign of their difference.
#[verifier::external_body]
pub(crate) fn integer_compare(left: &str, right: &str) -> (r: i8)
    requires
        is_integer_literal(left@),
        is_integer_literal(right@),
    ensures
        r == sign_of(integer_value(left@) - integer_value(right@)),
{
    let left = BigInt::from_str(left).unwrap();
    let right = BigInt::from_str(right).unwrap();
    order_code(left.cmp(&right))
}

/// Adds two signed integer literals with `num_bigint::BigInt` (`FromStr`,
/// `Add`, `Display`). Claimed: the base-10 text of the exact sum.
#[verifier::external_body]
pub(crate) fn integer_sum(left: &str, right: &str) -> (r: String)
    requires
        is_integer_literal(left@),
        is_integer_literal(right@),
    ensures
        r@ == int_decimal(integer_value(left@) + integer_value(right@)),
{
    (BigInt::from_str(left).unwrap() + BigInt::from_str(right).unwrap()).to_string()
}

/// Compares two unsigned integer literals with `num_bigint::BigUint`
/// (`FromStr` then `Ord::cmp`). Claimed: the sign of their difference.
#[verifier::external_body]
pub(crate) fn natural_compare(left: &str, right: &str) -> (r: i8)
    requires
        is_natural_literal(left@),
        is_natural_literal(right@),
    ensures
        r == sign_of(digits_value(left@) - digits_value(right@)),
{
    let left = BigUint::from_str(left).unwrap();
    let right = BigUint::from_str(right).unwrap();
    order_code(left.cmp(&right))
}

/// What `BigDecimal::round(2).normalized().to_string()` gives for a decimal
/// literal: the value rounded half-to-even to two fraction digits, trailing
/// zeros removed, in `bigdecimal`'s `Display` notation.
pub uninterp spec fn rounded_two_places(value: Seq<char>) -> Seq<char>;

/// Rounds a decimal literal to two fraction digits for display with
/// `bigdecimal::BigDecimal` (`FromStr`, `round`, `normalized`, `Display`).
/// Claimed: the result is `rounded_two_places` of the argument, a function
/// of its text alone.
#[verifier::external_body]
pub(crate) fn round_two_places(value: &str) -> (r: String)
    requires
        is_plain_decimal(value@),
    ensures
        r@ == rounded_two_places(value@),
{
    BigDecimal::from_str(value).unwrap().round(2).normalized().to_string()
}

} // verus!
