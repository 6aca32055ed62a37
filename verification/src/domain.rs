//! Canonical exact values, lattice problems, analysis settings and the fixed
//! attack sets of each problem.

use vstd::prelude::*;

use crate::numbers::{
    canonical_digits, fraction_digits, has_char, integer_digits, is_integer_literal,
    is_natural_literal, is_plain_decimal, lemma_first_index_of, lemma_strip_leading,
    lemma_strip_trailing, starts_negative, strip_leading_zeros, strip_trailing_zeros,
    unsigned_text, decimal_compare, decimal_numerator, decimal_scale, digits_value, digit_value, pow10, decimal_order, sign_of,
    lemma_concat_value, lemma_pow10_add, lemma_strip_leading_zeros, lemma_strip_trailing_zeros,
    lemma_trailing_zeros_value, integer_value, lemma_plain_decimal_parts, lemma_digits_bound,
    lemma_leading_digit_bound, lemma_same_length_digits, lemma_nonzero_last_digit,
    lemma_pow10_positive, has_point, lemma_decimal_order_flip, lemma_decimal_equal_transitive,
};
use crate::text::{all_digits, chars_of, is_digit, string_from_chars};
use crate::validation::{error_is, ValidationError};

verus! {

/// A canonical unsigned decimal integer.
#[derive(Debug, PartialEq, Eq, PartialOrd, Ord, Hash)]
pub struct PositiveInteger(String);

impl Clone for PositiveInteger {
    fn clone(&self) -> (r: Self)
        ensures
            r == *self,
    {
        proof {
            use_type_invariant(self);
        }
        PositiveInteger(self.0.clone())
    }
}

impl View for PositiveInteger {
    type V = Seq<char>;

    closed spec fn view(&self) -> Seq<char> {
        self.0@
    }
}

impl PositiveInteger {
    #[verifier::type_invariant]
    spec fn literal(self) -> bool {
        is_natural_literal(self.0@)
    }

    /// Accepts a non-empty string of ASCII digits and removes leading zeros.
    pub fn new(value: &str) -> (r: Result<Self, String>)
        ensures
            r is Ok <==> is_natural_literal(value@),
            r matches Ok(v) ==> v@ == canonical_digits(value@),
            r matches Err(message) ==> message@ == "expected an unsigned base-10 integer string"@,
    {
        let chars = chars_of(value);
        let n = chars.len();
        let mut i: usize = 0;
        while i < n
            invariant
                n == chars.len(),
                chars@ == value@,
                i <= n,
                forall|j: int| 0 <= j < i ==> #[trigger] is_digit(chars@[j]),
            decreases n - i,
        {
            if !(chars[i] >= '0' && chars[i] <= '9') {
                assert(!is_digit(value@[i as int]));
                return Err(String::from_str("expected an unsigned base-10 integer string"));
            }
            i = i + 1;
        }
        if n == 0 {
            return Err(String::from_str("expected an unsigned base-10 integer string"));
        }
        assert(chars@.subrange(0, n as int) =~= chars@);
        let digits = canonical_digit_chars(&chars, 0, n);
        Ok(PositiveInteger(string_from_chars(&digits)))
    }

    pub fn as_str(&self) -> (r: &str)
        ensures
            r@ == self@,
            is_natural_literal(r@),
    {
        proof {
            use_type_invariant(self);
        }
        self.0.as_str()
    }
}

/// Canonical text of a signed integer literal.
pub open spec fn canonical_signed(s: Seq<char>) -> Seq<char> {
    let t = strip_leading_zeros(unsigned_text(s));
    if t.len() == 0 {
        seq!['0']
    } else if starts_negative(s) {
        seq!['-'] + t
    } else {
        t
    }
}

/// A canonical signed decimal integer.
#[derive(Debug, PartialEq, Eq, PartialOrd, Ord, Hash)]
pub struct SignedInteger(String);

impl Clone for SignedInteger {
    fn clone(&self) -> (r: Self)
        ensures
            r == *self,
    {
        proof {
            use_type_invariant(self);
        }
        SignedInteger(self.0.clone())
    }
}

impl View for SignedInteger {
    type V = Seq<char>;

    closed spec fn view(&self) -> Seq<char> {
        self.0@
    }
}

impl SignedInteger {
    #[verifier::type_invariant]
    spec fn literal(self) -> bool {
        is_integer_literal(self.0@)
    }

    /// Accepts an optional minus sign followed by ASCII digits; removes
    /// leading zeros and the sign of zero.
    pub fn new(value: &str) -> (r: Result<Self, String>)
        ensures
            r is Ok <==> is_integer_literal(value@),
            r matches Ok(v) ==> v@ == canonical_signed(value@),
            r matches Err(message) ==> message@ == "expected a signed base-10 integer string"@,
    {
        let chars = chars_of(value);
        let n = chars.len();
        let negative = n > 0 && chars[0] == '-';
        let start: usize = if negative { 1 } else { 0 };
        let ghost u = unsigned_text(value@);
        assert(u =~= chars@.skip(start as int));
        let mut i: usize = start;
        while i < n
            invariant
                n == chars.len(),
                chars@ == value@,
                start <= i <= n,
                u == chars@.skip(start as int),
                u == unsigned_text(value@),
                forall|j: int| start <= j < i ==> #[trigger] is_digit(chars@[j]),
            decreases n - i,
        {
            if !(chars[i] >= '0' && chars[i] <= '9') {
                assert(u[i - start] == chars@[i as int]);
                assert(!is_digit(u[i - start]));
                return Err(String::from_str("expected a signed base-10 integer string"));
            }
            i = i + 1;
        }
        if start == n {
            return Err(String::from_str("expected a signed base-10 integer string"));
        }
        assert forall|j: int| 0 <= j < u.len() implies #[trigger] is_digit(u[j]) by {
            assert(u[j] == chars@[j + start]);
        }
        assert(chars@.subrange(start as int, n as int) =~= u);
        let digits = canonical_digit_chars(&chars, start, n);
        proof {
            lemma_canonical_digits_zero(u);
        }
        if digits.len() == 1 && digits[0] == '0' {
            assert(digits@ =~= seq!['0']);
            assert(strip_leading_zeros(u).len() == 0);
            let mut zero = String::new();
            crate::text::push_char(&mut zero, '0');
            assert(zero@ =~= seq!['0']);
            return Ok(SignedInteger(zero));
        }
        let mut text = String::new();
        if negative {
            crate::text::push_char(&mut text, '-');
        }
        let body = string_from_chars(&digits);
        text.append(body.as_str());
        proof {
            assert(strip_leading_zeros(u).len() > 0);
            if negative {
                assert(text@ =~= seq!['-'] + strip_leading_zeros(u));
                assert(unsigned_text(text@) =~= strip_leading_zeros(u));
            } else {
                assert(text@ =~= strip_leading_zeros(u));
                assert(is_digit(digits@[0]));
            }
        }
        Ok(SignedInteger(text))
    }

    pub fn as_str(&self) -> (r: &str)
        ensures
            r@ == self@,
            is_integer_literal(r@),
    {
        proof {
            use_type_invariant(self);
        }
        self.0.as_str()
    }
}

proof fn lemma_canonical_digits_zero(s: Seq<char>)
    ensures
        canonical_digits(s) == seq!['0'] <==> strip_leading_zeros(s).len() == 0,
    decreases s.len(),
{
    if s.len() > 0 && s[0] == '0' {
        lemma_canonical_digits_zero(s.drop_first());
    }
}

/// Canonical digit text keeps the value of the digits it was made from,
/// is a digit string again, and is its own canonical text: the text of an
/// accepted unsigned integer reads back unchanged.
pub proof fn lemma_canonical_digits_keep_value(s: Seq<char>)
    requires
        is_natural_literal(s),
    ensures
        is_natural_literal(canonical_digits(s)),
        digits_value(canonical_digits(s)) == digits_value(s),
        canonical_digits(canonical_digits(s)) == canonical_digits(s),
{
    lemma_strip_leading_zeros(s);
    let t = strip_leading_zeros(s);
    if t.len() == 0 {
        let z = seq!['0'];
        assert(z.drop_first() =~= Seq::<char>::empty());
        assert(strip_leading_zeros(z) == strip_leading_zeros(z.drop_first()));
        assert(z.drop_last() =~= Seq::<char>::empty());
        assert(digits_value(z) == digits_value(z.drop_last()) * 10 + digit_value(z.last()));
        assert(is_digit(z[0]));
    } else {
        assert(t[0] != '0');
    }
}

/// Canonical decimal text is a plain decimal of the same value and is its
/// own canonical text: texts are compared by value, and the text of an
/// accepted decimal reads back unchanged.
pub proof fn lemma_canonical_decimal_keeps_value(s: Seq<char>)
    requires
        is_plain_decimal(s),
    ensures
        is_plain_decimal(canonical_decimal(s)),
        decimal_order(canonical_decimal(s), s) == 0,
        canonical_decimal(canonical_decimal(s)) == canonical_decimal(s),
{
    let u = unsigned_text(s);
    let i = integer_digits(u);
    let f = fraction_digits(u);
    lemma_canonical_digits_keep_value(i);
    lemma_strip_trailing_zeros(f);
    let whole = canonical_digits(i);
    let fraction = strip_trailing_zeros(f);
    let zero = whole == seq!['0'] && fraction.len() == 0;
    let sign = if starts_negative(s) && !zero {
        seq!['-']
    } else {
        Seq::<char>::empty()
    };
    let c = canonical_decimal(s);
    lemma_canonical_decimal_parts(sign, whole, fraction);
    assert(c == if fraction.len() == 0 {
        sign + whole
    } else {
        sign + whole + seq!['.'] + fraction
    });
    assert(integer_digits(unsigned_text(c)) == whole);
    assert(fraction_digits(unsigned_text(c)) == fraction);
    assert(starts_negative(c) == (sign.len() > 0));

    // The value: trailing zeros scale the fraction, leading zeros add nothing.
    lemma_concat_value(whole, fraction);
    lemma_concat_value(i, f);
    lemma_trailing_zeros_value(f);
    let k = (f.len() - fraction.len()) as nat;
    lemma_pow10_add(fraction.len(), k);
    assert(f.len() == fraction.len() + k);
    let v = digits_value(i) as int;
    let w = digits_value(fraction) as int;
    let p = pow10(fraction.len()) as int;
    let q = pow10(k) as int;
    let mc = digits_value(whole + fraction) as int;
    let ms = digits_value(i + f) as int;
    assert(mc == v * p + w);
    assert(ms == v * (p * q) + w * q);
    assert(mc * (p * q) == ms * p) by (nonlinear_arith)
        requires
            mc == v * p + w,
            ms == v * (p * q) + w * q,
    ;
    assert(decimal_scale(c) == fraction.len());
    assert(decimal_scale(s) == f.len());
    assert(pow10(decimal_scale(s)) == p * q);
    if zero {
        assert(digits_value(seq!['0']) == 0) by {
            assert(seq!['0'].drop_last() =~= Seq::<char>::empty());
        }
        assert(v == 0);
        assert(w == 0);
        assert(mc == 0);
        assert(ms == 0) by (nonlinear_arith)
            requires
                ms == v * (p * q) + w * q,
                v == 0,
                w == 0,
        ;
    }

    assert(decimal_numerator(c) == if sign.len() > 0 { -mc } else { mc });
    assert(decimal_numerator(s) == if starts_negative(s) { -ms } else { ms });
    let nc = decimal_numerator(c);
    let ns = decimal_numerator(s);
    if sign.len() > 0 {
        assert(nc * (p * q) - ns * p == 0) by (nonlinear_arith)
            requires
                mc * (p * q) == ms * p,
                nc == -mc,
                ns == -ms,
        ;
    } else if starts_negative(s) {
        assert(mc == 0 && ms == 0);
        assert(nc * (p * q) - ns * p == 0) by (nonlinear_arith)
            requires
                nc == 0,
                ns == 0,
        ;
    } else {
        assert(nc * (p * q) - ns * p == 0) by (nonlinear_arith)
            requires
                mc * (p * q) == ms * p,
                nc == mc,
                ns == ms,
        ;
    }
    assert(decimal_order(c, s) == sign_of(nc * pow10(decimal_scale(s)) - ns * pow10(decimal_scale(c))));

    // Canonical text again: nothing left to strip.
    lemma_strip_trailing_zeros(fraction);
    assert(canonical_digits(whole) == whole);
}

/// Canonical digits: a single zero, or digits without a leading zero.
pub open spec fn is_canonical_digits(w: Seq<char>) -> bool {
    &&& is_natural_literal(w)
    &&& w == seq!['0'] || w[0] != '0'
}

/// The shape of canonical decimal text: canonical integer digits, a
/// fraction (when there is a point) that does not end in zero, and no sign
/// on zero.
pub open spec fn is_canonical_decimal(c: Seq<char>) -> bool {
    let u = unsigned_text(c);
    let w = integer_digits(u);
    let f = fraction_digits(u);
    &&& is_plain_decimal(c)
    &&& w == seq!['0'] || w[0] != '0'
    &&& f.len() > 0 ==> f.last() != '0'
    &&& starts_negative(c) ==> !(w == seq!['0'] && f.len() == 0)
}

proof fn lemma_zero_digit_value()
    ensures
        digits_value(seq!['0']) == 0,
{
    let z = seq!['0'];
    assert(z.drop_last() =~= Seq::<char>::empty());
    assert(z.last() == '0');
    assert(digits_value(z) == digits_value(z.drop_last()) * 10 + digit_value(z.last()));
}

/// Canonical digits of one value are one text.
proof fn lemma_canonical_digits_unique(a: Seq<char>, b: Seq<char>)
    requires
        is_canonical_digits(a),
        is_canonical_digits(b),
        digits_value(a) == digits_value(b),
    ensures
        a == b,
{
    lemma_zero_digit_value();
    if a == seq!['0'] || b == seq!['0'] {
        if a != seq!['0'] {
            lemma_leading_digit_bound(a);
            lemma_pow10_positive((a.len() - 1) as nat);
        }
        if b != seq!['0'] {
            lemma_leading_digit_bound(b);
            lemma_pow10_positive((b.len() - 1) as nat);
        }
    } else {
        lemma_digits_bound(a);
        lemma_digits_bound(b);
        lemma_leading_digit_bound(a);
        lemma_leading_digit_bound(b);
        if a.len() < b.len() {
            let k = (b.len() - 1 - a.len()) as nat;
            lemma_pow10_add(a.len(), k);
            lemma_pow10_positive(k);
            assert(a.len() + k == b.len() - 1);
            let x = pow10(a.len()) as int;
            let y = pow10(k) as int;
            assert(x * y >= x) by (nonlinear_arith)
                requires
                    x > 0,
                    y >= 1,
            ;
        }
        if b.len() < a.len() {
            let k = (a.len() - 1 - b.len()) as nat;
            lemma_pow10_add(b.len(), k);
            lemma_pow10_positive(k);
            assert(b.len() + k == a.len() - 1);
            let x = pow10(b.len()) as int;
            let y = pow10(k) as int;
            assert(x * y >= x) by (nonlinear_arith)
                requires
                    x > 0,
                    y >= 1,
            ;
        }
        lemma_same_length_digits(a, b);
    }
}

/// Two digit texts have one canonical text exactly when they have one
/// value: an unsigned integer is identified by its value.
pub proof fn lemma_canonical_digits_by_value(a: Seq<char>, b: Seq<char>)
    requires
        is_natural_literal(a),
        is_natural_literal(b),
    ensures
        is_canonical_digits(canonical_digits(a)),
        canonical_digits(a) == canonical_digits(b) <==> digits_value(a) == digits_value(b),
{
    lemma_canonical_digits_keep_value(a);
    lemma_canonical_digits_keep_value(b);
    lemma_strip_leading_zeros(a);
    lemma_strip_leading_zeros(b);
    if digits_value(a) == digits_value(b) {
        lemma_canonical_digits_unique(canonical_digits(a), canonical_digits(b));
    }
}

/// The magnitude of a canonical decimal is zero exactly for the text zero.
proof fn lemma_canonical_magnitude_zero(c: Seq<char>)
    requires
        is_canonical_decimal(c),
    ensures
        ({
            let u = unsigned_text(c);
            let w = integer_digits(u);
            let f = fraction_digits(u);
            &&& all_digits(w + f)
            &&& digits_value(w + f) == 0 <==> (w == seq!['0'] && f.len() == 0)
        }),
{
    let u = unsigned_text(c);
    let w = integer_digits(u);
    let f = fraction_digits(u);
    lemma_plain_decimal_parts(c);
    let wf = w + f;
    assert(all_digits(wf)) by {
        assert forall|i: int| 0 <= i < wf.len() implies #[trigger] is_digit(wf[i]) by {
            if i < w.len() {
                assert(wf[i] == w[i]);
            } else {
                assert(wf[i] == f[i - w.len()]);
            }
        }
    }
    lemma_zero_digit_value();
    if f.len() > 0 {
        assert(wf.last() == f.last());
        lemma_nonzero_last_digit(wf);
    } else {
        assert(wf =~= w);
        if w != seq!['0'] {
            lemma_leading_digit_bound(w);
            lemma_pow10_positive((w.len() - 1) as nat);
        }
    }
}

/// Canonical decimal texts of one value are one text.
pub proof fn lemma_canonical_decimal_unique(a: Seq<char>, b: Seq<char>)
    requires
        is_canonical_decimal(a),
        is_canonical_decimal(b),
        decimal_order(a, b) == 0,
    ensures
        a == b,
{
    let (ua, ub) = (unsigned_text(a), unsigned_text(b));
    let (wa, wb) = (integer_digits(ua), integer_digits(ub));
    let (fa, fb) = (fraction_digits(ua), fraction_digits(ub));
    lemma_plain_decimal_parts(a);
    lemma_plain_decimal_parts(b);
    lemma_canonical_magnitude_zero(a);
    lemma_canonical_magnitude_zero(b);
    lemma_concat_value(wa, fa);
    lemma_concat_value(wb, fb);
    lemma_digits_bound(fa);
    lemma_digits_bound(fb);
    lemma_pow10_positive(fa.len());
    lemma_pow10_positive(fb.len());
    let ma = digits_value(wa + fa) as int;
    let mb = digits_value(wb + fb) as int;
    let pa = pow10(fa.len()) as int;
    let pb = pow10(fb.len()) as int;
    let na = decimal_numerator(a);
    let nb = decimal_numerator(b);
    assert(na == if starts_negative(a) { -ma } else { ma });
    assert(nb == if starts_negative(b) { -mb } else { mb });
    assert(decimal_scale(a) == fa.len() && decimal_scale(b) == fb.len());
    assert(na * pb == nb * pa);
    if ma == 0 || mb == 0 {
        assert(ma == 0 && mb == 0) by (nonlinear_arith)
            requires
                na * pb == nb * pa,
                pa > 0,
                pb > 0,
                na == ma || na == -ma,
                nb == mb || nb == -mb,
                ma == 0 || mb == 0,
        ;
        assert(wa == seq!['0'] && fa.len() == 0);
        assert(wb == seq!['0'] && fb.len() == 0);
        assert(!starts_negative(a) && !starts_negative(b));
    } else {
        assert(ma > 0 && mb > 0);
        assert(starts_negative(a) == starts_negative(b)) by {
            if starts_negative(a) != starts_negative(b) {
                assert(false) by (nonlinear_arith)
                    requires
                        na * pb == nb * pa,
                        pa > 0,
                        pb > 0,
                        ma > 0,
                        mb > 0,
                        (na == -ma && nb == mb) || (na == ma && nb == -mb),
                ;
            }
        }
        assert(ma * pb == mb * pa) by (nonlinear_arith)
            requires
                na * pb == nb * pa,
                (na == -ma && nb == -mb) || (na == ma && nb == mb),
        ;
        if fa.len() < fb.len() {
            let k = (fb.len() - fa.len()) as nat;
            lemma_pow10_add(fa.len(), k);
            assert(fa.len() + k == fb.len());
            assert(pow10(k) == 10 * pow10((k - 1) as nat));
            let q = pow10((k - 1) as nat) as int;
            assert(mb % 10 == 0) by (nonlinear_arith)
                requires
                    ma * (pa * (10 * q)) == mb * pa,
                    pa > 0,
            {
                assert(mb == (ma * q) * 10);
            }
            assert((wb + fb).last() == fb.last());
            lemma_nonzero_last_digit(wb + fb);
        }
        if fb.len() < fa.len() {
            let k = (fa.len() - fb.len()) as nat;
            lemma_pow10_add(fb.len(), k);
            assert(fb.len() + k == fa.len());
            assert(pow10(k) == 10 * pow10((k - 1) as nat));
            let q = pow10((k - 1) as nat) as int;
            assert(ma % 10 == 0) by (nonlinear_arith)
                requires
                    ma * pb == mb * (pb * (10 * q)),
                    pb > 0,
            {
                assert(ma == (mb * q) * 10);
            }
            assert((wa + fa).last() == fa.last());
            lemma_nonzero_last_digit(wa + fa);
        }
        assert(fa.len() == fb.len());
        assert(ma == mb) by (nonlinear_arith)
            requires
                ma * pb == mb * pa,
                pa == pb,
                pa > 0,
        ;
        let (va, vb) = (digits_value(wa) as int, digits_value(wb) as int);
        let (ga, gb) = (digits_value(fa) as int, digits_value(fb) as int);
        assert(va == vb && ga == gb) by (nonlinear_arith)
            requires
                va * pa + ga == vb * pa + gb,
                0 <= ga < pa,
                0 <= gb < pa,
                va >= 0,
                vb >= 0,
        ;
        lemma_canonical_digits_unique(wa, wb);
        lemma_same_length_digits(fa, fb);
    }
}

/// Canonical decimal text has the canonical shape.
pub proof fn lemma_canonical_decimal_shape(s: Seq<char>)
    requires
        is_plain_decimal(s),
    ensures
        is_canonical_decimal(canonical_decimal(s)),
{
    let u = unsigned_text(s);
    let i = integer_digits(u);
    let f = fraction_digits(u);
    lemma_canonical_digits_keep_value(i);
    lemma_strip_leading_zeros(i);
    lemma_strip_trailing_zeros(f);
    let whole = canonical_digits(i);
    let fraction = strip_trailing_zeros(f);
    let zero = whole == seq!['0'] && fraction.len() == 0;
    let sign = if starts_negative(s) && !zero {
        seq!['-']
    } else {
        Seq::<char>::empty()
    };
    lemma_canonical_decimal_parts(sign, whole, fraction);
    lemma_canonical_decimal_keeps_value(s);
}

/// Two decimal texts have one canonical text exactly when they have one
/// value: an exact decimal is identified by its value.
pub proof fn lemma_canonical_decimal_by_value(a: Seq<char>, b: Seq<char>)
    requires
        is_plain_decimal(a),
        is_plain_decimal(b),
    ensures
        canonical_decimal(a) == canonical_decimal(b) <==> decimal_order(a, b) == 0,
{
    let (ca, cb) = (canonical_decimal(a), canonical_decimal(b));
    lemma_canonical_decimal_keeps_value(a);
    lemma_canonical_decimal_keeps_value(b);
    lemma_canonical_decimal_shape(a);
    lemma_canonical_decimal_shape(b);
    lemma_decimal_order_flip(ca, a);
    lemma_decimal_order_flip(cb, b);
    if decimal_order(a, b) == 0 {
        lemma_decimal_equal_transitive(ca, a, b);
        lemma_decimal_equal_transitive(ca, b, cb);
        lemma_canonical_decimal_unique(ca, cb);
    }
    if ca == cb {
        lemma_decimal_equal_transitive(a, ca, b);
    }
}

/// Canonical signed text keeps the integer's value, is an integer literal
/// again, and is its own canonical text.
pub proof fn lemma_canonical_signed_keeps_value(s: Seq<char>)
    requires
        is_integer_literal(s),
    ensures
        is_integer_literal(canonical_signed(s)),
        integer_value(canonical_signed(s)) == integer_value(s),
        canonical_signed(canonical_signed(s)) == canonical_signed(s),
{
    let u = unsigned_text(s);
    lemma_strip_leading_zeros(u);
    let t = strip_leading_zeros(u);
    let c = canonical_signed(s);
    if t.len() == 0 {
        let z = seq!['0'];
        assert(c == z);
        assert(z.drop_first() =~= Seq::<char>::empty());
        assert(strip_leading_zeros(z) == strip_leading_zeros(z.drop_first()));
        assert(z.drop_last() =~= Seq::<char>::empty());
        assert(digits_value(z) == digits_value(z.drop_last()) * 10 + digit_value(z.last()));
        assert(is_digit(z[0]));
        assert(unsigned_text(z) == z);
    } else {
        assert(t[0] != '0');
        assert(is_digit(t[0]));
        assert(unsigned_text(t) == t);
        if starts_negative(s) {
            assert(c == seq!['-'] + t);
            assert(c.drop_first() =~= t);
            assert(unsigned_text(c) == t);
        } else {
            assert(c == t);
        }
    }
}

/// Inputs refused before their digits are read: empty, a leading plus sign,
/// or an exponent marker.
pub open spec fn decimal_form_refused(s: Seq<char>) -> bool {
    s.len() == 0 || s[0] == '+' || has_char(s, 'e') || has_char(s, 'E')
}

/// Canonical text of a plain decimal: no leading integer zeros, no trailing
/// fraction zeros, no point without a fraction, no sign on zero.
pub open spec fn canonical_decimal(s: Seq<char>) -> Seq<char> {
    let u = unsigned_text(s);
    let whole = canonical_digits(integer_digits(u));
    let fraction = strip_trailing_zeros(fraction_digits(u));
    let zero = whole == seq!['0'] && fraction.len() == 0;
    let sign = if starts_negative(s) && !zero {
        seq!['-']
    } else {
        Seq::empty()
    };
    if fraction.len() == 0 {
        sign + whole
    } else {
        sign + whole + seq!['.'] + fraction
    }
}

/// A canonical, finite base-10 decimal.
#[derive(Debug, PartialEq, Eq, PartialOrd, Ord, Hash)]
pub struct ExactDecimal(String);

impl Clone for ExactDecimal {
    fn clone(&self) -> (r: Self)
        ensures
            r == *self,
    {
        proof {
            use_type_invariant(self);
        }
        ExactDecimal(self.0.clone())
    }
}

impl View for ExactDecimal {
    type V = Seq<char>;

    closed spec fn view(&self) -> Seq<char> {
        self.0@
    }
}

impl ExactDecimal {
    #[verifier::type_invariant]
    spec fn literal(self) -> bool {
        is_plain_decimal(self.0@)
    }

    /// Accepts `[-]digits[.digits]` without exponent or plus sign and
    /// returns its canonical text.
    pub fn new(value: &str) -> (r: Result<Self, String>)
        ensures
            r is Ok <==> !decimal_form_refused(value@) && is_plain_decimal(value@),
            r matches Ok(v) ==> v@ == canonical_decimal(value@),
            r matches Err(message) ==> if decimal_form_refused(value@) {
                message@ == "expected a plain finite base-10 decimal string without an exponent"@
            } else {
                message@ == "expected a plain finite base-10 decimal string"@
            },
    {
        let chars = chars_of(value);
        let n = chars.len();
        if n == 0 || chars[0] == '+' {
            return Err(
                String::from_str("expected a plain finite base-10 decimal string without an exponent"),
            );
        }
        let mut i: usize = 0;
        while i < n
            invariant
                n == chars.len(),
                chars@ == value@,
                i <= n,
                forall|j: int| 0 <= j < i ==> chars@[j] != 'e' && chars@[j] != 'E',
            decreases n - i,
        {
            if chars[i] == 'e' || chars[i] == 'E' {
                return Err(
                    String::from_str(
                        "expected a plain finite base-10 decimal string without an exponent",
                    ),
                );
            }
            i = i + 1;
        }
        assert(!decimal_form_refused(value@));
        let negative = chars[0] == '-';
        let start: usize = if negative { 1 } else { 0 };
        let ghost u = unsigned_text(value@);
        assert(u =~= chars@.skip(start as int));
        // first decimal point
        let mut p: usize = start;
        while p < n && chars[p] != '.'
            invariant
                start <= p <= n == chars.len(),
                forall|j: int| start <= j < p ==> chars@[j] != '.',
            decreases n - p,
        {
            p = p + 1;
        }
        proof {
            assert forall|j: int| 0 <= j < p - start implies u[j] != '.' by {
                assert(u[j] == chars@[j + start]);
            }
            if p < n {
                assert(u[p - start] == chars@[p as int]);
            }
            lemma_first_index_of(u, '.', p - start);
            assert(integer_digits(u) =~= chars@.subrange(start as int, p as int));
            if p < n {
                assert(fraction_digits(u) =~= chars@.subrange(p + 1, n as int));
            } else {
                assert(fraction_digits(u).len() == 0);
            }
        }
        if !digits_in(&chars, start, p) || p == start {
            return Err(String::from_str("expected a plain finite base-10 decimal string"));
        }
        if p < n && (p + 1 == n || !digits_in(&chars, p + 1, n)) {
            return Err(String::from_str("expected a plain finite base-10 decimal string"));
        }
        let whole = canonical_digit_chars(&chars, start, p);
        let frac_start: usize = if p < n { p + 1 } else { n };
        let frac_end = without_trailing_zeros(&chars, frac_start, n);
        proof {
            if p >= n {
                assert(chars@.subrange(frac_start as int, n as int).len() == 0);
                assert(fraction_digits(u) =~= chars@.subrange(frac_start as int, n as int));
            }
        }
        let zero = whole.len() == 1 && whole[0] == '0' && frac_end == frac_start;
        proof {
            assert(zero == (whole@ == seq!['0'] && frac_end == frac_start)) by {
                if whole.len() == 1 && whole[0] == '0' {
                    assert(whole@ =~= seq!['0']);
                }
            }
        }
        let mut out: Vec<char> = Vec::new();
        if negative && !zero {
            out.push('-');
        }
        let ghost sign = out@;
        let mut k: usize = 0;
        while k < whole.len()
            invariant
                k <= whole.len(),
                out@ == sign + whole@.take(k as int),
            decreases whole.len() - k,
        {
            out.push(whole[k]);
            assert(whole@.take(k + 1) =~= whole@.take(k as int).push(whole@[k as int]));
            k = k + 1;
        }
        assert(whole@.take(whole.len() as int) =~= whole@);
        let ghost fraction = chars@.subrange(frac_start as int, frac_end as int);
        if frac_end > frac_start {
            out.push('.');
            let mut m: usize = frac_start;
            while m < frac_end
                invariant
                    frac_start <= m <= frac_end <= chars.len(),
                    out@ == sign + whole@ + seq!['.'] + chars@.subrange(
                        frac_start as int,
                        m as int,
                    ),
                decreases frac_end - m,
            {
                out.push(chars[m]);
                assert(chars@.subrange(frac_start as int, m + 1) =~= chars@.subrange(
                    frac_start as int,
                    m as int,
                ).push(chars@[m as int]));
                m = m + 1;
            }
        }
        proof {
            if frac_end > frac_start {
                assert(out@ =~= sign + whole@ + seq!['.'] + fraction);
            } else {
                assert(out@ =~= sign + whole@);
            }
            assert(out@ == canonical_decimal(value@));
            lemma_canonical_decimal_is_plain(sign, whole@, fraction);
        }
        Ok(ExactDecimal(string_from_chars(&out)))
    }

    pub fn as_str(&self) -> (r: &str)
        ensures
            r@ == self@,
            is_plain_decimal(r@),
    {
        proof {
            use_type_invariant(self);
        }
        self.0.as_str()
    }

    /// Whether the exact value is greater than zero.
    pub fn is_positive(&self) -> (r: bool)
        ensures
            r == (decimal_numerator(self@) > 0),
    {
        let text = self.as_str();
        proof {
            lemma_zero_literal();
            assert(pow10(0) == 1);
            assert(decimal_numerator("0"@) * pow10(decimal_scale(text@)) == 0);
            assert(decimal_order(text@, "0"@) == sign_of(decimal_numerator(text@)));
        }
        decimal_compare(text, "0") > 0
    }
}

/// The literal "0" is a plain decimal of value zero.
pub proof fn lemma_zero_literal()
    ensures
        is_plain_decimal("0"@),
        decimal_numerator("0"@) == 0,
        decimal_scale("0"@) == 0,
        is_natural_literal("0"@),
        digits_value("0"@) == 0,
{
    reveal_strlit("0");
    let z = "0"@;
    assert(unsigned_text(z) == z);
    assert(z[0] == '0');
    lemma_first_index_of(z, '.', 1);
    assert(integer_digits(z) =~= z);
    assert(is_digit(z[0]));
    assert(fraction_digits(z).len() == 0);
    assert(integer_digits(z) + fraction_digits(z) =~= z);
    assert(z.drop_last().len() == 0);
    assert(digits_value(z.drop_last()) == 0);
    assert(z.last() == '0');
    assert(digit_value('0') == 0);
    assert(digits_value(z) == 0);
}

/// The canonical text of a sign, whole digits and fraction digits is a
/// plain decimal.
proof fn lemma_canonical_decimal_is_plain(sign: Seq<char>, whole: Seq<char>, fraction: Seq<char>)
    requires
        sign == Seq::<char>::empty() || sign == seq!['-'],
        whole.len() > 0,
        all_digits(whole),
        all_digits(fraction),
    ensures
        fraction.len() == 0 ==> is_plain_decimal(sign + whole),
        fraction.len() > 0 ==> is_plain_decimal(sign + whole + seq!['.'] + fraction),
{
    lemma_canonical_decimal_parts(sign, whole, fraction);
}

proof fn lemma_canonical_decimal_parts(sign: Seq<char>, whole: Seq<char>, fraction: Seq<char>)
    requires
        sign == Seq::<char>::empty() || sign == seq!['-'],
        whole.len() > 0,
        all_digits(whole),
        all_digits(fraction),
    ensures
        fraction.len() == 0 ==> is_plain_decimal(sign + whole),
        fraction.len() > 0 ==> is_plain_decimal(sign + whole + seq!['.'] + fraction),
        ({
            let t = if fraction.len() == 0 {
                sign + whole
            } else {
                sign + whole + seq!['.'] + fraction
            };
            &&& starts_negative(t) == (sign.len() > 0)
            &&& integer_digits(unsigned_text(t)) == whole
            &&& fraction_digits(unsigned_text(t)) == fraction
        }),
{
    let t = if fraction.len() == 0 {
        sign + whole
    } else {
        sign + whole + seq!['.'] + fraction
    };
    let u = if fraction.len() == 0 {
        whole
    } else {
        whole + seq!['.'] + fraction
    };
    assert(whole[0] != '-') by {
        assert(is_digit(whole[0]));
    }
    if sign.len() == 0 {
        assert(t =~= u);
    } else {
        assert(t.drop_first() =~= u);
    }
    assert(unsigned_text(t) == u);
    assert forall|j: int| 0 <= j < whole.len() implies u[j] != '.' by {
        assert(u[j] == whole[j]);
        assert(is_digit(whole[j]));
    }
    if fraction.len() > 0 {
        assert(u[whole.len() as int] == '.');
    }
    lemma_first_index_of(u, '.', whole.len() as int);
    assert(integer_digits(u) =~= whole);
    if fraction.len() > 0 {
        assert(fraction_digits(u) =~= fraction);
    } else {
        assert(fraction_digits(u) =~= fraction);
    }
    if sign.len() > 0 {
        assert(t[0] == '-');
    } else {
        assert(t[0] == whole[0]);
    }
}

/// Whether `chars[start..end]` are all ASCII digits.
fn digits_in(chars: &Vec<char>, start: usize, end: usize) -> (r: bool)
    requires
        start <= end <= chars.len(),
    ensures
        r == all_digits(chars@.subrange(start as int, end as int)),
{
    let mut i: usize = start;
    while i < end
        invariant
            start <= i <= end <= chars.len(),
            forall|j: int| start <= j < i ==> #[trigger] is_digit(chars@[j]),
        decreases end - i,
    {
        if !(chars[i] >= '0' && chars[i] <= '9') {
            assert(!is_digit(chars@.subrange(start as int, end as int)[i - start]));
            return false;
        }
        i = i + 1;
    }
    assert forall|j: int| 0 <= j < end - start implies #[trigger] is_digit(
        chars@.subrange(start as int, end as int)[j],
    ) by {
        assert(chars@.subrange(start as int, end as int)[j] == chars@[j + start]);
    }
    true
}

/// End of `chars[start..end]` once its trailing zeros are removed.
fn without_trailing_zeros(chars: &Vec<char>, start: usize, end: usize) -> (e: usize)
    requires
        start <= end <= chars.len(),
    ensures
        start <= e <= end,
        strip_trailing_zeros(chars@.subrange(start as int, end as int)) == chars@.subrange(
            start as int,
            e as int,
        ),
{
    let mut e: usize = end;
    while e > start && chars[e - 1] == '0'
        invariant
            start <= e <= end <= chars.len(),
            forall|j: int| e <= j < end ==> chars@[j] == '0',
        decreases e,
    {
        e = e - 1;
    }
    let ghost s = chars@.subrange(start as int, end as int);
    proof {
        assert forall|j: int| e - start <= j < s.len() implies s[j] == '0' by {
            assert(s[j] == chars@[j + start]);
        }
        if e > start {
            assert(s[e - start - 1] == chars@[e - 1]);
        }
        lemma_strip_trailing(s, e - start);
        assert(s.take(e - start) =~= chars@.subrange(start as int, e as int));
    }
    e
}

#[derive(Clone, Copy, Debug, PartialEq, Eq, Structural)]
pub enum SampleCount {
    Finite { count: u64 },
    Unlimited,
}

#[derive(Debug, PartialEq, Eq)]
pub struct NegacyclicRing {
    pub polynomial_degree: u64,
    pub ciphertext_modulus: PositiveInteger,
}

impl Clone for NegacyclicRing {
    fn clone(&self) -> (r: Self)
        ensures
            r == *self,
    {
        NegacyclicRing {
            polynomial_degree: self.polynomial_degree,
            ciphertext_modulus: self.ciphertext_modulus.clone(),
        }
    }
}

#[derive(Debug, PartialEq, Eq)]
pub enum SecretDistribution {
    UniformBinary,
    UniformTernary,
    /// Independent coefficients with P(-1)=1/4, P(0)=1/2, and P(1)=1/4.
    SparseTernary {},
    FixedWeightBinary { hamming_weight: u64 },
    FixedWeightTernary { positive_weight: u64, negative_weight: u64 },
    DiscreteGaussian { standard_deviation: ExactDecimal },
    CenteredBinomial { eta: u64 },
    UniformInteger { lower: SignedInteger, upper: SignedInteger },
}

impl Clone for SecretDistribution {
    fn clone(&self) -> (r: Self)
        ensures
            r == *self,
    {
        match self {
            SecretDistribution::UniformBinary => SecretDistribution::UniformBinary,
            SecretDistribution::UniformTernary => SecretDistribution::UniformTernary,
            SecretDistribution::SparseTernary {} => SecretDistribution::SparseTernary {},
            SecretDistribution::FixedWeightBinary { hamming_weight } => {
                SecretDistribution::FixedWeightBinary { hamming_weight: *hamming_weight }
            },
            SecretDistribution::FixedWeightTernary { positive_weight, negative_weight } => {
                SecretDistribution::FixedWeightTernary {
                    positive_weight: *positive_weight,
                    negative_weight: *negative_weight,
                }
            },
            SecretDistribution::DiscreteGaussian { standard_deviation } => {
                SecretDistribution::DiscreteGaussian {
                    standard_deviation: standard_deviation.clone(),
                }
            },
            SecretDistribution::CenteredBinomial { eta } => SecretDistribution::CenteredBinomial {
                eta: *eta,
            },
            SecretDistribution::UniformInteger { lower, upper } => {
                SecretDistribution::UniformInteger { lower: lower.clone(), upper: upper.clone() }
            },
        }
    }
}

#[derive(Debug, PartialEq, Eq)]
pub enum ErrorDistribution {
    DiscreteGaussian { standard_deviation: ExactDecimal },
    CenteredBinomial { eta: u64 },
    UniformInteger { lower: SignedInteger, upper: SignedInteger },
}

impl Clone for ErrorDistribution {
    fn clone(&self) -> (r: Self)
        ensures
            r == *self,
    {
        match self {
            ErrorDistribution::DiscreteGaussian { standard_deviation } => {
                ErrorDistribution::DiscreteGaussian {
                    standard_deviation: standard_deviation.clone(),
                }
            },
            ErrorDistribution::CenteredBinomial { eta } => ErrorDistribution::CenteredBinomial {
                eta: *eta,
            },
            ErrorDistribution::UniformInteger { lower, upper } => {
                ErrorDistribution::UniformInteger { lower: lower.clone(), upper: upper.clone() }
            },
        }
    }
}

#[derive(Debug, PartialEq, Eq)]
pub struct LweProblem {
    pub dimension: u64,
    pub modulus: PositiveInteger,
    pub samples: SampleCount,
    pub secret: SecretDistribution,
    pub error: ErrorDistribution,
}

impl Clone for LweProblem {
    fn clone(&self) -> (r: Self)
        ensures
            r == *self,
    {
        LweProblem {
            dimension: self.dimension,
            modulus: self.modulus.clone(),
            samples: self.samples,
            secret: self.secret.clone(),
            error: self.error.clone(),
        }
    }
}

#[derive(Debug, PartialEq, Eq)]
pub struct RlweProblem {
    pub negacyclic_ring: NegacyclicRing,
    pub samples: SampleCount,
    pub secret: SecretDistribution,
    pub error: ErrorDistribution,
}

impl Clone for RlweProblem {
    fn clone(&self) -> (r: Self)
        ensures
            r == *self,
    {
        RlweProblem {
            negacyclic_ring: self.negacyclic_ring.clone(),
            samples: self.samples,
            secret: self.secret.clone(),
            error: self.error.clone(),
        }
    }
}

#[derive(Debug, PartialEq, Eq)]
pub struct GlweProblem {
    pub negacyclic_ring: NegacyclicRing,
    pub dimension: u64,
    pub samples: SampleCount,
    pub secret: SecretDistribution,
    pub error: ErrorDistribution,
}

impl Clone for GlweProblem {
    fn clone(&self) -> (r: Self)
        ensures
            r == *self,
    {
        GlweProblem {
            negacyclic_ring: self.negacyclic_ring.clone(),
            dimension: self.dimension,
            samples: self.samples,
            secret: self.secret.clone(),
            error: self.error.clone(),
        }
    }
}

#[derive(Clone, Copy, Debug, PartialEq, Eq, Structural)]
pub enum NtruStructure {
    Matrix,
    Circulant,
}

#[derive(Debug, PartialEq, Eq)]
pub struct NtruProblem {
    pub dimension: u64,
    pub modulus: PositiveInteger,
    pub secret: SecretDistribution,
    pub error: ErrorDistribution,
    pub structure: NtruStructure,
}

impl Clone for NtruProblem {
    fn clone(&self) -> (r: Self)
        ensures
            r == *self,
    {
        NtruProblem {
            dimension: self.dimension,
            modulus: self.modulus.clone(),
            secret: self.secret.clone(),
            error: self.error.clone(),
            structure: self.structure,
        }
    }
}

#[derive(Clone, Copy, Debug, PartialEq, Eq, Structural)]
pub enum SisNorm {
    L2,
    LInfinity,
}

#[derive(Debug, PartialEq, Eq)]
pub struct SisProblem {
    pub dimension: u64,
    pub modulus: PositiveInteger,
    pub columns: u64,
    pub length_bound: ExactDecimal,
    pub norm: SisNorm,
}

impl Clone for SisProblem {
    fn clone(&self) -> (r: Self)
        ensures
            r == *self,
    {
        SisProblem {
            dimension: self.dimension,
            modulus: self.modulus.clone(),
            columns: self.columns,
            length_bound: self.length_bound.clone(),
            norm: self.norm,
        }
    }
}

#[derive(Debug, PartialEq, Eq)]
pub enum Problem {
    Lwe(LweProblem),
    Rlwe(RlweProblem),
    Glwe(GlweProblem),
    Ntru(NtruProblem),
    Sis(SisProblem),
}

impl Clone for Problem {
    fn clone(&self) -> (r: Self)
        ensures
            r == *self,
    {
        match self {
            Problem::Lwe(p) => Problem::Lwe(p.clone()),
            Problem::Rlwe(p) => Problem::Rlwe(p.clone()),
            Problem::Glwe(p) => Problem::Glwe(p.clone()),
            Problem::Ntru(p) => Problem::Ntru(p.clone()),
            Problem::Sis(p) => Problem::Sis(p.clone()),
        }
    }
}

/// Problem variants accepted directly by the estimator.
#[derive(Debug, PartialEq, Eq)]
pub enum EstimatorProblem {
    Lwe(LweProblem),
    Ntru(NtruProblem),
    Sis(SisProblem),
}

impl Clone for EstimatorProblem {
    fn clone(&self) -> (r: Self)
        ensures
            r == *self,
    {
        match self {
            EstimatorProblem::Lwe(p) => EstimatorProblem::Lwe(p.clone()),
            EstimatorProblem::Ntru(p) => EstimatorProblem::Ntru(p.clone()),
            EstimatorProblem::Sis(p) => EstimatorProblem::Sis(p.clone()),
        }
    }
}

#[derive(Clone, Copy, Debug, PartialEq, Eq, Structural)]
pub enum SecurityModel {
    Classical,
    Quantum,
}

#[derive(Clone, Copy, Debug, PartialEq, Eq, Structural)]
pub enum ReductionCostModel {
    Bdgl16,
    LaaMosPol14,
}

#[derive(Clone, Copy, Debug, PartialEq, Eq, Structural)]
pub enum ReductionShapeModel {
    Gsa,
}

#[derive(Clone, Copy, Debug, PartialEq, Eq, Structural)]
pub enum ReductionModel {
    CoefficientEmbeddingV1,
}

#[derive(Clone, Copy, Debug, PartialEq, Eq, PartialOrd, Ord, Hash, Structural)]
pub enum Attack {
    AroraGb,
    Bkw,
    Usvp,
    Bdd,
    BddHybrid,
    BddMitmHybrid,
    Dual,
    DualHybrid,
    Dsd,
    Lattice,
}

#[derive(Clone, Copy, Debug, PartialEq, Eq, Structural)]
pub struct AnalysisSettings {
    pub security_model: SecurityModel,
    pub cost_model: Option<ReductionCostModel>,
    pub shape_model: Option<ReductionShapeModel>,
    pub reduction_model: Option<ReductionModel>,
}

#[derive(Clone, Copy, Debug, PartialEq, Eq, Structural)]
pub struct ResolvedAnalysisSettings {
    pub security_model: SecurityModel,
    pub cost_model: ReductionCostModel,
    pub shape_model: ReductionShapeModel,
    pub reduction_model: Option<ReductionModel>,
}

impl Default for AnalysisSettings {
    fn default() -> (r: Self)
        ensures
            r == (AnalysisSettings {
                security_model: SecurityModel::Classical,
                cost_model: None,
                shape_model: None,
                reduction_model: None,
            }),
    {
        AnalysisSettings {
            security_model: SecurityModel::Classical,
            cost_model: None,
            shape_model: None,
            reduction_model: None,
        }
    }
}

/// Reduction cost model used when none is given: BDGL16 for classical and
/// LaaMosPol14 for quantum security.
pub open spec fn default_cost_model(model: SecurityModel) -> ReductionCostModel {
    match model {
        SecurityModel::Classical => ReductionCostModel::Bdgl16,
        SecurityModel::Quantum => ReductionCostModel::LaaMosPol14,
    }
}

pub open spec fn resolved(settings: AnalysisSettings) -> ResolvedAnalysisSettings {
    ResolvedAnalysisSettings {
        security_model: settings.security_model,
        cost_model: match settings.cost_model {
            Some(m) => m,
            None => default_cost_model(settings.security_model),
        },
        shape_model: match settings.shape_model {
            Some(m) => m,
            None => ReductionShapeModel::Gsa,
        },
        reduction_model: settings.reduction_model,
    }
}

impl AnalysisSettings {
    /// Fills in the default cost and shape models.
    pub fn resolve(&self) -> (r: ResolvedAnalysisSettings)
        ensures
            r == resolved(*self),
    {
        let cost_model = match self.cost_model {
            Some(m) => m,
            None => match self.security_model {
                SecurityModel::Classical => ReductionCostModel::Bdgl16,
                SecurityModel::Quantum => ReductionCostModel::LaaMosPol14,
            },
        };
        let shape_model = match self.shape_model {
            Some(m) => m,
            None => ReductionShapeModel::Gsa,
        };
        ResolvedAnalysisSettings {
            security_model: self.security_model,
            cost_model,
            shape_model,
            reduction_model: self.reduction_model,
        }
    }
}

/// LWE, RLWE and GLWE are analysed as LWE.
pub open spec fn lwe_like(problem: Problem) -> bool {
    problem is Lwe || problem is Rlwe || problem is Glwe
}

/// The fixed attack set of a problem, in report order.
pub open spec fn problem_attacks(problem: Problem) -> Seq<Attack> {
    if lwe_like(problem) {
        seq![
            Attack::AroraGb,
            Attack::Bkw,
            Attack::Usvp,
            Attack::Bdd,
            Attack::BddHybrid,
            Attack::BddMitmHybrid,
            Attack::Dual,
            Attack::DualHybrid,
        ]
    } else if problem is Ntru {
        seq![Attack::Usvp, Attack::Dsd, Attack::Bdd, Attack::BddHybrid, Attack::BddMitmHybrid]
    } else {
        seq![Attack::Lattice]
    }
}

/// The attacks that always run.
pub open spec fn problem_fast_attacks(problem: Problem) -> Seq<Attack> {
    if lwe_like(problem) {
        seq![
            Attack::Usvp,
            Attack::Bdd,
            Attack::BddHybrid,
            Attack::BddMitmHybrid,
            Attack::Dual,
            Attack::DualHybrid,
        ]
    } else {
        problem_attacks(problem)
    }
}

/// The adaptive slow attacks, decided by applicability rules and policy.
pub open spec fn problem_slow_attacks(problem: Problem) -> Seq<Attack> {
    if lwe_like(problem) {
        seq![Attack::AroraGb, Attack::Bkw]
    } else {
        Seq::empty()
    }
}

pub fn attacks_for_problem(problem: &Problem) -> (r: Vec<Attack>)
    ensures
        r@ == problem_attacks(*problem),
{
    match problem {
        Problem::Lwe(_) | Problem::Rlwe(_) | Problem::Glwe(_) => {
            let r = vec![
                Attack::AroraGb,
                Attack::Bkw,
                Attack::Usvp,
                Attack::Bdd,
                Attack::BddHybrid,
                Attack::BddMitmHybrid,
                Attack::Dual,
                Attack::DualHybrid,
            ];
            assert(r@ =~= problem_attacks(*problem));
            r
        },
        Problem::Ntru(_) => {
            let r = vec![
                Attack::Usvp,
                Attack::Dsd,
                Attack::Bdd,
                Attack::BddHybrid,
                Attack::BddMitmHybrid,
            ];
            assert(r@ =~= problem_attacks(*problem));
            r
        },
        Problem::Sis(_) => {
            let r = vec![Attack::Lattice];
            assert(r@ =~= problem_attacks(*problem));
            r
        },
    }
}

pub fn fast_attacks_for_problem(problem: &Problem) -> (r: Vec<Attack>)
    ensures
        r@ == problem_fast_attacks(*problem),
{
    match problem {
        Problem::Lwe(_) | Problem::Rlwe(_) | Problem::Glwe(_) => {
            let r = vec![
                Attack::Usvp,
                Attack::Bdd,
                Attack::BddHybrid,
                Attack::BddMitmHybrid,
                Attack::Dual,
                Attack::DualHybrid,
            ];
            assert(r@ =~= problem_fast_attacks(*problem));
            r
        },
        _ => attacks_for_problem(problem),
    }
}

pub fn slow_attacks_for_problem(problem: &Problem) -> (r: Vec<Attack>)
    ensures
        r@ == problem_slow_attacks(*problem),
{
    match problem {
        Problem::Lwe(_) | Problem::Rlwe(_) | Problem::Glwe(_) => {
            let r = vec![Attack::AroraGb, Attack::Bkw];
            assert(r@ =~= problem_slow_attacks(*problem));
            r
        },
        _ => {
            let r: Vec<Attack> = Vec::new();
            assert(r@ =~= problem_slow_attacks(*problem));
            r
        },
    }
}

/// Every attack of a problem is either fast or slow, and no attack is both.
pub proof fn lemma_attack_sets_partition(problem: Problem)
    ensures
        forall|a: Attack|
            problem_attacks(problem).contains(a) <==> (problem_fast_attacks(problem).contains(a)
                || problem_slow_attacks(problem).contains(a)),
        forall|a: Attack|
            !(problem_fast_attacks(problem).contains(a) && problem_slow_attacks(
                problem,
            ).contains(a)),
        problem_attacks(problem).len() == problem_fast_attacks(problem).len()
            + problem_slow_attacks(problem).len(),
        problem_attacks(problem).no_duplicates(),
{
    let all = problem_attacks(problem);
    let fast = problem_fast_attacks(problem);
    let slow = problem_slow_attacks(problem);
    assert forall|a: Attack| all.contains(a) <==> (fast.contains(a) || slow.contains(a)) by {
        if all.contains(a) {
            let i = choose|i: int| 0 <= i < all.len() && all[i] == a;
            if lwe_like(problem) {
                if i < 2 {
                    assert(slow[i] == a);
                } else {
                    assert(fast[i - 2] == a);
                }
            } else {
                assert(fast[i] == a);
            }
        }
        if fast.contains(a) {
            let i = choose|i: int| 0 <= i < fast.len() && fast[i] == a;
            if lwe_like(problem) {
                assert(all[i + 2] == a);
            } else {
                assert(all[i] == a);
            }
        }
        if slow.contains(a) {
            let i = choose|i: int| 0 <= i < slow.len() && slow[i] == a;
            assert(all[i] == a);
        }
    }
}

#[derive(Debug, PartialEq, Eq)]
pub enum NormalizedMetric {
    Integer { value: SignedInteger },
    Decimal { value: ExactDecimal },
    Boolean { value: bool },
    Text { value: String },
}

impl Clone for NormalizedMetric {
    fn clone(&self) -> (r: Self)
        ensures
            r == *self,
    {
        match self {
            NormalizedMetric::Integer { value } => NormalizedMetric::Integer { value: value.clone() },
            NormalizedMetric::Decimal { value } => NormalizedMetric::Decimal { value: value.clone() },
            NormalizedMetric::Boolean { value } => NormalizedMetric::Boolean { value: *value },
            NormalizedMetric::Text { value } => NormalizedMetric::Text { value: value.clone() },
        }
    }
}

#[derive(Clone, Debug, PartialEq, Eq)]
pub struct ApproximationProvenance {
    pub model_id: String,
    pub model_version: u32,
    pub model_hash: String,
    pub dataset_hash: String,
    pub feature_schema: String,
    pub estimator_commit: String,
    pub sage_version: String,
    pub adapter_version: String,
    pub worker_image: String,
    pub platform: String,
    pub training_points: u64,
    pub holdout_samples: u64,
    pub holdout_mean_absolute_error_bits: ExactDecimal,
    pub holdout_p95_absolute_error_bits: ExactDecimal,
    pub holdout_max_overestimate_bits: ExactDecimal,
    pub safety_margin_bits: ExactDecimal,
}

/// The result of one attack. Metrics are name/value pairs; a raw estimator
/// result is kept as JSON text.
#[derive(Clone, Debug, PartialEq)]
pub enum AttackOutcome {
    Computed { security_bits: ExactDecimal, duration_ms: u64, metrics: Vec<(String, NormalizedMetric)> },
    Approximate { security_bits: ExactDecimal, provenance: Box<ApproximationProvenance> },
    NoFiniteEstimate { code: String, reason: String, raw_result: Option<String> },
    Timeout { timeout_seconds: u64 },
    Unsupported { code: String, reason: String },
    Failed { code: String, message: String, retryable: bool },
    PolicySkipped { code: String, reason: String, applicability_rule_version: u32 },
    Skipped { reason: String },
}

#[derive(Debug, PartialEq, Eq)]
pub enum AnalysisModel {
    DirectLwe { version: u32 },
    DirectNtru { version: u32 },
    DirectSis { version: u32 },
    CoefficientEmbeddingV1 {
        version: u32,
        source_ring_samples: SampleCount,
        scalar_samples: SampleCount,
        derived_lwe: Box<LweProblem>,
        warnings: Vec<String>,
    },
}

/// Equal analysis models; warning lists are compared by their elements.
pub open spec fn same_model(a: AnalysisModel, b: AnalysisModel) -> bool {
    match (a, b) {
        (
            AnalysisModel::CoefficientEmbeddingV1 {
                version: v1,
                source_ring_samples: s1,
                scalar_samples: c1,
                derived_lwe: d1,
                warnings: w1,
            },
            AnalysisModel::CoefficientEmbeddingV1 {
                version: v2,
                source_ring_samples: s2,
                scalar_samples: c2,
                derived_lwe: d2,
                warnings: w2,
            },
        ) => v1 == v2 && s1 == s2 && c1 == c2 && d1 == d2 && w1@ == w2@,
        _ => a == b,
    }
}

impl Clone for AnalysisModel {
    fn clone(&self) -> (r: Self)
        ensures
            same_model(r, *self),
    {
        match self {
            AnalysisModel::DirectLwe { version } => AnalysisModel::DirectLwe { version: *version },
            AnalysisModel::DirectNtru { version } => AnalysisModel::DirectNtru { version: *version },
            AnalysisModel::DirectSis { version } => AnalysisModel::DirectSis { version: *version },
            AnalysisModel::CoefficientEmbeddingV1 {
                version,
                source_ring_samples,
                scalar_samples,
                derived_lwe,
                warnings,
            } => {
                let lwe: LweProblem = (**derived_lwe).clone();
                AnalysisModel::CoefficientEmbeddingV1 {
                    version: *version,
                    source_ring_samples: *source_ring_samples,
                    scalar_samples: *scalar_samples,
                    derived_lwe: Box::new(lwe),
                    warnings: clone_strings(warnings),
                }
            },
        }
    }
}

/// An element-wise copy of a list of strings.
pub fn clone_strings(v: &Vec<String>) -> (r: Vec<String>)
    ensures
        r@ == v@,
{
    let mut r: Vec<String> = Vec::new();
    let mut i: usize = 0;
    while i < v.len()
        invariant
            i <= v.len(),
            r@ == v@.take(i as int),
        decreases v.len() - i,
    {
        r.push(v[i].clone());
        assert(v@.take(i + 1) =~= v@.take(i as int).push(v@[i as int]));
        i = i + 1;
    }
    assert(v@.take(v.len() as int) =~= v@);
    r
}

pub open spec fn embedding_warning_unstructured() -> Seq<char> {
    "coefficient_embedding_v1 treats structured coefficient equations as an unstructured LWE instance"@
}

pub open spec fn embedding_warning_indirect() -> Seq<char> {
    "the estimate does not constitute a direct analysis of the original ring problem"@
}

pub open spec fn scaled_samples(samples: SampleCount, degree: u64) -> SampleCount {
    match samples {
        SampleCount::Finite { count } => SampleCount::Finite { count: (count * degree) as u64 },
        SampleCount::Unlimited => SampleCount::Unlimited,
    }
}

/// `model` is the coefficient embedding of a ring problem with `rank` ring
/// elements per secret: an LWE instance of dimension `rank * N` whose samples
/// are the ring samples times `N`.
pub open spec fn is_coefficient_embedding(
    model: AnalysisModel,
    ring: NegacyclicRing,
    rank: u64,
    samples: SampleCount,
    secret: SecretDistribution,
    error: ErrorDistribution,
) -> bool {
    match model {
        AnalysisModel::CoefficientEmbeddingV1 {
            version,
            source_ring_samples,
            scalar_samples,
            derived_lwe,
            warnings,
        } => {
            &&& version == 1
            &&& source_ring_samples == samples
            &&& scalar_samples == scaled_samples(samples, ring.polynomial_degree)
            &&& *derived_lwe == (LweProblem {
                dimension: (rank * ring.polynomial_degree) as u64,
                modulus: ring.ciphertext_modulus,
                samples: scaled_samples(samples, ring.polynomial_degree),
                secret,
                error,
            })
            &&& warnings@.len() == 2
            &&& warnings@[0]@ == embedding_warning_unstructured()
            &&& warnings@[1]@ == embedding_warning_indirect()
        },
        _ => false,
    }
}

/// The outcome of embedding a ring problem, given that the reduction model
/// asks for it: an overflow of the scalar dimension or sample count is
/// refused.
pub open spec fn embedding_outcome(
    r: Result<AnalysisModel, ValidationError>,
    ring: NegacyclicRing,
    rank: u64,
    samples: SampleCount,
    secret: SecretDistribution,
    error: ErrorDistribution,
) -> bool {
    if rank * ring.polynomial_degree > u64::MAX {
        r matches Err(e) && error_is(e, "problem"@, "derived scalar dimension overflows u64"@)
    } else if samples matches SampleCount::Finite { count } && count * ring.polynomial_degree
        > u64::MAX {
        r matches Err(e) && error_is(
            e,
            "problem.samples"@,
            "derived scalar sample count overflows u64"@,
        )
    } else {
        r matches Ok(model) && is_coefficient_embedding(model, ring, rank, samples, secret, error)
    }
}

pub open spec fn asks_for_embedding(settings: AnalysisSettings) -> bool {
    settings.reduction_model == Some(ReductionModel::CoefficientEmbeddingV1)
}

/// The analysis model of a problem: direct for LWE, NTRU and SIS; the
/// coefficient embedding for RLWE and GLWE, which must ask for it.
pub open spec fn analysis_model_outcome(
    problem: Problem,
    settings: AnalysisSettings,
    r: Result<AnalysisModel, ValidationError>,
) -> bool {
    match problem {
        Problem::Lwe(_) => r == Ok::<AnalysisModel, ValidationError>(
            AnalysisModel::DirectLwe { version: 1 },
        ),
        Problem::Ntru(_) => r == Ok::<AnalysisModel, ValidationError>(
            AnalysisModel::DirectNtru { version: 1 },
        ),
        Problem::Sis(_) => r == Ok::<AnalysisModel, ValidationError>(
            AnalysisModel::DirectSis { version: 1 },
        ),
        Problem::Rlwe(p) => if !asks_for_embedding(settings) {
            r matches Err(e) && error_is(
                e,
                "analysis.reduction_model"@,
                "RLWE/GLWE requires an explicit coefficient_embedding_v1 reduction model"@,
            )
        } else {
            embedding_outcome(r, p.negacyclic_ring, 1, p.samples, p.secret, p.error)
        },
        Problem::Glwe(p) => if !asks_for_embedding(settings) {
            r matches Err(e) && error_is(
                e,
                "analysis.reduction_model"@,
                "RLWE/GLWE requires an explicit coefficient_embedding_v1 reduction model"@,
            )
        } else {
            embedding_outcome(r, p.negacyclic_ring, p.dimension, p.samples, p.secret, p.error)
        },
    }
}

/// The ring, the number of ring elements per secret, the ring sample count,
/// the secret and the error of an RLWE or GLWE problem.
pub open spec fn ring_parameters(problem: Problem) -> Option<
    (NegacyclicRing, u64, SampleCount, SecretDistribution, ErrorDistribution),
> {
    match problem {
        Problem::Rlwe(p) => Some((p.negacyclic_ring, 1u64, p.samples, p.secret, p.error)),
        Problem::Glwe(p) => Some((p.negacyclic_ring, p.dimension, p.samples, p.secret, p.error)),
        _ => None,
    }
}

/// The LWE instance a ring problem is estimated as has `rank * N`
/// coefficients over the ring's modulus, the problem's secret and error, and
/// as many samples as the model's
/// scalar sample count: `c * N` for `c` ring samples, unlimited for
/// unlimited ones.
pub proof fn lemma_embedding_scales_samples(
    problem: Problem,
    settings: AnalysisSettings,
    r: Result<AnalysisModel, ValidationError>,
)
    requires
        analysis_model_outcome(problem, settings, r),
        r is Ok,
        ring_parameters(problem) is Some,
    ensures
        ({
            let (ring, rank, samples, secret, error) = ring_parameters(problem)->0;
            r->Ok_0 matches AnalysisModel::CoefficientEmbeddingV1 {
                scalar_samples,
                derived_lwe,
                source_ring_samples,
                ..
            } && {
                &&& source_ring_samples == samples
                &&& derived_lwe.samples == scalar_samples
                &&& derived_lwe.dimension == rank * ring.polynomial_degree
                &&& derived_lwe.modulus == ring.ciphertext_modulus
                &&& derived_lwe.secret == secret
                &&& derived_lwe.error == error
                &&& match samples {
                    SampleCount::Finite { count } => derived_lwe.samples matches SampleCount::Finite {
                        count: k,
                    } && k == count * ring.polynomial_degree,
                    SampleCount::Unlimited => derived_lwe.samples is Unlimited,
                }
            }
        }),
{
}

pub fn analysis_model_for(problem: &Problem, settings: &AnalysisSettings) -> (r: Result<
    AnalysisModel,
    ValidationError,
>)
    ensures
        analysis_model_outcome(*problem, *settings, r),
{
    match problem {
        Problem::Lwe(_) => Ok(AnalysisModel::DirectLwe { version: 1 }),
        Problem::Ntru(_) => Ok(AnalysisModel::DirectNtru { version: 1 }),
        Problem::Sis(_) => Ok(AnalysisModel::DirectSis { version: 1 }),
        Problem::Rlwe(p) => {
            require_coefficient_embedding(settings)?;
            coefficient_embedding(&p.negacyclic_ring, 1, &p.samples, &p.secret, &p.error)
        },
        Problem::Glwe(p) => {
            require_coefficient_embedding(settings)?;
            coefficient_embedding(&p.negacyclic_ring, p.dimension, &p.samples, &p.secret, &p.error)
        },
    }
}

fn require_coefficient_embedding(settings: &AnalysisSettings) -> (r: Result<(), ValidationError>)
    ensures
        r is Ok <==> asks_for_embedding(*settings),
        r matches Err(e) ==> error_is(
            e,
            "analysis.reduction_model"@,
            "RLWE/GLWE requires an explicit coefficient_embedding_v1 reduction model"@,
        ),
{
    if settings.reduction_model != Some(ReductionModel::CoefficientEmbeddingV1) {
        return Err(
            ValidationError::new(
                "analysis.reduction_model",
                "RLWE/GLWE requires an explicit coefficient_embedding_v1 reduction model",
            ),
        );
    }
    Ok(())
}

fn coefficient_embedding(
    ring: &NegacyclicRing,
    rank: u64,
    ring_samples: &SampleCount,
    secret: &SecretDistribution,
    error: &ErrorDistribution,
) -> (r: Result<AnalysisModel, ValidationError>)
    ensures
        embedding_outcome(r, *ring, rank, *ring_samples, *secret, *error),
{
    let dimension = match rank.checked_mul(ring.polynomial_degree) {
        Some(d) => d,
        None => {
            return Err(ValidationError::new("problem", "derived scalar dimension overflows u64"));
        },
    };
    let scalar_samples = match ring_samples {
        SampleCount::Finite { count } => match count.checked_mul(ring.polynomial_degree) {
            Some(c) => SampleCount::Finite { count: c },
            None => {
                return Err(
                    ValidationError::new(
                        "problem.samples",
                        "derived scalar sample count overflows u64",
                    ),
                );
            },
        },
        SampleCount::Unlimited => SampleCount::Unlimited,
    };
    let mut warnings: Vec<String> = Vec::new();
    warnings.push(
        String::from_str(
            "coefficient_embedding_v1 treats structured coefficient equations as an unstructured LWE instance",
        ),
    );
    warnings.push(
        String::from_str(
            "the estimate does not constitute a direct analysis of the original ring problem",
        ),
    );
    Ok(
        AnalysisModel::CoefficientEmbeddingV1 {
            version: 1,
            source_ring_samples: *ring_samples,
            scalar_samples,
            derived_lwe: Box::new(
                LweProblem {
                    dimension,
                    modulus: ring.ciphertext_modulus.clone(),
                    samples: scalar_samples,
                    secret: secret.clone(),
                    error: error.clone(),
                },
            ),
            warnings,
        },
    )
}

/// The digits of `chars[start..end]` without leading zeros, or "0" when none
/// remain.
fn canonical_digit_chars(chars: &Vec<char>, start: usize, end: usize) -> (r: Vec<char>)
    requires
        start <= end <= chars.len(),
        all_digits(chars@.subrange(start as int, end as int)),
    ensures
        r@ == canonical_digits(chars@.subrange(start as int, end as int)),
        r@.len() > 0,
        all_digits(r@),
{
    let mut k: usize = start;
    while k < end && chars[k] == '0'
        invariant
            start <= k <= end <= chars.len(),
            forall|j: int| start <= j < k ==> chars@[j] == '0',
        decreases end - k,
    {
        k = k + 1;
    }
    let ghost s = chars@.subrange(start as int, end as int);
    proof {
        lemma_strip_leading(s, k - start);
        assert(s.skip(k - start) =~= chars@.subrange(k as int, end as int));
    }
    let mut r: Vec<char> = Vec::new();
    if k == end {
        r.push('0');
        assert(r@ =~= seq!['0']);
        return r;
    }
    let mut i: usize = k;
    while i < end
        invariant
            k <= i <= end <= chars.len(),
            r@ == chars@.subrange(k as int, i as int),
        decreases end - i,
    {
        r.push(chars[i]);
        assert(chars@.subrange(k as int, i + 1) =~= chars@.subrange(k as int, i as int).push(
            chars@[i as int],
        ));
        i = i + 1;
    }
    proof {
        assert forall|j: int| 0 <= j < r@.len() implies #[trigger] is_digit(r@[j]) by {
            assert(r@[j] == s[j + k - start]);
        }
    }
    r
}

/// The snake-case name of an attack.
pub open spec fn attack_name(attack: Attack) -> Seq<char> {
    match attack {
        Attack::AroraGb => "arora_gb"@,
        Attack::Bkw => "bkw"@,
        Attack::Usvp => "usvp"@,
        Attack::Bdd => "bdd"@,
        Attack::BddHybrid => "bdd_hybrid"@,
        Attack::BddMitmHybrid => "bdd_mitm_hybrid"@,
        Attack::Dual => "dual"@,
        Attack::DualHybrid => "dual_hybrid"@,
        Attack::Dsd => "dsd"@,
        Attack::Lattice => "lattice"@,
    }
}

impl Attack {
    pub fn name(&self) -> (r: &'static str)
        ensures
            r@ == attack_name(*self),
    {
        match self {
            Attack::AroraGb => "arora_gb",
            Attack::Bkw => "bkw",
            Attack::Usvp => "usvp",
            Attack::Bdd => "bdd",
            Attack::BddHybrid => "bdd_hybrid",
            Attack::BddMitmHybrid => "bdd_mitm_hybrid",
            Attack::Dual => "dual",
            Attack::DualHybrid => "dual_hybrid",
            Attack::Dsd => "dsd",
            Attack::Lattice => "lattice",
        }
    }
}

pub open spec fn ntru_structure_name(s: NtruStructure) -> Seq<char> {
    match s {
        NtruStructure::Matrix => "matrix"@,
        NtruStructure::Circulant => "circulant"@,
    }
}

impl NtruStructure {
    pub fn name(&self) -> (r: &'static str)
        ensures
            r@ == ntru_structure_name(*self),
    {
        match self {
            NtruStructure::Matrix => "matrix",
            NtruStructure::Circulant => "circulant",
        }
    }
}

pub open spec fn sis_norm_name(n: SisNorm) -> Seq<char> {
    match n {
        SisNorm::L2 => "l2"@,
        SisNorm::LInfinity => "l_infinity"@,
    }
}

impl SisNorm {
    pub fn name(&self) -> (r: &'static str)
        ensures
            r@ == sis_norm_name(*self),
    {
        match self {
            SisNorm::L2 => "l2",
            SisNorm::LInfinity => "l_infinity",
        }
    }
}

} // verus!
