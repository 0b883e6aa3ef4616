//! The order of sort keys: as texts, as decimal numbers, or as points in time.

use vstd::prelude::*;
use vstd::string::*;
use crate::result::{date_parts, digits_end, split_date};
use crate::text::{
    all_digits, char_is_digit, chars_equal, chars_of, digits_value, find_char, index_of, is_digit,
    slice_of,
};

verus! {

/// How keys are compared.
#[derive(Debug, Clone, Copy, PartialEq, Eq, Structural)]
pub enum KeyOrder {
    /// As texts, character by character.
    Text,
    /// As decimal numbers, by their value; texts that are no numbers first.
    Number,
    /// As points in time, earlier before later; texts without a date first.
    Time,
}

// ---------------------------------------------------------------------------
// Texts
// ---------------------------------------------------------------------------

/// `a` comes no later than `b` in the order of texts: character by character,
/// a text before every longer text that begins with it.
pub open spec fn lex_le(a: Seq<char>, b: Seq<char>) -> bool
    decreases a.len(),
{
    if a.len() == 0 {
        true
    } else if b.len() == 0 {
        false
    } else if a[0] != b[0] {
        a[0] < b[0]
    } else {
        lex_le(a.skip(1), b.skip(1))
    }
}

/// Of two texts one comes no later than the other.
pub proof fn lemma_lex_le_total(a: Seq<char>, b: Seq<char>)
    ensures
        lex_le(a, b) || lex_le(b, a),
    decreases a.len(),
{
    if a.len() > 0 && b.len() > 0 && a[0] == b[0] {
        lemma_lex_le_total(a.skip(1), b.skip(1));
    }
}

/// The order of texts is transitive.
pub proof fn lemma_lex_le_transitive(a: Seq<char>, b: Seq<char>, c: Seq<char>)
    requires
        lex_le(a, b),
        lex_le(b, c),
    ensures
        lex_le(a, c),
    decreases a.len(),
{
    if a.len() > 0 && b.len() > 0 && c.len() > 0 && a[0] == b[0] && b[0] == c[0] {
        lemma_lex_le_transitive(a.skip(1), b.skip(1), c.skip(1));
    }
}

/// Two texts of which each comes no later than the other are one text.
pub proof fn lemma_lex_le_antisymmetric(a: Seq<char>, b: Seq<char>)
    requires
        lex_le(a, b),
        lex_le(b, a),
    ensures
        a == b,
    decreases a.len(),
{
    if a.len() == 0 {
        assert(a =~= b);
    } else {
        assert(b.len() > 0);
        assert(a[0] == b[0]);
        lemma_lex_le_antisymmetric(a.skip(1), b.skip(1));
        assert(a =~= seq![a[0]] + a.skip(1));
        assert(b =~= seq![b[0]] + b.skip(1));
    }
}

/// Whether `a` comes no later than `b` in the order of texts.
pub fn chars_le(a: &Vec<char>, b: &Vec<char>) -> (r: bool)
    ensures
        r == lex_le(a@, b@),
{
    let mut i: usize = 0;
    assert(a@.skip(0) == a@ && b@.skip(0) == b@);
    while i < a.len() && i < b.len()
        invariant
            i <= a.len(),
            i <= b.len(),
            lex_le(a@, b@) == lex_le(a@.skip(i as int), b@.skip(i as int)),
        decreases a.len() - i,
    {
        let ghost xs = a@.skip(i as int);
        let ghost ys = b@.skip(i as int);
        assert(xs[0] == a@[i as int] && ys[0] == b@[i as int]);
        assert(xs.skip(1) == a@.skip(i + 1));
        assert(ys.skip(1) == b@.skip(i + 1));
        if a[i] != b[i] {
            assert(xs.len() > 0 && ys.len() > 0);
            assert(lex_le(xs, ys) == (xs[0] < ys[0]));
            return a[i] < b[i];
        }
        assert(lex_le(xs, ys) == lex_le(xs.skip(1), ys.skip(1)));
        i += 1;
    }
    i >= a.len()
}

/// Whether `a` comes no later than `b` in the order of texts.
pub fn text_le(a: &str, b: &str) -> (r: bool)
    ensures
        r == lex_le(a@, b@),
{
    chars_le(&chars_of(a), &chars_of(b))
}

// ---------------------------------------------------------------------------
// Runs of digits
// ---------------------------------------------------------------------------

/// `d` without the zeros it begins with.
pub open spec fn without_leading_zeros(d: Seq<char>) -> Seq<char>
    decreases d.len(),
{
    if d.len() > 0 && d[0] == '0' {
        without_leading_zeros(d.skip(1))
    } else {
        d
    }
}

/// `d` without the zeros it ends with.
pub open spec fn without_trailing_zeros(d: Seq<char>) -> Seq<char>
    decreases d.len(),
{
    if d.len() > 0 && d.last() == '0' {
        without_trailing_zeros(d.drop_last())
    } else {
        d
    }
}

/// The whole number `a` is no greater than the whole number `b`, both
/// written without leading zeros: the shorter is the smaller, and of two of
/// one length the one that comes first as a text.
pub open spec fn whole_le(a: Seq<char>, b: Seq<char>) -> bool {
    a.len() < b.len() || (a.len() == b.len() && lex_le(a, b))
}

/// The order of whole numbers is total, and it is an order.
pub proof fn lemma_whole_le_order(a: Seq<char>, b: Seq<char>, c: Seq<char>)
    ensures
        whole_le(a, b) || whole_le(b, a),
        whole_le(a, b) && whole_le(b, a) ==> a == b,
        whole_le(a, b) && whole_le(b, c) ==> whole_le(a, c),
{
    lemma_lex_le_total(a, b);
    if whole_le(a, b) && whole_le(b, a) {
        lemma_lex_le_antisymmetric(a, b);
    }
    if whole_le(a, b) && whole_le(b, c) && a.len() == b.len() && b.len() == c.len() {
        lemma_lex_le_transitive(a, b, c);
    }
}

/// Ten to the power of `n`.
pub open spec fn pow10(n: nat) -> nat
    decreases n,
{
    if n == 0 {
        1
    } else {
        10 * pow10((n - 1) as nat)
    }
}

/// The digit that a character stands for.
pub open spec fn digit_of(c: char) -> nat {
    (c as u32 - '0' as u32) as nat
}

/// What is left of a run of digits without its first or without its last
/// digit is a run of digits, and each of the two stands for at most nine.
pub proof fn lemma_all_digits_parts(s: Seq<char>)
    requires
        all_digits(s),
        s.len() > 0,
    ensures
        all_digits(s.drop_last()),
        all_digits(s.skip(1)),
        digit_of(s.last()) <= 9,
        digit_of(s[0]) <= 9,
        s[0] != '0' ==> digit_of(s[0]) >= 1,
{
    assert forall|i: int| 0 <= i < s.drop_last().len() implies is_digit(#[trigger] s.drop_last()[i]) by {
        assert(is_digit(s[i]));
    }
    assert forall|i: int| 0 <= i < s.skip(1).len() implies is_digit(#[trigger] s.skip(1)[i]) by {
        assert(is_digit(s[i + 1]));
    }
    assert(is_digit(s[s.len() - 1]));
    assert(is_digit(s[0]));
}

/// Zeros in front of a run of digits do not change the number it denotes,
/// and what is left without them is a run of digits that begins with no zero.
pub proof fn lemma_leading_zeros(s: Seq<char>)
    requires
        all_digits(s),
    ensures
        all_digits(without_leading_zeros(s)),
        digits_value(without_leading_zeros(s)) == digits_value(s),
        without_leading_zeros(s).len() > 0 ==> without_leading_zeros(s)[0] != '0',
    decreases s.len(),
{
    if s.len() > 0 && s[0] == '0' {
        lemma_all_digits_parts(s);
        lemma_leading_zeros(s.skip(1));
        lemma_zero_in_front(s);
    }
}

/// A zero in front of a run of digits does not change the number it denotes.
pub proof fn lemma_zero_in_front(s: Seq<char>)
    requires
        s.len() > 0,
        s[0] == '0',
    ensures
        digits_value(s) == digits_value(s.skip(1)),
    decreases s.len(),
{
    if s.len() == 1 {
        assert(s.drop_last().len() == 0);
        assert(s.skip(1).len() == 0);
        assert(digits_value(s.drop_last()) == 0);
    } else {
        lemma_zero_in_front(s.drop_last());
        assert(s.drop_last().skip(1) == s.skip(1).drop_last());
        assert(s.skip(1).last() == s.last());
    }
}

/// A run of `n` digits denotes a number below ten to the power of `n`, and
/// one that begins with no zero a number of at least ten to the power of
/// `n - 1`.
pub proof fn lemma_digits_value_bounds(s: Seq<char>)
    requires
        all_digits(s),
    ensures
        digits_value(s) < pow10(s.len()),
        s.len() > 0 && s[0] != '0' ==> digits_value(s) >= pow10((s.len() - 1) as nat),
    decreases s.len(),
{
    if s.len() > 0 {
        lemma_all_digits_parts(s);
        lemma_digits_value_bounds(s.drop_last());
        if s.len() > 1 {
            assert(s.drop_last()[0] == s[0]);
        } else {
            assert(digits_value(s.drop_last()) == 0);
        }
    }
}

/// The powers of ten grow.
pub proof fn lemma_pow10_grows(a: nat, b: nat)
    requires
        a <= b,
    ensures
        pow10(a) <= pow10(b),
        pow10(a) >= 1,
    decreases b,
{
    if a < b {
        lemma_pow10_grows(a, (b - 1) as nat);
    } else if a > 0 {
        lemma_pow10_grows((a - 1) as nat, (a - 1) as nat);
    }
}

/// Two texts of one length that differ before their last characters stand
/// in the order of what they are without these.
pub proof fn lemma_lex_le_by_prefix(x: Seq<char>, y: Seq<char>)
    requires
        x.len() == y.len(),
        x.len() > 0,
    ensures
        x.drop_last() != y.drop_last() ==> lex_le(x, y) == lex_le(x.drop_last(), y.drop_last()),
        x.drop_last() == y.drop_last() ==> lex_le(x, y) == (x.last() <= y.last()),
    decreases x.len(),
{
    if x.len() == 1 {
        assert(x.drop_last() =~= y.drop_last());
        assert(x.skip(1).len() == 0);
        assert(lex_le(x.skip(1), y.skip(1)));
        assert(x.last() == x[0] && y.last() == y[0]);
    } else {
        lemma_lex_le_by_prefix(x.skip(1), y.skip(1));
        assert(x.skip(1).drop_last() == x.drop_last().skip(1));
        assert(y.skip(1).drop_last() == y.drop_last().skip(1));
        assert(x.drop_last()[0] == x[0] && y.drop_last()[0] == y[0]);
        assert(x.skip(1).last() == x.last() && y.skip(1).last() == y.last());
        if x[0] == y[0] {
            assert(lex_le(x, y) == lex_le(x.skip(1), y.skip(1)));
            assert(lex_le(x.drop_last(), y.drop_last()) == lex_le(
                x.drop_last().skip(1),
                y.drop_last().skip(1),
            ));
            if x.drop_last().skip(1) == y.drop_last().skip(1) {
                assert(x.drop_last() =~= seq![x[0]] + x.drop_last().skip(1));
                assert(y.drop_last() =~= seq![y[0]] + y.drop_last().skip(1));
            }
        } else {
            assert(lex_le(x, y) == (x[0] < y[0]));
            assert(lex_le(x.drop_last(), y.drop_last()) == (x[0] < y[0]));
        }
    }
}

/// Of two runs of digits of one length the one that comes first as a text
/// denotes the smaller number.
pub proof fn lemma_lex_le_is_by_value(x: Seq<char>, y: Seq<char>)
    requires
        all_digits(x),
        all_digits(y),
        x.len() == y.len(),
    ensures
        lex_le(x, y) <==> digits_value(x) <= digits_value(y),
    decreases x.len(),
{
    if x.len() > 0 {
        lemma_all_digits_parts(x);
        lemma_all_digits_parts(y);
        lemma_lex_le_by_prefix(x, y);
        let p = x.drop_last();
        let q = y.drop_last();
        lemma_lex_le_is_by_value(p, q);
        lemma_lex_le_is_by_value(q, p);
        if p != q {
            lemma_lex_le_total(p, q);
            if lex_le(p, q) && lex_le(q, p) {
                lemma_lex_le_antisymmetric(p, q);
            }
        } else {
            assert(is_digit(x.last()) && is_digit(y.last())) by {
                assert(is_digit(x[x.len() - 1]) && is_digit(y[y.len() - 1]));
            }
        }
    }
}

/// Of two runs of digits that begin with no zero, the one that comes first
/// in the order of whole numbers denotes the smaller number.
pub proof fn lemma_whole_le_by_value(x: Seq<char>, y: Seq<char>)
    requires
        all_digits(x),
        all_digits(y),
        x.len() > 0 ==> x[0] != '0',
        y.len() > 0 ==> y[0] != '0',
    ensures
        whole_le(x, y) <==> digits_value(x) <= digits_value(y),
{
    lemma_digits_value_bounds(x);
    lemma_digits_value_bounds(y);
    if x.len() < y.len() {
        lemma_pow10_grows(x.len(), (y.len() - 1) as nat);
    } else if y.len() < x.len() {
        lemma_pow10_grows(y.len(), (x.len() - 1) as nat);
    } else {
        lemma_lex_le_is_by_value(x, y);
    }
}

/// The order of whole numbers is the order of the numbers that the runs of
/// digits denote.
pub proof fn lemma_whole_le_is_by_value(a: Seq<char>, b: Seq<char>)
    requires
        all_digits(a),
        all_digits(b),
    ensures
        whole_le(without_leading_zeros(a), without_leading_zeros(b)) <==> digits_value(a)
            <= digits_value(b),
{
    lemma_leading_zeros(a);
    lemma_leading_zeros(b);
    lemma_whole_le_by_value(without_leading_zeros(a), without_leading_zeros(b));
}

/// `n` zeros.
pub open spec fn zeros(n: nat) -> Seq<char> {
    Seq::new(n, |i: int| '0')
}

/// `f` with zeros behind it up to the length `n`.
pub open spec fn padded(f: Seq<char>, n: nat) -> Seq<char> {
    f + zeros((n - f.len()) as nat)
}

/// `f` does not end with a zero.
pub open spec fn ends_nonzero(f: Seq<char>) -> bool {
    f.len() == 0 || f.last() != '0'
}

/// A run of digits with zeros behind it is a run of digits, and each zero
/// makes the number it denotes ten times as large.
pub proof fn lemma_padded(f: Seq<char>, n: nat)
    requires
        all_digits(f),
        f.len() <= n,
    ensures
        all_digits(padded(f, n)),
        padded(f, n).len() == n,
        digits_value(padded(f, n)) == digits_value(f) * pow10((n - f.len()) as nat),
    decreases n - f.len(),
{
    let p = padded(f, n);
    assert forall|i: int| 0 <= i < p.len() implies is_digit(#[trigger] p[i]) by {
        if i < f.len() {
            assert(p[i] == f[i]);
        }
    }
    if n == f.len() {
        assert(p =~= f);
        assert(digits_value(f) * 1 == digits_value(f));
    } else {
        let q = padded(f, (n - 1) as nat);
        lemma_padded(f, (n - 1) as nat);
        assert(p.drop_last() =~= q);
        assert(p.last() == '0');
        let v = digits_value(f);
        let e = pow10((n - 1 - f.len()) as nat);
        assert(pow10((n - f.len()) as nat) == 10 * e);
        assert(v * e * 10 == v * (10 * e)) by (nonlinear_arith);
    }
}

/// Zeros come before every run of digits of their length, and no other run
/// comes as early.
pub proof fn lemma_zeros_come_first(x: Seq<char>)
    requires
        all_digits(x),
    ensures
        lex_le(zeros(x.len()), x),
        lex_le(x, zeros(x.len())) ==> x == zeros(x.len()),
    decreases x.len(),
{
    let z = zeros(x.len());
    if x.len() > 0 {
        lemma_all_digits_parts(x);
        lemma_zeros_come_first(x.skip(1));
        assert(z.skip(1) =~= zeros(x.skip(1).len()));
        assert(z[0] == '0');
        assert(is_digit(x[0]));
        if lex_le(x, z) {
            assert(x[0] == '0');
            assert(x =~= seq![x[0]] + x.skip(1));
            assert(z =~= seq![z[0]] + z.skip(1));
        }
    } else {
        assert(x =~= z);
    }
}

/// Two runs of digits that end with no zero stand in the order of texts as
/// they do with zeros behind them up to one length.
pub proof fn lemma_lex_le_padded(f: Seq<char>, g: Seq<char>, n: nat)
    requires
        all_digits(f),
        all_digits(g),
        ends_nonzero(f),
        ends_nonzero(g),
        f.len() <= n,
        g.len() <= n,
    ensures
        lex_le(f, g) <==> lex_le(padded(f, n), padded(g, n)),
    decreases f.len(),
{
    let p = padded(f, n);
    let q = padded(g, n);
    lemma_padded(f, n);
    lemma_padded(g, n);
    if f.len() == 0 {
        assert(p =~= zeros(n));
        lemma_zeros_come_first(q);
    } else if g.len() == 0 {
        assert(q =~= zeros(n));
        lemma_zeros_come_first(p);
        assert(p[f.len() - 1] == f.last());
        assert(zeros(n)[f.len() - 1] == '0');
    } else {
        lemma_all_digits_parts(f);
        lemma_all_digits_parts(g);
        assert(p[0] == f[0] && q[0] == g[0]);
        if f[0] == g[0] {
            if f.len() > 1 {
                assert(f.skip(1).last() == f.last());
            }
            if g.len() > 1 {
                assert(g.skip(1).last() == g.last());
            }
            lemma_lex_le_padded(f.skip(1), g.skip(1), (n - 1) as nat);
            assert(p.skip(1) =~= padded(f.skip(1), (n - 1) as nat));
            assert(q.skip(1) =~= padded(g.skip(1), (n - 1) as nat));
        }
    }
}

/// Zeros behind a run of digits are no part of what is left without them,
/// and what is left is a run of digits.
pub proof fn lemma_trailing_zeros(s: Seq<char>)
    requires
        all_digits(s),
    ensures
        all_digits(without_trailing_zeros(s)),
        ends_nonzero(without_trailing_zeros(s)),
    decreases s.len(),
{
    if s.len() > 0 && s.last() == '0' {
        lemma_all_digits_parts(s);
        lemma_trailing_zeros(s.drop_last());
    }
}

/// Whether every character of `v` is a digit.
pub fn all_digit_chars(v: &Vec<char>) -> (r: bool)
    ensures
        r == all_digits(v@),
{
    let mut i: usize = 0;
    while i < v.len()
        invariant
            i <= v.len(),
            forall|j: int| 0 <= j < i ==> is_digit(#[trigger] v@[j]),
        decreases v.len() - i,
    {
        if !char_is_digit(v[i]) {
            return false;
        }
        i += 1;
    }
    true
}

/// `v` without the zeros it begins with.
pub fn strip_leading_zeros(v: &Vec<char>) -> (r: Vec<char>)
    ensures
        r@ == without_leading_zeros(v@),
{
    let n = v.len();
    let mut a: usize = 0;
    assert(v@.skip(0) == v@);
    while a < n && v[a] == '0'
        invariant
            a <= n,
            n == v.len(),
            without_leading_zeros(v@) == without_leading_zeros(v@.skip(a as int)),
        decreases n - a,
    {
        assert(v@.skip(a as int)[0] == v@[a as int]);
        assert(v@.skip(a as int).skip(1) == v@.skip(a + 1));
        a += 1;
    }
    proof {
        if a < n {
            assert(v@.skip(a as int)[0] == v@[a as int]);
        }
        assert(v@.subrange(a as int, n as int) == v@.skip(a as int));
    }
    slice_of(v, a, n)
}

/// `v` without the zeros it ends with.
pub fn strip_trailing_zeros(v: &Vec<char>) -> (r: Vec<char>)
    ensures
        r@ == without_trailing_zeros(v@),
{
    let mut b: usize = v.len();
    assert(v@.take(b as int) == v@);
    while b > 0 && v[b - 1] == '0'
        invariant
            b <= v.len(),
            without_trailing_zeros(v@) == without_trailing_zeros(v@.take(b as int)),
        decreases b,
    {
        assert(v@.take(b as int).last() == v@[b - 1]);
        assert(v@.take(b as int).drop_last() == v@.take(b - 1));
        b -= 1;
    }
    proof {
        if b > 0 {
            assert(v@.take(b as int).last() == v@[b - 1]);
        }
        assert(v@.subrange(0, b as int) == v@.take(b as int));
    }
    slice_of(v, 0, b)
}

/// Whether the whole number `a` is no greater than the whole number `b`.
pub fn digits_le(a: &Vec<char>, b: &Vec<char>) -> (r: bool)
    ensures
        r == whole_le(a@, b@),
{
    if a.len() != b.len() {
        a.len() < b.len()
    } else {
        chars_le(a, b)
    }
}

// ---------------------------------------------------------------------------
// Decimal numbers
// ---------------------------------------------------------------------------

/// The value of a number key. A decimal number has its sign (zero is not
/// negative), its whole part without leading zeros and its fraction without
/// trailing zeros. A text that is no number has itself in place of the whole
/// part.
pub struct Amount {
    pub numeric: bool,
    pub negative: bool,
    pub whole: Seq<char>,
    pub fraction: Seq<char>,
}

/// A number key as it was read.
#[derive(Debug)]
pub struct Decimal {
    pub numeric: bool,
    pub negative: bool,
    pub whole: Vec<char>,
    pub fraction: Vec<char>,
}

impl View for Decimal {
    type V = Amount;

    open spec fn view(&self) -> Amount {
        Amount {
            numeric: self.numeric,
            negative: self.negative,
            whole: self.whole@,
            fraction: self.fraction@,
        }
    }
}

/// A text without the sign it begins with.
pub open spec fn unsigned_part(s: Seq<char>) -> Seq<char> {
    if s.len() > 0 && (s[0] == '-' || s[0] == '+') {
        s.skip(1)
    } else {
        s
    }
}

/// The value of a number key. A number is an optional sign, one or more
/// digits and, behind a dot, more digits.
pub open spec fn amount_of(s: Seq<char>) -> Amount {
    let body = unsigned_part(s);
    let dot = index_of(body, '.', 0);
    let dotted = 0 <= dot < body.len();
    let w = if dotted {
        body.take(dot)
    } else {
        body
    };
    let f = if dotted {
        body.skip(dot + 1)
    } else {
        Seq::empty()
    };
    if w.len() > 0 && all_digits(w) && all_digits(f) {
        let whole = without_leading_zeros(w);
        let fraction = without_trailing_zeros(f);
        Amount {
            numeric: true,
            negative: s[0] == '-' && (whole.len() > 0 || fraction.len() > 0),
            whole,
            fraction,
        }
    } else {
        Amount { numeric: false, negative: false, whole: s, fraction: Seq::empty() }
    }
}

/// The magnitude of `a` is no greater than that of `b`: by the whole parts
/// and, where these are the same, by the fractions digit by digit.
pub open spec fn magnitude_le(a: Amount, b: Amount) -> bool {
    if a.whole == b.whole {
        lex_le(a.fraction, b.fraction)
    } else {
        whole_le(a.whole, b.whole)
    }
}

/// The key `a` comes no later than the key `b`. Texts that are no numbers
/// come first, in the order of texts; the numbers follow by their value.
pub open spec fn amount_le(a: Amount, b: Amount) -> bool {
    if a.numeric != b.numeric {
        !a.numeric
    } else if !a.numeric {
        lex_le(a.whole, b.whole)
    } else if a.negative != b.negative {
        a.negative
    } else if a.negative {
        magnitude_le(b, a)
    } else {
        magnitude_le(a, b)
    }
}

/// The order of magnitudes is total and transitive.
pub proof fn lemma_magnitude_order(a: Amount, b: Amount, c: Amount)
    ensures
        magnitude_le(a, b) || magnitude_le(b, a),
        magnitude_le(a, b) && magnitude_le(b, c) ==> magnitude_le(a, c),
{
    lemma_whole_le_order(a.whole, b.whole, c.whole);
    lemma_whole_le_order(b.whole, c.whole, a.whole);
    lemma_lex_le_total(a.fraction, b.fraction);
    if lex_le(a.fraction, b.fraction) && lex_le(b.fraction, c.fraction) {
        lemma_lex_le_transitive(a.fraction, b.fraction, c.fraction);
    }
}

/// The order of numbers is total and transitive.
pub proof fn lemma_amount_order(a: Amount, b: Amount, c: Amount)
    ensures
        amount_le(a, b) || amount_le(b, a),
        amount_le(a, b) && amount_le(b, c) ==> amount_le(a, c),
{
    lemma_magnitude_order(a, b, c);
    lemma_magnitude_order(c, b, a);
    lemma_magnitude_order(b, a, c);
    lemma_lex_le_total(a.whole, b.whole);
    if lex_le(a.whole, b.whole) && lex_le(b.whole, c.whole) {
        lemma_lex_le_transitive(a.whole, b.whole, c.whole);
    }
}

/// An amount as it is read from a number: digits throughout, no zero in
/// front of the whole part and none at the end of the fraction, and negative
/// only where it is not zero.
pub open spec fn well_read(a: Amount) -> bool {
    &&& a.numeric
    &&& all_digits(a.whole)
    &&& all_digits(a.fraction)
    &&& a.whole.len() > 0 ==> a.whole[0] != '0'
    &&& ends_nonzero(a.fraction)
    &&& a.negative ==> a.whole.len() > 0 || a.fraction.len() > 0
}

/// The magnitude of an amount, times ten to the power of `k`: a whole number
/// where the fraction has at most `k` digits.
pub open spec fn scaled_magnitude(a: Amount, k: nat) -> nat {
    digits_value(a.whole) * pow10(k) + digits_value(a.fraction) * pow10(
        (k - a.fraction.len()) as nat,
    )
}

/// The number that an amount denotes, times ten to the power of `k`.
pub open spec fn scaled(a: Amount, k: nat) -> int {
    if a.negative {
        -(scaled_magnitude(a, k) as int)
    } else {
        scaled_magnitude(a, k) as int
    }
}

/// What is read from a number is well read.
pub proof fn lemma_amount_of_is_well_read(s: Seq<char>)
    ensures
        amount_of(s).numeric ==> well_read(amount_of(s)),
{
    let body = unsigned_part(s);
    let dot = index_of(body, '.', 0);
    let dotted = 0 <= dot < body.len();
    let w = if dotted {
        body.take(dot)
    } else {
        body
    };
    let f = if dotted {
        body.skip(dot + 1)
    } else {
        Seq::empty()
    };
    if w.len() > 0 && all_digits(w) && all_digits(f) {
        lemma_leading_zeros(w);
        lemma_trailing_zeros(f);
    }
}

/// The magnitudes of two amounts stand in the order of the numbers they denote.
pub proof fn lemma_magnitude_le_is_by_value(a: Amount, b: Amount, k: nat)
    requires
        well_read(a),
        well_read(b),
        a.fraction.len() <= k,
        b.fraction.len() <= k,
    ensures
        magnitude_le(a, b) <==> scaled_magnitude(a, k) <= scaled_magnitude(b, k),
{
    let p = pow10(k);
    let wa = digits_value(a.whole);
    let wb = digits_value(b.whole);
    let fa = digits_value(padded(a.fraction, k));
    let fb = digits_value(padded(b.fraction, k));
    lemma_padded(a.fraction, k);
    lemma_padded(b.fraction, k);
    lemma_digits_value_bounds(padded(a.fraction, k));
    lemma_digits_value_bounds(padded(b.fraction, k));
    assert(scaled_magnitude(a, k) == wa * p + fa);
    assert(scaled_magnitude(b, k) == wb * p + fb);
    if a.whole == b.whole {
        lemma_lex_le_padded(a.fraction, b.fraction, k);
        lemma_lex_le_is_by_value(padded(a.fraction, k), padded(b.fraction, k));
    } else {
        lemma_whole_le_by_value(a.whole, b.whole);
        lemma_whole_le_by_value(b.whole, a.whole);
        lemma_whole_le_order(a.whole, b.whole, b.whole);
        if wa < wb {
            assert((wa + 1) * p <= wb * p) by (nonlinear_arith)
                requires
                    wa + 1 <= wb,
            ;
            assert((wa + 1) * p == wa * p + p) by (nonlinear_arith);
        } else {
            assert(wb < wa);
            assert((wb + 1) * p <= wa * p) by (nonlinear_arith)
                requires
                    wb + 1 <= wa,
            ;
            assert((wb + 1) * p == wb * p + p) by (nonlinear_arith);
        }
    }
}

/// A well-read amount that is negative is not zero.
pub proof fn lemma_negative_is_not_zero(a: Amount, k: nat)
    requires
        well_read(a),
        a.fraction.len() <= k,
    ensures
        a.negative ==> scaled_magnitude(a, k) > 0,
{
    if a.negative {
        let p = pow10(k);
        let e = pow10((k - a.fraction.len()) as nat);
        lemma_pow10_grows(0, k);
        lemma_pow10_grows(0, (k - a.fraction.len()) as nat);
        if a.whole.len() > 0 {
            lemma_digits_value_bounds(a.whole);
            lemma_pow10_grows(0, (a.whole.len() - 1) as nat);
            let w = digits_value(a.whole);
            assert(w * p >= 1) by (nonlinear_arith)
                requires
                    w >= 1,
                    p >= 1,
            ;
        } else {
            lemma_all_digits_parts(a.fraction);
            let f = digits_value(a.fraction);
            assert(is_digit(a.fraction.last()));
            assert(f >= 1);
            assert(f * e >= 1) by (nonlinear_arith)
                requires
                    f >= 1,
                    e >= 1,
            ;
        }
    }
}

/// The order of number keys is the order of the numbers they denote: one
/// amount comes no later than another exactly where, both taken times the
/// same power of ten that makes them whole, it is no greater.
pub proof fn lemma_amount_le_is_by_value(a: Amount, b: Amount, k: nat)
    requires
        well_read(a),
        well_read(b),
        a.fraction.len() <= k,
        b.fraction.len() <= k,
    ensures
        amount_le(a, b) <==> scaled(a, k) <= scaled(b, k),
{
    lemma_magnitude_le_is_by_value(a, b, k);
    lemma_magnitude_le_is_by_value(b, a, k);
    lemma_negative_is_not_zero(a, k);
    lemma_negative_is_not_zero(b, k);
}

/// The value of a number key.
pub fn parse_amount(s: &str) -> (r: Decimal)
    ensures
        r@ == amount_of(s@),
{
    let v = chars_of(s);
    let n = v.len();
    let start: usize = if n > 0 && (v[0] == '-' || v[0] == '+') {
        1
    } else {
        0
    };
    let body = slice_of(&v, start, n);
    proof {
        assert(v@.subrange(start as int, n as int) == v@.skip(start as int));
        assert(v@.skip(0) == v@);
        assert(body@ == unsigned_part(s@));
    }
    let dot = find_char(&body, '.', 0);
    let (w, f) = if dot < body.len() {
        let w = slice_of(&body, 0, dot);
        let f = slice_of(&body, dot + 1, body.len());
        proof {
            assert(body@.subrange(0, dot as int) == body@.take(dot as int));
            assert(body@.subrange(dot + 1, body.len() as int) == body@.skip(dot + 1));
        }
        (w, f)
    } else {
        let w = slice_of(&body, 0, body.len());
        proof {
            assert(body@.subrange(0, body.len() as int) == body@);
        }
        (w, Vec::new())
    };
    if w.len() > 0 && all_digit_chars(&w) && all_digit_chars(&f) {
        let whole = strip_leading_zeros(&w);
        let fraction = strip_trailing_zeros(&f);
        let negative = v[0] == '-' && (whole.len() > 0 || fraction.len() > 0);
        Decimal { numeric: true, negative, whole, fraction }
    } else {
        Decimal { numeric: false, negative: false, whole: v, fraction: Vec::new() }
    }
}

/// Whether the magnitude of `a` is no greater than that of `b`.
pub fn decimal_magnitude_le(a: &Decimal, b: &Decimal) -> (r: bool)
    ensures
        r == magnitude_le(a@, b@),
{
    if chars_equal(&a.whole, &b.whole) {
        chars_le(&a.fraction, &b.fraction)
    } else {
        digits_le(&a.whole, &b.whole)
    }
}

/// Whether the number key `a` comes no later than the number key `b`.
pub fn decimal_le(a: &Decimal, b: &Decimal) -> (r: bool)
    ensures
        r == amount_le(a@, b@),
{
    if a.numeric != b.numeric {
        !a.numeric
    } else if !a.numeric {
        chars_le(&a.whole, &b.whole)
    } else if a.negative != b.negative {
        a.negative
    } else if a.negative {
        decimal_magnitude_le(b, a)
    } else {
        decimal_magnitude_le(a, b)
    }
}

// ---------------------------------------------------------------------------
// Points in time
// ---------------------------------------------------------------------------

/// The value of a time text. A text that begins with a date has its year
/// (with its sign; year zero is not negative), month and day as whole
/// numbers, and what follows the `T` behind the date as its rest. Any other
/// text is undated and is its own rest.
pub struct Moment {
    pub dated: bool,
    pub negative: bool,
    pub year: Seq<char>,
    pub month: Seq<char>,
    pub day: Seq<char>,
    pub rest: Seq<char>,
}

/// A time text as it was read.
#[derive(Debug)]
pub struct Instant {
    pub dated: bool,
    pub negative: bool,
    pub year: Vec<char>,
    pub month: Vec<char>,
    pub day: Vec<char>,
    pub rest: Vec<char>,
}

impl View for Instant {
    type V = Moment;

    open spec fn view(&self) -> Moment {
        Moment {
            dated: self.dated,
            negative: self.negative,
            year: self.year@,
            month: self.month@,
            day: self.day@,
            rest: self.rest@,
        }
    }
}

/// What follows the first `T` of a text; nothing where it has none.
pub open spec fn after_date(s: Seq<char>) -> Seq<char> {
    let t = index_of(s, 'T', 0);
    if 0 <= t < s.len() {
        s.skip(t + 1)
    } else {
        Seq::empty()
    }
}

/// The value of a time text.
pub open spec fn moment_of(s: Seq<char>) -> Moment {
    match date_parts(s) {
        Some((year, month, day)) => {
            let digits = unsigned_part(year);
            let y = without_leading_zeros(digits);
            Moment {
                dated: true,
                negative: year[0] == '-' && y.len() > 0,
                year: y,
                month: without_leading_zeros(month),
                day: without_leading_zeros(day),
                rest: after_date(s),
            }
        },
        None => Moment {
            dated: false,
            negative: false,
            year: Seq::empty(),
            month: Seq::empty(),
            day: Seq::empty(),
            rest: s,
        },
    }
}

/// The time `a` is no later than the time `b`. Undated texts come first, in
/// the order of texts; dated ones follow by year, month, day and rest.
pub open spec fn moment_le(a: Moment, b: Moment) -> bool {
    if a.dated != b.dated {
        !a.dated
    } else if !a.dated {
        lex_le(a.rest, b.rest)
    } else if a.negative != b.negative {
        a.negative
    } else if a.year != b.year {
        if a.negative {
            whole_le(b.year, a.year)
        } else {
            whole_le(a.year, b.year)
        }
    } else if a.month != b.month {
        whole_le(a.month, b.month)
    } else if a.day != b.day {
        whole_le(a.day, b.day)
    } else {
        lex_le(a.rest, b.rest)
    }
}

/// The order of times is total and transitive.
pub proof fn lemma_moment_order(a: Moment, b: Moment, c: Moment)
    ensures
        moment_le(a, b) || moment_le(b, a),
        moment_le(a, b) && moment_le(b, c) ==> moment_le(a, c),
{
    lemma_whole_le_order(a.year, b.year, c.year);
    lemma_whole_le_order(b.year, c.year, a.year);
    lemma_whole_le_order(c.year, b.year, a.year);
    lemma_whole_le_order(b.year, a.year, c.year);
    lemma_whole_le_order(a.month, b.month, c.month);
    lemma_whole_le_order(b.month, c.month, a.month);
    lemma_whole_le_order(a.day, b.day, c.day);
    lemma_whole_le_order(b.day, c.day, a.day);
    lemma_lex_le_total(a.rest, b.rest);
    if lex_le(a.rest, b.rest) && lex_le(b.rest, c.rest) {
        lemma_lex_le_transitive(a.rest, b.rest, c.rest);
    }
}

/// A moment as it is read from a dated text: digits throughout, no zero in
/// front of year, month or day, and negative only where the year is not zero.
pub open spec fn well_dated(m: Moment) -> bool {
    &&& m.dated
    &&& all_digits(m.year) && all_digits(m.month) && all_digits(m.day)
    &&& m.year.len() > 0 ==> m.year[0] != '0'
    &&& m.month.len() > 0 ==> m.month[0] != '0'
    &&& m.day.len() > 0 ==> m.day[0] != '0'
    &&& m.negative ==> m.year.len() > 0
}

/// The year of a moment as a number, below zero before the common era.
pub open spec fn year_number(m: Moment) -> int {
    if m.negative {
        -(digits_value(m.year) as int)
    } else {
        digits_value(m.year) as int
    }
}

/// The characters from `from` up to the end of the digits there are digits.
pub proof fn lemma_digits_up_to_end(s: Seq<char>, from: int)
    requires
        0 <= from <= s.len(),
    ensures
        from <= digits_end(s, from) <= s.len(),
        all_digits(s.subrange(from, digits_end(s, from))),
    decreases s.len() - from,
{
    let e = digits_end(s, from);
    if from < s.len() && is_digit(s[from]) {
        lemma_digits_up_to_end(s, from + 1);
        let rest = s.subrange(from + 1, e);
        let all = s.subrange(from, e);
        assert forall|i: int| 0 <= i < all.len() implies is_digit(#[trigger] all[i]) by {
            if i > 0 {
                assert(all[i] == rest[i - 1]);
                assert(is_digit(rest[i - 1]));
            }
        }
    }
}

/// What is read from a dated text is well dated.
pub proof fn lemma_moment_of_is_well_dated(s: Seq<char>)
    ensures
        moment_of(s).dated ==> well_dated(moment_of(s)),
{
    if let Some((year, month, day)) = date_parts(s) {
        let a: int = if s.len() > 0 && s[0] == '+' {
            1
        } else {
            0
        };
        let b: int = if a < s.len() && s[a] == '-' {
            a + 1
        } else {
            a
        };
        let c = digits_end(s, b);
        let d = digits_end(s, c + 1);
        let e = digits_end(s, d + 1);
        lemma_digits_up_to_end(s, b);
        lemma_digits_up_to_end(s, c + 1);
        lemma_digits_up_to_end(s, d + 1);
        let digits = unsigned_part(year);
        assert(digits =~= s.subrange(b, c)) by {
            assert(year[0] == s[a]);
            if b == a {
                assert(is_digit(s.subrange(b, c)[0]));
            }
        }
        lemma_leading_zeros(digits);
        lemma_leading_zeros(month);
        lemma_leading_zeros(day);
    }
}

/// The order of dated moments is the order of time: by the year as a number,
/// then by the month, then by the day, then by what follows the date.
pub proof fn lemma_moment_le_is_chronological(a: Moment, b: Moment)
    requires
        well_dated(a),
        well_dated(b),
    ensures
        moment_le(a, b) <==> {
            ||| year_number(a) < year_number(b)
            ||| year_number(a) == year_number(b) && digits_value(a.month) < digits_value(b.month)
            ||| year_number(a) == year_number(b) && digits_value(a.month) == digits_value(b.month)
                && digits_value(a.day) < digits_value(b.day)
            ||| year_number(a) == year_number(b) && digits_value(a.month) == digits_value(b.month)
                && digits_value(a.day) == digits_value(b.day) && lex_le(a.rest, b.rest)
        },
{
    lemma_whole_le_by_value(a.year, b.year);
    lemma_whole_le_by_value(b.year, a.year);
    lemma_whole_le_order(a.year, b.year, b.year);
    lemma_whole_le_by_value(a.month, b.month);
    lemma_whole_le_by_value(b.month, a.month);
    lemma_whole_le_order(a.month, b.month, b.month);
    lemma_whole_le_by_value(a.day, b.day);
    lemma_whole_le_by_value(b.day, a.day);
    lemma_whole_le_order(a.day, b.day, b.day);
    lemma_digits_value_bounds(a.year);
    lemma_digits_value_bounds(b.year);
    if a.year.len() > 0 {
        lemma_pow10_grows(0, (a.year.len() - 1) as nat);
    }
    if b.year.len() > 0 {
        lemma_pow10_grows(0, (b.year.len() - 1) as nat);
    }
}

/// The value of a time text.
pub fn parse_moment(s: &str) -> (r: Instant)
    ensures
        r@ == moment_of(s@),
{
    let v = chars_of(s);
    match split_date(&v) {
        Some(parts) => {
            let year = parts.0;
            let start: usize = if year.len() > 0 && (year[0] == '-' || year[0] == '+') {
                1
            } else {
                0
            };
            let digits = slice_of(&year, start, year.len());
            proof {
                assert(year@.subrange(start as int, year.len() as int) == year@.skip(start as int));
                assert(year@.skip(0) == year@);
            }
            let y = strip_leading_zeros(&digits);
            let t = find_char(&v, 'T', 0);
            let rest = if t < v.len() {
                let r = slice_of(&v, t + 1, v.len());
                assert(v@.subrange(t + 1, v.len() as int) == v@.skip(t + 1));
                r
            } else {
                Vec::new()
            };
            let negative = year.len() > 0 && year[0] == '-' && y.len() > 0;
            proof {
                assert(date_parts(s@) == Some((year@, parts.1@, parts.2@)));
                assert(year@.len() > 0);
            }
            Instant {
                dated: true,
                negative,
                year: y,
                month: strip_leading_zeros(&parts.1),
                day: strip_leading_zeros(&parts.2),
                rest,
            }
        },
        None => Instant {
            dated: false,
            negative: false,
            year: Vec::new(),
            month: Vec::new(),
            day: Vec::new(),
            rest: v,
        },
    }
}

/// Whether the time `a` is no later than the time `b`.
pub fn instant_le(a: &Instant, b: &Instant) -> (r: bool)
    ensures
        r == moment_le(a@, b@),
{
    if a.dated != b.dated {
        !a.dated
    } else if !a.dated {
        chars_le(&a.rest, &b.rest)
    } else if a.negative != b.negative {
        a.negative
    } else if !chars_equal(&a.year, &b.year) {
        if a.negative {
            digits_le(&b.year, &a.year)
        } else {
            digits_le(&a.year, &b.year)
        }
    } else if !chars_equal(&a.month, &b.month) {
        digits_le(&a.month, &b.month)
    } else if !chars_equal(&a.day, &b.day) {
        digits_le(&a.day, &b.day)
    } else {
        chars_le(&a.rest, &b.rest)
    }
}

// ---------------------------------------------------------------------------
// Keys
// ---------------------------------------------------------------------------

/// The key `a` comes no later than the key `b` in the given order.
pub open spec fn key_le(a: Seq<char>, b: Seq<char>, order: KeyOrder) -> bool {
    match order {
        KeyOrder::Text => lex_le(a, b),
        KeyOrder::Number => amount_le(amount_of(a), amount_of(b)),
        KeyOrder::Time => moment_le(moment_of(a), moment_of(b)),
    }
}

/// Of two keys one comes no later than the other.
pub proof fn lemma_key_le_total(a: Seq<char>, b: Seq<char>, order: KeyOrder)
    ensures
        key_le(a, b, order) || key_le(b, a, order),
{
    match order {
        KeyOrder::Text => lemma_lex_le_total(a, b),
        KeyOrder::Number => lemma_amount_order(amount_of(a), amount_of(b), amount_of(b)),
        KeyOrder::Time => lemma_moment_order(moment_of(a), moment_of(b), moment_of(b)),
    }
}

/// The order of keys is transitive.
pub proof fn lemma_key_le_transitive(a: Seq<char>, b: Seq<char>, c: Seq<char>, order: KeyOrder)
    requires
        key_le(a, b, order),
        key_le(b, c, order),
    ensures
        key_le(a, c, order),
{
    match order {
        KeyOrder::Text => lemma_lex_le_transitive(a, b, c),
        KeyOrder::Number => lemma_amount_order(amount_of(a), amount_of(b), amount_of(c)),
        KeyOrder::Time => lemma_moment_order(moment_of(a), moment_of(b), moment_of(c)),
    }
}

/// Whether the key `a` comes no later than the key `b` in the given order.
pub fn sortkey_le(a: &str, b: &str, order: KeyOrder) -> (r: bool)
    ensures
        r == key_le(a@, b@, order),
{
    match order {
        KeyOrder::Text => text_le(a, b),
        KeyOrder::Number => decimal_le(&parse_amount(a), &parse_amount(b)),
        KeyOrder::Time => instant_le(&parse_moment(a), &parse_moment(b)),
    }
}

} // verus!
