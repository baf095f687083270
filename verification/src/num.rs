//! Decimal numbers as the drawing tools print them.
//!
//! A `Num` is the decimal image of a double: a sign, a digit string held as an
//! integer, and a power of ten, or one of the non-finite values. It is printed
//! without exponent notation, with no redundant zeros, and parsed back from
//! exactly that text.
use vstd::prelude::*;

verus! {

/// Largest power of ten (in absolute value) that a finite `Num` may carry.
pub const MAX_EXP: i32 = 400;

/// A decimal number.
///
/// `Finite { negative, digits, exp }` stands for `(-1)^negative * digits * 10^exp`.
#[derive(Clone, Copy, Debug, PartialEq, Eq, Structural)]
pub enum Num {
    Finite { negative: bool, digits: u64, exp: i32 },
    Infinite { negative: bool },
    NaN,
}

pub open spec fn is_digit(b: u8) -> bool {
    48 <= b <= 57
}

pub open spec fn all_digits(s: Seq<u8>) -> bool {
    forall|i: int| 0 <= i < s.len() ==> is_digit(#[trigger] s[i])
}

/// The decimal digits of `n`, most significant first, without leading zeros.
pub open spec fn decimal(n: nat) -> Seq<u8>
    decreases n,
{
    if n < 10 {
        seq![(48 + n) as u8]
    } else {
        decimal(n / 10).push((48 + n % 10) as u8)
    }
}

/// `k` zero digits.
pub open spec fn zeros(k: nat) -> Seq<u8> {
    Seq::new(k, |i: int| 48u8)
}

/// The number that a string of decimal digits denotes (leading zeros allowed).
pub open spec fn value(s: Seq<u8>) -> nat
    decreases s.len(),
{
    if s.len() == 0 {
        0
    } else {
        value(s.drop_last()) * 10 + (s.last() - 48) as nat
    }
}

pub open spec fn nan_text() -> Seq<u8> {
    seq![78u8, 97u8, 78u8]
}

pub open spec fn inf_text() -> Seq<u8> {
    seq![105u8, 110u8, 102u8]
}

pub open spec fn minus() -> Seq<u8> {
    seq![45u8]
}

pub open spec fn point() -> Seq<u8> {
    seq![46u8]
}

/// Text of `digits * 10^exp` without sign: trailing zeros for a non-negative
/// exponent, a decimal point `-exp` digits from the right otherwise.
pub open spec fn body_text(digits: nat, exp: int) -> Seq<u8> {
    let t = decimal(digits);
    if exp >= 0 {
        t + zeros(exp as nat)
    } else if t.len() > -exp {
        t.subrange(0, t.len() + exp) + point() + t.subrange(t.len() + exp, t.len() as int)
    } else {
        zeros(1) + point() + zeros((-exp - t.len()) as nat) + t
    }
}

/// `digits * 10^exp` with the trailing zeros of `digits` moved into the
/// exponent, and zero written with exponent 0.
pub open spec fn strip(digits: nat, exp: int) -> (nat, int)
    decreases digits,
{
    if digits == 0 {
        (0, 0)
    } else if digits % 10 == 0 {
        strip(digits / 10, exp + 1)
    } else {
        (digits, exp)
    }
}

pub open spec fn pow10(k: nat) -> nat
    decreases k,
{
    if k == 0 {
        1
    } else {
        10 * pow10((k - 1) as nat)
    }
}

proof fn lemma_pow10_grows(j: nat, k: nat)
    requires
        j <= k,
    ensures
        pow10(j) <= pow10(k),
    decreases k - j,
{
    if j < k {
        lemma_pow10_grows(j, (k - 1) as nat);
    }
}

impl Num {
    /// The canonical form: no trailing zero in `digits` (the exponent takes
    /// them), zero written with exponent 0, and an exponent within `MAX_EXP`.
    pub open spec fn wf(self) -> bool {
        match self {
            Num::Finite { negative, digits, exp } => {
                &&& -MAX_EXP <= exp <= MAX_EXP
                &&& if digits == 0 {
                    exp == 0
                } else {
                    digits % 10 != 0
                }
            },
            _ => true,
        }
    }

    /// The text of the number, as a double with this value is displayed: the
    /// digits and exponent are first put in canonical form (`strip`), so
    /// that every number is written without redundant zeros.
    pub open spec fn text(self) -> Seq<u8> {
        match self {
            Num::Finite { negative, digits, exp } => {
                let (d, e) = strip(digits as nat, exp as int);
                let b = body_text(d, e);
                if negative {
                    minus() + b
                } else {
                    b
                }
            },
            Num::Infinite { negative } => {
                if negative {
                    minus() + inf_text()
                } else {
                    inf_text()
                }
            },
            Num::NaN => nan_text(),
        }
    }
}

/// Appends the decimal digits of `n`.
pub fn push_decimal(out: &mut Vec<u8>, n: u64)
    ensures
        final(out)@ == old(out)@ + decimal(n as nat),
    decreases n,
{
    if n >= 10 {
        push_decimal(out, n / 10);
    }
    let d: u64 = n % 10;
    out.push((48 + d) as u8);
    assert(out@ =~= old(out)@ + decimal(n as nat));
}

/// Appends the bytes `s[from..to]`.
pub fn push_range(out: &mut Vec<u8>, s: &[u8], from: usize, to: usize)
    requires
        from <= to <= s@.len(),
    ensures
        final(out)@ == old(out)@ + s@.subrange(from as int, to as int),
{
    let mut i = from;
    while i < to
        invariant
            from <= i <= to <= s@.len(),
            out@ == old(out)@ + s@.subrange(from as int, i as int),
        decreases to - i,
    {
        out.push(s[i]);
        i = i + 1;
        assert(out@ =~= old(out)@ + s@.subrange(from as int, i as int));
    }
}

/// Appends `k` zero digits.
pub fn push_zeros(out: &mut Vec<u8>, k: usize)
    ensures
        final(out)@ == old(out)@ + zeros(k as nat),
{
    let mut i: usize = 0;
    while i < k
        invariant
            i <= k,
            out@ == old(out)@ + zeros(i as nat),
        decreases k - i,
    {
        out.push(48u8);
        i = i + 1;
        assert(out@ =~= old(out)@ + zeros(i as nat));
    }
}

pub proof fn lemma_decimal_nonempty(n: nat)
    ensures
        decimal(n).len() >= 1,
        all_digits(decimal(n)),
    decreases n,
{
    if n >= 10 {
        lemma_decimal_nonempty(n / 10);
        assert forall|i: int| 0 <= i < decimal(n).len() implies is_digit(#[trigger] decimal(n)[i]) by {
            if i < decimal(n / 10).len() {
                assert(decimal(n)[i] == decimal(n / 10)[i]);
            }
        }
    }
}

/// Appends `body_text(digits, exp)`.
fn write_body(digits: u64, exp: i64, out: &mut Vec<u8>)
    requires
        -0x8000_0000 <= exp <= 0x8000_0100,
    ensures
        final(out)@ == old(out)@ + body_text(digits as nat, exp as int),
{
    let ghost mid = old(out)@;
    if exp >= 0 {
        push_decimal(out, digits);
        push_zeros(out, exp as usize);
        assert(out@ =~= mid + body_text(digits as nat, exp as int));
    } else {
        let mut t: Vec<u8> = Vec::new();
        push_decimal(&mut t, digits);
        assert(t@ =~= decimal(digits as nat));
        proof {
            lemma_decimal_nonempty(digits as nat);
        }
        let k: usize = (0 - exp) as usize;
        let len = t.len();
        if len > k {
            push_range(out, t.as_slice(), 0, len - k);
            out.push(46u8);
            push_range(out, t.as_slice(), len - k, len);
        } else {
            out.push(48u8);
            out.push(46u8);
            push_zeros(out, k - len);
            push_range(out, t.as_slice(), 0, len);
            assert(t@.subrange(0, len as int) =~= t@);
        }
        assert(out@ =~= mid + body_text(digits as nat, exp as int));
    }
}

/// The canonical digits and exponent of `digits * 10^exp`.
fn canonical(digits: u64, exp: i32) -> (r: (u64, i64))
    ensures
        (r.0 as nat, r.1 as int) == strip(digits as nat, exp as int),
        exp <= r.1 <= exp + 20 || r == (0u64, 0i64),
{
    if digits == 0 {
        return (0, 0);
    }
    let mut d = digits;
    let mut e: i64 = exp as i64;
    let ghost mut k: nat = 0;
    assert(pow10(0) == 1);
    while d % 10 == 0
        invariant
            d != 0,
            strip(d as nat, e as int) == strip(digits as nat, exp as int),
            e == exp + k,
            d * pow10(k) == digits,
            k <= 19,
        decreases d,
    {
        let ghost d0 = d as nat;
        assert(d0 == (d0 / 10) * 10) by (nonlinear_arith)
            requires
                d0 % 10 == 0,
        ;
        d = d / 10;
        e = e + 1;
        proof {
            let p = pow10(k);
            assert(pow10(k + 1) == 10 * p);
            assert((d as nat) * (10 * p) == d0 * p) by (nonlinear_arith)
                requires
                    d0 == (d as nat) * 10,
            ;
            k = k + 1;
            if k >= 20 {
                lemma_pow10_grows(20, k);
                reveal_with_fuel(pow10, 21);
                assert(pow10(20) == 100000000000000000000);
                assert((d as nat) * pow10(k) >= pow10(k)) by (nonlinear_arith)
                    requires
                        d >= 1,
                ;
            }
        }
    }
    (d, e)
}

impl Num {
    /// Appends the text of the number.
    pub fn write_text(&self, out: &mut Vec<u8>)
        ensures
            final(out)@ == old(out)@ + self.text(),
    {
        match *self {
            Num::NaN => {
                out.push(78u8);
                out.push(97u8);
                out.push(78u8);
                assert(out@ =~= old(out)@ + self.text());
            },
            Num::Infinite { negative } => {
                if negative {
                    out.push(45u8);
                }
                out.push(105u8);
                out.push(110u8);
                out.push(102u8);
                assert(out@ =~= old(out)@ + self.text());
            },
            Num::Finite { negative, digits, exp } => {
                if negative {
                    out.push(45u8);
                }
                let (d, e) = canonical(digits, exp);
                write_body(d, e, out);
                assert(out@ =~= old(out)@ + self.text());
            },
        }
    }

    /// The text of the number as bytes.
    pub fn to_text(&self) -> (r: Vec<u8>)
        ensures
            r@ == self.text(),
    {
        let mut out: Vec<u8> = Vec::new();
        self.write_text(&mut out);
        assert(out@ =~= self.text());
        out
    }
}


/// Number of zero digits at the end of `s`.
pub open spec fn trailing_zeros(s: Seq<u8>) -> nat
    decreases s.len(),
{
    if s.len() > 0 && s.last() == 48 {
        1 + trailing_zeros(s.drop_last())
    } else {
        0
    }
}

/// Number of zero digits at the start of `s`.
pub open spec fn leading_zeros(s: Seq<u8>) -> nat
    decreases s.len(),
{
    if s.len() > 0 && s[0] == 48 {
        1 + leading_zeros(s.skip(1))
    } else {
        0
    }
}

/// A digit string with no superfluous leading zero.
pub open spec fn no_leading_zero(t: Seq<u8>) -> bool {
    t.len() >= 1 && (t[0] != 48 || t.len() == 1)
}

/// Digits and power of ten of a text made of digits only.
pub open spec fn parse_integral(t: Seq<u8>) -> Option<(nat, int)> {
    if !no_leading_zero(t) {
        None
    } else if t[0] == 48 {
        Some((0, 0))
    } else {
        let z = trailing_zeros(t);
        let d = value(t.take(t.len() - z));
        if d <= u64::MAX && z <= MAX_EXP {
            Some((d, z as int))
        } else {
            None
        }
    }
}

/// Digits and power of ten of `i.f`.
pub open spec fn parse_fraction(i: Seq<u8>, f: Seq<u8>) -> Option<(nat, int)> {
    if !no_leading_zero(i) || f.len() == 0 || f.last() == 48 || f.len() > MAX_EXP {
        None
    } else {
        let d = value(i + f);
        if d <= u64::MAX {
            Some((d, -(f.len() as int)))
        } else {
            None
        }
    }
}

/// `b` is digits, a decimal point at `p`, digits.
pub open spec fn is_point_at(b: Seq<u8>, p: int) -> bool {
    &&& 0 <= p < b.len()
    &&& b[p] == 46
    &&& all_digits(b.take(p))
    &&& all_digits(b.skip(p + 1))
}

pub open spec fn parse_body(b: Seq<u8>) -> Option<(nat, int)> {
    if all_digits(b) {
        parse_integral(b)
    } else if exists|p: int| is_point_at(b, p) {
        let p = choose|p: int| is_point_at(b, p);
        parse_fraction(b.take(p), b.skip(p + 1))
    } else {
        None
    }
}

pub open spec fn finite_of(negative: bool, r: Option<(nat, int)>) -> Option<Num> {
    match r {
        Some((d, e)) => Some(Num::Finite { negative, digits: d as u64, exp: e as i32 }),
        None => None,
    }
}

/// The number that a text denotes, if it is the text of one.
pub open spec fn parse_text(s: Seq<u8>) -> Option<Num> {
    if s == nan_text() {
        Some(Num::NaN)
    } else if s == inf_text() {
        Some(Num::Infinite { negative: false })
    } else if s == minus() + inf_text() {
        Some(Num::Infinite { negative: true })
    } else if s.len() > 0 && s[0] == 45 {
        finite_of(true, parse_body(s.skip(1)))
    } else {
        finite_of(false, parse_body(s))
    }
}

proof fn lemma_div_mod_10(v: nat, d: nat)
    requires
        d < 10,
    ensures
        (v * 10 + d) / 10 == v,
        (v * 10 + d) % 10 == d,
{
    assert((v * 10 + d) / 10 == v) by (nonlinear_arith)
        requires
            d < 10,
    ;
    assert((v * 10 + d) % 10 == d) by (nonlinear_arith)
        requires
            d < 10,
    ;
}

pub proof fn lemma_value_decimal(n: nat)
    ensures
        value(decimal(n)) == n,
    decreases n,
{
    if n >= 10 {
        lemma_value_decimal(n / 10);
        assert(decimal(n).drop_last() =~= decimal(n / 10));
        assert(n == (n / 10) * 10 + n % 10) by (nonlinear_arith);
        assert(decimal(n).last() == (48 + n % 10) as u8);
        assert((decimal(n).last() - 48) as nat == n % 10);
        assert(value(decimal(n).drop_last()) == n / 10);
        assert(value(decimal(n)) == value(decimal(n).drop_last()) * 10 + n % 10);
    } else {
        assert(decimal(n).drop_last() =~= Seq::<u8>::empty());
        assert(value(decimal(n).drop_last()) == 0);
        assert((decimal(n).last() - 48) as nat == n);
    }
}

pub proof fn lemma_decimal_first(n: nat)
    ensures
        decimal(n)[0] == 48 <==> n == 0,
        decimal(n).last() == 48 + n % 10,
    decreases n,
{
    lemma_decimal_nonempty(n);
    if n >= 10 {
        lemma_decimal_first(n / 10);
        lemma_decimal_nonempty(n / 10);
        assert(decimal(n)[0] == decimal(n / 10)[0]);
    }
}

proof fn lemma_value_positive(t: Seq<u8>)
    requires
        all_digits(t),
        t.len() >= 1,
        t[0] != 48,
    ensures
        value(t) >= 1,
    decreases t.len(),
{
    if t.len() > 1 {
        lemma_value_positive(t.drop_last());
    }
}

proof fn lemma_value_last(t: Seq<u8>)
    requires
        all_digits(t),
        t.len() >= 1,
    ensures
        value(t) % 10 == (t.last() - 48) as nat,
        value(t) / 10 == value(t.drop_last()),
{
    lemma_div_mod_10(value(t.drop_last()), (t.last() - 48) as nat);
}

pub proof fn lemma_decimal_value(t: Seq<u8>)
    requires
        all_digits(t),
        no_leading_zero(t),
    ensures
        decimal(value(t)) == t,
    decreases t.len(),
{
    if t.len() == 1 {
        assert(t.drop_last() =~= Seq::<u8>::empty());
        assert(value(t.drop_last()) == 0);
        assert(is_digit(t[0]));
        assert(value(t) == (t[0] - 48) as nat);
        assert(decimal(value(t)) =~= t);
    } else {
        let p = t.drop_last();
        lemma_value_positive(p);
        lemma_decimal_value(p);
        lemma_value_last(t);
        assert(decimal(value(t)) =~= t);
    }
}

proof fn lemma_value_zeros(m: nat)
    ensures
        value(zeros(m)) == 0,
    decreases m,
{
    if m > 0 {
        lemma_value_zeros((m - 1) as nat);
        assert(zeros(m).drop_last() =~= zeros((m - 1) as nat));
    }
}

pub proof fn lemma_value_leading_zeros(m: nat, c: Seq<u8>)
    ensures
        value(zeros(m) + c) == value(c),
    decreases c.len(),
{
    if c.len() == 0 {
        assert(zeros(m) + c =~= zeros(m));
        lemma_value_zeros(m);
    } else {
        lemma_value_leading_zeros(m, c.drop_last());
        assert((zeros(m) + c).drop_last() =~= zeros(m) + c.drop_last());
    }
}

proof fn lemma_trailing_zeros_of(c: Seq<u8>, e: nat)
    requires
        c.len() >= 1,
        c.last() != 48,
    ensures
        trailing_zeros(c + zeros(e)) == e,
        (c + zeros(e)).take(c.len() as int) == c,
    decreases e,
{
    assert((c + zeros(e)).take(c.len() as int) =~= c);
    if e > 0 {
        lemma_trailing_zeros_of(c, (e - 1) as nat);
        assert((c + zeros(e)).drop_last() =~= c + zeros((e - 1) as nat));
    } else {
        assert(c + zeros(e) =~= c);
    }
}

proof fn lemma_split_trailing_zeros(t: Seq<u8>)
    requires
        t.len() >= 1,
        t[0] != 48,
    ensures
        trailing_zeros(t) < t.len(),
        t.take(t.len() - trailing_zeros(t)).last() != 48,
        t == t.take(t.len() - trailing_zeros(t)) + zeros(trailing_zeros(t)),
    decreases t.len(),
{
    if t.last() == 48 {
        lemma_split_trailing_zeros(t.drop_last());
        let z = trailing_zeros(t.drop_last());
        let core = t.drop_last().take(t.len() - 1 - z);
        assert(trailing_zeros(t) == 1 + z);
        assert(core =~= t.take(t.len() - trailing_zeros(t)));
        assert(t =~= t.drop_last().push(48u8));
        assert(t =~= core + zeros(z + 1));
    } else {
        assert(t =~= t.take(t.len() as int) + zeros(0));
    }
}

proof fn lemma_split_leading_zeros(f: Seq<u8>)
    requires
        f.len() >= 1,
        f.last() != 48,
    ensures
        leading_zeros(f) < f.len(),
        f.skip(leading_zeros(f) as int)[0] != 48,
        f == zeros(leading_zeros(f)) + f.skip(leading_zeros(f) as int),
    decreases f.len(),
{
    if f[0] == 48 {
        lemma_split_leading_zeros(f.skip(1));
        let z = leading_zeros(f.skip(1));
        let rest = f.skip(1).skip(z as int);
        assert(leading_zeros(f) == 1 + z);
        assert(rest =~= f.skip(leading_zeros(f) as int));
        assert(f =~= seq![48u8] + f.skip(1));
        assert(f =~= zeros(z + 1) + rest);
    } else {
        assert(f =~= zeros(0) + f.skip(0));
    }
}


proof fn lemma_zeros_digits(k: nat)
    ensures
        all_digits(zeros(k)),
{
}

proof fn lemma_point_unique(b: Seq<u8>, m: int)
    requires
        0 <= m < b.len(),
        b[m] == 46,
        forall|q: int| 0 <= q < b.len() && q != m ==> is_digit(#[trigger] b[q]),
    ensures
        is_point_at(b, m),
        !all_digits(b),
        exists|p: int| is_point_at(b, p),
        (choose|p: int| is_point_at(b, p)) == m,
{
    assert(all_digits(b.take(m))) by {
        assert forall|q: int| 0 <= q < b.take(m).len() implies is_digit(#[trigger] b.take(m)[q]) by {
            assert(b.take(m)[q] == b[q]);
        }
    }
    assert(all_digits(b.skip(m + 1))) by {
        assert forall|q: int| 0 <= q < b.skip(m + 1).len() implies is_digit(#[trigger] b.skip(m + 1)[q]) by {
            assert(b.skip(m + 1)[q] == b[m + 1 + q]);
        }
    }
    assert(!is_digit(b[m]));
    assert(is_point_at(b, m));
    let p = choose|p: int| is_point_at(b, p);
    assert(b[p] == 46);
}

/// A well-formed finite number's body parses back to its digits and exponent.
#[verifier::rlimit(40)]
proof fn lemma_parse_body_of(d: nat, e: int)
    requires
        d <= u64::MAX,
        -MAX_EXP <= e <= MAX_EXP,
        if d == 0 {
            e == 0
        } else {
            d % 10 != 0
        },
    ensures
        parse_body(body_text(d, e)) == Some((d, e)),
        body_text(d, e).len() >= 1,
        is_digit(body_text(d, e)[0]),
{
    let t = decimal(d);
    let b = body_text(d, e);
    lemma_decimal_nonempty(d);
    lemma_decimal_first(d);
    lemma_value_decimal(d);
    lemma_zeros_digits(if e >= 0 { e as nat } else { 0 });
    if e >= 0 {
        assert(all_digits(b)) by {
            assert forall|q: int| 0 <= q < b.len() implies is_digit(#[trigger] b[q]) by {
                if q < t.len() {
                    assert(b[q] == t[q]);
                } else {
                    assert(b[q] == zeros(e as nat)[q - t.len()]);
                }
            }
        }
        assert(b[0] == t[0]);
        if d == 0 {
            assert(t =~= seq![48u8]);
            assert(b =~= t);
        } else {
            lemma_trailing_zeros_of(t, e as nat);
        }
    } else {
        let k = -e;
        if t.len() > k {
            let m = t.len() - k;
            let i = t.subrange(0, m);
            let f = t.subrange(m, t.len() as int);
            assert(b =~= i + point() + f);
            assert forall|q: int| 0 <= q < b.len() && q != m implies is_digit(#[trigger] b[q]) by {
                if q < m {
                    assert(b[q] == t[q]);
                } else {
                    assert(b[q] == t[q - 1]);
                }
            }
            lemma_point_unique(b, m);
            assert(b.take(m) =~= i);
            assert(b.skip(m + 1) =~= f);
            assert(i + f =~= t);
            assert(f.last() == t.last());
            assert(i[0] == t[0]);
        } else {
            let z = zeros((k - t.len()) as nat);
            let f = z + t;
            assert(b =~= zeros(1) + point() + f);
            assert forall|q: int| 0 <= q < b.len() && q != 1 implies is_digit(#[trigger] b[q]) by {
                if q == 0 {
                    assert(b[q] == 48);
                } else if q < 2 + z.len() {
                    assert(b[q] == z[q - 2]);
                } else {
                    assert(b[q] == t[q - 2 - z.len()]);
                }
            }
            lemma_point_unique(b, 1);
            assert(b.take(1) =~= zeros(1));
            assert(b.skip(2) =~= f);
            assert(f.last() == t.last());
            lemma_value_leading_zeros((k - t.len()) as nat, t);
            assert(zeros(1) + f =~= zeros(1) + f);
            lemma_value_leading_zeros(1, f);
        }
    }
}

/// What `parse_body` accepts is the body of a well-formed finite number.
#[verifier::rlimit(40)]
proof fn lemma_body_of_parse(b: Seq<u8>)
    requires
        parse_body(b) is Some,
    ensures
        ({
            let (d, e) = parse_body(b).unwrap();
            &&& d <= u64::MAX
            &&& -MAX_EXP <= e <= MAX_EXP
            &&& if d == 0 {
                e == 0
            } else {
                d % 10 != 0
            }
            &&& body_text(d, e) == b
        }),
{
    let (d, e) = parse_body(b).unwrap();
    if all_digits(b) {
        if b[0] == 48 {
            assert(b =~= seq![48u8]);
            assert(decimal(0) =~= seq![48u8]);
            assert(body_text(0, 0) =~= b);
        } else {
            let z = trailing_zeros(b);
            lemma_split_trailing_zeros(b);
            let core = b.take(b.len() - z);
            assert(all_digits(core)) by {
                assert forall|q: int| 0 <= q < core.len() implies is_digit(#[trigger] core[q]) by {
                    assert(core[q] == b[q]);
                }
            }
            assert(core[0] == b[0]);
            lemma_decimal_value(core);
            lemma_value_last(core);
            assert(body_text(d, e) =~= b);
        }
    } else {
        let p = choose|p: int| is_point_at(b, p);
        let i = b.take(p);
        let f = b.skip(p + 1);
        assert(b =~= i + point() + f);
        let s = i + f;
        assert(all_digits(s)) by {
            assert forall|q: int| 0 <= q < s.len() implies is_digit(#[trigger] s[q]) by {
                if q < i.len() {
                    assert(s[q] == i[q]);
                } else {
                    assert(s[q] == f[q - i.len()]);
                }
            }
        }
        assert(s.last() == f.last());
        lemma_value_last(s);
        if i[0] != 48 {
            assert(s[0] == i[0]);
            lemma_decimal_value(s);
            let t = decimal(d);
            assert(t.subrange(0, t.len() + e) =~= i);
            assert(t.subrange(t.len() + e, t.len() as int) =~= f);
        } else {
            assert(i =~= zeros(1));
            lemma_value_leading_zeros(1, f);
            lemma_split_leading_zeros(f);
            let lz = leading_zeros(f);
            let g = f.skip(lz as int);
            lemma_value_leading_zeros(lz, g);
            assert(all_digits(g)) by {
                assert forall|q: int| 0 <= q < g.len() implies is_digit(#[trigger] g[q]) by {
                    assert(g[q] == f[q + lz]);
                }
            }
            lemma_decimal_value(g);
            assert(body_text(d, e) =~= zeros(1) + point() + zeros(lz) + g);
        }
    }
}

/// Parsing the text of a well-formed number gives the number back.
pub proof fn lemma_parse_text(n: Num)
    requires
        n.wf(),
    ensures
        parse_text(n.text()) == Some(n),
{
    match n {
        Num::Finite { negative, digits, exp } => {
            lemma_parse_body_of(digits as nat, exp as int);
            let b = body_text(digits as nat, exp as int);
            if negative {
                let s = minus() + b;
                assert(s[1] == b[0]);
                assert(s != minus() + inf_text());
                assert(s.skip(1) =~= b);
            } else {
                assert(b[0] != 45);
            }
        },
        Num::Infinite { negative } => {
            if negative {
                assert((minus() + inf_text()).len() == 4);
            }
        },
        Num::NaN => {},
    }
}

/// A text that parses is the text of the well-formed number it parses to.
pub proof fn lemma_text_of_parse(s: Seq<u8>)
    requires
        parse_text(s) is Some,
    ensures
        parse_text(s).unwrap().wf(),
        parse_text(s).unwrap().text() == s,
{
    if s == nan_text() || s == inf_text() || s == minus() + inf_text() {
    } else if s.len() > 0 && s[0] == 45 {
        lemma_body_of_parse(s.skip(1));
        assert(s =~= minus() + s.skip(1));
    } else {
        lemma_body_of_parse(s);
    }
}

/// The text of a well-formed number determines it.
pub proof fn lemma_text_injective(n: Num, m: Num)
    requires
        n.wf(),
        m.wf(),
        n.text() == m.text(),
    ensures
        n == m,
{
    lemma_parse_text(n);
    lemma_parse_text(m);
}


proof fn lemma_value_prefix_le(s: Seq<u8>, i: int)
    requires
        0 <= i <= s.len(),
    ensures
        value(s.take(i)) <= value(s),
    decreases s.len() - i,
{
    if i < s.len() {
        lemma_value_prefix_le(s, i + 1);
        assert(s.take(i + 1).drop_last() =~= s.take(i));
    } else {
        assert(s.take(i) =~= s);
    }
}

/// The number that an all-digit text denotes, if it fits in a `u64`.
fn value_of(s: &[u8]) -> (r: Option<u64>)
    requires
        all_digits(s@),
    ensures
        r == (if value(s@) <= u64::MAX {
            Some(value(s@) as u64)
        } else {
            None::<u64>
        }),
{
    let mut acc: u64 = 0;
    let mut i: usize = 0;
    assert(s@.take(0) =~= Seq::<u8>::empty());
    while i < s.len()
        invariant
            i <= s@.len(),
            all_digits(s@),
            acc as nat == value(s@.take(i as int)),
        decreases s@.len() - i,
    {
        let d: u64 = (s[i] - 48) as u64;
        assert(is_digit(s@[i as int]));
        assert(s@.take(i + 1).drop_last() =~= s@.take(i as int));
        assert(value(s@.take(i + 1)) == value(s@.take(i as int)) * 10 + d);
        if acc > (u64::MAX - d) / 10 {
            proof {
                assert(acc * 10 + d > u64::MAX) by (nonlinear_arith)
                    requires
                        acc > (u64::MAX - d) / 10,
                        d < 10,
                ;
                lemma_value_prefix_le(s@, i + 1);
            }
            return None;
        }
        assert(acc * 10 + d <= u64::MAX) by (nonlinear_arith)
            requires
                acc <= (u64::MAX - d) / 10,
                d < 10,
        ;
        acc = acc * 10 + d;
        i = i + 1;
    }
    assert(s@.take(i as int) =~= s@);
    Some(acc)
}

/// The first index at or after `from` that holds no digit (or the length).
fn first_non_digit(b: &[u8], from: usize) -> (r: usize)
    requires
        from <= b@.len(),
    ensures
        from <= r <= b@.len(),
        forall|q: int| from <= q < r ==> is_digit(#[trigger] b@[q]),
        r < b@.len() ==> !is_digit(b@[r as int]),
{
    let mut i = from;
    while i < b.len() && 48 <= b[i] && b[i] <= 57
        invariant
            from <= i <= b@.len(),
            forall|q: int| from <= q < i ==> is_digit(#[trigger] b@[q]),
        decreases b@.len() - i,
    {
        i = i + 1;
    }
    i
}

pub open spec fn pair_view(r: Option<(u64, i32)>) -> Option<(nat, int)> {
    match r {
        Some((d, e)) => Some((d as nat, e as int)),
        None => None,
    }
}

fn parse_integral_exec(b: &[u8]) -> (r: Option<(u64, i32)>)
    requires
        all_digits(b@),
    ensures
        pair_view(r) == parse_integral(b@),
{
    let len = b.len();
    if len == 0 {
        return None;
    }
    if b[0] == 48 {
        if len == 1 {
            return Some((0, 0));
        }
        return None;
    }
    let mut j = len;
    while j > 0 && b[j - 1] == 48
        invariant
            j <= len == b@.len(),
            b@ =~= b@.take(j as int) + zeros((len - j) as nat),
        decreases j,
    {
        assert(b@.take(j as int) =~= b@.take(j - 1) + seq![48u8]);
        j = j - 1;
        assert(b@ =~= b@.take(j as int) + zeros((len - j) as nat));
    }
    assert(j > 0) by {
        if j == 0 {
            assert(b@[0] == zeros(len as nat)[0]);
        }
    }
    let z: usize = len - j;
    let ghost core = b@.take(j as int);
    assert(core.last() == b@[j - 1]);
    proof {
        lemma_trailing_zeros_of(core, z as nat);
    }
    assert(b@.take(b@.len() - trailing_zeros(b@)) == core);
    let mut c: Vec<u8> = Vec::new();
    push_range(&mut c, b, 0, j);
    assert(c@ =~= core);
    assert(all_digits(c@)) by {
        assert forall|q: int| 0 <= q < c@.len() implies is_digit(#[trigger] c@[q]) by {
            assert(c@[q] == b@[q]);
        }
    }
    if z > 400 {
        return None;
    }
    match value_of(c.as_slice()) {
        Some(d) => Some((d, z as i32)),
        None => None,
    }
}

fn parse_fraction_exec(b: &[u8], p: usize) -> (r: Option<(u64, i32)>)
    requires
        is_point_at(b@, p as int),
    ensures
        pair_view(r) == parse_fraction(b@.take(p as int), b@.skip(p + 1)),
{
    let len = b.len();
    let ghost i = b@.take(p as int);
    let ghost f = b@.skip(p + 1);
    if p == 0 || (b[0] == 48 && p > 1) {
        return None;
    }
    assert(i[0] == b@[0]);
    let flen = len - p - 1;
    if flen == 0 || b[len - 1] == 48 || flen > 400 {
        proof {
            if flen > 0 {
                assert(f.last() == b@[len - 1]);
            }
        }
        return None;
    }
    assert(f.last() == b@[len - 1]);
    let mut digits: Vec<u8> = Vec::new();
    push_range(&mut digits, b, 0, p);
    push_range(&mut digits, b, p + 1, len);
    assert(digits@ =~= i + f);
    assert(all_digits(digits@)) by {
        assert forall|q: int| 0 <= q < digits@.len() implies is_digit(#[trigger] digits@[q]) by {
            if q < p {
                assert(digits@[q] == i[q]);
            } else {
                assert(digits@[q] == f[q - p]);
            }
        }
    }
    match value_of(digits.as_slice()) {
        Some(d) => Some((d, 0 - (flen as i32))),
        None => None,
    }
}

fn parse_body_exec(b: &[u8]) -> (r: Option<(u64, i32)>)
    ensures
        pair_view(r) == parse_body(b@),
{
    let len = b.len();
    let p = first_non_digit(b, 0);
    if p == len {
        assert(all_digits(b@));
        return parse_integral_exec(b);
    }
    assert(!all_digits(b@));
    if b[p] != 46 {
        assert forall|q: int| !is_point_at(b@, q) by {
            if is_point_at(b@, q) {
                if q < p {
                    assert(is_digit(b@[q]));
                } else if q > p {
                    assert(b@.take(q)[p as int] == b@[p as int]);
                }
            }
        }
        return None;
    }
    let q = first_non_digit(b, p + 1);
    if q != len {
        assert forall|k: int| !is_point_at(b@, k) by {
            if is_point_at(b@, k) {
                if k < p {
                    assert(is_digit(b@[k]));
                } else if k > p {
                    assert(b@.take(k)[p as int] == b@[p as int]);
                } else {
                    assert(b@.skip(p + 1)[q - p - 1] == b@[q as int]);
                }
            }
        }
        return None;
    }
    proof {
        lemma_point_unique(b@, p as int);
    }
    parse_fraction_exec(b, p)
}

impl Num {
    /// Parses the text of a number, as a double with that value is displayed:
    /// `NaN`, `inf`, `-inf`, or an optional minus sign and the decimal digits,
    /// with a point where the value has a fractional part.
    pub fn parse(s: &[u8]) -> (r: Option<Num>)
        ensures
            r == parse_text(s@),
            match r {
                Some(n) => n.wf() && n.text() == s@,
                None => forall|n: Num| #[trigger] n.wf() ==> n.text() != s@,
            },
    {
        let len = s.len();
        let r = if len == 3 && s[0] == 78 && s[1] == 97 && s[2] == 78 {
            assert(s@ =~= nan_text());
            Some(Num::NaN)
        } else if len == 3 && s[0] == 105 && s[1] == 110 && s[2] == 102 {
            assert(s@ =~= inf_text());
            Some(Num::Infinite { negative: false })
        } else if len == 4 && s[0] == 45 && s[1] == 105 && s[2] == 110 && s[3] == 102 {
            assert(s@ =~= minus() + inf_text());
            Some(Num::Infinite { negative: true })
        } else {
            assert(s@ != nan_text() && s@ != inf_text() && s@ != minus() + inf_text()) by {
                if s@ == nan_text() {
                    assert(s@[0] == 78 && s@[1] == 97 && s@[2] == 78);
                }
                if s@ == inf_text() {
                    assert(s@[0] == 105 && s@[1] == 110 && s@[2] == 102);
                }
                if s@ == minus() + inf_text() {
                    assert(s@[0] == 45 && s@[1] == 105 && s@[2] == 110 && s@[3] == 102);
                }
            }
            if len > 0 && s[0] == 45 {
                let mut body: Vec<u8> = Vec::new();
                push_range(&mut body, s, 1, len);
                assert(body@ =~= s@.skip(1));
                match parse_body_exec(body.as_slice()) {
                    Some((d, e)) => Some(Num::Finite { negative: true, digits: d, exp: e }),
                    None => None,
                }
            } else {
                match parse_body_exec(s) {
                    Some((d, e)) => Some(Num::Finite { negative: false, digits: d, exp: e }),
                    None => None,
                }
            }
        };
        proof {
            match r {
                Some(n) => {
                    lemma_text_of_parse(s@);
                },
                None => {
                    assert forall|n: Num| #[trigger] n.wf() implies n.text() != s@ by {
                        lemma_parse_text(n);
                    }
                },
            }
        }
        r
    }
}

} // verus!
