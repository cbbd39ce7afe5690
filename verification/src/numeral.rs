//! Decimal numerals as `f64::from_str` reads them, and whether the value it produces is finite.
//!
//! The grammar is `sign? (digits | digits '.' digits? | '.' digits) (('e' | 'E') sign? digits)?`.
//! A numeral's value is finite exactly when its magnitude is below 2^1024 - 2^970, the least
//! magnitude that correctly rounded parsing sends to infinity.
use vstd::prelude::*;
use crate::text;

verus! {

pub open spec fn is_ascii_digit(c: char) -> bool {
    48 <= (c as int) <= 57
}

pub open spec fn all_digits(s: Seq<char>) -> bool {
    forall|i: int| 0 <= i < s.len() ==> is_ascii_digit(#[trigger] s[i])
}

pub open spec fn digit_value(c: char) -> nat {
    ((c as int) - 48) as nat
}

/// The number that the digit characters `s` spell in base ten.
pub open spec fn digits_value(s: Seq<char>) -> nat
    decreases s.len(),
{
    if s.len() == 0 {
        0
    } else {
        digits_value(s.drop_last()) * 10 + digit_value(s.last())
    }
}

pub open spec fn pow10(n: nat) -> nat
    decreases n,
{
    if n == 0 {
        1
    } else {
        10 * pow10((n - 1) as nat)
    }
}

/// `t` without a leading `+` or `-`.
pub open spec fn unsigned_part(t: Seq<char>) -> Seq<char> {
    if t.len() > 0 && (t[0] == '+' || t[0] == '-') {
        t.drop_first()
    } else {
        t
    }
}

pub open spec fn is_negative(t: Seq<char>) -> bool {
    t.len() > 0 && t[0] == '-'
}

/// The mantissa and, where there is one, the exponent of a numeral.
pub open spec fn numeral_pieces(t: Seq<char>) -> Seq<Seq<char>> {
    text::split_on(unsigned_part(t), text::CharClass::ExpMark)
}

/// The integer and, where there is a point, the fractional digits of the mantissa.
pub open spec fn mantissa_pieces(t: Seq<char>) -> Seq<Seq<char>> {
    text::split_on(numeral_pieces(t)[0], text::CharClass::Dot)
}

pub open spec fn int_digits(t: Seq<char>) -> Seq<char> {
    mantissa_pieces(t)[0]
}

pub open spec fn frac_digits(t: Seq<char>) -> Seq<char> {
    if mantissa_pieces(t).len() == 2 {
        mantissa_pieces(t)[1]
    } else {
        Seq::<char>::empty()
    }
}

pub open spec fn has_exponent(t: Seq<char>) -> bool {
    numeral_pieces(t).len() == 2
}

pub open spec fn exponent_text(t: Seq<char>) -> Seq<char> {
    numeral_pieces(t)[1]
}

/// Whether `f64::from_str` accepts `t` as a decimal numeral.
pub open spec fn is_float_numeral(t: Seq<char>) -> bool {
    &&& numeral_pieces(t).len() <= 2
    &&& mantissa_pieces(t).len() <= 2
    &&& all_digits(int_digits(t))
    &&& all_digits(frac_digits(t))
    &&& int_digits(t).len() + frac_digits(t).len() > 0
    &&& has_exponent(t) ==> {
        &&& unsigned_part(exponent_text(t)).len() > 0
        &&& all_digits(unsigned_part(exponent_text(t)))
    }
}

pub open spec fn signed(negative: bool, v: nat) -> int {
    if negative {
        -(v as int)
    } else {
        v as int
    }
}

pub open spec fn exponent_value(t: Seq<char>) -> int {
    if has_exponent(t) {
        signed(
            is_negative(exponent_text(t)),
            digits_value(unsigned_part(exponent_text(t))),
        )
    } else {
        0
    }
}

/// The magnitude of a numeral is `mantissa_value(t) * 10^scale(t)`.
pub open spec fn mantissa_value(t: Seq<char>) -> nat {
    digits_value(int_digits(t) + frac_digits(t))
}

pub open spec fn scale(t: Seq<char>) -> int {
    exponent_value(t) - frac_digits(t).len()
}

/// 2^1024 - 2^970: the least magnitude that `f64` parsing rounds to infinity.
pub open spec fn overflow_bound() -> nat {
    digits_value(
        "179769313486231580793728971405303415079934132710037826936173778980444968292764750946649017977587207096330286416692887910946555547851940402630657488671505820681908902000708383676273854845817711531764475730270069855571366959622842914819860834936475292719074168444365510704342711559699508093042880177904174497792"@,
    )
}

/// Whether `m * 10^k` is below the overflow bound.
pub open spec fn below_bound(m: nat, k: int) -> bool {
    if k >= 0 {
        m * pow10(k as nat) < overflow_bound()
    } else {
        m < overflow_bound() * pow10((-k) as nat)
    }
}

/// Whether `f64::from_str` accepts `t` and gives a finite value.
pub open spec fn finite_numeral(t: Seq<char>) -> bool {
    is_float_numeral(t) && below_bound(mantissa_value(t), scale(t))
}

// ---------------------------------------------------------------------------------------------
// Arithmetic on digit strings
// ---------------------------------------------------------------------------------------------

pub proof fn lemma_pow10_positive(n: nat)
    ensures
        pow10(n) >= 1,
    decreases n,
{
    if n > 0 {
        lemma_pow10_positive((n - 1) as nat);
    }
}

pub proof fn lemma_pow10_add(a: nat, b: nat)
    ensures
        pow10(a + b) == pow10(a) * pow10(b),
    decreases b,
{
    if b == 0 {
        assert(pow10(b) == 1);
        assert(pow10(a) * 1 == pow10(a));
        assert(a + b == a);
    } else {
        lemma_pow10_add(a, (b - 1) as nat);
        let x = pow10(a);
        let y = pow10((b - 1) as nat);
        assert(pow10((a + b) as nat) == 10 * pow10((a + b - 1) as nat));
        assert((a + b - 1) as nat == a + (b - 1) as nat);
        assert(pow10(b) == 10 * y);
        assert(10 * (x * y) == x * (10 * y)) by (nonlinear_arith);
    }
}

pub proof fn lemma_pow10_mono(a: nat, b: nat)
    requires
        a <= b,
    ensures
        pow10(a) <= pow10(b),
    decreases b,
{
    if a < b {
        lemma_pow10_mono(a, (b - 1) as nat);
        lemma_pow10_positive((b - 1) as nat);
    }
}

pub proof fn lemma_digits_value_append(a: Seq<char>, b: Seq<char>)
    ensures
        digits_value(a + b) == digits_value(a) * pow10(b.len()) + digits_value(b),
    decreases b.len(),
{
    if b.len() == 0 {
        assert(a + b =~= a);
        assert(pow10(0) == 1);
        assert(digits_value(a) * 1 == digits_value(a));
        assert(digits_value(b) == 0);
    } else {
        let b1 = b.drop_last();
        assert((a + b).drop_last() =~= a + b1);
        assert((a + b).last() == b.last());
        assert(digits_value(a + b) == digits_value(a + b1) * 10 + digit_value(b.last()));
        assert(digits_value(b) == digits_value(b1) * 10 + digit_value(b.last()));
        lemma_digits_value_append(a, b1);
        let x = digits_value(a);
        let p = pow10(b1.len());
        let y = digits_value(b1);
        assert((x * p + y) * 10 == x * (10 * p) + y * 10) by (nonlinear_arith);
        assert(pow10(b.len()) == 10 * p);
    }
}

pub proof fn lemma_digits_value_bound(s: Seq<char>)
    requires
        all_digits(s),
    ensures
        digits_value(s) < pow10(s.len()),
    decreases s.len(),
{
    if s.len() > 0 {
        let s1 = s.drop_last();
        assert(is_ascii_digit(s[s.len() - 1]));
        lemma_digits_value_bound(s1);
    }
}

pub proof fn lemma_digits_value_lead(s: Seq<char>)
    requires
        all_digits(s),
        s.len() >= 1,
        s[0] != '0',
    ensures
        digits_value(s) >= pow10((s.len() - 1) as nat),
{
    let h = s.take(1);
    let r = s.skip(1);
    assert(h + r =~= s);
    lemma_digits_value_append(h, r);
    assert(h.drop_last() =~= Seq::<char>::empty());
    assert(h.last() == s[0]);
    assert(digits_value(h.drop_last()) == 0);
    assert(is_ascii_digit(s[0]));
    assert(digits_value(h) == digit_value(s[0]));
    assert(digit_value(s[0]) >= 1);
    let p = pow10(r.len());
    assert(digits_value(h) * p >= p) by (nonlinear_arith)
        requires
            digits_value(h) >= 1,
    ;
}

pub proof fn lemma_digits_value_zeros(s: Seq<char>)
    requires
        forall|i: int| 0 <= i < s.len() ==> s[i] == '0',
    ensures
        digits_value(s) == 0,
    decreases s.len(),
{
    if s.len() > 0 {
        lemma_digits_value_zeros(s.drop_last());
    }
}

pub proof fn lemma_digits_value_prefix(s: Seq<char>, i: int)
    requires
        0 <= i <= s.len(),
    ensures
        digits_value(s.take(i)) <= digits_value(s),
{
    let a = s.take(i);
    let b = s.skip(i);
    assert(a + b =~= s);
    lemma_digits_value_append(a, b);
    lemma_pow10_positive(b.len());
    let x = digits_value(a);
    let p = pow10(b.len());
    assert(x * p >= x) by (nonlinear_arith)
        requires
            p >= 1,
    ;
}

/// Equal-length digit strings compare as numbers the way they compare at their first difference.
pub proof fn lemma_first_difference(a: Seq<char>, b: Seq<char>, i: int)
    requires
        a.len() == b.len(),
        all_digits(a),
        all_digits(b),
        0 <= i < a.len(),
        a.take(i) == b.take(i),
        (a[i] as int) < (b[i] as int),
    ensures
        digits_value(a) < digits_value(b),
{
    let n = a.len();
    let ha = a.take(i + 1);
    let hb = b.take(i + 1);
    let ra = a.skip(i + 1);
    let rb = b.skip(i + 1);
    assert(ha + ra =~= a);
    assert(hb + rb =~= b);
    lemma_digits_value_append(ha, ra);
    lemma_digits_value_append(hb, rb);
    assert(ha.drop_last() =~= a.take(i));
    assert(hb.drop_last() =~= b.take(i));
    assert(is_ascii_digit(a[i]));
    assert(is_ascii_digit(b[i]));
    assert(digits_value(ha) + 1 <= digits_value(hb));
    assert(forall|j: int| 0 <= j < ra.len() ==> ra[j] == a[i + 1 + j]);
    assert(all_digits(ra));
    lemma_digits_value_bound(ra);
    let p = pow10(ra.len());
    let x = digits_value(ha);
    let y = digits_value(hb);
    let u = digits_value(ra);
    let w = digits_value(rb);
    assert(x * p + u < y * p + w) by (nonlinear_arith)
        requires
            x + 1 <= y,
            u < p,
            w >= 0,
    ;
}

// ---------------------------------------------------------------------------------------------
// Executable checks
// ---------------------------------------------------------------------------------------------

pub fn is_digit_char(c: char) -> (b: bool)
    ensures
        b == is_ascii_digit(c),
{
    let u = c as u32;
    48 <= u && u <= 57
}

pub fn all_digit_chars(v: &Vec<char>) -> (b: bool)
    ensures
        b == all_digits(v@),
{
    let mut i: usize = 0;
    while i < v.len()
        invariant
            i <= v.len(),
            forall|j: int| 0 <= j < i ==> is_ascii_digit(#[trigger] v@[j]),
        decreases v.len() - i,
    {
        if !is_digit_char(v[i]) {
            return false;
        }
        i += 1;
    }
    true
}

/// Whether the digit strings `a` and `b`, of one length, satisfy `value(a) < value(b)`.
fn digits_less(a: &Vec<char>, b: &Vec<char>) -> (r: bool)
    requires
        a.len() == b.len(),
        all_digits(a@),
        all_digits(b@),
    ensures
        r == (digits_value(a@) < digits_value(b@)),
{
    let mut i: usize = 0;
    while i < a.len()
        invariant
            i <= a.len() == b.len(),
            all_digits(a@),
            all_digits(b@),
            a@.take(i as int) == b@.take(i as int),
        decreases a.len() - i,
    {
        if a[i] != b[i] {
            if a[i] < b[i] {
                proof {
                    lemma_first_difference(a@, b@, i as int);
                }
                return true;
            } else {
                proof {
                    lemma_first_difference(b@, a@, i as int);
                }
                return false;
            }
        }
        assert(a@.take(i + 1) =~= a@.take(i as int).push(a@[i as int]));
        assert(b@.take(i + 1) =~= b@.take(i as int).push(b@[i as int]));
        i += 1;
    }
    assert(a@ =~= a@.take(a.len() as int));
    assert(b@ =~= b@.take(b.len() as int));
    false
}

/// The digits of the overflow bound.
fn bound_digits() -> (v: Vec<char>)
    ensures
        digits_value(v@) == overflow_bound(),
        v@.len() == 309,
        all_digits(v@),
        v@[0] == '1',
{
    let v = text::chars_of(
        "179769313486231580793728971405303415079934132710037826936173778980444968292764750946649017977587207096330286416692887910946555547851940402630657488671505820681908902000708383676273854845817711531764475730270069855571366959622842914819860834936475292719074168444365510704342711559699508093042880177904174497792",
    );
    proof {
        reveal_strlit(
            "179769313486231580793728971405303415079934132710037826936173778980444968292764750946649017977587207096330286416692887910946555547851940402630657488671505820681908902000708383676273854845817711531764475730270069855571366959622842914819860834936475292719074168444365510704342711559699508093042880177904174497792",
        );
        assert(forall|i: int| 0 <= i < 309 ==> is_ascii_digit(#[trigger] v@[i]));
    }
    v
}

proof fn lemma_bound_range()
    ensures
        pow10(308) <= overflow_bound() < pow10(309),
{
    reveal_strlit(
        "179769313486231580793728971405303415079934132710037826936173778980444968292764750946649017977587207096330286416692887910946555547851940402630657488671505820681908902000708383676273854845817711531764475730270069855571366959622842914819860834936475292719074168444365510704342711559699508093042880177904174497792",
    );
    let s = "179769313486231580793728971405303415079934132710037826936173778980444968292764750946649017977587207096330286416692887910946555547851940402630657488671505820681908902000708383676273854845817711531764475730270069855571366959622842914819860834936475292719074168444365510704342711559699508093042880177904174497792"@;
    assert(forall|i: int| 0 <= i < 309 ==> is_ascii_digit(#[trigger] s[i]));
    lemma_digits_value_bound(s);
    lemma_digits_value_lead(s);
}

/// `d` read from position `z` on, cut or padded with `0`s to 309 digits.
pub open spec fn window(d: Seq<char>, z: int) -> Seq<char> {
    Seq::new(309, |i: int| if z + i < d.len() { d[z + i] } else { '0' })
}

proof fn lemma_leading_zeros(d: Seq<char>, z: int)
    requires
        0 <= z <= d.len(),
        forall|i: int| 0 <= i < z ==> d[i] == '0',
    ensures
        digits_value(d) == digits_value(d.skip(z)),
{
    let a = d.take(z);
    let b = d.skip(z);
    assert(a + b =~= d);
    lemma_digits_value_append(a, b);
    lemma_digits_value_zeros(a);
}

/// The three ways the count `p` of integer digits of a magnitude decides whether it is below the
/// bound.
proof fn lemma_magnitude_cases(d: Seq<char>, z: int, frac_len: nat, e: int)
    requires
        all_digits(d),
        0 <= z < d.len(),
        forall|i: int| 0 <= i < z ==> d[i] == '0',
        d[z] != '0',
    ensures
        ({
            let m = digits_value(d);
            let k = e - frac_len;
            let p = (d.len() - z) + k;
            &&& p <= 308 ==> below_bound(m, k)
            &&& p >= 310 ==> !below_bound(m, k)
            &&& p == 309 ==> (below_bound(m, k) == (digits_value(window(d, z))
                < overflow_bound()))
        }),
{
    let m = digits_value(d);
    let k = e - frac_len;
    let s = d.skip(z);
    let l = s.len();
    let p = l + k;
    let bb = overflow_bound();
    lemma_leading_zeros(d, z);
    assert(all_digits(s));
    lemma_digits_value_bound(s);
    lemma_digits_value_lead(s);
    lemma_bound_range();
    let lo = pow10((l - 1) as nat);
    let hi = pow10(l as nat);
    if k >= 0 {
        let q = pow10(k as nat);
        lemma_pow10_positive(k as nat);
        lemma_pow10_add(l as nat, k as nat);
        lemma_pow10_add((l - 1) as nat, k as nat);
        if p <= 308 {
            lemma_pow10_mono(p as nat, 308);
            assert(m * q < hi * q) by (nonlinear_arith)
                requires
                    m < hi,
                    q >= 1,
            ;
        }
        if p >= 310 {
            lemma_pow10_mono(309, (p - 1) as nat);
            assert(m * q >= lo * q) by (nonlinear_arith)
                requires
                    m >= lo,
                    q >= 1,
            ;
        }
        if p == 309 {
            let zs = Seq::new(k as nat, |i: int| '0');
            assert(window(d, z) =~= s + zs);
            lemma_digits_value_append(s, zs);
            lemma_digits_value_zeros(zs);
        }
    } else {
        let j = -k;
        let q = pow10(j as nat);
        lemma_pow10_positive(j as nat);
        if p <= 308 {
            lemma_pow10_mono(l as nat, (308 + j) as nat);
            lemma_pow10_add(308, j as nat);
            assert(pow10(308) * q <= bb * q) by (nonlinear_arith)
                requires
                    pow10(308) <= bb,
                    q >= 1,
            ;
        }
        if p >= 310 {
            lemma_pow10_mono((309 + j) as nat, (l - 1) as nat);
            lemma_pow10_add(309, j as nat);
            assert(bb * q < pow10(309) * q) by (nonlinear_arith)
                requires
                    bb < pow10(309),
                    q >= 1,
            ;
        }
        if p == 309 {
            let x = s.take(309);
            let r = s.skip(309);
            assert(x + r =~= s);
            assert(window(d, z) =~= x);
            lemma_digits_value_append(x, r);
            assert(r.len() == j);
            assert(all_digits(r));
            lemma_digits_value_bound(r);
            let vx = digits_value(x);
            let vr = digits_value(r);
            assert(m == vx * q + vr);
            assert((vx * q + vr < bb * q) == (vx < bb)) by (nonlinear_arith)
                requires
                    0 <= vr < q,
                    q >= 1,
            ;
        }
    }
}

/// The value of the digit string `v`, or `None` when it exceeds 10^20.
fn capped_value(v: &Vec<char>) -> (r: Option<u128>)
    requires
        all_digits(v@),
    ensures
        r matches Some(x) ==> x == digits_value(v@) && x <= 100_000_000_000_000_000_000,
        r is None ==> digits_value(v@) > 100_000_000_000_000_000_000,
{
    let mut acc: u128 = 0;
    let mut i: usize = 0;
    assert(v@.take(0) =~= Seq::<char>::empty());
    while i < v.len()
        invariant
            i <= v.len(),
            all_digits(v@),
            acc == digits_value(v@.take(i as int)),
            acc <= 100_000_000_000_000_000_000,
        decreases v.len() - i,
    {
        assert(v@.take(i + 1).drop_last() =~= v@.take(i as int));
        assert(is_ascii_digit(v@[i as int]));
        let d = (v[i] as u32 - 48) as u128;
        acc = acc * 10 + d;
        i += 1;
        if acc > 100_000_000_000_000_000_000 {
            proof {
                lemma_digits_value_prefix(v@, i as int);
            }
            return None;
        }
    }
    assert(v@.take(v.len() as int) =~= v@);
    Some(acc)
}

/// Whether `digits_value(d) * 10^(e - frac_len)` is below the overflow bound, where `e` is the
/// exponent with sign `exp_neg` and digits `exp_d`.
fn magnitude_below_bound(d: &Vec<char>, frac_len: usize, exp_neg: bool, exp_d: &Vec<char>) -> (b:
    bool)
    requires
        all_digits(d@),
        all_digits(exp_d@),
    ensures
        b == below_bound(
            digits_value(d@),
            signed(exp_neg, digits_value(exp_d@)) - frac_len,
        ),
{
    let mut z: usize = 0;
    while z < d.len() && d[z] == '0'
        invariant
            z <= d.len(),
            forall|i: int| 0 <= i < z ==> d@[i] == '0',
        decreases d.len() - z,
    {
        z += 1;
    }
    let ghost e = signed(exp_neg, digits_value(exp_d@));
    let ghost k = e - frac_len;
    if z == d.len() {
        proof {
            lemma_digits_value_zeros(d@);
            lemma_bound_range();
            lemma_pow10_positive(308);
            assert(digits_value(d@) == 0);
            if k >= 0 {
                assert(0 * pow10(k as nat) == 0);
            }
            if k < 0 {
                lemma_pow10_positive((-k) as nat);
                assert(overflow_bound() * pow10((-k) as nat) > 0) by (nonlinear_arith)
                    requires
                        overflow_bound() >= 1,
                        pow10((-k) as nat) >= 1,
                ;
            }
        }
        return true;
    }
    proof {
        lemma_magnitude_cases(d@, z as int, frac_len as nat, e);
    }
    let l = d.len() - z;
    match capped_value(exp_d) {
        None => {
            proof {
                let v = digits_value(exp_d@);
                let p = l + k;
                if exp_neg {
                    assert(p <= 308);
                } else {
                    assert(p >= 310);
                }
            }
            exp_neg
        },
        Some(v) => {
            let ev: i128 = if exp_neg {
                -(v as i128)
            } else {
                v as i128
            };
            let p: i128 = l as i128 + ev - frac_len as i128;
            if p <= 308 {
                true
            } else if p >= 310 {
                false
            } else {
                let mut w: Vec<char> = Vec::new();
                let mut i: usize = 0;
                while i < 309
                    invariant
                        i <= 309,
                        z < d.len(),
                        w@ == window(d@, z as int).take(i as int),
                    decreases 309 - i,
                {
                    let c = if i < d.len() - z {
                        d[z + i]
                    } else {
                        '0'
                    };
                    w.push(c);
                    i += 1;
                    assert(w@ =~= window(d@, z as int).take(i as int));
                }
                assert(w@ =~= window(d@, z as int));
                assert(all_digits(w@)) by {
                    assert forall|j: int| 0 <= j < w@.len() implies is_ascii_digit(
                        #[trigger] w@[j],
                    ) by {
                        if z + j < d.len() {
                            assert(is_ascii_digit(d@[z + j]));
                        }
                    }
                }
                let bd = bound_digits();
                digits_less(&w, &bd)
            }
        },
    }
}

/// Whether `f64::from_str` accepts `t` and gives a finite value.
pub fn is_finite_numeral(t: &Vec<char>) -> (b: bool)
    ensures
        b == finite_numeral(t@),
{
    let u = if t.len() > 0 && (t[0] == '+' || t[0] == '-') {
        text::copy_range(t, 1, t.len())
    } else {
        text::copy_chars(t)
    };
    assert(u@ =~= unsigned_part(t@));
    let pieces = text::split_chars(&u, text::CharClass::ExpMark);
    proof {
        text::lemma_split_on_nonempty(u@, text::CharClass::ExpMark);
    }
    if pieces.len() > 2 {
        return false;
    }
    assert(pieces@[0]@ == numeral_pieces(t@)[0]);
    let mant = text::split_chars(&pieces[0], text::CharClass::Dot);
    proof {
        text::lemma_split_on_nonempty(pieces@[0]@, text::CharClass::Dot);
    }
    if mant.len() > 2 {
        return false;
    }
    assert(mant@[0]@ == int_digits(t@));
    let frac_d = if mant.len() == 2 {
        text::copy_chars(&mant[1])
    } else {
        Vec::new()
    };
    assert(frac_d@ == frac_digits(t@));
    if !all_digit_chars(&mant[0]) || !all_digit_chars(&frac_d) || (mant[0].len() == 0
        && frac_d.len() == 0) {
        return false;
    }
    let mut exp_neg = false;
    let mut exp_d: Vec<char> = Vec::new();
    if pieces.len() == 2 {
        let x = &pieces[1];
        assert(x@ == exponent_text(t@));
        exp_neg = x.len() > 0 && x[0] == '-';
        exp_d = if x.len() > 0 && (x[0] == '+' || x[0] == '-') {
            text::copy_range(x, 1, x.len())
        } else {
            text::copy_chars(x)
        };
        assert(exp_d@ =~= unsigned_part(x@));
        if exp_d.len() == 0 || !all_digit_chars(&exp_d) {
            return false;
        }
    }
    assert(is_float_numeral(t@));
    assert(signed(exp_neg, digits_value(exp_d@)) == exponent_value(t@)) by {
        if !has_exponent(t@) {
            assert(exp_d@ =~= Seq::<char>::empty());
        }
    }
    let mut digits = text::copy_chars(&mant[0]);
    text::append_chars(&mut digits, &frac_d);
    magnitude_below_bound(&digits, frac_d.len(), exp_neg, &exp_d)
}

} // verus!
