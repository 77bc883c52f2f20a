//! Decimal amounts.
//!
//! Every amount in the invoicing logic (quantities, rates, tax percentages,
//! settlements) is a `rust_decimal::Decimal`.  The library holds such a value
//! as its two plain parts, a signed mantissa and a decimal scale, exactly as
//! `rust_decimal` stores it: the value is `mantissa / 10^scale`, the mantissa
//! fits in 96 bits and the scale is at most 28.
//!
//! For reasoning, a value is measured in units of `10^-28` (`val`); every
//! representable decimal is an integer number of such units, so sums and
//! comparisons of amounts are plain integer arithmetic in the contracts.
//!
//! The arithmetic itself is done by `rust_decimal`, behind the trusted
//! wrappers at the end of this file.
use rust_decimal::Decimal;
use vstd::prelude::*;

verus! {

/// Largest mantissa magnitude that `rust_decimal` can hold (2^96 - 1).
pub const MAX_MANTISSA: i128 = 79228162514264337593543950335i128;

/// Largest scale that `rust_decimal` can hold.
pub const MAX_SCALE: u32 = 28u32;

/// `10^n`.
pub open spec fn pow10(n: nat) -> nat
    decreases n,
{
    if n == 0 {
        1
    } else {
        10 * pow10((n - 1) as nat)
    }
}

/// One whole unit expressed in `val` units (`10^28`).
pub open spec fn unit() -> int {
    pow10(28) as int
}

/// A decimal number `mantissa / 10^scale`, laid out as `rust_decimal` lays it out.
#[derive(Clone, Copy, Debug)]
pub struct Dec {
    pub mantissa: i128,
    pub scale: u32,
}

impl Dec {
    /// The parts are within what `rust_decimal` can represent.
    pub open spec fn wf(self) -> bool {
        &&& self.scale <= MAX_SCALE
        &&& -MAX_MANTISSA <= self.mantissa <= MAX_MANTISSA
    }

    /// The value in units of `10^-28`.
    pub open spec fn val(self) -> int {
        self.mantissa * pow10((28 - self.scale) as nat)
    }
}

/// The mantissa that `d` has once written with scale `s >= d.scale`.
pub open spec fn mantissa_at(d: Dec, s: nat) -> int {
    d.mantissa * pow10((s - d.scale) as nat)
}

pub open spec fn max_scale(a: Dec, b: Dec) -> nat {
    if a.scale >= b.scale {
        a.scale as nat
    } else {
        b.scale as nat
    }
}

pub open spec fn fits96(x: int) -> bool {
    -MAX_MANTISSA <= x <= MAX_MANTISSA
}

/// Both operands, written at the larger of the two scales, and their sum,
/// fit in 96 bits: `rust_decimal` then adds without rounding.
pub open spec fn add_exact(a: Dec, b: Dec) -> bool {
    let s = max_scale(a, b);
    &&& fits96(mantissa_at(a, s))
    &&& fits96(mantissa_at(b, s))
    &&& fits96(mantissa_at(a, s) + mantissa_at(b, s))
}

/// As `add_exact`, for `a - b`.
pub open spec fn sub_exact(a: Dec, b: Dec) -> bool {
    let s = max_scale(a, b);
    &&& fits96(mantissa_at(a, s))
    &&& fits96(mantissa_at(b, s))
    &&& fits96(mantissa_at(a, s) - mantissa_at(b, s))
}

/// The plain product of the mantissas fits in 96 bits at the summed scale:
/// `rust_decimal` then multiplies without rounding.
pub open spec fn mul_exact(a: Dec, b: Dec) -> bool {
    &&& a.scale + b.scale <= 28
    &&& fits96(a.mantissa * b.mantissa)
}

/// `q` is the exact quotient `a / b` and is itself representable.
pub open spec fn is_exact_quotient(a: Dec, b: Dec, q: Dec) -> bool {
    &&& q.wf()
    &&& q.val() * b.val() == a.val() * unit()
}

pub open spec fn zero_dec() -> Dec {
    Dec { mantissa: 0, scale: 0 }
}

pub open spec fn hundred_dec() -> Dec {
    Dec { mantissa: 100, scale: 0 }
}

/// The exact quotient of `d` by one hundred, when `d` has room for two more
/// decimal places.
pub open spec fn hundredth(d: Dec) -> Dec {
    Dec { mantissa: d.mantissa, scale: (d.scale + 2) as u32 }
}

pub open spec fn abs(x: int) -> int {
    if x < 0 {
        -x
    } else {
        x
    }
}

/// `d` is a representable decimal with at most `s` decimal places whose
/// magnitude is at most `b` units of `10^-s`.
pub open spec fn within(d: Dec, s: nat, b: int) -> bool {
    &&& d.wf()
    &&& s <= 28
    &&& d.scale <= s
    &&& abs(d.val()) <= b * pow10((28 - s) as nat)
}

/// Mantissa and scale once every trailing zero is stripped.
pub open spec fn normal_form(m: int, s: nat) -> (int, nat)
    decreases s,
{
    if s > 0 && m % 10 == 0 {
        normal_form(m / 10, (s - 1) as nat)
    } else {
        (m, s)
    }
}

/// The same value with no trailing zeros in its mantissa.
pub open spec fn normalized(d: Dec) -> Dec {
    let (m, s) = normal_form(d.mantissa as int, d.scale as nat);
    Dec { mantissa: m as i128, scale: s as u32 }
}

/// What `rust_decimal`'s `checked_add` returns for the two values.
pub uninterp spec fn decimal_checked_add(a: Dec, b: Dec) -> Option<Dec>;

/// What `rust_decimal`'s `checked_sub` returns for the two values.
pub uninterp spec fn decimal_checked_sub(a: Dec, b: Dec) -> Option<Dec>;

/// What `rust_decimal`'s `checked_mul` returns for the two values.
pub uninterp spec fn decimal_checked_mul(a: Dec, b: Dec) -> Option<Dec>;

/// What `rust_decimal`'s `checked_div` returns for the two values.
pub uninterp spec fn decimal_checked_div(a: Dec, b: Dec) -> Option<Dec>;

/// What `rust_decimal`'s `Decimal::from_str` yields for the text (`None` on error).
pub uninterp spec fn decimal_parse(text: Seq<char>) -> Option<Dec>;

pub proof fn lemma_pow10_positive(n: nat)
    ensures
        pow10(n) > 0,
    decreases n,
{
    if n > 0 {
        lemma_pow10_positive((n - 1) as nat);
    }
}

pub proof fn lemma_pow10_add(m: nat, n: nat)
    ensures
        pow10(m + n) == pow10(m) * pow10(n),
    decreases m,
{
    if m == 0 {
        assert(pow10(0) == 1);
    } else {
        let k: nat = (m - 1) as nat;
        lemma_pow10_add(k, n);
        assert(m + n == (k + n) + 1);
        assert(pow10(m + n) == 10 * pow10(k + n));
        assert(pow10(m) == 10 * pow10(k));
        let a = pow10(k);
        let b = pow10(n);
        assert(10 * (a * b) == (10 * a) * b) by (nonlinear_arith);
    }
}

/// `val` of a decimal in terms of its mantissa at any scale at least its own.
pub proof fn lemma_val_at(d: Dec, s: nat)
    requires
        d.scale <= s <= 28,
    ensures
        d.val() == mantissa_at(d, s) * pow10((28 - s) as nat),
{
    lemma_pow10_add((s - d.scale) as nat, (28 - s) as nat);
    assert((28 - d.scale) as nat == ((s - d.scale) as nat + (28 - s) as nat) as nat);
    assert(d.mantissa * (pow10((s - d.scale) as nat) * pow10((28 - s) as nat)) == (d.mantissa
        * pow10((s - d.scale) as nat)) * pow10((28 - s) as nat)) by (nonlinear_arith);
}

/// Dividing a decimal with room for two more places by one hundred is exact.
pub proof fn lemma_hundredth_exact(d: Dec)
    requires
        d.wf(),
        d.scale <= 26,
    ensures
        is_exact_quotient(d, hundred_dec(), hundredth(d)),
        hundredth(d).val() * 100 == d.val(),
{
    let q = hundredth(d);
    lemma_pow10_add(2, (26 - d.scale) as nat);
    assert(pow10(2) == 100) by {
        reveal_with_fuel(pow10, 3);
    }
    assert((28 - d.scale) as nat == (2 + (26 - d.scale) as nat) as nat);
    assert(d.val() == d.mantissa * (100 * pow10((26 - d.scale) as nat)));
    assert(q.val() == d.mantissa * pow10((26 - d.scale) as nat));
    assert(d.mantissa * (100 * pow10((26 - d.scale) as nat)) == (d.mantissa * pow10(
        (26 - d.scale) as nat,
    )) * 100) by (nonlinear_arith);
    assert(hundred_dec().val() == 100 * pow10(28));
    assert(q.val() * (100 * pow10(28)) == (q.val() * 100) * pow10(28)) by (nonlinear_arith);
}

pub proof fn lemma_normal_form(m: int, s: nat)
    ensures
        normal_form(m, s).1 <= s,
        m == normal_form(m, s).0 * pow10((s - normal_form(m, s).1) as nat),
        abs(normal_form(m, s).0) <= abs(m),
    decreases s,
{
    if s > 0 && m % 10 == 0 {
        let k = m / 10;
        lemma_normal_form(k, (s - 1) as nat);
        let (m2, s2) = normal_form(k, (s - 1) as nat);
        assert(m == k * 10);
        assert((s - s2) as nat == (((s - 1) as nat - s2) as nat + 1) as nat);
        lemma_pow10_add(((s - 1) as nat - s2) as nat, 1);
        assert(pow10(1) == 10) by {
            reveal_with_fuel(pow10, 2);
        }
        let p = pow10(((s - 1) as nat - s2) as nat);
        assert(m2 * (p * 10) == (m2 * p) * 10) by (nonlinear_arith);
        assert(normal_form(m, s) == (m2, s2));
        assert(pow10((s - s2) as nat) == p * 10);
        assert(k == m2 * p);
        assert(m == m2 * (p * 10));
        assert(abs(k) <= abs(m)) by (nonlinear_arith)
            requires
                m == k * 10,
        ;
    } else {
        assert(normal_form(m, s) == (m, s));
        assert(pow10(0) == 1);
        assert((s - s) as nat == 0);
        assert(m == m * pow10(0));
    }
}

/// Normalising keeps the value, never raises the scale and stays representable.
pub proof fn lemma_normalized(d: Dec)
    requires
        d.wf(),
    ensures
        normalized(d).wf(),
        normalized(d).val() == d.val(),
        normalized(d).scale <= d.scale,
{
    let (m2, s2) = normal_form(d.mantissa as int, d.scale as nat);
    lemma_normal_form(d.mantissa as int, d.scale as nat);
    let n = normalized(d);
    assert(n.mantissa == m2);
    assert(n.scale == s2);
    lemma_pow10_add((d.scale - s2) as nat, (28 - d.scale) as nat);
    assert((28 - s2) as nat == ((d.scale - s2) as nat + (28 - d.scale) as nat) as nat);
    let p = pow10((d.scale - s2) as nat);
    let q = pow10((28 - d.scale) as nat);
    assert(m2 * (p * q) == (m2 * p) * q) by (nonlinear_arith);
}

/// A decimal within a bound at scale `s` has a mantissa within the same
/// bound at every scale between its own and `s`.
pub proof fn lemma_within_mantissa_at(d: Dec, s: nat, t: nat, b: int)
    requires
        within(d, s, b),
        d.scale <= t <= s,
    ensures
        abs(mantissa_at(d, t)) <= b,
        abs(d.mantissa as int) <= b,
{
    lemma_val_at(d, t);
    lemma_pow10_add((s - t) as nat, (28 - s) as nat);
    assert((28 - t) as nat == ((s - t) as nat + (28 - s) as nat) as nat);
    let m = mantissa_at(d, t);
    let p = pow10((s - t) as nat);
    let q = pow10((28 - s) as nat);
    lemma_pow10_positive((s - t) as nat);
    lemma_pow10_positive((28 - s) as nat);
    assert(abs(d.val()) == abs(m) * (p * q)) by (nonlinear_arith)
        requires
            d.val() == m * (p * q),
            p > 0,
            q > 0,
    ;
    assert(abs(m) <= b) by (nonlinear_arith)
        requires
            abs(m) * (p * q) <= b * q,
            p >= 1,
            q >= 1,
            abs(m) >= 0,
    ;
    lemma_pow10_positive((t - d.scale) as nat);
    assert(abs(d.mantissa as int) <= abs(m)) by (nonlinear_arith)
        requires
            m == d.mantissa * pow10((t - d.scale) as nat),
            pow10((t - d.scale) as nat) >= 1,
    ;
}

/// Moving to more decimal places scales the bound accordingly.
pub proof fn lemma_within_widen(d: Dec, s: nat, b: int, t: nat, c: int)
    requires
        within(d, s, b),
        s <= t <= 28,
        b * pow10((t - s) as nat) <= c,
    ensures
        within(d, t, c),
{
    lemma_pow10_add((t - s) as nat, (28 - t) as nat);
    assert((28 - s) as nat == ((t - s) as nat + (28 - t) as nat) as nat);
    let p = pow10((t - s) as nat);
    let q = pow10((28 - t) as nat);
    lemma_pow10_positive((28 - t) as nat);
    assert(b * (p * q) <= c * q) by (nonlinear_arith)
        requires
            b * p <= c,
            q > 0,
    ;
}

/// Two bounded operands at the same scale add and subtract without rounding.
pub proof fn lemma_add_exact_within(a: Dec, b: Dec, s: nat, ba: int, bb: int)
    requires
        within(a, s, ba),
        within(b, s, bb),
        ba + bb <= MAX_MANTISSA,
    ensures
        add_exact(a, b),
        sub_exact(a, b),
{
    let m = max_scale(a, b);
    lemma_within_mantissa_at(a, s, m, ba);
    lemma_within_mantissa_at(b, s, m, bb);
}

/// A representable result whose value is bounded by the operands' bounds.
pub proof fn lemma_within_sum(r: Dec, a: Dec, b: Dec, s: nat, ba: int, bb: int)
    requires
        within(a, s, ba),
        within(b, s, bb),
        r.wf(),
        r.scale <= s,
        abs(r.val()) <= abs(a.val()) + abs(b.val()),
    ensures
        within(r, s, ba + bb),
{
    let q = pow10((28 - s) as nat);
    assert(ba * q + bb * q == (ba + bb) * q) by (nonlinear_arith);
}

/// A percentage divided by one hundred keeps its bound two places further right.
pub proof fn lemma_within_hundredth(p: Dec, q: Dec, s: nat, b: int)
    requires
        within(p, s, b),
        s <= 26,
        q.wf(),
        q.val() * 100 == p.val(),
        q.scale <= s + 2,
    ensures
        within(q, s + 2, b),
{
    lemma_pow10_add(2, (26 - s) as nat);
    assert(pow10(2) == 100) by {
        reveal_with_fuel(pow10, 3);
    }
    assert((28 - s) as nat == (2 + (26 - s) as nat) as nat);
    assert((28 - (s + 2)) as nat == (26 - s) as nat);
    let r = pow10((26 - s) as nat);
    assert(abs(q.val()) * 100 == abs(p.val()));
    assert(abs(q.val()) <= b * r) by (nonlinear_arith)
        requires
            abs(q.val()) * 100 <= b * (100 * r),
    ;
}

/// Two bounded operands whose places add up to at most 28 multiply without
/// rounding, and the product is bounded by the product of the bounds.
pub proof fn lemma_mul_exact_within(a: Dec, q: Dec, sa: nat, ba: int, sq: nat, bq: int)
    requires
        within(a, sa, ba),
        within(q, sq, bq),
        sa + sq <= 28,
        ba * bq <= MAX_MANTISSA,
        ba >= 0,
        bq >= 0,
    ensures
        mul_exact(a, q),
{
    lemma_within_mantissa_at(a, sa, a.scale as nat, ba);
    lemma_within_mantissa_at(q, sq, q.scale as nat, bq);
    let x = a.mantissa as int;
    let y = q.mantissa as int;
    assert(abs(x * y) <= ba * bq) by (nonlinear_arith)
        requires
            abs(x) <= ba,
            abs(y) <= bq,
            ba >= 0,
            bq >= 0,
    ;
}

/// The exact product of two bounded operands is bounded at the summed scale.
pub proof fn lemma_within_product(r: Dec, a: Dec, q: Dec, sa: nat, ba: int, sq: nat, bq: int)
    requires
        within(a, sa, ba),
        within(q, sq, bq),
        sa + sq <= 28,
        ba >= 0,
        bq >= 0,
        r.wf(),
        r.scale <= sa + sq,
        r.val() * unit() == a.val() * q.val(),
    ensures
        within(r, sa + sq, ba * bq),
{
    let s = (sa + sq) as nat;
    lemma_pow10_add((28 - sa) as nat, (28 - sq) as nat);
    lemma_pow10_add((28 - s) as nat, 28);
    assert(((28 - sa) as nat + (28 - sq) as nat) as nat == ((28 - s) as nat + 28) as nat);
    let pa = pow10((28 - sa) as nat);
    let pq = pow10((28 - sq) as nat);
    let ps = pow10((28 - s) as nat);
    let u = pow10(28);
    lemma_pow10_positive(28);
    assert(pa * pq == ps * u);
    assert(abs(r.val()) * u == abs(a.val()) * abs(q.val())) by (nonlinear_arith)
        requires
            r.val() * u == a.val() * q.val(),
            u > 0,
    ;
    assert(abs(a.val()) * abs(q.val()) <= (ba * pa) * (bq * pq)) by (nonlinear_arith)
        requires
            abs(a.val()) <= ba * pa,
            abs(q.val()) <= bq * pq,
            abs(a.val()) >= 0,
            abs(q.val()) >= 0,
    ;
    assert((ba * pa) * (bq * pq) == ((ba * bq) * ps) * u) by (nonlinear_arith)
        requires
            pa * pq == ps * u,
    ;
    assert(abs(r.val()) <= (ba * bq) * ps) by (nonlinear_arith)
        requires
            abs(r.val()) * u <= ((ba * bq) * ps) * u,
            u > 0,
    ;
}

/// The powers of ten the bounds are written with.
pub proof fn lemma_pow10_values()
    ensures
        pow10(1) == 10,
        pow10(2) == 100,
        pow10(6) == 1000000,
        pow10(8) == 100000000,
        pow10(14) == 100000000000000,
        pow10(16) == 10000000000000000,
        pow10(20) == 100000000000000000000,
        pow10(22) == 10000000000000000000000,
        pow10(28) == 10000000000000000000000000000,
        pow10(44) == 100000000000000000000000000000000000000000000,
{
    reveal_with_fuel(pow10, 45);
}

pub proof fn lemma_pow10_monotone(m: nat, n: nat)
    requires
        m <= n,
    ensures
        pow10(m) <= pow10(n),
{
    lemma_pow10_add(m, (n - m) as nat);
    assert((m + (n - m) as nat) as nat == n);
    lemma_pow10_positive(m);
    lemma_pow10_positive((n - m) as nat);
    assert(pow10(m) <= pow10(m) * pow10((n - m) as nat)) by (nonlinear_arith)
        requires
            pow10(m) > 0,
            pow10((n - m) as nat) >= 1,
    ;
}

/// Two operands with at most six places each multiply without rounding when
/// the product of their values is at most `l` units of `10^-12`; the product
/// then has at most twelve places and magnitude `l` at that scale.
pub proof fn lemma_mul_exact_by_value(a: Dec, b: Dec, l: int)
    requires
        a.wf(),
        b.wf(),
        a.scale <= 6,
        b.scale <= 6,
        0 <= l <= MAX_MANTISSA,
        abs(a.val() * b.val()) <= l * pow10(44),
    ensures
        mul_exact(a, b),
        forall|r: Dec|
            r.wf() && r.scale <= a.scale + b.scale && r.val() * unit() == a.val() * b.val()
                ==> #[trigger] within(r, 12, l),
{
    let pa = pow10((28 - a.scale) as nat);
    let pb = pow10((28 - b.scale) as nat);
    lemma_pow10_monotone(22, (28 - a.scale) as nat);
    lemma_pow10_monotone(22, (28 - b.scale) as nat);
    lemma_pow10_add(22, 22);
    lemma_pow10_add(16, 28);
    lemma_pow10_positive(22);
    lemma_pow10_positive(16);
    lemma_pow10_positive(28);
    let ma = a.mantissa as int;
    let mb = b.mantissa as int;
    let p22 = pow10(22);
    assert(abs(ma * mb) * (p22 * p22) <= abs(a.val() * b.val())) by (nonlinear_arith)
        requires
            a.val() == ma * pa,
            b.val() == mb * pb,
            pa >= p22,
            pb >= p22,
            p22 > 0,
    ;
    assert(pow10(44) == p22 * p22);
    assert(abs(ma * mb) <= l) by (nonlinear_arith)
        requires
            abs(ma * mb) * (p22 * p22) <= l * (p22 * p22),
            p22 > 0,
    ;
    assert forall|r: Dec|
        r.wf() && r.scale <= a.scale + b.scale && r.val() * unit() == a.val() * b.val()
            implies #[trigger] within(r, 12, l) by {
        let p16 = pow10(16);
        let u = pow10(28);
        assert(pow10(44) == p16 * u);
        assert(abs(r.val()) * u <= (l * p16) * u) by (nonlinear_arith)
            requires
                r.val() * u == a.val() * b.val(),
                abs(a.val() * b.val()) <= l * (p16 * u),
                u > 0,
        ;
        assert(abs(r.val()) <= l * p16) by (nonlinear_arith)
            requires
                abs(r.val()) * u <= (l * p16) * u,
                u > 0,
        ;
    }
}

/// A value that is `t / 100` times a bounded base (with `|t|` at most 1000%
/// in `val` units) is bounded eight places further right.
pub proof fn lemma_within_ratio(r: Dec, base: Dec, t: int, s: nat, b: int, pb: int)
    requires
        r.wf(),
        r.scale <= s + 8,
        within(base, s, b),
        s <= 20,
        b >= 0,
        pb >= 0,
        r.val() * unit() * 100 == base.val() * t,
        abs(t) <= pb * pow10(22),
    ensures
        within(r, s + 8, b * pb),
{
    lemma_pow10_add((20 - s) as nat, 8);
    assert((28 - s) as nat == ((20 - s) as nat + 8) as nat);
    assert((28 - (s + 8)) as nat == (20 - s) as nat);
    reveal_with_fuel(pow10, 29);
    let p = pow10((20 - s) as nat);
    let u = pow10(28);
    assert(u == 10000000000000000000000000000);
    assert(pow10(22) == 10000000000000000000000);
    assert(pow10(8) == 100000000);
    assert(abs(r.val()) * (u * 100) == abs(base.val()) * abs(t)) by (nonlinear_arith)
        requires
            r.val() * u * 100 == base.val() * t,
            u > 0,
    ;
    assert(abs(base.val()) * abs(t) <= (b * (p * 100000000)) * (pb * 10000000000000000000000))
        by (nonlinear_arith)
        requires
            abs(base.val()) <= b * (p * 100000000),
            abs(t) <= pb * 10000000000000000000000,
            abs(base.val()) >= 0,
            abs(t) >= 0,
    ;
    assert((b * (p * 100000000)) * (pb * 10000000000000000000000) == ((b * pb) * p) * (u * 100))
        by (nonlinear_arith)
        requires
            u == 10000000000000000000000000000,
    ;
    assert(abs(r.val()) <= (b * pb) * p) by (nonlinear_arith)
        requires
            abs(r.val()) * (u * 100) <= ((b * pb) * p) * (u * 100),
            u > 0,
    ;
}

/// Two operands with at most `s` places add and subtract without rounding
/// when their magnitudes together fit in 96 bits at scale `s`.
pub proof fn lemma_add_exact_by_value(a: Dec, b: Dec, s: nat)
    requires
        a.wf(),
        b.wf(),
        a.scale <= s,
        b.scale <= s,
        s <= 28,
        abs(a.val()) + abs(b.val()) <= MAX_MANTISSA * pow10((28 - s) as nat),
    ensures
        add_exact(a, b),
        sub_exact(a, b),
{
    let m = max_scale(a, b);
    lemma_val_at(a, m);
    lemma_val_at(b, m);
    lemma_pow10_monotone((28 - s) as nat, (28 - m) as nat);
    lemma_pow10_positive((28 - s) as nat);
    let p = pow10((28 - m) as nat);
    let q = pow10((28 - s) as nat);
    let x = mantissa_at(a, m);
    let y = mantissa_at(b, m);
    assert((abs(x) + abs(y)) * q <= abs(a.val()) + abs(b.val())) by (nonlinear_arith)
        requires
            a.val() == x * p,
            b.val() == y * p,
            p >= q,
            q > 0,
    ;
    assert(abs(x) + abs(y) <= MAX_MANTISSA) by (nonlinear_arith)
        requires
            (abs(x) + abs(y)) * q <= MAX_MANTISSA * q,
            q > 0,
    ;
}

pub proof fn lemma_mul_le(a: int, b: int, c: int)
    requires
        a <= b,
        c >= 0,
    ensures
        a * c <= b * c,
{
    assert(a * c <= b * c) by (nonlinear_arith)
        requires
            a <= b,
            c >= 0,
    ;
}

pub proof fn lemma_le_cancel(a: int, b: int, k: int)
    requires
        a * k <= b * k,
        k > 0,
    ensures
        a <= b,
{
    assert(a <= b) by (nonlinear_arith)
        requires
            a * k <= b * k,
            k > 0,
    ;
}

pub proof fn lemma_distrib(a: int, b: int, k: int)
    ensures
        (a + b) * k == a * k + b * k,
{
    assert((a + b) * k == a * k + b * k) by (nonlinear_arith);
}

/// The value with every trailing zero stripped (`normalized`).
pub fn normalize(d: &Dec) -> (r: Dec)
    requires
        d.wf(),
    ensures
        r == normalized(*d),
        r.wf(),
        r.val() == d.val(),
        r.scale <= d.scale,
{
    proof {
        lemma_normalized(*d);
    }
    decimal_normalize(d)
}

/// How amounts are shown: the normalised value as `Display` writes it.
pub open spec fn display_text(d: Dec) -> Seq<char> {
    decimal_text(normalized(d))
}

/// An amount as shown to users (see `display_text`).
pub fn decimal_display(d: &Dec) -> (r: String)
    requires
        d.wf(),
    ensures
        r@ == display_text(*d),
{
    let n = normalize(d);
    decimal_to_text(&n)
}

/// Whether a mantissa and scale form a representable decimal.
pub fn dec_is_wf(d: &Dec) -> (r: bool)
    ensures
        r == d.wf(),
{
    d.scale <= MAX_SCALE && -MAX_MANTISSA <= d.mantissa && d.mantissa <= MAX_MANTISSA
}

/// `rust_decimal` adds two representable decimals without rounding whenever
/// they and their sum fit in 96 bits at the larger scale: what the contract of
/// `decimal_add` promises of each call, stated for all operands at once.
pub open spec fn adds_exactly() -> bool {
    forall|a: Dec, b: Dec|
        a.wf() && b.wf() && add_exact(a, b) ==> #[trigger] decimal_checked_add(a, b) is Some
            && decimal_checked_add(a, b).unwrap().wf() && decimal_checked_add(a, b).unwrap().val() == a.val()
            + b.val() && decimal_checked_add(a, b).unwrap().scale <= max_scale(a, b)
}

/// `rust_decimal` multiplies without rounding whenever the scales sum to at
/// most 28 and the product of the mantissas fits (the contract of
/// `decimal_mul`), and divides to the exact quotient whenever it is
/// representable (the contract of `decimal_div`), for all operands at once.
pub open spec fn muls_and_divs_exactly() -> bool {
    &&& forall|a: Dec, b: Dec|
        a.wf() && b.wf() && mul_exact(a, b) ==> #[trigger] decimal_checked_mul(a, b) is Some
            && decimal_checked_mul(a, b).unwrap().wf() && decimal_checked_mul(a, b).unwrap().val() * unit()
            == a.val() * b.val()
    &&& forall|a: Dec, b: Dec, q: Dec|
        a.wf() && b.wf() && b.val() != 0 && #[trigger] is_exact_quotient(a, b, q) ==> decimal_checked_div(a, b)
            is Some && decimal_checked_div(a, b).unwrap().val() == q.val()
}

/// `10^n` for `n <= 28`.
fn pow10_i128(n: u32) -> (r: i128)
    requires
        n <= 28,
    ensures
        r == pow10(n as nat),
        r > 0,
{
    let mut r: i128 = 1;
    let mut k: u32 = 0;
    while k < n
        invariant
            k <= n <= 28,
            r == pow10(k as nat),
        decreases n - k,
    {
        proof {
            lemma_pow10_monotone((k + 1) as nat, 28);
            lemma_pow10_values();
            assert(pow10((k + 1) as nat) == 10 * pow10(k as nat));
        }
        r = r * 10;
        k = k + 1;
    }
    proof {
        lemma_pow10_positive(n as nat);
    }
    r
}

/// The mantissa of a decimal with at most six places, written at scale 6.
pub fn mantissa_at6(d: &Dec) -> (r: i128)
    requires
        d.wf(),
        d.scale <= 6,
    ensures
        r == mantissa_at(*d, 6),
        d.val() == r * pow10(22),
        -MAX_MANTISSA * 1000000 <= r <= MAX_MANTISSA * 1000000,
{
    let p = pow10_i128(6 - d.scale);
    proof {
        lemma_pow10_monotone((6 - d.scale) as nat, 6);
        lemma_pow10_values();
        lemma_val_at(*d, 6);
        assert((28 - 6) as nat == 22);
        assert(-MAX_MANTISSA * 1000000 <= d.mantissa * p <= MAX_MANTISSA * 1000000) by (nonlinear_arith)
            requires
                -MAX_MANTISSA <= d.mantissa <= MAX_MANTISSA,
                0 < p <= 1000000,
        ;
    }
    d.mantissa * p
}

/// Whether `d` has at most six places and magnitude at most `b` millionths
/// (`within(d, 6, b)`).
pub fn within6(d: &Dec, b: i128) -> (r: bool)
    requires
        b >= 0,
    ensures
        r == within(*d, 6, b as int),
{
    if !dec_is_wf(d) || d.scale > 6 {
        return false;
    }
    let m = mantissa_at6(d);
    proof {
        lemma_pow10_positive(22);
        let p = pow10(22);
        assert((abs(m as int) <= b) <==> (abs(m * p) <= b * p)) by (nonlinear_arith)
            requires
                p > 0,
        ;
        assert(abs(m * p) == abs(d.val()));
    }
    -b <= m && m <= b
}

/// Whether `m * p` fits in 96 bits, for `p > 0`, without computing it.
fn product_fits96(m: i128, p: i128) -> (r: bool)
    requires
        p > 0,
        fits96(m as int),
    ensures
        r == fits96(m * p),
{
    let q = MAX_MANTISSA / p;
    proof {
        vstd::arithmetic::div_mod::lemma_fundamental_div_mod(MAX_MANTISSA as int, p as int);
        let rr = MAX_MANTISSA % p;
        assert(0 <= rr < p);
        assert(MAX_MANTISSA == p * q + rr);
        assert((m <= q && -q <= m) <==> fits96(m * p)) by (nonlinear_arith)
            requires
                p > 0,
                MAX_MANTISSA == p * q + rr,
                0 <= rr < p,
                q >= 0,
        ;
    }
    -q <= m && m <= q
}

/// Whether `rust_decimal` adds these two without rounding (`add_exact`).
pub fn add_is_exact(a: &Dec, b: &Dec) -> (r: bool)
    requires
        a.wf(),
        b.wf(),
    ensures
        r == add_exact(*a, *b),
{
    let s = if a.scale >= b.scale {
        a.scale
    } else {
        b.scale
    };
    let pa = pow10_i128(s - a.scale);
    let pb = pow10_i128(s - b.scale);
    if !product_fits96(a.mantissa, pa) || !product_fits96(b.mantissa, pb) {
        return false;
    }
    let x = a.mantissa * pa;
    let y = b.mantissa * pb;
    let z = x + y;
    -MAX_MANTISSA <= z && z <= MAX_MANTISSA
}

/// The decimal zero.
pub fn dec_zero() -> (r: Dec)
    ensures
        r == zero_dec(),
        r.wf(),
        r.val() == 0,
{
    Dec { mantissa: 0, scale: 0 }
}

/// One hundred, the divisor that turns a percentage into a fraction.
pub fn dec_hundred() -> (r: Dec)
    ensures
        r == hundred_dec(),
        r.wf(),
        r.val() == 100 * unit(),
{
    Dec { mantissa: 100, scale: 0 }
}

/// Whether the value is zero (`Decimal::is_zero`: the mantissa is zero).
pub fn dec_is_zero(d: &Dec) -> (r: bool)
    ensures
        r == (d.val() == 0),
{
    proof {
        lemma_pow10_positive((28 - d.scale) as nat);
        if d.mantissa != 0 {
            assert(d.mantissa * pow10((28 - d.scale) as nat) != 0) by (nonlinear_arith)
                requires
                    d.mantissa != 0,
                    pow10((28 - d.scale) as nat) > 0,
            ;
        }
    }
    d.mantissa == 0
}

/// The negated value (`-d`): same scale, negated mantissa.
pub fn dec_neg(d: &Dec) -> (r: Dec)
    requires
        d.wf(),
    ensures
        r.wf(),
        r.scale == d.scale,
        r.mantissa == -d.mantissa,
        r.val() == -d.val(),
{
    proof {
        assert((-d.mantissa) * pow10((28 - d.scale) as nat) == -(d.mantissa * pow10(
            (28 - d.scale) as nat,
        ))) by (nonlinear_arith);
    }
    Dec { mantissa: -d.mantissa, scale: d.scale }
}

/// `rust_decimal::Decimal::checked_add`.
///
/// Claimed: the result is what the crate computes for these two values
/// (`decimal_checked_add`), it is representable, and when both operands and
/// their sum fit in 96 bits at the larger scale the sum is exact, at a scale
/// no larger than the larger operand scale.  When the sum needs more digits
/// the crate rounds; that rounded value is left unsaid.
#[verifier::external_body]
pub(crate) fn decimal_add(a: &Dec, b: &Dec) -> (r: Option<Dec>)
    requires
        a.wf(),
        b.wf(),
    ensures
        r == decimal_checked_add(*a, *b),
        r matches Some(x) ==> x.wf(),
        add_exact(*a, *b) ==> r is Some && r.unwrap().val() == a.val() + b.val()
            && r.unwrap().scale <= max_scale(*a, *b),
{
    let x = Decimal::from_i128_with_scale(a.mantissa, a.scale);
    let y = Decimal::from_i128_with_scale(b.mantissa, b.scale);
    x.checked_add(y).map(|d| Dec { mantissa: d.mantissa(), scale: d.scale() })
}

/// `rust_decimal::Decimal::checked_sub`; as `decimal_add`, for `a - b`.
#[verifier::external_body]
pub(crate) fn decimal_sub(a: &Dec, b: &Dec) -> (r: Option<Dec>)
    requires
        a.wf(),
        b.wf(),
    ensures
        r == decimal_checked_sub(*a, *b),
        r matches Some(x) ==> x.wf(),
        sub_exact(*a, *b) ==> r is Some && r.unwrap().val() == a.val() - b.val()
            && r.unwrap().scale <= max_scale(*a, *b),
{
    let x = Decimal::from_i128_with_scale(a.mantissa, a.scale);
    let y = Decimal::from_i128_with_scale(b.mantissa, b.scale);
    x.checked_sub(y).map(|d| Dec { mantissa: d.mantissa(), scale: d.scale() })
}

/// `rust_decimal::Decimal::checked_mul`.
///
/// Claimed: the result is what the crate computes (`decimal_checked_mul`),
/// it is representable, and when the scales sum to at most 28 and the product
/// of the mantissas fits in 96 bits the product is exact, at a scale no larger
/// than the summed scales.  Rounded products are left unsaid.
#[verifier::external_body]
pub(crate) fn decimal_mul(a: &Dec, b: &Dec) -> (r: Option<Dec>)
    requires
        a.wf(),
        b.wf(),
    ensures
        r == decimal_checked_mul(*a, *b),
        r matches Some(x) ==> x.wf(),
        mul_exact(*a, *b) ==> r is Some && r.unwrap().val() * unit() == a.val() * b.val()
            && r.unwrap().scale <= a.scale + b.scale,
{
    let x = Decimal::from_i128_with_scale(a.mantissa, a.scale);
    let y = Decimal::from_i128_with_scale(b.mantissa, b.scale);
    x.checked_mul(y).map(|d| Dec { mantissa: d.mantissa(), scale: d.scale() })
}

/// `rust_decimal::Decimal::checked_div`.
///
/// Claimed: the result is what the crate computes (`decimal_checked_div`),
/// division by zero gives `None`, and when the exact quotient `q` is itself
/// representable the result has its value.  Of the result's scale only one
/// case is claimed: dividing by one hundred (mantissa 100, scale 0) a value
/// with at most 26 places gives a scale at most two above the dividend's.
/// There the crate scales the quotient up by at most `10^9` and then strips
/// the added zeros again (`div_remainder_32`, then `unscale`).  Other scales
/// and inexact quotients are left unsaid.
#[verifier::external_body]
pub(crate) fn decimal_div(a: &Dec, b: &Dec) -> (r: Option<Dec>)
    requires
        a.wf(),
        b.wf(),
    ensures
        r == decimal_checked_div(*a, *b),
        r matches Some(x) ==> x.wf(),
        b.val() == 0 ==> r is None,
        forall|q: Dec|
            #![trigger is_exact_quotient(*a, *b, q)]
            b.val() != 0 && is_exact_quotient(*a, *b, q) ==> r is Some && r.unwrap().val()
                == q.val(),
        *b == hundred_dec() && a.scale <= 26 ==> r is Some && r.unwrap().val() * 100 == a.val()
            && r.unwrap().scale <= a.scale + 2,
{
    let x = Decimal::from_i128_with_scale(a.mantissa, a.scale);
    let y = Decimal::from_i128_with_scale(b.mantissa, b.scale);
    x.checked_div(y).map(|d| Dec { mantissa: d.mantissa(), scale: d.scale() })
}

/// `Decimal < Decimal`: compares the values.
#[verifier::external_body]
pub(crate) fn decimal_lt(a: &Dec, b: &Dec) -> (r: bool)
    requires
        a.wf(),
        b.wf(),
    ensures
        r == (a.val() < b.val()),
{
    Decimal::from_i128_with_scale(a.mantissa, a.scale) < Decimal::from_i128_with_scale(
        b.mantissa,
        b.scale,
    )
}

/// `Decimal == Decimal`: compares the values (not the scales).
#[verifier::external_body]
pub(crate) fn decimal_eq(a: &Dec, b: &Dec) -> (r: bool)
    requires
        a.wf(),
        b.wf(),
    ensures
        r == (a.val() == b.val()),
{
    Decimal::from_i128_with_scale(a.mantissa, a.scale) == Decimal::from_i128_with_scale(
        b.mantissa,
        b.scale,
    )
}

/// `Decimal::normalize`: strips every trailing zero of the mantissa (zero
/// becomes `0` at scale 0).
///
/// Claimed: the result is `normalized(a)`, the representation of the same
/// value with no trailing zeros, as the crate's `normalize_assign` computes it.
#[verifier::external_body]
pub(crate) fn decimal_normalize(a: &Dec) -> (r: Dec)
    requires
        a.wf(),
    ensures
        r == normalized(*a),
{
    let d = Decimal::from_i128_with_scale(a.mantissa, a.scale).normalize();
    Dec { mantissa: d.mantissa(), scale: d.scale() }
}

/// The digits of a decimal's mantissa (none for zero), padded with leading
/// zeros to at least `scale` digits.
pub open spec fn padded_digits(d: Dec) -> Seq<char> {
    let raw = if d.mantissa == 0 {
        Seq::<char>::empty()
    } else {
        crate::text::nat_digits(abs(d.mantissa as int) as nat)
    };
    if raw.len() < d.scale {
        Seq::new((d.scale - raw.len()) as nat, |i: int| '0') + raw
    } else {
        raw
    }
}

/// What `rust_decimal`'s `Display` writes for a decimal: a minus sign for a
/// negative mantissa, then the padded digits with a point `scale` places
/// from the right (a `0` before the point when no digit is left there, and
/// no point at scale 0); `0` when there are no digits at all.
pub open spec fn decimal_text(d: Dec) -> Seq<char> {
    let ds = padded_digits(d);
    let whole = ds.len() - d.scale;
    let body = if ds.len() == 0 {
        seq!['0']
    } else if d.scale == 0 {
        ds
    } else {
        (if whole == 0 {
            seq!['0']
        } else {
            ds.take(whole)
        }) + seq!['.'] + ds.skip(whole)
    };
    (if d.mantissa < 0 {
        seq!['-']
    } else {
        Seq::<char>::empty()
    }) + body
}

/// `Decimal`'s `to_string`.
///
/// Claimed: the text is `decimal_text` of the value's mantissa and scale,
/// as the crate's `to_str_internal` writes it with no precision given.
#[verifier::external_body]
pub(crate) fn decimal_to_text(d: &Dec) -> (r: String)
    requires
        d.wf(),
    ensures
        r@ == decimal_text(*d),
{
    Decimal::from_i128_with_scale(d.mantissa, d.scale).to_string()
}

/// `<Decimal as FromStr>::from_str`, with the error turned into `None`.
///
/// Claimed: the result is what the crate parses from the text
/// (`decimal_parse`) and is representable.  The decimal grammar itself is
/// left to the crate.
#[verifier::external_body]
pub(crate) fn decimal_from_str(s: &str) -> (r: Option<Dec>)
    ensures
        r == decimal_parse(s@),
        r matches Some(x) ==> x.wf(),
{
    <Decimal as core::str::FromStr>::from_str(s).ok().map(
        |d| Dec { mantissa: d.mantissa(), scale: d.scale() },
    )
}

} // verus!
