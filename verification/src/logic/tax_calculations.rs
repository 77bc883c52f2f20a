//! Tax arithmetic for invoice lines and payments.
//!
//! A tax is either levied (added on top of the untaxed amount and owed to the
//! tax authority) or withholding (kept back by the customer and booked to its
//! own ledger account).  Amounts are `base * percentage / 100`, computed with
//! `rust_decimal`; an operation that leaves Decimal's range makes the whole
//! computation `None`.
//!
//! Besides the exact contracts (over the named `rust_decimal` results), the
//! functions state what holds of the values whenever the inputs are bounded
//! like the database columns they come from (`amount_ok`, `pcts_ok`): then no
//! operation rounds and the results are the exact rational values.
use crate::decimal::{
    abs, decimal_add, decimal_checked_add, decimal_checked_div, decimal_checked_mul,
    decimal_checked_sub, decimal_div, decimal_mul, decimal_sub, dec_hundred, dec_is_zero,
    dec_zero, hundred_dec, hundredth, lemma_add_exact_within, lemma_hundredth_exact,
    lemma_mul_exact_by_value, lemma_mul_exact_within, lemma_pow10_positive, lemma_pow10_values,
    lemma_within_hundredth, lemma_within_product, lemma_within_ratio, lemma_within_sum,
    lemma_within_widen, is_exact_quotient, mantissa_at6, mul_exact, muls_and_divs_exactly, pow10, unit, within, within6, zero_dec, Dec,
    MAX_MANTISSA,
};
use crate::text::{hash_id, hash_id_text, is_blank, trim};
use std::collections::HashSet;
use vstd::prelude::*;

verus! {

broadcast use vstd::std_specs::hash::group_hash_axioms;

/// Whether a tax is added to the invoice or withheld at collection.
#[derive(Clone, Copy, Debug, PartialEq, Eq, Structural)]
pub enum TaxKind {
    Levied,
    Withholding,
}

/// A configured tax, as the invoice logic reads it.
#[derive(Debug)]
pub struct Tax {
    pub id: i64,
    pub name: String,
    pub percentage: Dec,
    pub tax_type: TaxKind,
    pub account_id: Option<i64>,
}

impl Tax {
    /// A field-for-field copy.
    pub fn duplicate(&self) -> (r: Tax)
        ensures
            r == *self,
    {
        Tax {
            id: self.id,
            name: self.name.clone(),
            percentage: self.percentage,
            tax_type: self.tax_type,
            account_id: self.account_id,
        }
    }
}

/// Largest magnitude of a stored amount, in millionths (`numeric(19,6)`).
pub open spec fn amount_bound() -> int {
    10000000000000000000
}

/// Largest magnitude of a percentage, in millionths (1000%).
pub open spec fn pct_bound() -> int {
    1000000000
}

/// An amount as the database stores it: at most six decimal places and
/// thirteen integer digits.
pub open spec fn amount_ok(d: Dec) -> bool {
    within(d, 6, amount_bound())
}

pub open spec fn is_withholding(t: Tax) -> bool {
    t.tax_type == TaxKind::Withholding
}

/// The taxes of one kind (`withholding` or not), in their original order.
pub open spec fn select_kind(s: Seq<Tax>, withholding: bool) -> Seq<Tax>
    decreases s.len(),
{
    if s.len() == 0 {
        Seq::<Tax>::empty()
    } else {
        let prev = select_kind(s.drop_last(), withholding);
        if is_withholding(s.last()) == withholding {
            prev.push(s.last())
        } else {
            prev
        }
    }
}

/// Every percentage is a representable decimal.
pub open spec fn taxes_wf(s: Seq<Tax>) -> bool {
    forall|i: int| 0 <= i < s.len() ==> (#[trigger] s[i]).percentage.wf()
}

/// The sum of the percentages, added left to right from zero.
pub open spec fn pct_sum(s: Seq<Tax>) -> Option<Dec>
    decreases s.len(),
{
    if s.len() == 0 {
        Some(zero_dec())
    } else {
        match pct_sum(s.drop_last()) {
            Some(acc) => decimal_checked_add(acc, s.last().percentage),
            None => None,
        }
    }
}

/// The exact sum of the percentages' values.
pub open spec fn pct_total(s: Seq<Tax>) -> int
    decreases s.len(),
{
    if s.len() == 0 {
        0
    } else {
        pct_total(s.drop_last()) + s.last().percentage.val()
    }
}

/// The sum of the percentages' magnitudes.
pub open spec fn pct_magnitude(s: Seq<Tax>) -> int
    decreases s.len(),
{
    if s.len() == 0 {
        0
    } else {
        pct_magnitude(s.drop_last()) + abs(s.last().percentage.val())
    }
}

/// Percentages as the database stores them, together at most 1000%.
pub open spec fn pcts_ok(s: Seq<Tax>) -> bool {
    &&& forall|i: int| 0 <= i < s.len() ==> within(#[trigger] s[i].percentage, 6, pct_bound())
    &&& pct_magnitude(s) <= pct_bound() * pow10(22)
}

/// Whether percentages are stored percentages of at most 1000% together
/// (`pcts_ok`).
pub fn pcts_ok_check(taxes: &Vec<Tax>) -> (r: bool)
    ensures
        r == pcts_ok(taxes@),
{
    let mut mag: i128 = 0;
    let mut i: usize = 0;
    proof {
        assert(taxes@.take(0) =~= Seq::<Tax>::empty());
        lemma_pow10_positive(22);
    }
    while i < taxes.len()
        invariant
            i <= taxes.len(),
            forall|k: int| 0 <= k < i ==> within(#[trigger] taxes@[k].percentage, 6, pct_bound()),
            pct_magnitude(taxes@.take(i as int)) == mag * pow10(22),
            0 <= mag <= 1000000000,
            pow10(22) > 0,
        decreases taxes.len() - i,
    {
        if !within6(&taxes[i].percentage, 1000000000) {
            return false;
        }
        let m = mantissa_at6(&taxes[i].percentage);
        let a = if m < 0 {
            -m
        } else {
            m
        };
        proof {
            assert(taxes@.take(i + 1).drop_last() =~= taxes@.take(i as int));
            assert(taxes@.take(i + 1).last() == taxes@[i as int]);
            assert(abs(taxes@[i as int].percentage.val()) == a * pow10(22)) by (nonlinear_arith)
                requires
                    taxes@[i as int].percentage.val() == m * pow10(22),
                    a == abs(m as int),
                    pow10(22) > 0,
            ;
            assert(a <= 1000000000) by (nonlinear_arith)
                requires
                    a * pow10(22) <= 1000000000 * pow10(22),
                    pow10(22) > 0,
            ;
            assert(pct_magnitude(taxes@.take(i + 1)) == (mag + a) * pow10(22)) by (nonlinear_arith)
                requires
                    pct_magnitude(taxes@.take(i + 1)) == mag * pow10(22) + a * pow10(22),
            ;
        }
        mag = mag + a;
        if mag > 1000000000 {
            proof {
                lemma_pct_magnitude_growth(taxes@, i + 1);
                assert(mag * pow10(22) > 1000000000 * pow10(22)) by (nonlinear_arith)
                    requires
                        mag > 1000000000,
                        pow10(22) > 0,
                ;
            }
            return false;
        }
        i = i + 1;
    }
    proof {
        assert(taxes@.take(i as int) =~= taxes@);
        assert(mag * pow10(22) <= 1000000000 * pow10(22)) by (nonlinear_arith)
            requires
                mag <= 1000000000,
                pow10(22) > 0,
        ;
    }
    true
}

/// `base * pct / 100`: zero when either is zero, else `pct / 100` and then
/// the product.
pub open spec fn tax_amount(base: Dec, pct: Dec) -> Option<Dec> {
    if base.val() == 0 || pct.val() == 0 {
        Some(zero_dec())
    } else {
        match decimal_checked_div(pct, hundred_dec()) {
            Some(q) => decimal_checked_mul(base, q),
            None => None,
        }
    }
}

/// The taxes that are not withholding taxes.
pub fn taxes_levied(taxes: &Vec<Tax>) -> (r: Vec<Tax>)
    ensures
        r@ == select_kind(taxes@, false),
{
    select_taxes(taxes, false)
}

/// The withholding taxes.
pub fn taxes_withholding(taxes: &Vec<Tax>) -> (r: Vec<Tax>)
    ensures
        r@ == select_kind(taxes@, true),
{
    select_taxes(taxes, true)
}

fn select_taxes(taxes: &Vec<Tax>, withholding: bool) -> (r: Vec<Tax>)
    ensures
        r@ == select_kind(taxes@, withholding),
{
    let mut out: Vec<Tax> = Vec::new();
    let mut i: usize = 0;
    while i < taxes.len()
        invariant
            i <= taxes.len(),
            out@ == select_kind(taxes@.take(i as int), withholding),
        decreases taxes.len() - i,
    {
        proof {
            assert(taxes@.take(i + 1).drop_last() =~= taxes@.take(i as int));
        }
        let t = &taxes[i];
        let w = match t.tax_type {
            TaxKind::Withholding => true,
            TaxKind::Levied => false,
        };
        if w == withholding {
            out.push(t.duplicate());
        }
        i = i + 1;
    }
    proof {
        assert(taxes@.take(i as int) =~= taxes@);
    }
    out
}

/// A selection keeps exactly the taxes of its kind, so it inherits every
/// property that holds of all the taxes.
pub proof fn lemma_select_kind_subset(s: Seq<Tax>, withholding: bool)
    ensures
        forall|i: int|
            0 <= i < select_kind(s, withholding).len() ==> exists|j: int|
                0 <= j < s.len() && s[j] == #[trigger] select_kind(s, withholding)[i],
        forall|i: int|
            0 <= i < select_kind(s, withholding).len() ==> is_withholding(
                #[trigger] select_kind(s, withholding)[i],
            ) == withholding,
        pct_magnitude(select_kind(s, withholding)) <= pct_magnitude(s),
    decreases s.len(),
{
    if s.len() > 0 {
        lemma_select_kind_subset(s.drop_last(), withholding);
        let prev = select_kind(s.drop_last(), withholding);
        let cur = select_kind(s, withholding);
        assert forall|i: int| 0 <= i < cur.len() implies exists|j: int|
            0 <= j < s.len() && s[j] == #[trigger] cur[i] by {
            if i < prev.len() {
                assert(cur[i] == prev[i]);
                let j = choose|j: int| 0 <= j < s.drop_last().len() && s.drop_last()[j] == prev[i];
                assert(s[j] == cur[i]);
            } else {
                assert(s[s.len() - 1] == cur[i]);
            }
        }
        assert forall|i: int| 0 <= i < cur.len() implies is_withholding(#[trigger] cur[i])
            == withholding by {
            if i < prev.len() {
                assert(cur[i] == prev[i]);
            }
        }
        if is_withholding(s.last()) == withholding {
            assert(cur.drop_last() =~= prev);
        }
    }
}

/// The selections of both kinds share out the taxes between them.
pub proof fn lemma_select_kind_partition(s: Seq<Tax>)
    ensures
        select_kind(s, false).len() + select_kind(s, true).len() == s.len(),
        pct_total(select_kind(s, false)) + pct_total(select_kind(s, true)) == pct_total(s),
    decreases s.len(),
{
    if s.len() > 0 {
        lemma_select_kind_partition(s.drop_last());
        let l = select_kind(s, false);
        let w = select_kind(s, true);
        if is_withholding(s.last()) {
            assert(w.drop_last() =~= select_kind(s.drop_last(), true));
        } else {
            assert(l.drop_last() =~= select_kind(s.drop_last(), false));
        }
    }
}

pub proof fn lemma_pcts_ok_select(s: Seq<Tax>, withholding: bool)
    requires
        pcts_ok(s),
    ensures
        pcts_ok(select_kind(s, withholding)),
{
    lemma_select_kind_subset(s, withholding);
    let t = select_kind(s, withholding);
    assert forall|i: int| 0 <= i < t.len() implies within(#[trigger] t[i].percentage, 6, pct_bound()) by {
        let j = choose|j: int| 0 <= j < s.len() && s[j] == t[i];
        assert(within(s[j].percentage, 6, pct_bound()));
    }
}

pub proof fn lemma_pct_magnitude_bounds(s: Seq<Tax>)
    ensures
        abs(pct_total(s)) <= pct_magnitude(s),
        pct_magnitude(s) >= 0,
    decreases s.len(),
{
    if s.len() > 0 {
        lemma_pct_magnitude_bounds(s.drop_last());
    }
}

/// The sum of the percentages, as `iter().map(|t| t.percentage).sum()`.
///
/// Bounded percentages add up exactly, to at most 1000%.
pub fn sum_tax_percents(taxes: &Vec<Tax>) -> (r: Option<Dec>)
    requires
        taxes_wf(taxes@),
    ensures
        r == pct_sum(taxes@),
        r matches Some(x) ==> x.wf(),
        pcts_ok(taxes@) ==> r is Some && r.unwrap().val() == pct_total(taxes@) && within(
            r.unwrap(),
            6,
            pct_bound(),
        ),
{
    let mut acc = dec_zero();
    let mut i: usize = 0;
    proof {
        lemma_pow10_positive(22);
        lemma_pct_magnitude_bounds(taxes@);
        assert(taxes@.take(0) =~= Seq::<Tax>::empty());
        assert(pct_bound() * pow10(22) >= 0) by (nonlinear_arith)
            requires
                pow10(22) > 0,
        ;
    }
    while i < taxes.len()
        invariant
            i <= taxes.len(),
            taxes_wf(taxes@),
            acc.wf(),
            Some(acc) == pct_sum(taxes@.take(i as int)),
            pcts_ok(taxes@) ==> acc.val() == pct_total(taxes@.take(i as int)) && within(
                acc,
                6,
                pct_bound(),
            ) && pct_magnitude(taxes@.take(i as int)) <= pct_magnitude(taxes@),
        decreases taxes.len() - i,
    {
        let ghost pre = taxes@.take(i as int);
        proof {
            assert(taxes@.take(i + 1).drop_last() =~= pre);
            assert(taxes@.take(i + 1).last() == taxes@[i as int]);
            assert(taxes@[i as int].percentage.wf());
            if pcts_ok(taxes@) {
                let p = taxes@[i as int].percentage;
                assert(within(p, 6, pct_bound()));
                lemma_add_exact_within(acc, p, 6, pct_bound(), pct_bound());
            }
        }
        let next = decimal_add(&acc, &taxes[i].percentage);
        match next {
            Some(x) => {
                proof {
                    if pcts_ok(taxes@) {
                        let p = taxes@[i as int].percentage;
                        let post = taxes@.take(i + 1);
                        lemma_pct_magnitude_bounds(post);
                        lemma_pct_magnitude_growth(taxes@, i + 1);
                        assert(abs(x.val()) <= pct_bound() * pow10(22));
                    }
                }
                acc = x;
            },
            None => {
                proof {
                    lemma_pct_sum_none_stays(taxes@, i + 1);
                }
                return None;
            },
        }
        i = i + 1;
    }
    proof {
        assert(taxes@.take(i as int) =~= taxes@);
    }
    Some(acc)
}

pub proof fn lemma_pct_magnitude_growth(s: Seq<Tax>, k: int)
    requires
        0 <= k <= s.len(),
    ensures
        pct_magnitude(s.take(k)) <= pct_magnitude(s),
    decreases s.len() - k,
{
    if k < s.len() {
        lemma_pct_magnitude_growth(s, k + 1);
        assert(s.take(k + 1).drop_last() =~= s.take(k));
    } else {
        assert(s.take(k) =~= s);
    }
}

/// Once a partial sum leaves Decimal's range the whole sum does.
proof fn lemma_pct_sum_none_stays(s: Seq<Tax>, k: int)
    requires
        0 <= k <= s.len(),
        pct_sum(s.take(k)) is None,
    ensures
        pct_sum(s) is None,
    decreases s.len() - k,
{
    if k < s.len() {
        assert(s.take(k + 1).drop_last() =~= s.take(k));
        lemma_pct_sum_none_stays(s, k + 1);
    } else {
        assert(s.take(k) =~= s);
    }
}

/// The conditions under which `tax_amount(base, pct)` is computed without
/// rounding: the base has at most `s <= 20` places and magnitude `b` at that
/// scale, the percentage is a stored percentage of at most 1000%, and the
/// product of the bounds fits in 96 bits.
pub open spec fn tax_inputs_ok(base: Dec, pct: Dec, s: nat, b: int) -> bool {
    &&& within(base, s, b)
    &&& s <= 20
    &&& b >= 0
    &&& b * pct_bound() <= MAX_MANTISSA
    &&& within(pct, 6, pct_bound())
}

/// `base * pct_sum / 100` (zero when either is zero).
///
/// Whenever the inputs are bounded (`tax_inputs_ok`) the result is exact:
/// `result * 100 == base * pct`, with at most eight more places than the base.
pub fn tax_amount_on_base(base: &Dec, pct_sum: &Dec) -> (r: Option<Dec>)
    requires
        base.wf(),
        pct_sum.wf(),
    ensures
        r == tax_amount(*base, *pct_sum),
        r matches Some(x) ==> x.wf(),
        forall|s: nat, b: int|
            #![trigger within(*base, s, b)]
            tax_inputs_ok(*base, *pct_sum, s, b) ==> r is Some && r.unwrap().val() * unit() * 100
                == base.val() * pct_sum.val() && within(r.unwrap(), s + 8, b * pct_bound()),
{
    if dec_is_zero(base) || dec_is_zero(pct_sum) {
        let z = dec_zero();
        proof {
            assert(base.val() * pct_sum.val() == 0) by (nonlinear_arith)
                requires
                    base.val() == 0 || pct_sum.val() == 0,
            ;
            assert forall|s: nat, b: int|
                #![trigger within(*base, s, b)]
                tax_inputs_ok(*base, *pct_sum, s, b) implies within(z, s + 8, b * pct_bound()) by {
                lemma_pow10_positive((28 - (s + 8)) as nat);
                assert(b * pct_bound() * pow10((28 - (s + 8)) as nat) >= 0) by (nonlinear_arith)
                    requires
                        b >= 0,
                        pow10((28 - (s + 8)) as nat) > 0,
                ;
            }
        }
        return Some(z);
    }
    let hundred = dec_hundred();
    proof {
        lemma_pow10_positive(28);
        assert(hundred.val() != 0);
        if within(*pct_sum, 6, pct_bound()) {
            lemma_hundredth_exact(*pct_sum);
        }
    }
    let q = decimal_div(pct_sum, &hundred);
    match q {
        Some(q) => {
            let prod = decimal_mul(base, &q);
            proof {
                assert forall|s: nat, b: int|
                    #![trigger within(*base, s, b)]
                    tax_inputs_ok(*base, *pct_sum, s, b) implies prod is Some
                        && prod.unwrap().val() * unit() * 100 == base.val() * pct_sum.val()
                        && within(prod.unwrap(), s + 8, b * pct_bound()) by {
                    assert(hundredth(*pct_sum).val() * 100 == pct_sum.val());
                    lemma_within_hundredth(*pct_sum, q, 6, pct_bound());
                    lemma_mul_exact_within(*base, q, s, b, 8, pct_bound());
                    let x = prod.unwrap();
                    lemma_within_product(x, *base, q, s, b, 8, pct_bound());
                    assert(x.val() * unit() * 100 == base.val() * pct_sum.val()) by (
                    nonlinear_arith)
                        requires
                            x.val() * unit() == base.val() * q.val(),
                            q.val() * 100 == pct_sum.val(),
                    ;
                }
            }
            prod
        },
        None => None,
    }
}

/// The amount of one tax on `base`; exact under the same bounds.
pub fn tax_amount_for_tax(base: &Dec, tax: &Tax) -> (r: Option<Dec>)
    requires
        base.wf(),
        tax.percentage.wf(),
    ensures
        r == tax_amount(*base, tax.percentage),
        r matches Some(x) ==> x.wf(),
        forall|s: nat, b: int|
            #![trigger within(*base, s, b)]
            tax_inputs_ok(*base, tax.percentage, s, b) ==> r is Some && r.unwrap().val() * unit()
                * 100 == base.val() * tax.percentage.val() && within(
                r.unwrap(),
                s + 8,
                b * pct_bound(),
            ),
{
    tax_amount_on_base(base, &tax.percentage)
}

pub proof fn lemma_taxes_wf_select(s: Seq<Tax>, withholding: bool)
    requires
        taxes_wf(s),
    ensures
        taxes_wf(select_kind(s, withholding)),
{
    lemma_select_kind_subset(s, withholding);
    let t = select_kind(s, withholding);
    assert forall|i: int| 0 <= i < t.len() implies (#[trigger] t[i]).percentage.wf() by {
        let j = choose|j: int| 0 <= j < s.len() && s[j] == t[i];
        assert(s[j].percentage.wf());
    }
}

/// Largest magnitude of a line's untaxed amount, in units of `10^-12`
/// (ten million).
pub open spec fn line_bound() -> int {
    10000000000000000000
}

/// A line whose quantity and rate have at most six places, whose untaxed
/// amount is within `line_bound`, and whose taxes are stored percentages of
/// at most 1000% together.
pub open spec fn line_ok(qty: Dec, rate: Dec, taxes: Seq<Tax>) -> bool {
    &&& qty.wf()
    &&& rate.wf()
    &&& qty.scale <= 6
    &&& rate.scale <= 6
    &&& abs(qty.val() * rate.val()) <= line_bound() * pow10(44)
    &&& pcts_ok(taxes)
}

/// Untaxed amount, levied tax, withholding and net amount of one line.
pub open spec fn line_breakdown(qty: Dec, rate: Dec, taxes: Seq<Tax>) -> Option<(Dec, Dec, Dec, Dec)> {
    match decimal_checked_mul(qty, rate) {
        None => None,
        Some(u) => match pct_sum(select_kind(taxes, false)) {
            None => None,
            Some(lp) => match tax_amount(u, lp) {
                None => None,
                Some(l) => match pct_sum(select_kind(taxes, true)) {
                    None => None,
                    Some(wp) => match tax_amount(u, wp) {
                        None => None,
                        Some(w) => match decimal_checked_add(u, l) {
                            None => None,
                            Some(g) => match decimal_checked_sub(g, w) {
                                None => None,
                                Some(n) => Some((u, l, w, n)),
                            },
                        },
                    },
                },
            },
        },
    }
}

/// The values a bounded line's breakdown has.
pub open spec fn breakdown_exact(
    qty: Dec,
    rate: Dec,
    taxes: Seq<Tax>,
    parts: (Dec, Dec, Dec, Dec),
) -> bool {
    let (u, l, w, n) = parts;
    &&& u.val() * unit() == qty.val() * rate.val()
    &&& l.val() * unit() * 100 == u.val() * pct_total(select_kind(taxes, false))
    &&& w.val() * unit() * 100 == u.val() * pct_total(select_kind(taxes, true))
    &&& n.val() == u.val() + l.val() - w.val()
    &&& within(u, 12, line_bound())
    &&& within(l, 20, line_bound() * pct_bound())
    &&& within(w, 20, line_bound() * pct_bound())
}

/// `(untaxed, levied, withholding, net)` of a line: `untaxed = qty * rate`,
/// the levied and withholding amounts are the untaxed amount times the summed
/// percentages of each kind over 100, and `net = untaxed + levied - withholding`.
pub fn invoice_line_amount_breakdown(qty: &Dec, rate: &Dec, taxes: &Vec<Tax>) -> (r: Option<
    (Dec, Dec, Dec, Dec),
>)
    requires
        qty.wf(),
        rate.wf(),
        taxes_wf(taxes@),
    ensures
        r == line_breakdown(*qty, *rate, taxes@),
        r matches Some(x) ==> x.0.wf() && x.1.wf() && x.2.wf() && x.3.wf(),
        line_ok(*qty, *rate, taxes@) ==> r is Some && breakdown_exact(
            *qty,
            *rate,
            taxes@,
            r.unwrap(),
        ),
{
    proof {
        if line_ok(*qty, *rate, taxes@) {
            lemma_mul_exact_by_value(*qty, *rate, line_bound());
            lemma_pcts_ok_select(taxes@, false);
            lemma_pcts_ok_select(taxes@, true);
        }
        lemma_taxes_wf_select(taxes@, false);
        lemma_taxes_wf_select(taxes@, true);
    }
    let u = match decimal_mul(qty, rate) {
        Some(u) => u,
        None => return None,
    };
    proof {
        if line_ok(*qty, *rate, taxes@) {
            assert(within(u, 12, line_bound()));
        }
    }
    let levied = taxes_levied(taxes);
    let lp = match sum_tax_percents(&levied) {
        Some(x) => x,
        None => return None,
    };
    let l = match tax_amount_on_base(&u, &lp) {
        Some(x) => x,
        None => return None,
    };
    let withholding = taxes_withholding(taxes);
    let wp = match sum_tax_percents(&withholding) {
        Some(x) => x,
        None => return None,
    };
    let w = match tax_amount_on_base(&u, &wp) {
        Some(x) => x,
        None => return None,
    };
    proof {
        lemma_pow10_values();
        if line_ok(*qty, *rate, taxes@) {
            lemma_within_widen(u, 12, line_bound(), 20, line_bound() * pow10(8));
            lemma_add_exact_within(u, l, 20, line_bound() * pow10(8), line_bound() * pct_bound());
        }
    }
    let g = match decimal_add(&u, &l) {
        Some(x) => x,
        None => return None,
    };
    proof {
        if line_ok(*qty, *rate, taxes@) {
            lemma_within_sum(g, u, l, 20, line_bound() * pow10(8), line_bound() * pct_bound());
            lemma_add_exact_within(
                g,
                w,
                20,
                line_bound() * pow10(8) + line_bound() * pct_bound(),
                line_bound() * pct_bound(),
            );
        }
    }
    let n = match decimal_sub(&g, &w) {
        Some(x) => x,
        None => return None,
    };
    Some((u, l, w, n))
}

/// Sums of a set of invoice lines.
#[derive(Clone, Copy, Debug)]
pub struct InvoiceLinesTotals {
    pub untaxed_subtotal: Dec,
    pub lines_levied: Dec,
    pub lines_withholding: Dec,
}

impl Default for InvoiceLinesTotals {
    fn default() -> (r: Self)
        ensures
            r.untaxed_subtotal == zero_dec(),
            r.lines_levied == zero_dec(),
            r.lines_withholding == zero_dec(),
    {
        InvoiceLinesTotals {
            untaxed_subtotal: dec_zero(),
            lines_levied: dec_zero(),
            lines_withholding: dec_zero(),
        }
    }
}

impl InvoiceLinesTotals {
    pub open spec fn wf(self) -> bool {
        &&& self.untaxed_subtotal.wf()
        &&& self.lines_levied.wf()
        &&& self.lines_withholding.wf()
    }

    /// Totals of lines whose untaxed amounts add up to at most `line_bound`
    /// (at twelve places) and whose taxes are bounded accordingly.
    pub open spec fn bounded(self) -> bool {
        &&& within(self.untaxed_subtotal, 12, line_bound())
        &&& within(self.lines_levied, 20, line_bound() * pct_bound())
        &&& within(self.lines_withholding, 20, line_bound() * pct_bound())
    }

    /// Untaxed subtotal plus the levied taxes of the lines.
    pub fn lines_gross_before_withholding(&self) -> (r: Option<Dec>)
        requires
            self.wf(),
        ensures
            r == decimal_checked_add(self.untaxed_subtotal, self.lines_levied),
            r matches Some(x) ==> x.wf(),
            self.bounded() ==> r is Some && r.unwrap().val() == self.untaxed_subtotal.val()
                + self.lines_levied.val() && within(
                r.unwrap(),
                20,
                line_bound() * pow10(8) + line_bound() * pct_bound(),
            ),
    {
        proof {
            lemma_pow10_values();
            if self.bounded() {
                lemma_within_widen(
                    self.untaxed_subtotal,
                    12,
                    line_bound(),
                    20,
                    line_bound() * pow10(8),
                );
                lemma_add_exact_within(
                    self.untaxed_subtotal,
                    self.lines_levied,
                    20,
                    line_bound() * pow10(8),
                    line_bound() * pct_bound(),
                );
            }
        }
        let r = decimal_add(&self.untaxed_subtotal, &self.lines_levied);
        proof {
            if self.bounded() {
                lemma_within_sum(
                    r.unwrap(),
                    self.untaxed_subtotal,
                    self.lines_levied,
                    20,
                    line_bound() * pow10(8),
                    line_bound() * pct_bound(),
                );
            }
        }
        r
    }
}

/// The non-zero tax ids among `taxes`.
pub open spec fn nonzero_ids(taxes: Seq<Tax>) -> Set<i64> {
    Set::new(|id: i64| id != 0 && exists|i: int| 0 <= i < taxes.len() && (#[trigger] taxes[i]).id == id)
}

/// Adds the non-zero ids of `taxes` to `into`.
pub fn merge_invoice_line_tax_ids(into: &mut HashSet<i64>, taxes: &Vec<Tax>)
    ensures
        final(into)@ == old(into)@.union(nonzero_ids(taxes@)),
{
    let mut i: usize = 0;
    while i < taxes.len()
        invariant
            i <= taxes.len(),
            into@ == old(into)@.union(nonzero_ids(taxes@.take(i as int))),
        decreases taxes.len() - i,
    {
        let id = taxes[i].id;
        if id != 0 {
            into.insert(id);
        }
        proof {
            let pre = taxes@.take(i as int);
            let post = taxes@.take(i + 1);
            assert forall|x: i64| nonzero_ids(post).contains(x) == (nonzero_ids(pre).contains(x) || (
            x == id && id != 0)) by {
                if nonzero_ids(post).contains(x) {
                    let k = choose|k: int| 0 <= k < post.len() && (#[trigger] post[k]).id == x;
                    if k < pre.len() {
                        assert(pre[k] == post[k]);
                    }
                }
                if nonzero_ids(pre).contains(x) {
                    let k = choose|k: int| 0 <= k < pre.len() && (#[trigger] pre[k]).id == x;
                    assert(post[k] == pre[k]);
                }
                if x == id && id != 0 {
                    assert(post[i as int].id == x);
                }
            }
            assert(into@ =~= old(into)@.union(nonzero_ids(post)));
        }
        i = i + 1;
    }
    proof {
        assert(taxes@.take(i as int) =~= taxes@);
    }
}

/// The header taxes that apply to the whole document: non-zero id and not
/// already applied on some line.
pub open spec fn header_only(s: Seq<Tax>, line_ids: Set<i64>) -> Seq<Tax>
    decreases s.len(),
{
    if s.len() == 0 {
        Seq::<Tax>::empty()
    } else {
        let prev = header_only(s.drop_last(), line_ids);
        if s.last().id != 0 && !line_ids.contains(s.last().id) {
            prev.push(s.last())
        } else {
            prev
        }
    }
}

proof fn lemma_header_only_subset(s: Seq<Tax>, ids: Set<i64>)
    ensures
        forall|i: int|
            0 <= i < header_only(s, ids).len() ==> exists|j: int|
                0 <= j < s.len() && s[j] == #[trigger] header_only(s, ids)[i],
        pct_magnitude(header_only(s, ids)) <= pct_magnitude(s),
    decreases s.len(),
{
    if s.len() > 0 {
        lemma_header_only_subset(s.drop_last(), ids);
        let prev = header_only(s.drop_last(), ids);
        let cur = header_only(s, ids);
        assert forall|i: int| 0 <= i < cur.len() implies exists|j: int|
            0 <= j < s.len() && s[j] == #[trigger] cur[i] by {
            if i < prev.len() {
                assert(cur[i] == prev[i]);
                let j = choose|j: int| 0 <= j < s.drop_last().len() && s.drop_last()[j] == prev[i];
                assert(s[j] == cur[i]);
            } else {
                assert(s[s.len() - 1] == cur[i]);
            }
        }
        if s.last().id != 0 && !ids.contains(s.last().id) {
            assert(cur.drop_last() =~= prev);
        }
    }
}

pub proof fn lemma_pcts_ok_header_only(s: Seq<Tax>, ids: Set<i64>)
    requires
        pcts_ok(s),
    ensures
        pcts_ok(header_only(s, ids)),
{
    lemma_header_only_subset(s, ids);
    let t = header_only(s, ids);
    assert forall|i: int| 0 <= i < t.len() implies within(#[trigger] t[i].percentage, 6, pct_bound()) by {
        let j = choose|j: int| 0 <= j < s.len() && s[j] == t[i];
        assert(within(s[j].percentage, 6, pct_bound()));
    }
}

pub proof fn lemma_taxes_wf_header_only(s: Seq<Tax>, ids: Set<i64>)
    requires
        taxes_wf(s),
    ensures
        taxes_wf(header_only(s, ids)),
{
    lemma_header_only_subset(s, ids);
    let t = header_only(s, ids);
    assert forall|i: int| 0 <= i < t.len() implies (#[trigger] t[i]).percentage.wf() by {
        let j = choose|j: int| 0 <= j < s.len() && s[j] == t[i];
        assert(s[j].percentage.wf());
    }
}

/// The header taxes with a non-zero id that no line already carries.
pub fn document_level_header_taxes(header: &Vec<Tax>, line_tax_ids: &HashSet<i64>) -> (r: Vec<Tax>)
    ensures
        r@ == header_only(header@, line_tax_ids@),
{
    let mut out: Vec<Tax> = Vec::new();
    let mut i: usize = 0;
    while i < header.len()
        invariant
            i <= header.len(),
            out@ == header_only(header@.take(i as int), line_tax_ids@),
        decreases header.len() - i,
    {
        proof {
            assert(header@.take(i + 1).drop_last() =~= header@.take(i as int));
        }
        let t = &header[i];
        if t.id != 0 && !line_tax_ids.contains(&t.id) {
            out.push(t.duplicate());
        }
        i = i + 1;
    }
    proof {
        assert(header@.take(i as int) =~= header@);
    }
    out
}

/// Levied and withholding amounts of `taxes` on `base`, each kind summed
/// left to right from zero.
pub open spec fn split_sums(base: Dec, s: Seq<Tax>) -> Option<(Dec, Dec)>
    decreases s.len(),
{
    if s.len() == 0 {
        Some((zero_dec(), zero_dec()))
    } else {
        match split_sums(base, s.drop_last()) {
            None => None,
            Some((l, w)) => match tax_amount(base, s.last().percentage) {
                None => None,
                Some(a) => if is_withholding(s.last()) {
                    match decimal_checked_add(w, a) {
                        Some(w2) => Some((l, w2)),
                        None => None,
                    }
                } else {
                    match decimal_checked_add(l, a) {
                        Some(l2) => Some((l2, w)),
                        None => None,
                    }
                },
            },
        }
    }
}

/// The document-level header taxes on the untaxed subtotal, split into
/// (levied, withholding).
pub open spec fn header_split(untaxed: Dec, header: Seq<Tax>, line_ids: Set<i64>) -> Option<
    (Dec, Dec),
> {
    split_sums(untaxed, header_only(header, line_ids))
}

/// The document-level header taxes are exactly the header taxes with a
/// non-zero id that no line carries.
pub proof fn lemma_header_only_members(s: Seq<Tax>, ids: Set<i64>)
    ensures
        forall|t: Tax|
            #[trigger] header_only(s, ids).contains(t) <==> (s.contains(t) && t.id != 0 && !ids.contains(t.id)),
    decreases s.len(),
{
    if s.len() > 0 {
        let p = s.drop_last();
        let x = s.last();
        lemma_header_only_members(p, ids);
        let h = header_only(s, ids);
        let hp = header_only(p, ids);
        assert forall|t: Tax| #[trigger] h.contains(t) <==> (s.contains(t) && t.id != 0 && !ids.contains(t.id)) by {
            if p.contains(t) {
                let k = choose|k: int| 0 <= k < p.len() && p[k] == t;
                assert(s[k] == t);
            }
            if s.contains(t) {
                let k = choose|k: int| 0 <= k < s.len() && s[k] == t;
                if k < p.len() {
                    assert(p[k] == t);
                } else {
                    assert(t == x);
                }
            }
            if x.id != 0 && !ids.contains(x.id) {
                assert(h == hp.push(x));
                if h.contains(t) {
                    let k = choose|k: int| 0 <= k < h.len() && h[k] == t;
                    if k < hp.len() {
                        assert(hp[k] == t);
                    }
                }
                if hp.contains(t) {
                    let k = choose|k: int| 0 <= k < hp.len() && hp[k] == t;
                    assert(h[k] == t);
                }
                if t == x {
                    assert(h[h.len() - 1] == t);
                }
            }
        }
    }
}

proof fn lemma_header_only_ignores(s: Seq<Tax>, k: int, x: Tax, ids: Set<i64>)
    requires
        0 <= k <= s.len(),
        x.id == 0 || ids.contains(x.id),
    ensures
        header_only(s.insert(k, x), ids) == header_only(s, ids),
    decreases s.len(),
{
    let t = s.insert(k, x);
    if k == s.len() {
        assert(t.drop_last() =~= s);
    } else {
        lemma_header_only_ignores(s.drop_last(), k, x, ids);
        assert(t.drop_last() =~= s.drop_last().insert(k, x));
        assert(t.last() == s.last());
    }
}

/// Header taxes are not counted twice: a header tax that some line already
/// carries (or whose id is 0), wherever it stands in the header list, leaves
/// the grand total as it is, for every input.
pub proof fn lemma_grand_total_ignores_line_taxes(
    t: InvoiceLinesTotals,
    header: Seq<Tax>,
    k: int,
    x: Tax,
    line_ids: Set<i64>,
)
    requires
        0 <= k <= header.len(),
        x.id == 0 || line_ids.contains(x.id),
    ensures
        grand_total(t, header.insert(k, x), line_ids) == grand_total(t, header, line_ids),
        header_net_pct(header.insert(k, x), line_ids) == header_net_pct(header, line_ids),
{
    lemma_header_only_ignores(header, k, x, line_ids);
}

pub proof fn lemma_select_kind_step(s: Seq<Tax>, k: int, withholding: bool)
    requires
        0 <= k < s.len(),
    ensures
        pct_total(select_kind(s.take(k + 1), withholding)) == pct_total(
            select_kind(s.take(k), withholding),
        ) + if is_withholding(s[k]) == withholding {
            s[k].percentage.val()
        } else {
            0
        },
        pct_magnitude(select_kind(s.take(k + 1), withholding)) == pct_magnitude(
            select_kind(s.take(k), withholding),
        ) + if is_withholding(s[k]) == withholding {
            abs(s[k].percentage.val())
        } else {
            0
        },
{
    assert(s.take(k + 1).drop_last() =~= s.take(k));
    assert(s.take(k + 1).last() == s[k]);
    if is_withholding(s[k]) == withholding {
        assert(select_kind(s.take(k + 1), withholding).drop_last() =~= select_kind(
            s.take(k),
            withholding,
        ));
    }
}

fn header_tax_split(untaxed_subtotal: &Dec, header_taxes: &Vec<Tax>, line_tax_ids: &HashSet<i64>) -> (r:
    Option<(Dec, Dec)>)
    requires
        untaxed_subtotal.wf(),
        taxes_wf(header_taxes@),
    ensures
        r == header_split(*untaxed_subtotal, header_taxes@, line_tax_ids@),
        r matches Some(x) ==> x.0.wf() && x.1.wf(),
        within(*untaxed_subtotal, 12, line_bound()) && pcts_ok(header_taxes@) ==> r is Some && ({
            let doc = header_only(header_taxes@, line_tax_ids@);
            let (l, w) = r.unwrap();
            &&& l.val() * unit() * 100 == untaxed_subtotal.val() * pct_total(select_kind(doc, false))
            &&& w.val() * unit() * 100 == untaxed_subtotal.val() * pct_total(select_kind(doc, true))
            &&& within(l, 20, line_bound() * pct_bound())
            &&& within(w, 20, line_bound() * pct_bound())
        }),
{
    let doc = document_level_header_taxes(header_taxes, line_tax_ids);
    let ghost bounded = within(*untaxed_subtotal, 12, line_bound()) && pcts_ok(header_taxes@);
    proof {
        lemma_taxes_wf_header_only(header_taxes@, line_tax_ids@);
        lemma_pow10_values();
        lemma_pow10_positive(8);
        if bounded {
            lemma_pcts_ok_header_only(header_taxes@, line_tax_ids@);
            assert(doc@.take(0) =~= Seq::<Tax>::empty());
            assert(line_bound() * pct_bound() * pow10(8) >= 0);
        }
    }
    let mut levied = dec_zero();
    let mut withholding = dec_zero();
    let mut i: usize = 0;
    while i < doc.len()
        invariant
            i <= doc.len(),
            doc@ == header_only(header_taxes@, line_tax_ids@),
            taxes_wf(doc@),
            untaxed_subtotal.wf(),
            levied.wf(),
            withholding.wf(),
            Some((levied, withholding)) == split_sums(*untaxed_subtotal, doc@.take(i as int)),
            bounded == (within(*untaxed_subtotal, 12, line_bound()) && pcts_ok(header_taxes@)),
            bounded ==> pcts_ok(doc@),
            bounded ==> levied.val() * unit() * 100 == untaxed_subtotal.val() * pct_total(
                select_kind(doc@.take(i as int), false),
            ) && within(levied, 20, line_bound() * pct_bound()),
            bounded ==> withholding.val() * unit() * 100 == untaxed_subtotal.val() * pct_total(
                select_kind(doc@.take(i as int), true),
            ) && within(withholding, 20, line_bound() * pct_bound()),
            bounded ==> pct_magnitude(select_kind(doc@.take(i as int), false)) <= pct_magnitude(
                doc@.take(i as int),
            ) && pct_magnitude(select_kind(doc@.take(i as int), true)) <= pct_magnitude(
                doc@.take(i as int),
            ),
        decreases doc.len() - i,
    {
        let ghost pre = doc@.take(i as int);
        let ghost post = doc@.take(i + 1);
        proof {
            assert(post.drop_last() =~= pre);
            assert(post.last() == doc@[i as int]);
            assert(doc@[i as int].percentage.wf());
            if bounded {
                assert(within(doc@[i as int].percentage, 6, pct_bound()));
                assert(tax_inputs_ok(
                    *untaxed_subtotal,
                    doc@[i as int].percentage,
                    12,
                    line_bound(),
                ));
                assert(within(*untaxed_subtotal, 12, line_bound()));
            }
        }
        let t = &doc[i];
        let ta = tax_amount_for_tax(untaxed_subtotal, t);
        proof {
            if bounded {
                assert(within(*untaxed_subtotal, 12, line_bound()));
                assert(ta is Some);
            }
        }
        let a = match ta {
            Some(a) => a,
            None => {
                proof {
                    lemma_split_sums_none_stays(*untaxed_subtotal, doc@, i + 1);
                }
                return None;
            },
        };
        let is_wh = match t.tax_type {
            TaxKind::Withholding => true,
            TaxKind::Levied => false,
        };
        proof {
            lemma_select_kind_step(doc@, i as int, false);
            lemma_select_kind_step(doc@, i as int, true);
            if bounded {
                lemma_pct_magnitude_growth(doc@, i + 1);
                lemma_pct_magnitude_bounds(select_kind(post, false));
                lemma_pct_magnitude_bounds(select_kind(post, true));
                lemma_add_exact_within(
                    levied,
                    a,
                    20,
                    line_bound() * pct_bound(),
                    line_bound() * pct_bound(),
                );
                lemma_add_exact_within(
                    withholding,
                    a,
                    20,
                    line_bound() * pct_bound(),
                    line_bound() * pct_bound(),
                );
            }
        }
        if is_wh {
            let w2 = match decimal_add(&withholding, &a) {
                Some(x) => x,
                None => {
                    proof {
                        lemma_split_sums_none_stays(*untaxed_subtotal, doc@, i + 1);
                    }
                    return None;
                },
            };
            proof {
                if bounded {
                    let t_total = pct_total(select_kind(post, true));
                    assert(w2.val() * unit() * 100 == untaxed_subtotal.val() * t_total) by (
                    nonlinear_arith)
                        requires
                            w2.val() == withholding.val() + a.val(),
                            withholding.val() * unit() * 100 == untaxed_subtotal.val()
                                * pct_total(select_kind(pre, true)),
                            a.val() * unit() * 100 == untaxed_subtotal.val() * doc@[i as int].percentage.val(),
                            t_total == pct_total(select_kind(pre, true)) + doc@[i as int].percentage.val(),
                    ;
                    lemma_within_ratio(
                        w2,
                        *untaxed_subtotal,
                        t_total,
                        12,
                        line_bound(),
                        pct_bound(),
                    );
                }
            }
            withholding = w2;
        } else {
            let l2 = match decimal_add(&levied, &a) {
                Some(x) => x,
                None => {
                    proof {
                        lemma_split_sums_none_stays(*untaxed_subtotal, doc@, i + 1);
                    }
                    return None;
                },
            };
            proof {
                if bounded {
                    let t_total = pct_total(select_kind(post, false));
                    assert(l2.val() * unit() * 100 == untaxed_subtotal.val() * t_total) by (
                    nonlinear_arith)
                        requires
                            l2.val() == levied.val() + a.val(),
                            levied.val() * unit() * 100 == untaxed_subtotal.val() * pct_total(
                                select_kind(pre, false),
                            ),
                            a.val() * unit() * 100 == untaxed_subtotal.val() * doc@[i as int].percentage.val(),
                            t_total == pct_total(select_kind(pre, false)) + doc@[i as int].percentage.val(),
                    ;
                    lemma_within_ratio(
                        l2,
                        *untaxed_subtotal,
                        t_total,
                        12,
                        line_bound(),
                        pct_bound(),
                    );
                }
            }
            levied = l2;
        }
        i = i + 1;
    }
    proof {
        assert(doc@.take(i as int) =~= doc@);
    }
    Some((levied, withholding))
}

/// Once a partial split leaves Decimal's range the whole split does.
proof fn lemma_split_sums_none_stays(base: Dec, s: Seq<Tax>, k: int)
    requires
        0 <= k <= s.len(),
        split_sums(base, s.take(k)) is None || (k >= 1 && split_sums(base, s.take(k - 1)) is Some
            && tax_amount(base, s[k - 1].percentage) is None),
    ensures
        split_sums(base, s) is None,
    decreases s.len() - k,
{
    if k >= 1 {
        assert(s.take(k).drop_last() =~= s.take(k - 1));
        assert(s.take(k).last() == s[k - 1]);
    }
    if k < s.len() {
        assert(s.take(k + 1).drop_last() =~= s.take(k));
        lemma_split_sums_none_stays(base, s, k + 1);
    } else {
        assert(s.take(k) =~= s);
    }
}

/// Receivable total of an invoice: the lines' gross (untaxed plus levied)
/// plus the document-level levied taxes, less the lines' and the
/// document-level withholding.
pub open spec fn grand_total(t: InvoiceLinesTotals, header: Seq<Tax>, line_ids: Set<i64>) -> Option<Dec> {
    match header_split(t.untaxed_subtotal, header, line_ids) {
        None => None,
        Some((hl, hw)) => match decimal_checked_add(t.untaxed_subtotal, t.lines_levied) {
            None => None,
            Some(g0) => match decimal_checked_add(g0, hl) {
                None => None,
                Some(gross) => match decimal_checked_add(t.lines_withholding, hw) {
                    None => None,
                    Some(withheld) => decimal_checked_sub(gross, withheld),
                },
            },
        },
    }
}

/// The net percentage of the document-level header taxes: levied minus
/// withholding.
pub open spec fn header_net_pct(header: Seq<Tax>, line_ids: Set<i64>) -> int {
    let doc = header_only(header, line_ids);
    pct_total(select_kind(doc, false)) - pct_total(select_kind(doc, true))
}

/// The amount the customer owes for a posted invoice.
///
/// For bounded totals and header percentages the result is exact:
/// `untaxed + lines_levied - lines_withholding` plus the untaxed subtotal
/// times the net document-level percentage over 100.
pub fn invoice_receivable_grand_total(
    totals: &InvoiceLinesTotals,
    header_taxes: &Vec<Tax>,
    line_tax_ids: &HashSet<i64>,
) -> (r: Option<Dec>)
    requires
        totals.wf(),
        taxes_wf(header_taxes@),
    ensures
        r == grand_total(*totals, header_taxes@, line_tax_ids@),
        r matches Some(x) ==> x.wf(),
        totals.bounded() && pcts_ok(header_taxes@) ==> r is Some && r.unwrap().val() * unit() * 100
            == (totals.untaxed_subtotal.val() + totals.lines_levied.val()
            - totals.lines_withholding.val()) * unit() * 100 + totals.untaxed_subtotal.val()
            * header_net_pct(header_taxes@, line_tax_ids@) && within(
            r.unwrap(),
            20,
            5 * line_bound() * pct_bound(),
        ),
{
    let ghost bounded = totals.bounded() && pcts_ok(header_taxes@);
    let (hl, hw) = match header_tax_split(&totals.untaxed_subtotal, header_taxes, line_tax_ids) {
        Some(x) => x,
        None => return None,
    };
    let g0 = match totals.lines_gross_before_withholding() {
        Some(x) => x,
        None => return None,
    };
    proof {
        lemma_pow10_values();
        if bounded {
            lemma_add_exact_within(
                g0,
                hl,
                20,
                line_bound() * pow10(8) + line_bound() * pct_bound(),
                line_bound() * pct_bound(),
            );
            lemma_add_exact_within(
                totals.lines_withholding,
                hw,
                20,
                line_bound() * pct_bound(),
                line_bound() * pct_bound(),
            );
        }
    }
    let gross = match decimal_add(&g0, &hl) {
        Some(x) => x,
        None => return None,
    };
    let withheld = match decimal_add(&totals.lines_withholding, &hw) {
        Some(x) => x,
        None => return None,
    };
    proof {
        if bounded {
            let b1 = line_bound() * pow10(8) + 2 * (line_bound() * pct_bound());
            let b2 = 2 * (line_bound() * pct_bound());
            lemma_within_sum(
                gross,
                g0,
                hl,
                20,
                line_bound() * pow10(8) + line_bound() * pct_bound(),
                line_bound() * pct_bound(),
            );
            lemma_within_sum(
                withheld,
                totals.lines_withholding,
                hw,
                20,
                line_bound() * pct_bound(),
                line_bound() * pct_bound(),
            );
            lemma_add_exact_within(gross, withheld, 20, b1, b2);
        }
    }
    let r = decimal_sub(&gross, &withheld);
    proof {
        if bounded {
            let b1 = line_bound() * pow10(8) + 2 * (line_bound() * pct_bound());
            let b2 = 2 * (line_bound() * pct_bound());
            let x = r.unwrap();
            lemma_within_sum(x, gross, withheld, 20, b1, b2);
            assert(b1 + b2 <= 5 * line_bound() * pct_bound());
            assert((b1 + b2) * pow10(8) <= (5 * line_bound() * pct_bound()) * pow10(8));
            let doc = header_only(header_taxes@, line_tax_ids@);
            let u = totals.untaxed_subtotal.val();
            let tl = pct_total(select_kind(doc, false));
            let tw = pct_total(select_kind(doc, true));
            assert(x.val() * unit() * 100 == (u + totals.lines_levied.val()
                - totals.lines_withholding.val()) * unit() * 100 + u * (tl - tw)) by (nonlinear_arith)
                requires
                    x.val() == (u + totals.lines_levied.val() + hl.val()) - (
                    totals.lines_withholding.val() + hw.val()),
                    hl.val() * unit() * 100 == u * tl,
                    hw.val() * unit() * 100 == u * tw,
            ;
        }
    }
    r
}

/// Whether a tax names a ledger account (a positive account id).
pub open spec fn has_account(t: Tax) -> bool {
    t.account_id matches Some(id) && id > 0
}

/// How a tax is named in messages: its name, or `#id` when the name is blank.
pub open spec fn tax_display_name(t: Tax) -> Seq<char> {
    if trim(t.name@).len() == 0 {
        hash_id(t.id as int)
    } else {
        t.name@
    }
}

pub open spec fn missing_account_message(t: Tax) -> Seq<char> {
    "withholding tax "@ + tax_display_name(t) + " requires a ledger account"@
}

pub open spec fn levied_on_payment_message(t: Tax) -> Seq<char> {
    "levied tax "@ + tax_display_name(t) + " cannot be applied on a payment; use withholding taxes only"@
}

fn tax_display_name_text(t: &Tax) -> (r: String)
    ensures
        r@ == tax_display_name(*t),
{
    if is_blank(t.name.as_str()) {
        hash_id_text(t.id)
    } else {
        t.name.clone()
    }
}

/// The ledger account of a withholding tax, or the error that it has none.
pub fn withholding_tax_account_id(t: &Tax) -> (r: Result<i64, String>)
    ensures
        match r {
            Ok(id) => has_account(*t) && t.account_id == Some(id),
            Err(e) => !has_account(*t) && e@ == missing_account_message(*t),
        },
{
    match t.account_id {
        Some(id) => {
            if id > 0 {
                return Ok(id);
            }
        },
        None => {},
    }
    let name = tax_display_name_text(t);
    let mut msg = String::from_str("withholding tax ");
    msg.append(name.as_str());
    msg.append(" requires a ledger account");
    Err(msg)
}

/// A withholding tax without a ledger account.
pub open spec fn lacks_account(t: Tax) -> bool {
    is_withholding(t) && !has_account(t)
}

/// Every withholding tax names a ledger account; otherwise the error for the
/// first one that does not.
pub fn validate_withholding_tax_accounts(taxes: &Vec<Tax>) -> (r: Result<(), String>)
    ensures
        match r {
            Ok(_) => forall|i: int| 0 <= i < taxes@.len() ==> !lacks_account(#[trigger] taxes@[i]),
            Err(e) => exists|i: int|
                0 <= i < taxes@.len() && lacks_account(#[trigger] taxes@[i]) && (forall|j: int|
                    0 <= j < i ==> !lacks_account(#[trigger] taxes@[j])) && e@
                    == missing_account_message(taxes@[i]),
        },
{
    let mut i: usize = 0;
    while i < taxes.len()
        invariant
            i <= taxes.len(),
            forall|j: int| 0 <= j < i ==> !lacks_account(#[trigger] taxes@[j]),
        decreases taxes.len() - i,
    {
        let t = &taxes[i];
        match t.tax_type {
            TaxKind::Withholding => {
                match withholding_tax_account_id(t) {
                    Ok(_) => {},
                    Err(e) => {
                        assert(lacks_account(taxes@[i as int]));
                        return Err(e);
                    },
                }
            },
            TaxKind::Levied => {},
        }
        i = i + 1;
    }
    Ok(())
}

/// Taxes on a payment must all be withholding taxes with ledger accounts:
/// the first withholding tax without an account is reported, else the first
/// levied tax.
pub fn validate_payment_taxes(taxes: &Vec<Tax>) -> (r: Result<(), String>)
    ensures
        match r {
            Ok(_) => forall|i: int|
                0 <= i < taxes@.len() ==> is_withholding(#[trigger] taxes@[i]) && has_account(
                    taxes@[i],
                ),
            Err(e) => (exists|i: int|
                0 <= i < taxes@.len() && lacks_account(#[trigger] taxes@[i]) && (forall|j: int|
                    0 <= j < i ==> !lacks_account(#[trigger] taxes@[j])) && e@
                    == missing_account_message(taxes@[i])) || ((forall|j: int|
                0 <= j < taxes@.len() ==> !lacks_account(#[trigger] taxes@[j])) && exists|i: int|
                0 <= i < taxes@.len() && !is_withholding(#[trigger] taxes@[i]) && (forall|j: int|
                    0 <= j < i ==> is_withholding(#[trigger] taxes@[j])) && e@
                    == levied_on_payment_message(taxes@[i])),
        },
{
    match validate_withholding_tax_accounts(taxes) {
        Ok(_) => {},
        Err(e) => return Err(e),
    }
    let mut i: usize = 0;
    while i < taxes.len()
        invariant
            i <= taxes.len(),
            forall|j: int| 0 <= j < taxes@.len() ==> !lacks_account(#[trigger] taxes@[j]),
            forall|j: int| 0 <= j < i ==> is_withholding(#[trigger] taxes@[j]),
        decreases taxes.len() - i,
    {
        let t = &taxes[i];
        match t.tax_type {
            TaxKind::Withholding => {},
            TaxKind::Levied => {
                let name = tax_display_name_text(t);
                let mut msg = String::from_str("levied tax ");
                msg.append(name.as_str());
                msg.append(" cannot be applied on a payment; use withholding taxes only");
                assert(!is_withholding(taxes@[i as int]));
                return Err(msg);
            },
        }
        i = i + 1;
    }
    proof {
        assert forall|i: int| 0 <= i < taxes@.len() implies is_withholding(#[trigger] taxes@[i])
            && has_account(taxes@[i]) by {
            assert(!lacks_account(taxes@[i]));
        }
    }
    Ok(())
}

/// The withholding on `base` of the withholding taxes among `taxes`.
pub open spec fn withholding_total(base: Dec, taxes: Seq<Tax>) -> Option<Dec> {
    match pct_sum(select_kind(taxes, true)) {
        Some(p) => tax_amount(base, p),
        None => None,
    }
}

/// The total withholding of a payment: the summed withholding percentages
/// applied to `withholding_base`.
///
/// For a stored amount and bounded percentages it is exact.
pub fn payment_withholding_total(withholding_base: &Dec, taxes: &Vec<Tax>) -> (r: Option<Dec>)
    requires
        withholding_base.wf(),
        taxes_wf(taxes@),
    ensures
        r == withholding_total(*withholding_base, taxes@),
        r matches Some(x) ==> x.wf(),
        amount_ok(*withholding_base) && pcts_ok(taxes@) ==> r is Some && r.unwrap().val() * unit()
            * 100 == withholding_base.val() * pct_total(select_kind(taxes@, true)) && within(
            r.unwrap(),
            14,
            amount_bound() * pct_bound(),
        ),
{
    proof {
        lemma_taxes_wf_select(taxes@, true);
        if amount_ok(*withholding_base) && pcts_ok(taxes@) {
            lemma_pcts_ok_select(taxes@, true);
        }
    }
    let wh = taxes_withholding(taxes);
    let p = match sum_tax_percents(&wh) {
        Some(p) => p,
        None => return None,
    };
    proof {
        if amount_ok(*withholding_base) && pcts_ok(taxes@) {
            assert(tax_inputs_ok(*withholding_base, p, 6, amount_bound()));
        }
    }
    tax_amount_on_base(withholding_base, &p)
}

/// The bank side of a payment: the settlement less the withholding.
pub open spec fn bank_amount(settlement: Dec, withholding_base: Dec, taxes: Seq<Tax>) -> Option<Dec> {
    match withholding_total(withholding_base, taxes) {
        Some(w) => decimal_checked_sub(settlement, w),
        None => None,
    }
}

/// What reaches the bank for a payment: `settlement - withholding`, the
/// withholding taken on `withholding_base`.
///
/// For stored amounts and bounded percentages it is exact:
/// `bank * 100 == settlement * 100 - withholding_base * (sum of withholding %)`.
pub fn payment_bank_amount(settlement: &Dec, withholding_base: &Dec, taxes: &Vec<Tax>) -> (r:
    Option<Dec>)
    requires
        settlement.wf(),
        withholding_base.wf(),
        taxes_wf(taxes@),
    ensures
        r == bank_amount(*settlement, *withholding_base, taxes@),
        r matches Some(x) ==> x.wf(),
        amount_ok(*settlement) && amount_ok(*withholding_base) && pcts_ok(taxes@) ==> r is Some
            && r.unwrap().val() * unit() * 100 == settlement.val() * unit() * 100
            - withholding_base.val() * pct_total(select_kind(taxes@, true)) && within(
            r.unwrap(),
            14,
            amount_bound() * pow10(8) + amount_bound() * pct_bound(),
        ),
{
    let w = match payment_withholding_total(withholding_base, taxes) {
        Some(w) => w,
        None => return None,
    };
    let ghost bounded = amount_ok(*settlement) && amount_ok(*withholding_base) && pcts_ok(taxes@);
    proof {
        lemma_pow10_values();
        if bounded {
            lemma_within_widen(*settlement, 6, amount_bound(), 14, amount_bound() * pow10(8));
            lemma_add_exact_within(
                *settlement,
                w,
                14,
                amount_bound() * pow10(8),
                amount_bound() * pct_bound(),
            );
        }
    }
    let r = decimal_sub(settlement, &w);
    proof {
        if bounded {
            lemma_within_sum(
                r.unwrap(),
                *settlement,
                w,
                14,
                amount_bound() * pow10(8),
                amount_bound() * pct_bound(),
            );
            let x = r.unwrap();
            assert(x.val() * unit() * 100 == settlement.val() * unit() * 100
                - withholding_base.val() * pct_total(select_kind(taxes@, true))) by (nonlinear_arith)
                requires
                    x.val() == settlement.val() - w.val(),
                    w.val() * unit() * 100 == withholding_base.val() * pct_total(
                        select_kind(taxes@, true),
                    ),
            ;
        }
    }
    r
}

/// The part of a settlement that withholding applies to: the settlement's
/// share of the invoice's untaxed subtotal,
/// `settlement * untaxed_subtotal / receivable_total` (the settlement itself
/// when the receivable total is zero).
pub open spec fn withholding_base(settlement: Dec, receivable_total: Dec, untaxed_subtotal: Dec) -> Option<
    Dec,
> {
    if receivable_total.val() == 0 {
        Some(settlement)
    } else {
        match decimal_checked_mul(settlement, untaxed_subtotal) {
            Some(p) => decimal_checked_div(p, receivable_total),
            None => None,
        }
    }
}

/// The withholding base is the settlement's share of the untaxed subtotal:
/// whenever rust_decimal multiplies and divides exactly where it can, the
/// settlement times the untaxed subtotal is exact, and that product over the
/// receivable total is representable (`q`), the base is exactly `q`; that is,
/// base x receivable total == settlement x untaxed subtotal.
pub proof fn lemma_withholding_base_share(settlement: Dec, receivable_total: Dec, untaxed_subtotal: Dec, q: Dec)
    requires
        muls_and_divs_exactly(),
        settlement.wf(),
        receivable_total.wf(),
        untaxed_subtotal.wf(),
        receivable_total.val() != 0,
        mul_exact(settlement, untaxed_subtotal),
        q.wf(),
        q.val() * receivable_total.val() == settlement.val() * untaxed_subtotal.val(),
    ensures
        withholding_base(settlement, receivable_total, untaxed_subtotal) is Some,
        withholding_base(settlement, receivable_total, untaxed_subtotal).unwrap().val() == q.val(),
        withholding_base(settlement, receivable_total, untaxed_subtotal).unwrap().val() * receivable_total.val()
            == settlement.val() * untaxed_subtotal.val(),
{
    let p = decimal_checked_mul(settlement, untaxed_subtotal).unwrap();
    assert(decimal_checked_mul(settlement, untaxed_subtotal) is Some);
    assert(is_exact_quotient(p, receivable_total, q));
}

/// The withholding base of a payment on an invoice (see `withholding_base`).
///
/// A settlement of the whole receivable total gives back the untaxed
/// subtotal itself whenever the product does not round.
pub fn payment_withholding_base(settlement: &Dec, receivable_total: &Dec, untaxed_subtotal: &Dec) -> (r:
    Option<Dec>)
    requires
        settlement.wf(),
        receivable_total.wf(),
        untaxed_subtotal.wf(),
    ensures
        r == withholding_base(*settlement, *receivable_total, *untaxed_subtotal),
        r matches Some(x) ==> x.wf(),
        settlement.val() == receivable_total.val() && receivable_total.val() != 0 && mul_exact(
            *settlement,
            *untaxed_subtotal,
        ) ==> r is Some && r.unwrap().val() == untaxed_subtotal.val(),
        forall|q: Dec|
            #![trigger q.val() * receivable_total.val()]
            receivable_total.val() != 0 && mul_exact(*settlement, *untaxed_subtotal) && q.wf() && q.val()
                * receivable_total.val() == settlement.val() * untaxed_subtotal.val() ==> r is Some
                && r.unwrap().val() == q.val(),
{
    if dec_is_zero(receivable_total) {
        return Some(*settlement);
    }
    let p = match decimal_mul(settlement, untaxed_subtotal) {
        Some(p) => p,
        None => return None,
    };
    proof {
        if settlement.val() == receivable_total.val() && mul_exact(*settlement, *untaxed_subtotal) {
            assert(is_exact_quotient(p, *receivable_total, *untaxed_subtotal)) by (nonlinear_arith)
                requires
                    p.val() * unit() == settlement.val() * untaxed_subtotal.val(),
                    settlement.val() == receivable_total.val(),
                    untaxed_subtotal.wf(),
            ;
        }
    }
    let r = decimal_div(&p, receivable_total);
    proof {
        assert forall|q: Dec|
            #![trigger q.val() * receivable_total.val()]
            receivable_total.val() != 0 && mul_exact(*settlement, *untaxed_subtotal) && q.wf() && q.val()
                * receivable_total.val() == settlement.val() * untaxed_subtotal.val() implies r is Some
                && r.unwrap().val() == q.val() by {
            assert(is_exact_quotient(p, *receivable_total, q));
        }
    }
    r
}

} // verus!
