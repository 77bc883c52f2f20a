//! Payments against posted invoices: the journal lines of one allocation,
//! the checks an allocation passes, and the parsing of payment form input.
//!
//! A payment books the settlement as a credit to accounts receivable, each
//! withholding tax as a debit to its own ledger account, and the rest as a
//! debit to the bank.  For stored amounts and bounded percentages these
//! lines balance exactly.
use crate::decimal::{
    abs, decimal_add, decimal_checked_add, decimal_from_str, decimal_lt, decimal_eq,
    add_exact, add_is_exact, dec_is_wf, decimal_normalize, decimal_parse, dec_is_zero, dec_neg, dec_zero, lemma_normalized,
    normalized, unit, within, zero_dec, Dec,
};
use crate::logic::tax_calculations::{
    amount_ok, bank_amount, has_account, is_withholding, missing_account_message,
    payment_bank_amount, pcts_ok, pct_bound, pct_total, select_kind, tax_amount,
    tax_amount_for_tax, tax_inputs_ok, taxes_wf, taxes_withholding, withholding_tax_account_id,
    amount_bound, Tax,
};
use crate::text::{id_list, parse_positive_id_list, trim, trimmed};
use vstd::prelude::*;

verus! {

/// One line of a journal entry: a signed amount booked to an account
/// (positive debits, negative credits).
#[derive(Clone, Copy, Debug)]
pub struct JournalLineSpec {
    pub account_id: i64,
    pub amount: Dec,
}

/// What the payment logic reads of a posted invoice.
#[derive(Debug)]
pub struct PostedInvoice {
    pub id: i64,
    pub number: String,
    pub account_receivable_id: i64,
    pub journal_id: i64,
    pub customer_id: i64,
}

/// The exact sum of the amounts of journal lines.
pub open spec fn lines_total(s: Seq<JournalLineSpec>) -> int
    decreases s.len(),
{
    if s.len() == 0 {
        0
    } else {
        lines_total(s.drop_last()) + s.last().amount.val()
    }
}

pub proof fn lemma_lines_total_concat(a: Seq<JournalLineSpec>, b: Seq<JournalLineSpec>)
    ensures
        lines_total(a + b) == lines_total(a) + lines_total(b),
    decreases b.len(),
{
    if b.len() == 0 {
        assert(a + b =~= a);
    } else {
        lemma_lines_total_concat(a, b.drop_last());
        assert((a + b).drop_last() =~= a + b.drop_last());
    }
}

/// The running total of journal lines as `rust_decimal` sums them exactly:
/// each step adds the next amount to the total so far, both normalised, and
/// only when that addition does not round; `None` as soon as one would (or
/// an amount is not a representable decimal).
pub open spec fn exact_total(s: Seq<JournalLineSpec>) -> Option<Dec>
    decreases s.len(),
{
    if s.len() == 0 {
        Some(zero_dec())
    } else {
        match exact_total(s.drop_last()) {
            None => None,
            Some(acc) => {
                let a = normalized(acc);
                let b = normalized(s.last().amount);
                if s.last().amount.wf() && add_exact(a, b) {
                    decimal_checked_add(a, b)
                } else {
                    None
                }
            },
        }
    }
}

/// The exact total of journal lines, when it is computed without rounding.
pub fn exact_lines_total(lines: &Vec<JournalLineSpec>) -> (r: Option<Dec>)
    ensures
        r == exact_total(lines@),
        r matches Some(x) ==> x.wf() && x.val() == lines_total(lines@),
{
    let mut acc = dec_zero();
    let mut i: usize = 0;
    proof {
        assert(lines@.take(0) =~= Seq::<JournalLineSpec>::empty());
    }
    while i < lines.len()
        invariant
            i <= lines.len(),
            exact_total(lines@.take(i as int)) == Some(acc),
            acc.wf(),
            acc.val() == lines_total(lines@.take(i as int)),
        decreases lines.len() - i,
    {
        proof {
            assert(lines@.take(i + 1).drop_last() =~= lines@.take(i as int));
            assert(lines@.take(i + 1).last() == lines@[i as int]);
            lemma_normalized(acc);
        }
        if !dec_is_wf(&lines[i].amount) {
            proof {
                lemma_exact_total_none_stays(lines@, i + 1);
            }
            return None;
        }
        proof {
            lemma_normalized(lines@[i as int].amount);
        }
        let a = decimal_normalize(&acc);
        let b = decimal_normalize(&lines[i].amount);
        if !add_is_exact(&a, &b) {
            proof {
                lemma_exact_total_none_stays(lines@, i + 1);
            }
            return None;
        }
        acc = match decimal_add(&a, &b) {
            Some(x) => x,
            None => {
                proof {
                    lemma_exact_total_none_stays(lines@, i + 1);
                }
                return None;
            },
        };
        i = i + 1;
    }
    proof {
        assert(lines@.take(i as int) =~= lines@);
    }
    Some(acc)
}

proof fn lemma_exact_total_none_stays(s: Seq<JournalLineSpec>, k: int)
    requires
        0 <= k <= s.len(),
        exact_total(s.take(k)) is None,
    ensures
        exact_total(s) is None,
    decreases s.len() - k,
{
    if k < s.len() {
        assert(s.take(k + 1).drop_last() =~= s.take(k));
        lemma_exact_total_none_stays(s, k + 1);
    } else {
        assert(s.take(k) =~= s);
    }
}

/// Message for an amount that leaves Decimal's range.
pub open spec fn out_of_range_message() -> Seq<char> {
    "amount out of range"@
}

pub open spec fn exceeds_settlement_message() -> Seq<char> {
    "withholding exceeds settlement amount"@
}

/// The withholding debit lines for `taxes` (all withholding taxes) on
/// `base`, left to right: a zero amount books nothing, a tax without a
/// ledger account is an error.
pub open spec fn withholding_lines(base: Dec, taxes: Seq<Tax>) -> Result<Seq<JournalLineSpec>, Seq<char>>
    decreases taxes.len(),
{
    if taxes.len() == 0 {
        Ok(Seq::<JournalLineSpec>::empty())
    } else {
        match withholding_lines(base, taxes.drop_last()) {
            Err(e) => Err(e),
            Ok(prev) => match tax_amount(base, taxes.last().percentage) {
                None => Err(out_of_range_message()),
                Some(a) => if a.val() == 0 {
                    Ok(prev)
                } else if has_account(taxes.last()) {
                    Ok(prev.push(JournalLineSpec { account_id: taxes.last().account_id.unwrap(), amount: a }))
                } else {
                    Err(missing_account_message(taxes.last()))
                },
            },
        }
    }
}

/// Every withholding line is booked to the own account of one of the
/// withholding taxes for that tax's amount on the base (`base * percentage /
/// 100`, non-zero), and every tax whose amount is non-zero has its line.
pub proof fn lemma_withholding_lines_per_tax(base: Dec, taxes: Seq<Tax>)
    ensures
        withholding_lines(base, taxes) is Ok ==> ({
            let wl = withholding_lines(base, taxes)->Ok_0;
            &&& forall|i: int|
                #![trigger wl[i]]
                0 <= i < wl.len() ==> exists|j: int|
                    0 <= j < taxes.len() && has_account(#[trigger] taxes[j]) && wl[i].account_id
                        == taxes[j].account_id.unwrap() && tax_amount(base, taxes[j].percentage) == Some(wl[i].amount)
                        && wl[i].amount.val() != 0
            &&& forall|j: int|
                0 <= j < taxes.len() && (#[trigger] tax_amount(base, taxes[j].percentage)) is Some && tax_amount(
                    base,
                    taxes[j].percentage,
                ).unwrap().val() != 0 ==> exists|i: int|
                    0 <= i < wl.len() && wl[i] == JournalLineSpec {
                        account_id: taxes[j].account_id.unwrap(),
                        amount: tax_amount(base, taxes[j].percentage).unwrap(),
                    }
        }),
    decreases taxes.len(),
{
    if taxes.len() > 0 && withholding_lines(base, taxes) is Ok {
        let t = taxes.drop_last();
        lemma_withholding_lines_per_tax(base, t);
        let wl = withholding_lines(base, taxes)->Ok_0;
        let prev = withholding_lines(base, t)->Ok_0;
        let x = taxes.last();
        let a = tax_amount(base, x.percentage).unwrap();
        assert(x == taxes[taxes.len() - 1]);
        assert forall|i: int| #![trigger wl[i]] 0 <= i < wl.len() implies exists|j: int|
            0 <= j < taxes.len() && has_account(#[trigger] taxes[j]) && wl[i].account_id == taxes[j].account_id.unwrap()
                && tax_amount(base, taxes[j].percentage) == Some(wl[i].amount) && wl[i].amount.val() != 0 by {
            if i < prev.len() {
                assert(wl[i] == prev[i]);
                let j = choose|j: int|
                    0 <= j < t.len() && has_account(#[trigger] t[j]) && prev[i].account_id == t[j].account_id.unwrap()
                        && tax_amount(base, t[j].percentage) == Some(prev[i].amount) && prev[i].amount.val() != 0;
                assert(taxes[j] == t[j]);
            } else {
                assert(has_account(taxes[taxes.len() - 1]));
            }
        }
        assert forall|j: int|
            0 <= j < taxes.len() && (#[trigger] tax_amount(base, taxes[j].percentage)) is Some && tax_amount(
                base,
                taxes[j].percentage,
            ).unwrap().val() != 0 implies exists|i: int|
                0 <= i < wl.len() && wl[i] == JournalLineSpec {
                    account_id: taxes[j].account_id.unwrap(),
                    amount: tax_amount(base, taxes[j].percentage).unwrap(),
                } by {
            if j < t.len() {
                assert(taxes[j] == t[j]);
                assert(tax_amount(base, t[j].percentage) is Some);
                let i = choose|i: int|
                    0 <= i < prev.len() && prev[i] == JournalLineSpec {
                        account_id: t[j].account_id.unwrap(),
                        amount: tax_amount(base, t[j].percentage).unwrap(),
                    };
                assert(wl[i] == prev[i]);
            } else {
                assert(wl[wl.len() - 1] == JournalLineSpec { account_id: x.account_id.unwrap(), amount: a });
            }
        }
    }
}

/// The bank amount and the other journal lines of one payment allocation:
/// the settlement credited to accounts receivable, then the withholding
/// lines.  Settlement and base are normalised first.
pub open spec fn allocation_lines(
    receivable_account: i64,
    settlement: Dec,
    withholding_base: Dec,
    taxes: Seq<Tax>,
) -> Result<(Dec, Seq<JournalLineSpec>), Seq<char>> {
    let s = normalized(settlement);
    let b = normalized(withholding_base);
    match bank_amount(s, b, taxes) {
        None => Err(out_of_range_message()),
        Some(bank) => if bank.val() < 0 {
            Err(exceeds_settlement_message())
        } else {
            match withholding_lines(b, select_kind(taxes, true)) {
                Err(e) => Err(e),
                Ok(wl) => Ok(
                    (
                        bank,
                        seq![JournalLineSpec { account_id: receivable_account, amount: Dec { mantissa: (-s.mantissa) as i128, scale: s.scale } }]
                            + wl,
                    ),
                ),
            }
        },
    }
}

/// The inputs of an allocation as the database stores them: amounts with
/// at most six places and thirteen integer digits, percentages of at most
/// 1000% together.
pub open spec fn allocation_inputs_ok(settlement: Dec, withholding_base: Dec, taxes: Seq<Tax>) -> bool {
    &&& amount_ok(settlement)
    &&& amount_ok(withholding_base)
    &&& pcts_ok(taxes)
}

/// The receivable credit and withholding debits of one invoice allocation,
/// with the bank debit that balances them (the bank line itself is left to
/// the caller, which may pool several allocations into one bank line).
///
/// For bounded inputs the result never leaves Decimal's range, and when it
/// is `Ok` the bank amount and the lines sum to exactly zero.
pub fn build_payment_lines_for_allocation(
    posted: &PostedInvoice,
    settlement: &Dec,
    withholding_base: &Dec,
    taxes: &Vec<Tax>,
) -> (r: Result<(Dec, Vec<JournalLineSpec>), String>)
    requires
        settlement.wf(),
        withholding_base.wf(),
        taxes_wf(taxes@),
    ensures
        match (r, allocation_lines(posted.account_receivable_id, *settlement, *withholding_base, taxes@)) {
            (Ok((bank, lines)), Ok((sbank, slines))) => bank == sbank && lines@ == slines,
            (Err(e), Err(se)) => e@ == se,
            _ => false,
        },
        allocation_inputs_ok(*settlement, *withholding_base, taxes@) ==> match r {
            Ok((bank, lines)) => bank.val() + lines_total(lines@) == 0,
            Err(e) => e@ != out_of_range_message(),
        },
{
    let ghost bounded = allocation_inputs_ok(*settlement, *withholding_base, taxes@);
    let s = decimal_normalize(settlement);
    let b = decimal_normalize(withholding_base);
    proof {
        lemma_normalized(*settlement);
        lemma_normalized(*withholding_base);
        reveal_strlit("amount out of range");
        reveal_strlit("withholding exceeds settlement amount");
        assert(exceeds_settlement_message()[0] != out_of_range_message()[0]);
    }
    let bank = match payment_bank_amount(&s, &b, taxes) {
        Some(x) => x,
        None => {
            let msg = String::from_str("amount out of range");
            return Err(msg);
        },
    };
    let zero = dec_zero();
    if decimal_lt(&bank, &zero) {
        let msg = String::from_str("withholding exceeds settlement amount");
        return Err(msg);
    }
    let neg = dec_neg(&s);
    let mut lines: Vec<JournalLineSpec> = Vec::new();
    lines.push(JournalLineSpec { account_id: posted.account_receivable_id, amount: neg });
    let wh = taxes_withholding(taxes);
    proof {
        crate::logic::tax_calculations::lemma_taxes_wf_select(taxes@, true);
        assert(lines@.drop_last() =~= Seq::<JournalLineSpec>::empty());
        assert(lines@.drop_first() =~= Seq::<JournalLineSpec>::empty());
        assert(wh@.take(0) =~= Seq::<Tax>::empty());
        assert(lines@.len() == 1);
        assert(lines@.last().amount == neg);
        assert(lines_total(lines@.drop_last()) == 0);
        assert(lines_total(lines@) == neg.val());
        assert(pct_total(wh@.take(0)) == 0);
        if bounded {
            crate::logic::tax_calculations::lemma_pcts_ok_select(taxes@, true);
            assert(b.val() * pct_total(wh@.take(0)) == 0);
        }
    }
    let mut i: usize = 0;
    while i < wh.len()
        invariant
            i <= wh.len(),
            wh@ == select_kind(taxes@, true),
            taxes_wf(wh@),
            b == normalized(*withholding_base),
            b.wf(),
            bounded == allocation_inputs_ok(*settlement, *withholding_base, taxes@),
            s == normalized(*settlement),
            bank_amount(s, b, taxes@) == Some(bank),
            !(bank.val() < 0),
            neg == (Dec { mantissa: (-s.mantissa) as i128, scale: s.scale }),
            bounded ==> pcts_ok(wh@) && amount_ok(b),
            withholding_lines(b, wh@.take(i as int)) == Ok::<Seq<JournalLineSpec>, Seq<char>>(
                lines@.drop_first(),
            ),
            lines@.len() >= 1,
            lines@[0] == (JournalLineSpec { account_id: posted.account_receivable_id, amount: neg }),
            bounded ==> lines_total(lines@) * unit() * 100 == neg.val() * unit() * 100 + b.val()
                * pct_total(wh@.take(i as int)),
        decreases wh.len() - i,
    {
        let ghost pre = wh@.take(i as int);
        let ghost post = wh@.take(i + 1);
        proof {
            assert(post.drop_last() =~= pre);
            assert(post.last() == wh@[i as int]);
            assert(wh@[i as int].percentage.wf());
            if bounded {
                assert(within(wh@[i as int].percentage, 6, pct_bound()));
                assert(tax_inputs_ok(b, wh@[i as int].percentage, 6, amount_bound()));
                assert(within(b, 6, amount_bound()));
            }
        }
        let t = &wh[i];
        let amt = tax_amount_for_tax(&b, t);
        proof {
            if bounded {
                assert(within(b, 6, amount_bound()));
                assert(amt is Some);
            }
        }
        let a = match amt {
            Some(a) => a,
            None => {
                proof {
                    lemma_withholding_lines_err_stays(b, wh@, i + 1);
                }
                let msg = String::from_str("amount out of range");
                return Err(msg);
            },
        };
        proof {
            assert(pct_total(post) == pct_total(pre) + wh@[i as int].percentage.val());
        }
        if dec_is_zero(&a) {
            proof {
                if bounded {
                    assert(a.val() == 0);
                    assert(b.val() * wh@[i as int].percentage.val() == 0) by (nonlinear_arith)
                        requires
                            a.val() * unit() * 100 == b.val() * wh@[i as int].percentage.val(),
                            a.val() == 0,
                    ;
                    assert(b.val() * pct_total(post) == b.val() * pct_total(pre)) by (nonlinear_arith)
                        requires
                            pct_total(post) == pct_total(pre) + wh@[i as int].percentage.val(),
                            b.val() * wh@[i as int].percentage.val() == 0,
                    ;
                }
            }
        } else {
            match withholding_tax_account_id(t) {
                Ok(acct) => {
                    let ghost old_lines = lines@;
                    lines.push(JournalLineSpec { account_id: acct, amount: a });
                    proof {
                        assert(lines@.drop_first() =~= old_lines.drop_first().push(
                            JournalLineSpec { account_id: acct, amount: a },
                        ));
                        assert(lines@.drop_last() =~= old_lines);
                        if bounded {
                            assert(lines_total(lines@) == lines_total(old_lines) + a.val());
                            assert(lines_total(lines@) * unit() * 100 == neg.val() * unit() * 100
                                + b.val() * pct_total(post)) by (nonlinear_arith)
                                requires
                                    lines_total(lines@) == lines_total(old_lines) + a.val(),
                                    lines_total(old_lines) * unit() * 100 == neg.val() * unit()
                                        * 100 + b.val() * pct_total(pre),
                                    a.val() * unit() * 100 == b.val() * wh@[i as int].percentage.val(),
                                    pct_total(post) == pct_total(pre) + wh@[i as int].percentage.val(),
                            ;
                        }
                    }
                },
                Err(e) => {
                    proof {
                        lemma_withholding_lines_err_stays(b, wh@, i + 1);
                        reveal_strlit("withholding tax ");
                        reveal_strlit("amount out of range");
                        assert(e@[0] == 'w');
                        assert(out_of_range_message()[0] == 'a');
                    }
                    return Err(e);
                },
            }
        }
        i = i + 1;
    }
    proof {
        assert(wh@.take(i as int) =~= wh@);
        if bounded {
            assert(bank.val() * unit() * 100 == s.val() * unit() * 100 - b.val() * pct_total(
                select_kind(taxes@, true),
            ));
            assert(neg.val() == -s.val());
            assert((bank.val() + lines_total(lines@)) * (unit() * 100) == 0) by (nonlinear_arith)
                requires
                    bank.val() * unit() * 100 == s.val() * unit() * 100 - b.val() * pct_total(wh@),
                    lines_total(lines@) * unit() * 100 == neg.val() * unit() * 100 + b.val()
                        * pct_total(wh@),
                    neg.val() == -s.val(),
            ;
            crate::decimal::lemma_pow10_positive(28);
            assert(unit() * 100 > 0);
            assert(bank.val() + lines_total(lines@) == 0) by (nonlinear_arith)
                requires
                    (bank.val() + lines_total(lines@)) * (unit() * 100) == 0,
                    unit() * 100 > 0,
            ;
        }
        let sl = seq![JournalLineSpec { account_id: posted.account_receivable_id, amount: neg }];
        assert(lines@ =~= sl + lines@.drop_first());
    }
    Ok((bank, lines))
}

/// Once a prefix of the withholding lines fails, the whole run fails with
/// the same error.
proof fn lemma_withholding_lines_err_stays(base: Dec, s: Seq<Tax>, k: int)
    requires
        1 <= k <= s.len(),
        withholding_lines(base, s.take(k)) is Err,
    ensures
        withholding_lines(base, s) == withholding_lines(base, s.take(k)),
    decreases s.len() - k,
{
    if k < s.len() {
        assert(s.take(k + 1).drop_last() =~= s.take(k));
        lemma_withholding_lines_err_stays(base, s, k + 1);
    } else {
        assert(s.take(k) =~= s);
    }
}

/// The first checks of an allocation, before the invoice is looked up: an
/// invoice must be named and the amount must be positive.
pub fn check_allocation_request(posted_id: i64, amount: &Dec) -> (r: Result<(), String>)
    requires
        amount.wf(),
    ensures
        match r {
            Ok(_) => posted_id != 0 && amount.val() > 0,
            Err(e) => (posted_id == 0 && e@ == "posted invoice is required"@) || (posted_id != 0
                && amount.val() <= 0 && e@ == "amount must be positive"@),
        },
{
    if posted_id == 0 {
        return Err(String::from_str("posted invoice is required"));
    }
    let zero = dec_zero();
    if !decimal_lt(&zero, amount) {
        return Err(String::from_str("amount must be positive"));
    }
    Ok(())
}

/// The checks on the invoice's state: it exists, is not cancelled and is
/// not already fully paid (in that order).
pub fn check_allocation_state(found: bool, cancelled_count: u64, paid_count: u64) -> (r: Result<
    (),
    String,
>)
    ensures
        match r {
            Ok(_) => found && cancelled_count == 0 && paid_count == 0,
            Err(e) => (!found && e@ == "posted invoice not found"@) || (found && cancelled_count > 0
                && e@ == "cannot pay a cancelled invoice"@) || (found && cancelled_count == 0
                && paid_count > 0 && e@ == "invoice is already fully paid"@),
        },
{
    if !found {
        return Err(String::from_str("posted invoice not found"));
    }
    if cancelled_count > 0 {
        return Err(String::from_str("cannot pay a cancelled invoice"));
    }
    if paid_count > 0 {
        return Err(String::from_str("invoice is already fully paid"));
    }
    Ok(())
}

/// Whether an allocation of `amount`, on top of the payments already
/// applied, stays within the receivable total; `Ok(true)` when it settles
/// the invoice exactly.
pub open spec fn allocation_outcome_spec(amount: Dec, receivable_total: Dec, applied_sum: Dec) -> Result<
    bool,
    Seq<char>,
> {
    match decimal_checked_add(applied_sum, amount) {
        None => Err(out_of_range_message()),
        Some(after) => if after.val() > receivable_total.val() {
            Err("payment exceeds open balance"@)
        } else {
            Ok(after.val() == receivable_total.val())
        },
    }
}

/// The last check of an allocation: the payments applied so far plus this
/// amount may not exceed the receivable total; the result says whether the
/// invoice is then fully paid.
///
/// For stored amounts the sum is exact: the allocation is accepted exactly
/// when `applied + amount <= total`, and settles the invoice exactly when
/// they are equal.
pub fn allocation_outcome(amount: &Dec, receivable_total: &Dec, applied_sum: &Dec) -> (r: Result<
    bool,
    String,
>)
    requires
        amount.wf(),
        receivable_total.wf(),
        applied_sum.wf(),
    ensures
        match (r, allocation_outcome_spec(*amount, *receivable_total, *applied_sum)) {
            (Ok(full), Ok(sfull)) => full == sfull,
            (Err(e), Err(se)) => e@ == se,
            _ => false,
        },
        amount_ok(*amount) && amount_ok(*applied_sum) ==> match r {
            Ok(full) => applied_sum.val() + amount.val() <= receivable_total.val() && full == (
            applied_sum.val() + amount.val() == receivable_total.val()),
            Err(_) => applied_sum.val() + amount.val() > receivable_total.val(),
        },
{
    proof {
        if amount_ok(*amount) && amount_ok(*applied_sum) {
            crate::decimal::lemma_add_exact_within(
                *applied_sum,
                *amount,
                6,
                amount_bound(),
                amount_bound(),
            );
        }
    }
    let after = match decimal_add(applied_sum, amount) {
        Some(x) => x,
        None => return Err(String::from_str("amount out of range")),
    };
    if decimal_lt(receivable_total, &after) {
        return Err(String::from_str("payment exceeds open balance"));
    }
    Ok(decimal_eq(&after, receivable_total))
}

/// What is still owed on an invoice: receivable total less the payments.
pub fn open_balance(receivable_total: &Dec, applied_sum: &Dec) -> (r: Option<Dec>)
    requires
        receivable_total.wf(),
        applied_sum.wf(),
    ensures
        r == crate::decimal::decimal_checked_sub(*receivable_total, *applied_sum),
        r matches Some(x) ==> x.wf(),
        amount_ok(*receivable_total) && amount_ok(*applied_sum) ==> r is Some && r.unwrap().val()
            == receivable_total.val() - applied_sum.val(),
{
    proof {
        if amount_ok(*receivable_total) && amount_ok(*applied_sum) {
            crate::decimal::lemma_add_exact_within(
                *receivable_total,
                *applied_sum,
                6,
                amount_bound(),
                amount_bound(),
            );
        }
    }
    crate::decimal::decimal_sub(receivable_total, applied_sum)
}

/// Whether a posted invoice can still take a payment: it is neither
/// cancelled nor fully paid, and its open balance (when it could be
/// computed) is positive.
pub fn can_accept_payment(cancelled_count: u64, paid_count: u64, open: Option<Dec>) -> (r: bool)
    requires
        open matches Some(x) ==> x.wf(),
    ensures
        r == (cancelled_count == 0 && paid_count == 0 && open is Some && open.unwrap().val() > 0),
{
    if cancelled_count > 0 || paid_count > 0 {
        return false;
    }
    match open {
        Some(x) => {
            let zero = dec_zero();
            decimal_lt(&zero, &x)
        },
        None => false,
    }
}

/// The account a payment is booked to: the one requested when it is a
/// positive id, else the preference (0 when unset).
pub fn resolve_payment_account(requested: Option<i64>, preference: Option<i64>) -> (r: i64)
    ensures
        r == match requested {
            Some(id) if id > 0 => id,
            _ => match preference {
                Some(p) => p,
                None => 0,
            },
        },
{
    match requested {
        Some(id) => {
            if id > 0 {
                return id;
            }
        },
        None => {},
    }
    match preference {
        Some(p) => p,
        None => 0,
    }
}

/// A payment amount typed into a form: the trimmed text parsed as a decimal.
pub fn parse_payment_amount(s: &str) -> (r: Result<Dec, String>)
    ensures
        match r {
            Ok(d) => decimal_parse(trim(s@)) == Some(d) && d.wf(),
            Err(e) => decimal_parse(trim(s@)) is None && e@ == "invalid amount"@,
        },
{
    let t = trimmed(s);
    match decimal_from_str(t.as_str()) {
        Some(d) => Ok(d),
        None => Err(String::from_str("invalid amount")),
    }
}

/// The withholding tax ids of a payment form: the comma-separated pieces
/// that parse as positive integers, in order.
pub fn parse_withholding_tax_ids(s: &str) -> (r: Vec<i64>)
    ensures
        r@ == id_list(s@),
        forall|i: int| 0 <= i < r.len() ==> #[trigger] r@[i] > 0,
{
    parse_positive_id_list(s)
}

/// A payment to record, as read from the form.
pub struct CreatePaymentInput {
    pub posted_invoice_id: i64,
    pub amount: Dec,
    pub account_id: Option<i64>,
    /// Seconds since the Unix epoch; zero means "now".
    pub datetime: i64,
    pub withholding_tax_ids: Vec<i64>,
}

/// A recorded payment.
#[derive(Debug)]
pub struct Payment {
    pub id: i64,
    pub posted_invoice_id: i64,
    pub amount: Dec,
    pub account_id: i64,
    /// Seconds since the Unix epoch.
    pub datetime: i64,
    pub journal_entry_id: i64,
    pub payment_batch_id: Option<i64>,
}

/// The outcome of recording a payment.
pub struct CreatePaymentResult {
    pub payment: Payment,
    /// True when the payment fully settles the posted invoice.
    pub is_full: bool,
    pub settlement_id: i64,
}

} // verus!
