//! The journal entry of a posted invoice.
//!
//! Posting a draft books, line by line, the untaxed amount as a credit to
//! revenue, the levied tax as a credit to tax payable and each withholding
//! tax as a debit to its own account; then, for every line, the cost of the
//! goods as a debit to cost of sales and a credit to inventory; then the
//! document-level header taxes on the untaxed subtotal; and last the
//! receivable total as a debit to accounts receivable.  An entry is only
//! handed out once its exact total is checked to be zero; for bounded inputs
//! its receivable total is the exact net amount of the invoice.
use crate::decimal::{
    abs, decimal_add, decimal_checked_add, decimal_checked_mul, decimal_mul, dec_is_zero, dec_neg,
    dec_is_wf, dec_zero, mantissa_at6, lemma_add_exact_by_value, lemma_pow10_add, lemma_distrib, lemma_le_cancel, lemma_mul_exact_by_value, lemma_mul_le, lemma_pow10_positive,
    lemma_pow10_values, mul_exact, muls_and_divs_exactly, pow10, unit, within, zero_dec, Dec, MAX_MANTISSA,
};
use crate::logic::payment::{
    exact_lines_total, exact_total, lemma_lines_total_concat, lines_total, out_of_range_message, withholding_lines,
    JournalLineSpec,
};
use crate::logic::tax_calculations::{
    grand_total, has_account, header_net_pct, header_only, invoice_line_amount_breakdown,
    invoice_receivable_grand_total, is_withholding, line_bound, line_breakdown, line_ok,
    merge_invoice_line_tax_ids, missing_account_message, nonzero_ids, pct_bound, pct_sum, pct_total,
    pcts_ok, pcts_ok_check, select_kind, sum_tax_percents, tax_amount, tax_amount_for_tax, tax_amount_on_base,
    tax_inputs_ok, taxes_levied, taxes_wf, taxes_withholding, withholding_tax_account_id,
    InvoiceLinesTotals, Tax,
};
use std::collections::HashSet;
use vstd::prelude::*;

verus! {

broadcast use vstd::std_specs::hash::group_hash_axioms;

/// `-d`, same scale.
pub open spec fn neg(d: Dec) -> Dec {
    Dec { mantissa: (-d.mantissa) as i128, scale: d.scale }
}

/// `within` at some scale at most 20 with a bound whose product with the
/// percentage bound fits in 96 bits, and the taxes bounded.
pub open spec fn wl_ok(base: Dec, taxes: Seq<Tax>, s: nat, b: int) -> bool {
    &&& within(base, s, b)
    &&& s <= 20
    &&& b >= 0
    &&& b * pct_bound() <= MAX_MANTISSA
    &&& pcts_ok(taxes)
}

/// The withholding debit lines of `taxes` on `base` (see
/// `withholding_lines`).
///
/// For a bounded base and percentages they add up exactly to `base` times
/// the summed percentages over 100, and the only possible error is a
/// missing ledger account.
pub fn withholding_journal_lines(base: &Dec, taxes: &Vec<Tax>) -> (r: Result<Vec<JournalLineSpec>, String>)
    requires
        base.wf(),
        taxes_wf(taxes@),
    ensures
        match (r, withholding_lines(*base, taxes@)) {
            (Ok(v), Ok(sv)) => v@ == sv,
            (Err(e), Err(se)) => e@ == se,
            _ => false,
        },
        forall|s: nat, b: int|
            #![trigger within(*base, s, b)]
            wl_ok(*base, taxes@, s, b) ==> match r {
                Ok(v) => lines_total(v@) * unit() * 100 == base.val() * pct_total(taxes@),
                Err(e) => e@ != out_of_range_message(),
            },
{
    let ghost bounded = exists|s: nat, b: int| wl_ok(*base, taxes@, s, b);
    let ghost (ws, wb) = choose|s: nat, b: int| wl_ok(*base, taxes@, s, b);
    let mut lines: Vec<JournalLineSpec> = Vec::new();
    let mut i: usize = 0;
    proof {
        assert(taxes@.take(0) =~= Seq::<Tax>::empty());
        assert(pct_total(taxes@.take(0)) == 0);
        assert(base.val() * 0 == 0);
    }
    while i < taxes.len()
        invariant
            i <= taxes.len(),
            base.wf(),
            taxes_wf(taxes@),
            bounded ==> wl_ok(*base, taxes@, ws, wb),
            withholding_lines(*base, taxes@.take(i as int)) == Ok::<Seq<JournalLineSpec>, Seq<char>>(
                lines@,
            ),
            bounded ==> lines_total(lines@) * unit() * 100 == base.val() * pct_total(
                taxes@.take(i as int),
            ),
        decreases taxes.len() - i,
    {
        let ghost pre = taxes@.take(i as int);
        let ghost post = taxes@.take(i + 1);
        proof {
            assert(post.drop_last() =~= pre);
            assert(post.last() == taxes@[i as int]);
            assert(taxes@[i as int].percentage.wf());
            assert(pct_total(post) == pct_total(pre) + taxes@[i as int].percentage.val());
            if bounded {
                assert(within(taxes@[i as int].percentage, 6, pct_bound()));
                assert(tax_inputs_ok(*base, taxes@[i as int].percentage, ws, wb));
            }
        }
        let t = &taxes[i];
        let amt = tax_amount_for_tax(base, t);
        proof {
            if bounded {
                assert(within(*base, ws, wb));
                assert(amt is Some);
            }
        }
        let a = match amt {
            Some(a) => a,
            None => {
                proof {
                    lemma_withholding_lines_err_stays(*base, taxes@, i + 1);
                }
                return Err(String::from_str("amount out of range"));
            },
        };
        if dec_is_zero(&a) {
            proof {
                if bounded {
                    assert(base.val() * taxes@[i as int].percentage.val() == 0) by (nonlinear_arith)
                        requires
                            a.val() * unit() * 100 == base.val() * taxes@[i as int].percentage.val(),
                            a.val() == 0,
                    ;
                    assert(base.val() * pct_total(post) == base.val() * pct_total(pre)) by (
                    nonlinear_arith)
                        requires
                            pct_total(post) == pct_total(pre) + taxes@[i as int].percentage.val(),
                            base.val() * taxes@[i as int].percentage.val() == 0,
                    ;
                }
            }
        } else {
            match withholding_tax_account_id(t) {
                Ok(acct) => {
                    let ghost old_lines = lines@;
                    lines.push(JournalLineSpec { account_id: acct, amount: a });
                    proof {
                        assert(lines@.drop_last() =~= old_lines);
                        if bounded {
                            assert(lines_total(lines@) * unit() * 100 == base.val() * pct_total(post))
                                by (nonlinear_arith)
                                requires
                                    lines_total(lines@) == lines_total(old_lines) + a.val(),
                                    lines_total(old_lines) * unit() * 100 == base.val()
                                        * pct_total(pre),
                                    a.val() * unit() * 100 == base.val() * taxes@[i as int].percentage.val(),
                                    pct_total(post) == pct_total(pre) + taxes@[i as int].percentage.val(),
                            ;
                        }
                    }
                },
                Err(e) => {
                    proof {
                        lemma_withholding_lines_err_stays(*base, taxes@, i + 1);
                        reveal_strlit("withholding tax ");
                        reveal_strlit("amount out of range");
                        assert(e@[0] == 'w');
                        assert(out_of_range_message()[0] == 'a');
                    }
                    return Err(e);
                },
            }
        }
        i = i + 1;
    }
    proof {
        assert(taxes@.take(i as int) =~= taxes@);
    }
    Ok(lines)
}

proof fn lemma_withholding_lines_err_stays(base: Dec, s: Seq<Tax>, k: int)
    requires
        1 <= k <= s.len(),
        withholding_lines(base, s.take(k)) is Err,
    ensures
        withholding_lines(base, s) == withholding_lines(base, s.take(k)),
    decreases s.len() - k,
{
    if k < s.len() {
        assert(s.take(k + 1).drop_last() =~= s.take(k));
        lemma_withholding_lines_err_stays(base, s, k + 1);
    } else {
        assert(s.take(k) =~= s);
    }
}

/// One line of a draft being posted.
#[derive(Debug)]
pub struct PostingLine {
    pub product_id: i64,
    pub quantity: Dec,
    pub rate: Dec,
    pub taxes: Vec<Tax>,
    /// The product's unit cost.
    pub product_base_cost: Dec,
}

impl PostingLine {
    pub open spec fn wf(self) -> bool {
        &&& self.quantity.wf()
        &&& self.rate.wf()
        &&& self.product_base_cost.wf()
        &&& taxes_wf(self.taxes@)
    }
}

/// The ledger accounts a posting books to.
#[derive(Clone, Copy, Debug)]
pub struct PostingAccounts {
    pub receivable: i64,
    pub revenue: i64,
    pub tax_payable: i64,
    pub inventory: i64,
    pub cost_of_sales: i64,
}

/// The revenue, levied-tax and withholding lines of one invoice line.
pub open spec fn line_revenue_spec(line: PostingLine, accounts: PostingAccounts) -> Result<
    Seq<JournalLineSpec>,
    Seq<char>,
> {
    match decimal_checked_mul(line.quantity, line.rate) {
        None => Err(out_of_range_message()),
        Some(base) => match pct_sum(select_kind(line.taxes@, false)) {
            None => Err(out_of_range_message()),
            Some(lp) => match tax_amount(base, lp) {
                None => Err(out_of_range_message()),
                Some(lt) => {
                    let rev = seq![JournalLineSpec { account_id: accounts.revenue, amount: neg(base) }];
                    let tax = if lt.val() == 0 {
                        Seq::<JournalLineSpec>::empty()
                    } else {
                        seq![JournalLineSpec { account_id: accounts.tax_payable, amount: neg(lt) }]
                    };
                    match withholding_lines(base, select_kind(line.taxes@, true)) {
                        Err(e) => Err(e),
                        Ok(wl) => Ok(rev + tax + wl),
                    }
                },
            },
        },
    }
}

/// A line's net amount times `100 * unit()`: untaxed plus levied less
/// withholding, the taxes taken at their exact percentages.
pub open spec fn line_scaled_net(line: PostingLine) -> int {
    let u = decimal_checked_mul(line.quantity, line.rate).unwrap().val();
    u * unit() * 100 + u * pct_total(select_kind(line.taxes@, false)) - u * pct_total(
        select_kind(line.taxes@, true),
    )
}

proof fn lemma_single_total(x: JournalLineSpec)
    ensures
        lines_total(seq![x]) == x.amount.val(),
{
    let s = seq![x];
    assert(s.drop_last() =~= Seq::<JournalLineSpec>::empty());
    assert(s.len() == 1);
    assert(s.last() == x);
    assert(lines_total(s.drop_last()) == 0);
    assert(lines_total(s) == lines_total(s.drop_last()) + s.last().amount.val());
}

/// The revenue, levied-tax and withholding lines of one invoice line.
///
/// For a bounded line they sum to minus the line's net amount.
pub fn line_revenue_lines(line: &PostingLine, accounts: &PostingAccounts) -> (r: Result<
    Vec<JournalLineSpec>,
    String,
>)
    requires
        line.wf(),
    ensures
        match (r, line_revenue_spec(*line, *accounts)) {
            (Ok(v), Ok(sv)) => v@ == sv,
            (Err(e), Err(se)) => e@ == se,
            _ => false,
        },
        line_ok(line.quantity, line.rate, line.taxes@) ==> match r {
            Ok(v) => lines_total(v@) * unit() * 100 == -line_scaled_net(*line),
            Err(e) => e@ != out_of_range_message(),
        },
{
    let ghost bounded = line_ok(line.quantity, line.rate, line.taxes@);
    proof {
        crate::logic::tax_calculations::lemma_taxes_wf_select(line.taxes@, false);
        crate::logic::tax_calculations::lemma_taxes_wf_select(line.taxes@, true);
        lemma_pow10_values();
        if bounded {
            lemma_mul_exact_by_value(line.quantity, line.rate, line_bound());
            crate::logic::tax_calculations::lemma_pcts_ok_select(line.taxes@, false);
            crate::logic::tax_calculations::lemma_pcts_ok_select(line.taxes@, true);
        }
    }
    let base = match decimal_mul(&line.quantity, &line.rate) {
        Some(b) => b,
        None => return Err(String::from_str("amount out of range")),
    };
    proof {
        if bounded {
            assert(within(base, 12, line_bound()));
        }
    }
    let levied = taxes_levied(&line.taxes);
    let lp = match sum_tax_percents(&levied) {
        Some(p) => p,
        None => return Err(String::from_str("amount out of range")),
    };
    let lt = match tax_amount_on_base(&base, &lp) {
        Some(x) => x,
        None => return Err(String::from_str("amount out of range")),
    };
    let mut v: Vec<JournalLineSpec> = Vec::new();
    v.push(JournalLineSpec { account_id: accounts.revenue, amount: dec_neg(&base) });
    let ghost rev = v@;
    if !dec_is_zero(&lt) {
        v.push(JournalLineSpec { account_id: accounts.tax_payable, amount: dec_neg(&lt) });
    }
    let ghost head = v@;
    let wh = taxes_withholding(&line.taxes);
    proof {
        if bounded {
            assert(within(base, 12, line_bound()));
            assert(wl_ok(base, wh@, 12, line_bound()));
        }
    }
    let wl = match withholding_journal_lines(&base, &wh) {
        Ok(x) => x,
        Err(e) => return Err(e),
    };
    let mut k: usize = 0;
    while k < wl.len()
        invariant
            k <= wl.len(),
            v@ == head + wl@.take(k as int),
        decreases wl.len() - k,
    {
        v.push(wl[k]);
        proof {
            assert(v@ =~= head + wl@.take(k + 1));
        }
        k = k + 1;
    }
    proof {
        assert(wl@.take(k as int) =~= wl@);
        let tax_part = if lt.val() == 0 {
            Seq::<JournalLineSpec>::empty()
        } else {
            seq![JournalLineSpec { account_id: accounts.tax_payable, amount: neg(lt) }]
        };
        assert(head =~= rev + tax_part);
        if bounded {
            let u = base.val();
            let lpt = pct_total(select_kind(line.taxes@, false));
            let wpt = pct_total(select_kind(line.taxes@, true));
            lemma_lines_total_concat(head, wl@);
            lemma_lines_total_concat(rev, tax_part);
            lemma_single_total(rev[0]);
            assert(rev =~= seq![rev[0]]);
            if lt.val() != 0 {
                lemma_single_total(tax_part[0]);
                assert(tax_part =~= seq![tax_part[0]]);
            }
            assert(lines_total(tax_part) == -lt.val());
            assert(lines_total(rev) == -u);
            assert(lines_total(wl@) * unit() * 100 == u * wpt);
            assert(lt.val() * unit() * 100 == u * lpt);
            assert(lines_total(v@) * unit() * 100 == -line_scaled_net(*line)) by (nonlinear_arith)
                requires
                    lines_total(v@) == lines_total(rev) + lines_total(tax_part) + lines_total(wl@),
                    lines_total(rev) == -u,
                    lines_total(tax_part) == -lt.val(),
                    lines_total(wl@) * unit() * 100 == u * wpt,
                    lt.val() * unit() * 100 == u * lpt,
                    line_scaled_net(*line) == u * unit() * 100 + u * lpt - u * wpt,
            ;
        }
    }
    Ok(v)
}

/// Running totals over the lines: each line's breakdown added to the sums,
/// starting from zero.
pub open spec fn lines_totals_spec(lines: Seq<PostingLine>) -> Option<InvoiceLinesTotals>
    decreases lines.len(),
{
    if lines.len() == 0 {
        Some(InvoiceLinesTotals { untaxed_subtotal: zero_dec(), lines_levied: zero_dec(), lines_withholding: zero_dec() })
    } else {
        match lines_totals_spec(lines.drop_last()) {
            None => None,
            Some(t) => {
                let l = lines.last();
                match line_breakdown(l.quantity, l.rate, l.taxes@) {
                    None => None,
                    Some((u, lv, w, _)) => match (
                        decimal_checked_add(t.untaxed_subtotal, u),
                        decimal_checked_add(t.lines_levied, lv),
                        decimal_checked_add(t.lines_withholding, w),
                    ) {
                        (Some(a), Some(b), Some(c)) => Some(
                            InvoiceLinesTotals { untaxed_subtotal: a, lines_levied: b, lines_withholding: c },
                        ),
                        _ => None,
                    },
                }
            },
        }
    }
}

/// The non-zero tax ids carried by the lines.
pub open spec fn lines_tax_ids(lines: Seq<PostingLine>) -> Set<i64>
    decreases lines.len(),
{
    if lines.len() == 0 {
        Set::empty()
    } else {
        lines_tax_ids(lines.drop_last()).union(nonzero_ids(lines.last().taxes@))
    }
}

/// The sum of the magnitudes of the lines' `quantity * rate` (in `val`
/// units squared).
pub open spec fn product_magnitude(lines: Seq<PostingLine>) -> int
    decreases lines.len(),
{
    if lines.len() == 0 {
        0
    } else {
        product_magnitude(lines.drop_last()) + abs(lines.last().quantity.val() * lines.last().rate.val())
    }
}

/// The exact sum of the lines' untaxed amounts.
pub open spec fn untaxed_total(lines: Seq<PostingLine>) -> int
    decreases lines.len(),
{
    if lines.len() == 0 {
        0
    } else {
        untaxed_total(lines.drop_last()) + decimal_checked_mul(lines.last().quantity, lines.last().rate).unwrap().val()
    }
}

/// The exact sum of the lines' scaled net amounts.
pub open spec fn scaled_net_total(lines: Seq<PostingLine>) -> int
    decreases lines.len(),
{
    if lines.len() == 0 {
        0
    } else {
        scaled_net_total(lines.drop_last()) + line_scaled_net(lines.last())
    }
}

/// Every line is bounded, and so is the untaxed subtotal of all of them.
pub open spec fn lines_ok(lines: Seq<PostingLine>) -> bool {
    &&& forall|i: int|
        0 <= i < lines.len() ==> line_ok(#[trigger] lines[i].quantity, lines[i].rate, lines[i].taxes@)
    &&& product_magnitude(lines) <= line_bound() * pow10(44)
}

/// Whether the lines are bounded (`lines_ok`): six places at most in every
/// quantity and rate, stored percentages, and `quantity * rate` summing to
/// at most ten million in magnitude.
pub fn lines_ok_check(lines: &Vec<PostingLine>) -> (r: bool)
    ensures
        r == lines_ok(lines@),
{
    let mut sum: i128 = 0;
    let mut i: usize = 0;
    proof {
        assert(lines@.take(0) =~= Seq::<PostingLine>::empty());
        lemma_pow10_add(22, 22);
        lemma_pow10_positive(44);
        lemma_pow10_positive(22);
    }
    while i < lines.len()
        invariant
            i <= lines.len(),
            forall|k: int|
                0 <= k < i ==> line_ok(#[trigger] lines@[k].quantity, lines@[k].rate, lines@[k].taxes@),
            product_magnitude(lines@.take(i as int)) == sum * pow10(44),
            0 <= sum <= 10000000000000000000,
            pow10(44) == pow10(22) * pow10(22),
            pow10(44) > 0,
            pow10(22) > 0,
        decreases lines.len() - i,
    {
        let q = &lines[i].quantity;
        let rt = &lines[i].rate;
        if !dec_is_wf(q) || !dec_is_wf(rt) || q.scale > 6 || rt.scale > 6 {
            return false;
        }
        if !pcts_ok_check(&lines[i].taxes) {
            return false;
        }
        let mq = mantissa_at6(q);
        let mr = mantissa_at6(rt);
        let aq = if mq < 0 {
            -mq
        } else {
            mq
        };
        let ar = if mr < 0 {
            -mr
        } else {
            mr
        };
        proof {
            assert(q.val() * rt.val() == (mq * mr) * pow10(44)) by (nonlinear_arith)
                requires
                    q.val() == mq * pow10(22),
                    rt.val() == mr * pow10(22),
                    pow10(44) == pow10(22) * pow10(22),
            ;
            assert(abs(q.val() * rt.val()) == (aq * ar) * pow10(44)) by (nonlinear_arith)
                requires
                    q.val() * rt.val() == (mq * mr) * pow10(44),
                    aq == abs(mq as int),
                    ar == abs(mr as int),
                    pow10(44) > 0,
            ;
        }
        if aq != 0 && ar != 0 && (aq > 10000000000000000000 || ar > 10000000000000000000) {
            proof {
                assert(aq * ar > 10000000000000000000) by (nonlinear_arith)
                    requires
                        aq >= 1,
                        ar >= 1,
                        aq > 10000000000000000000 || ar > 10000000000000000000,
                ;
                assert((aq * ar) * pow10(44) > 10000000000000000000 * pow10(44)) by (nonlinear_arith)
                    requires
                        aq * ar > 10000000000000000000,
                        pow10(44) > 0,
                ;
            }
            return false;
        }
        proof {
            assert(aq * ar <= 100000000000000000000000000000000000000) by (nonlinear_arith)
                requires
                    0 <= aq,
                    0 <= ar,
                    aq == 0 || ar == 0 || (aq <= 10000000000000000000 && ar <= 10000000000000000000),
            ;
        }
        let p = aq * ar;
        if p > 10000000000000000000 {
            proof {
                assert(p * pow10(44) > 10000000000000000000 * pow10(44)) by (nonlinear_arith)
                    requires
                        p > 10000000000000000000,
                        pow10(44) > 0,
                ;
            }
            return false;
        }
        proof {
            assert(lines@.take(i + 1).drop_last() =~= lines@.take(i as int));
            assert(lines@.take(i + 1).last() == lines@[i as int]);
            assert(product_magnitude(lines@.take(i + 1)) == (sum + p) * pow10(44)) by (nonlinear_arith)
                requires
                    product_magnitude(lines@.take(i + 1)) == sum * pow10(44) + p * pow10(44),
            ;
            assert(p * pow10(44) <= 10000000000000000000 * pow10(44)) by (nonlinear_arith)
                requires
                    p <= 10000000000000000000,
                    pow10(44) > 0,
            ;
        }
        sum = sum + p;
        if sum > 10000000000000000000 {
            proof {
                lemma_product_magnitude_prefix(lines@, i + 1);
                assert(sum * pow10(44) > 10000000000000000000 * pow10(44)) by (nonlinear_arith)
                    requires
                        sum > 10000000000000000000,
                        pow10(44) > 0,
                ;
            }
            return false;
        }
        i = i + 1;
    }
    proof {
        assert(lines@.take(i as int) =~= lines@);
        assert(sum * pow10(44) <= 10000000000000000000 * pow10(44)) by (nonlinear_arith)
            requires
                sum <= 10000000000000000000,
                pow10(44) > 0,
        ;
    }
    true
}

proof fn lemma_product_magnitude_prefix(lines: Seq<PostingLine>, k: int)
    requires
        0 <= k <= lines.len(),
    ensures
        product_magnitude(lines.take(k)) <= product_magnitude(lines),
        product_magnitude(lines.take(k)) >= 0,
    decreases lines.len() - k,
{
    if k < lines.len() {
        lemma_product_magnitude_prefix(lines, k + 1);
        assert(lines.take(k + 1).drop_last() =~= lines.take(k));
    } else {
        assert(lines.take(k) =~= lines);
    }
    lemma_product_magnitude_nonneg(lines.take(k));
}

proof fn lemma_product_magnitude_nonneg(lines: Seq<PostingLine>)
    ensures
        product_magnitude(lines) >= 0,
    decreases lines.len(),
{
    if lines.len() > 0 {
        lemma_product_magnitude_nonneg(lines.drop_last());
    }
}

/// The running sums of `invoice_lines_totals` stay within 96 bits: `ua`,
/// `la`, `wa` are the magnitudes of the sums so far, `u`, `l`, `w` those of
/// the next line, `pm` and `m` the product magnitudes of the lines so far and
/// of the next line.
proof fn lemma_running_bounds(ua: int, u: int, la: int, l: int, wa: int, w: int, pm: int, m: int)
    requires
        ua >= 0,
        u >= 0,
        la >= 0,
        l >= 0,
        wa >= 0,
        w >= 0,
        pm >= 0,
        m >= 0,
        ua * unit() <= pm,
        u * unit() == m,
        la * unit() * unit() * 100 <= pm * pct_bound() * pow10(22),
        l * unit() * unit() * 100 <= m * pct_bound() * pow10(22),
        wa * unit() * unit() * 100 <= pm * pct_bound() * pow10(22),
        w * unit() * unit() * 100 <= m * pct_bound() * pow10(22),
        pm + m <= line_bound() * pow10(44),
    ensures
        ua + u <= MAX_MANTISSA * pow10(16),
        la + l <= MAX_MANTISSA * pow10(8),
        wa + w <= MAX_MANTISSA * pow10(8),
{
    lemma_pow10_values();
    let ut = unit();
    let pb = pct_bound() * pow10(22);
    assert(pb == 10000000000000000000000000000000);
    assert(ua + u <= MAX_MANTISSA * pow10(16)) by (nonlinear_arith)
        requires
            ua * ut <= pm,
            u * ut == m,
            pm + m <= 10000000000000000000 * 100000000000000000000000000000000000000000000,
            ut == 10000000000000000000000000000,
            pow10(16) == 10000000000000000,
            MAX_MANTISSA == 79228162514264337593543950335i128,
    ;
    assert(la + l <= MAX_MANTISSA * pow10(8)) by (nonlinear_arith)
        requires
            la * ut * ut * 100 <= pm * pb,
            l * ut * ut * 100 <= m * pb,
            pm + m <= 10000000000000000000 * 100000000000000000000000000000000000000000000,
            ut == 10000000000000000000000000000,
            pb == 10000000000000000000000000000000,
            pow10(8) == 100000000,
            MAX_MANTISSA == 79228162514264337593543950335i128,
            pm >= 0,
            m >= 0,
    ;
    assert(wa + w <= MAX_MANTISSA * pow10(8)) by (nonlinear_arith)
        requires
            wa * ut * ut * 100 <= pm * pb,
            w * ut * ut * 100 <= m * pb,
            pm + m <= 10000000000000000000 * 100000000000000000000000000000000000000000000,
            ut == 10000000000000000000000000000,
            pb == 10000000000000000000000000000000,
            pow10(8) == 100000000,
            MAX_MANTISSA == 79228162514264337593543950335i128,
            pm >= 0,
            m >= 0,
    ;
}

/// At the end of `invoice_lines_totals` the sums are bounded at their scales.
proof fn lemma_final_bounds(ua: int, la: int, wa: int, pm: int)
    requires
        ua >= 0,
        la >= 0,
        wa >= 0,
        pm >= 0,
        ua * unit() <= pm,
        la * unit() * unit() * 100 <= pm * pct_bound() * pow10(22),
        wa * unit() * unit() * 100 <= pm * pct_bound() * pow10(22),
        pm <= line_bound() * pow10(44),
    ensures
        ua <= line_bound() * pow10(16),
        la <= line_bound() * pct_bound() * pow10(8),
        wa <= line_bound() * pct_bound() * pow10(8),
{
    lemma_pow10_values();
    let ut = unit();
    let pb = pct_bound() * pow10(22);
    assert(pb == 10000000000000000000000000000000);
    assert(ua <= line_bound() * pow10(16)) by (nonlinear_arith)
        requires
            ua * ut <= pm,
            pm <= 10000000000000000000 * 100000000000000000000000000000000000000000000,
            ut == 10000000000000000000000000000,
            pow10(16) == 10000000000000000,
            line_bound() == 10000000000000000000,
    ;
    assert(la <= line_bound() * pct_bound() * pow10(8)) by (nonlinear_arith)
        requires
            la * ut * ut * 100 <= pm * pb,
            pm <= 10000000000000000000 * 100000000000000000000000000000000000000000000,
            ut == 10000000000000000000000000000,
            pb == 10000000000000000000000000000000,
            pow10(8) == 100000000,
            line_bound() == 10000000000000000000,
            pct_bound() == 1000000000,
            pm >= 0,
    ;
    assert(wa <= line_bound() * pct_bound() * pow10(8)) by (nonlinear_arith)
        requires
            wa * ut * ut * 100 <= pm * pb,
            pm <= 10000000000000000000 * 100000000000000000000000000000000000000000000,
            ut == 10000000000000000000000000000,
            pb == 10000000000000000000000000000000,
            pow10(8) == 100000000,
            line_bound() == 10000000000000000000,
            pct_bound() == 1000000000,
            pm >= 0,
    ;
}

/// The totals of the lines and the tax ids they carry.
///
/// For bounded lines the sums are exact: the untaxed subtotal is the sum
/// of the untaxed amounts, untaxed plus levied less withholding is the sum
/// of the lines' net amounts, and the totals are `bounded`.
pub fn invoice_lines_totals(lines: &Vec<PostingLine>) -> (r: Option<(InvoiceLinesTotals, HashSet<i64>)>)
    requires
        forall|i: int| 0 <= i < lines.len() ==> (#[trigger] lines@[i]).wf(),
    ensures
        match (r, lines_totals_spec(lines@)) {
            (Some((t, ids)), Some(st)) => t == st && ids@ == lines_tax_ids(lines@),
            (None, None) => true,
            _ => false,
        },
        r matches Some((t, _)) ==> t.wf(),
        lines_ok(lines@) ==> r is Some && ({
            let t = r.unwrap().0;
            &&& t.bounded()
            &&& t.untaxed_subtotal.val() == untaxed_total(lines@)
            &&& (t.untaxed_subtotal.val() + t.lines_levied.val() - t.lines_withholding.val()) * unit()
                * 100 == scaled_net_total(lines@)
        }),
{
    let ghost bounded = lines_ok(lines@);
    let mut totals = InvoiceLinesTotals {
        untaxed_subtotal: dec_zero(),
        lines_levied: dec_zero(),
        lines_withholding: dec_zero(),
    };
    let mut ids: HashSet<i64> = HashSet::new();
    let mut i: usize = 0;
    proof {
        lemma_pow10_values();
        assert(lines@.take(0) =~= Seq::<PostingLine>::empty());
        assert(ids@ =~= lines_tax_ids(lines@.take(0)));
        assert(untaxed_total(lines@.take(0)) == 0);
        assert(scaled_net_total(lines@.take(0)) == 0);
        assert(product_magnitude(lines@.take(0)) == 0);
        assert(totals.untaxed_subtotal.val() == 0);
        assert(totals.lines_levied.val() == 0);
        assert(totals.lines_withholding.val() == 0);
    }
    while i < lines.len()
        invariant
            i <= lines.len(),
            forall|k: int| 0 <= k < lines.len() ==> (#[trigger] lines@[k]).wf(),
            bounded == lines_ok(lines@),
            totals.wf(),
            lines_totals_spec(lines@.take(i as int)) == Some(totals),
            ids@ == lines_tax_ids(lines@.take(i as int)),
            bounded ==> totals.untaxed_subtotal.val() == untaxed_total(lines@.take(i as int))
                && (totals.untaxed_subtotal.val() + totals.lines_levied.val()
                - totals.lines_withholding.val()) * unit() * 100 == scaled_net_total(
                lines@.take(i as int),
            ) && totals.untaxed_subtotal.scale <= 12 && totals.lines_levied.scale <= 20
                && totals.lines_withholding.scale <= 20 && abs(totals.untaxed_subtotal.val())
                * unit() <= product_magnitude(lines@.take(i as int)) && abs(totals.lines_levied.val())
                * unit() * unit() * 100 <= product_magnitude(lines@.take(i as int)) * pct_bound()
                * pow10(22) && abs(totals.lines_withholding.val()) * unit() * unit() * 100
                <= product_magnitude(lines@.take(i as int)) * pct_bound() * pow10(22),
        decreases lines.len() - i,
    {
        let line = &lines[i];
        let ghost pre = lines@.take(i as int);
        let ghost post = lines@.take(i + 1);
        proof {
            lemma_pow10_values();
            assert(post.drop_last() =~= pre);
            assert(post.last() == lines@[i as int]);
            if bounded {
                assert(line_ok(lines@[i as int].quantity, lines@[i as int].rate, lines@[i as int].taxes@));
                lemma_product_magnitude_prefix(lines@, i + 1);
            }
        }
        let parts = match invoice_line_amount_breakdown(&line.quantity, &line.rate, &line.taxes) {
            Some(p) => p,
            None => {
                proof {
                    lemma_totals_none_stays(lines@, i + 1);
                }
                return None;
            },
        };
        let (u, lv, w, _n) = parts;
        proof {
            if bounded {
                let m = abs(line.quantity.val() * line.rate.val());
                let pm = product_magnitude(pre);
                assert(product_magnitude(post) == pm + m);
                assert(abs(u.val()) * unit() == m) by (nonlinear_arith)
                    requires
                        u.val() * unit() == line.quantity.val() * line.rate.val(),
                        m == abs(line.quantity.val() * line.rate.val()),
                        unit() > 0,
                ;
                let lpt = pct_total(select_kind(line.taxes@, false));
                let wpt = pct_total(select_kind(line.taxes@, true));
                crate::logic::tax_calculations::lemma_pcts_ok_select(line.taxes@, false);
                crate::logic::tax_calculations::lemma_pcts_ok_select(line.taxes@, true);
                crate::logic::tax_calculations::lemma_pct_magnitude_bounds(select_kind(line.taxes@, false));
                crate::logic::tax_calculations::lemma_pct_magnitude_bounds(select_kind(line.taxes@, true));
                assert(abs(lv.val()) * unit() * unit() * 100 <= m * pct_bound() * pow10(22)) by (
                nonlinear_arith)
                    requires
                        lv.val() * unit() * 100 == u.val() * lpt,
                        abs(u.val()) * unit() == m,
                        abs(lpt) <= pct_bound() * pow10(22),
                        unit() > 0,
                        m >= 0,
                ;
                assert(abs(w.val()) * unit() * unit() * 100 <= m * pct_bound() * pow10(22)) by (
                nonlinear_arith)
                    requires
                        w.val() * unit() * 100 == u.val() * wpt,
                        abs(u.val()) * unit() == m,
                        abs(wpt) <= pct_bound() * pow10(22),
                        unit() > 0,
                        m >= 0,
                ;
                assert(pm + m <= line_bound() * pow10(44));
                lemma_running_bounds(
                    abs(totals.untaxed_subtotal.val()),
                    abs(u.val()),
                    abs(totals.lines_levied.val()),
                    abs(lv.val()),
                    abs(totals.lines_withholding.val()),
                    abs(w.val()),
                    pm,
                    m,
                );
                lemma_add_exact_by_value(totals.untaxed_subtotal, u, 12);
                lemma_add_exact_by_value(totals.lines_levied, lv, 20);
                lemma_add_exact_by_value(totals.lines_withholding, w, 20);
            }
        }
        let a = match decimal_add(&totals.untaxed_subtotal, &u) {
            Some(x) => x,
            None => {
                proof {
                    lemma_totals_none_stays(lines@, i + 1);
                }
                return None;
            },
        };
        let b = match decimal_add(&totals.lines_levied, &lv) {
            Some(x) => x,
            None => {
                proof {
                    lemma_totals_none_stays(lines@, i + 1);
                }
                return None;
            },
        };
        let c = match decimal_add(&totals.lines_withholding, &w) {
            Some(x) => x,
            None => {
                proof {
                    lemma_totals_none_stays(lines@, i + 1);
                }
                return None;
            },
        };
        let ghost old_totals = totals;
        totals = InvoiceLinesTotals { untaxed_subtotal: a, lines_levied: b, lines_withholding: c };
        merge_invoice_line_tax_ids(&mut ids, &line.taxes);
        proof {
            if bounded {
                let m = abs(line.quantity.val() * line.rate.val());
                let pm = product_magnitude(pre);
                assert(untaxed_total(post) == untaxed_total(pre) + u.val());
                assert(scaled_net_total(post) == scaled_net_total(pre) + line_scaled_net(lines@[i as int]));
                let lpt = pct_total(select_kind(line.taxes@, false));
                let wpt = pct_total(select_kind(line.taxes@, true));
                assert(line_scaled_net(lines@[i as int]) == u.val() * unit() * 100 + u.val() * lpt
                    - u.val() * wpt);
                assert((a.val() + b.val() - c.val()) * unit() * 100 == scaled_net_total(post)) by (
                nonlinear_arith)
                    requires
                        a.val() == old_totals.untaxed_subtotal.val() + u.val(),
                        b.val() == old_totals.lines_levied.val() + lv.val(),
                        c.val() == old_totals.lines_withholding.val() + w.val(),
                        (old_totals.untaxed_subtotal.val() + old_totals.lines_levied.val()
                            - old_totals.lines_withholding.val()) * unit() * 100 == scaled_net_total(pre),
                        lv.val() * unit() * 100 == u.val() * lpt,
                        w.val() * unit() * 100 == u.val() * wpt,
                        scaled_net_total(post) == scaled_net_total(pre) + (u.val() * unit() * 100
                            + u.val() * lpt - u.val() * wpt),
                ;
                assert(abs(a.val()) * unit() <= pm + m) by (nonlinear_arith)
                    requires
                        a.val() == old_totals.untaxed_subtotal.val() + u.val(),
                        abs(old_totals.untaxed_subtotal.val()) * unit() <= pm,
                        abs(u.val()) * unit() == m,
                        unit() > 0,
                ;
                assert(abs(b.val()) * unit() * unit() * 100 <= (pm + m) * pct_bound() * pow10(22)) by (
                nonlinear_arith)
                    requires
                        b.val() == old_totals.lines_levied.val() + lv.val(),
                        abs(old_totals.lines_levied.val()) * unit() * unit() * 100 <= pm * pct_bound()
                            * pow10(22),
                        abs(lv.val()) * unit() * unit() * 100 <= m * pct_bound() * pow10(22),
                        unit() > 0,
                ;
                assert(abs(c.val()) * unit() * unit() * 100 <= (pm + m) * pct_bound() * pow10(22)) by (
                nonlinear_arith)
                    requires
                        c.val() == old_totals.lines_withholding.val() + w.val(),
                        abs(old_totals.lines_withholding.val()) * unit() * unit() * 100 <= pm
                            * pct_bound() * pow10(22),
                        abs(w.val()) * unit() * unit() * 100 <= m * pct_bound() * pow10(22),
                        unit() > 0,
                ;
            }
            assert(ids@ =~= lines_tax_ids(post));
        }
        i = i + 1;
    }
    proof {
        lemma_pow10_values();
        assert(lines@.take(i as int) =~= lines@);
        if bounded {
            let pm = product_magnitude(lines@);
            lemma_product_magnitude_nonneg(lines@);
            lemma_final_bounds(
                abs(totals.untaxed_subtotal.val()),
                abs(totals.lines_levied.val()),
                abs(totals.lines_withholding.val()),
                pm,
            );
        }
    }
    Some((totals, ids))
}

proof fn lemma_totals_none_stays(lines: Seq<PostingLine>, k: int)
    requires
        1 <= k <= lines.len(),
        lines_totals_spec(lines.take(k - 1)) is Some,
        ({
            let t = lines_totals_spec(lines.take(k - 1)).unwrap();
            let l = lines[k - 1];
            match line_breakdown(l.quantity, l.rate, l.taxes@) {
                None => true,
                Some((u, lv, w, _)) => decimal_checked_add(t.untaxed_subtotal, u) is None
                    || decimal_checked_add(t.lines_levied, lv) is None || decimal_checked_add(
                    t.lines_withholding,
                    w,
                ) is None,
            }
        }),
    ensures
        lines_totals_spec(lines) is None,
    decreases lines.len() - k,
{
    assert(lines.take(k).drop_last() =~= lines.take(k - 1));
    assert(lines.take(k).last() == lines[k - 1]);
    assert(lines_totals_spec(lines.take(k)) is None);
    lemma_totals_none_from(lines, k);
}

proof fn lemma_totals_none_from(lines: Seq<PostingLine>, k: int)
    requires
        1 <= k <= lines.len(),
        lines_totals_spec(lines.take(k)) is None,
    ensures
        lines_totals_spec(lines) is None,
    decreases lines.len() - k,
{
    if k < lines.len() {
        assert(lines.take(k + 1).drop_last() =~= lines.take(k));
        lemma_totals_none_from(lines, k + 1);
    } else {
        assert(lines.take(k) =~= lines);
    }
}

/// The lines of the document-level header taxes on the untaxed subtotal:
/// withholding taxes debit their own account, levied taxes credit tax
/// payable, zero amounts book nothing.
pub open spec fn header_lines_spec(subtotal: Dec, doc: Seq<Tax>, tax_payable: i64) -> Result<
    Seq<JournalLineSpec>,
    Seq<char>,
>
    decreases doc.len(),
{
    if doc.len() == 0 {
        Ok(Seq::empty())
    } else {
        match header_lines_spec(subtotal, doc.drop_last(), tax_payable) {
            Err(e) => Err(e),
            Ok(prev) => {
                let t = doc.last();
                match tax_amount(subtotal, t.percentage) {
                    None => Err(out_of_range_message()),
                    Some(a) => if a.val() == 0 {
                        Ok(prev)
                    } else if is_withholding(t) {
                        if has_account(t) {
                            Ok(prev.push(JournalLineSpec { account_id: t.account_id.unwrap(), amount: a }))
                        } else {
                            Err(missing_account_message(t))
                        }
                    } else {
                        Ok(prev.push(JournalLineSpec { account_id: tax_payable, amount: neg(a) }))
                    },
                }
            },
        }
    }
}

proof fn lemma_header_lines_err_stays(subtotal: Dec, s: Seq<Tax>, tp: i64, k: int)
    requires
        1 <= k <= s.len(),
        header_lines_spec(subtotal, s.take(k), tp) is Err,
    ensures
        header_lines_spec(subtotal, s, tp) == header_lines_spec(subtotal, s.take(k), tp),
    decreases s.len() - k,
{
    if k < s.len() {
        assert(s.take(k + 1).drop_last() =~= s.take(k));
        lemma_header_lines_err_stays(subtotal, s, tp, k + 1);
    } else {
        assert(s.take(k) =~= s);
    }
}

/// The journal lines of the document-level header taxes.
///
/// For a bounded subtotal and percentages they sum to the subtotal times
/// (withholding % - levied %) over 100.
fn header_journal_lines(subtotal: &Dec, doc: &Vec<Tax>, tax_payable: i64) -> (r: Result<
    Vec<JournalLineSpec>,
    String,
>)
    requires
        subtotal.wf(),
        taxes_wf(doc@),
    ensures
        match (r, header_lines_spec(*subtotal, doc@, tax_payable)) {
            (Ok(v), Ok(sv)) => v@ == sv,
            (Err(e), Err(se)) => e@ == se,
            _ => false,
        },
        within(*subtotal, 12, line_bound()) && pcts_ok(doc@) ==> match r {
            Ok(v) => lines_total(v@) * unit() * 100 == subtotal.val() * (pct_total(
                select_kind(doc@, true),
            ) - pct_total(select_kind(doc@, false))),
            Err(e) => e@ != out_of_range_message(),
        },
{
    let ghost bounded = within(*subtotal, 12, line_bound()) && pcts_ok(doc@);
    let mut lines: Vec<JournalLineSpec> = Vec::new();
    let mut i: usize = 0;
    proof {
        assert(doc@.take(0) =~= Seq::<Tax>::empty());
        assert(pct_total(select_kind(doc@.take(0), true)) == 0);
        assert(pct_total(select_kind(doc@.take(0), false)) == 0);
        assert(subtotal.val() * (0 - 0) == 0);
    }
    while i < doc.len()
        invariant
            i <= doc.len(),
            subtotal.wf(),
            taxes_wf(doc@),
            bounded == (within(*subtotal, 12, line_bound()) && pcts_ok(doc@)),
            header_lines_spec(*subtotal, doc@.take(i as int), tax_payable) == Ok::<
                Seq<JournalLineSpec>,
                Seq<char>,
            >(lines@),
            bounded ==> lines_total(lines@) * unit() * 100 == subtotal.val() * (pct_total(
                select_kind(doc@.take(i as int), true),
            ) - pct_total(select_kind(doc@.take(i as int), false))),
        decreases doc.len() - i,
    {
        let ghost pre = doc@.take(i as int);
        let ghost post = doc@.take(i + 1);
        proof {
            assert(post.drop_last() =~= pre);
            assert(post.last() == doc@[i as int]);
            assert(doc@[i as int].percentage.wf());
            crate::logic::tax_calculations::lemma_select_kind_step(doc@, i as int, true);
            crate::logic::tax_calculations::lemma_select_kind_step(doc@, i as int, false);
            if bounded {
                assert(within(doc@[i as int].percentage, 6, pct_bound()));
                assert(tax_inputs_ok(*subtotal, doc@[i as int].percentage, 12, line_bound()));
            }
        }
        let t = &doc[i];
        let amt = tax_amount_for_tax(subtotal, t);
        proof {
            if bounded {
                assert(within(*subtotal, 12, line_bound()));
                assert(amt is Some);
            }
        }
        let a = match amt {
            Some(a) => a,
            None => {
                proof {
                    lemma_header_lines_err_stays(*subtotal, doc@, tax_payable, i + 1);
                }
                return Err(String::from_str("amount out of range"));
            },
        };
        let ghost p = doc@[i as int].percentage.val();
        let ghost tw = pct_total(select_kind(pre, true));
        let ghost tl = pct_total(select_kind(pre, false));
        let ghost old_lines = lines@;
        if dec_is_zero(&a) {
            proof {
                if bounded {
                    assert(subtotal.val() * p == 0) by (nonlinear_arith)
                        requires
                            a.val() * unit() * 100 == subtotal.val() * p,
                            a.val() == 0,
                    ;
                    if is_withholding(doc@[i as int]) {
                        assert(subtotal.val() * ((tw + p) - tl) == subtotal.val() * (tw - tl)) by (
                        nonlinear_arith)
                            requires
                                subtotal.val() * p == 0,
                        ;
                    } else {
                        assert(subtotal.val() * (tw - (tl + p)) == subtotal.val() * (tw - tl)) by (
                        nonlinear_arith)
                            requires
                                subtotal.val() * p == 0,
                        ;
                    }
                }
            }
        } else {
            let is_wh = match t.tax_type {
                crate::logic::tax_calculations::TaxKind::Withholding => true,
                crate::logic::tax_calculations::TaxKind::Levied => false,
            };
            if is_wh {
                match withholding_tax_account_id(t) {
                    Ok(acct) => {
                        lines.push(JournalLineSpec { account_id: acct, amount: a });
                        proof {
                            assert(lines@.drop_last() =~= old_lines);
                            if bounded {
                                assert(lines_total(lines@) * unit() * 100 == subtotal.val() * ((tw + p)
                                    - tl)) by (nonlinear_arith)
                                    requires
                                        lines_total(lines@) == lines_total(old_lines) + a.val(),
                                        lines_total(old_lines) * unit() * 100 == subtotal.val() * (tw
                                            - tl),
                                        a.val() * unit() * 100 == subtotal.val() * p,
                                ;
                            }
                        }
                    },
                    Err(e) => {
                        proof {
                            lemma_header_lines_err_stays(*subtotal, doc@, tax_payable, i + 1);
                            reveal_strlit("withholding tax ");
                            reveal_strlit("amount out of range");
                            assert(e@[0] == 'w');
                            assert(out_of_range_message()[0] == 'a');
                        }
                        return Err(e);
                    },
                }
            } else {
                let n = dec_neg(&a);
                lines.push(JournalLineSpec { account_id: tax_payable, amount: n });
                proof {
                    assert(lines@.drop_last() =~= old_lines);
                    if bounded {
                        assert(lines_total(lines@) * unit() * 100 == subtotal.val() * (tw - (tl + p)))
                            by (nonlinear_arith)
                            requires
                                lines_total(lines@) == lines_total(old_lines) - a.val(),
                                lines_total(old_lines) * unit() * 100 == subtotal.val() * (tw - tl),
                                a.val() * unit() * 100 == subtotal.val() * p,
                        ;
                    }
                }
            }
        }
        i = i + 1;
    }
    proof {
        assert(doc@.take(i as int) =~= doc@);
    }
    Ok(lines)
}

/// The revenue section of the journal: every line's revenue lines in turn,
/// with the index of each line's revenue line.
pub open spec fn revenue_section(lines: Seq<PostingLine>, accounts: PostingAccounts) -> Result<
    (Seq<JournalLineSpec>, Seq<usize>),
    Seq<char>,
>
    decreases lines.len(),
{
    if lines.len() == 0 {
        Ok((Seq::empty(), Seq::empty()))
    } else {
        match revenue_section(lines.drop_last(), accounts) {
            Err(e) => Err(e),
            Ok((sp, idx)) => match line_revenue_spec(lines.last(), accounts) {
                Err(e) => Err(e),
                Ok(v) => Ok((sp + v, idx.push(sp.len() as usize))),
            },
        }
    }
}

/// The cost section: for every line, its cost (`base cost * quantity`)
/// debited to cost of sales and credited to inventory.
pub open spec fn cost_section(lines: Seq<PostingLine>, accounts: PostingAccounts) -> Result<
    Seq<JournalLineSpec>,
    Seq<char>,
>
    decreases lines.len(),
{
    if lines.len() == 0 {
        Ok(Seq::empty())
    } else {
        match cost_section(lines.drop_last(), accounts) {
            Err(e) => Err(e),
            Ok(sp) => match decimal_checked_mul(lines.last().product_base_cost, lines.last().quantity) {
                None => Err(out_of_range_message()),
                Some(c) => Ok(
                    sp + seq![
                        JournalLineSpec { account_id: accounts.cost_of_sales, amount: c },
                        JournalLineSpec { account_id: accounts.inventory, amount: neg(c) },
                    ],
                ),
            },
        }
    }
}

proof fn lemma_revenue_section_lines(lines: Seq<PostingLine>, a: PostingAccounts)
    ensures
        revenue_section(lines, a) is Ok && revenue_section(lines, a)->Ok_0.0.len() <= usize::MAX ==> ({
            let rev = revenue_section(lines, a)->Ok_0.0;
            let idx = revenue_section(lines, a)->Ok_0.1;
            &&& idx.len() == lines.len()
            &&& forall|k: int|
                0 <= k < lines.len() ==> idx[k] < rev.len() && decimal_checked_mul(
                    #[trigger] lines[k].quantity,
                    lines[k].rate,
                ) is Some && rev[idx[k] as int] == JournalLineSpec {
                    account_id: a.revenue,
                    amount: neg(decimal_checked_mul(lines[k].quantity, lines[k].rate).unwrap()),
                }
        }),
    decreases lines.len(),
{
    if lines.len() > 0 && revenue_section(lines, a) is Ok && revenue_section(lines, a)->Ok_0.0.len() <= usize::MAX {
        let t = lines.drop_last();
        lemma_revenue_section_lines(t, a);
        let rev = revenue_section(lines, a)->Ok_0.0;
        let idx = revenue_section(lines, a)->Ok_0.1;
        let sp = revenue_section(t, a)->Ok_0.0;
        let pidx = revenue_section(t, a)->Ok_0.1;
        let v = line_revenue_spec(lines.last(), a)->Ok_0;
        assert(rev == sp + v);
        assert forall|k: int|
            0 <= k < lines.len() implies idx[k] < rev.len() && decimal_checked_mul(
                #[trigger] lines[k].quantity,
                lines[k].rate,
            ) is Some && rev[idx[k] as int] == JournalLineSpec {
                account_id: a.revenue,
                amount: neg(decimal_checked_mul(lines[k].quantity, lines[k].rate).unwrap()),
            } by {
            if k < t.len() {
                assert(lines[k] == t[k]);
                assert(idx[k] == pidx[k]);
            } else {
                assert(lines[k] == lines.last());
                assert(idx[k] == sp.len());
            }
        }
    }
}

/// Every invoice line's untaxed amount, `quantity * rate` as rust_decimal
/// multiplies them, is credited to revenue at the position the journal
/// records for that line; when rust_decimal multiplies exactly where it can
/// and the product does not round, the credit is exactly
/// `-(quantity * rate)`.
pub proof fn lemma_posting_revenue_lines(lines: Seq<PostingLine>, header: Seq<Tax>, a: PostingAccounts)
    ensures
        posting_spec(lines, header, a) is Ok && posting_spec(lines, header, a)->Ok_0.0.len() <= usize::MAX ==> ({
            let sp = posting_spec(lines, header, a)->Ok_0.0;
            let idx = posting_spec(lines, header, a)->Ok_0.1;
            &&& idx.len() == lines.len()
            &&& forall|k: int|
                0 <= k < lines.len() ==> idx[k] < sp.len() && sp[idx[k] as int].account_id == a.revenue
                    && decimal_checked_mul(#[trigger] lines[k].quantity, lines[k].rate) is Some && sp[idx[k] as int].amount
                    == neg(decimal_checked_mul(lines[k].quantity, lines[k].rate).unwrap()) && (muls_and_divs_exactly() && lines[k].quantity.wf() && lines[k].rate.wf() && mul_exact(
                    lines[k].quantity,
                    lines[k].rate,
                ) ==> sp[idx[k] as int].amount.val() * unit() == -(lines[k].quantity.val() * lines[k].rate.val()))
        }),
{
    lemma_revenue_section_lines(lines, a);
    if posting_spec(lines, header, a) is Ok && posting_spec(lines, header, a)->Ok_0.0.len() <= usize::MAX {
        let rev = revenue_section(lines, a)->Ok_0.0;
        let sp = posting_spec(lines, header, a)->Ok_0.0;
        let idx = posting_spec(lines, header, a)->Ok_0.1;
        assert forall|k: int|
            0 <= k < lines.len() implies idx[k] < sp.len() && sp[idx[k] as int].account_id == a.revenue
                && decimal_checked_mul(#[trigger] lines[k].quantity, lines[k].rate) is Some && sp[idx[k] as int].amount
                == neg(decimal_checked_mul(lines[k].quantity, lines[k].rate).unwrap()) && (muls_and_divs_exactly() && lines[k].quantity.wf() && lines[k].rate.wf() && mul_exact(
                lines[k].quantity,
                lines[k].rate,
            ) ==> sp[idx[k] as int].amount.val() * unit() == -(lines[k].quantity.val() * lines[k].rate.val())) by {
            let b = decimal_checked_mul(lines[k].quantity, lines[k].rate).unwrap();
            assert(sp[idx[k] as int] == rev[idx[k] as int]);
            if muls_and_divs_exactly() && lines[k].quantity.wf() && lines[k].rate.wf() && mul_exact(
                lines[k].quantity,
                lines[k].rate,
            ) {
                assert(b.val() * unit() == lines[k].quantity.val() * lines[k].rate.val());
                assert(neg(b).val() == -b.val()) by (nonlinear_arith)
                    requires
                        neg(b).val() == (-b.mantissa) * pow10((28 - b.scale) as nat),
                        b.val() == b.mantissa * pow10((28 - b.scale) as nat),
                ;
                assert(neg(b).val() * unit() == -(b.val() * unit())) by (nonlinear_arith)
                    requires
                        neg(b).val() == -b.val(),
                ;
            }
        }
    }
}

proof fn lemma_cost_section_pairs(lines: Seq<PostingLine>, a: PostingAccounts)
    ensures
        cost_section(lines, a) is Ok ==> ({
            let cs = cost_section(lines, a)->Ok_0;
            &&& cs.len() == 2 * lines.len()
            &&& forall|k: int|
                0 <= k < lines.len() ==> decimal_checked_mul(#[trigger] lines[k].product_base_cost, lines[k].quantity)
                    == Some(cs[2 * k].amount) && cs[2 * k].account_id == a.cost_of_sales && cs[2 * k + 1].account_id
                    == a.inventory && cs[2 * k + 1].amount == neg(cs[2 * k].amount)
        }),
    decreases lines.len(),
{
    if lines.len() > 0 && cost_section(lines, a) is Ok {
        let t = lines.drop_last();
        lemma_cost_section_pairs(t, a);
        let cs = cost_section(lines, a)->Ok_0;
        let prev = cost_section(t, a)->Ok_0;
        assert forall|k: int|
            0 <= k < lines.len() implies decimal_checked_mul(#[trigger] lines[k].product_base_cost, lines[k].quantity)
                == Some(cs[2 * k].amount) && cs[2 * k].account_id == a.cost_of_sales && cs[2 * k + 1].account_id
                == a.inventory && cs[2 * k + 1].amount == neg(cs[2 * k].amount) by {
            if k < t.len() {
                assert(lines[k] == t[k]);
                assert(cs[2 * k] == prev[2 * k]);
                assert(cs[2 * k + 1] == prev[2 * k + 1]);
            } else {
                assert(lines[k] == lines.last());
            }
        }
    }
}

/// The cost of goods that posting books for every invoice line is that
/// line's product base cost times its quantity (as rust_decimal multiplies
/// them), debited to cost of sales and credited to inventory right after the
/// revenue section; when rust_decimal multiplies exactly where it can and the
/// product does not round, the debit is exactly `base cost * quantity`.
pub proof fn lemma_posting_cost_lines(lines: Seq<PostingLine>, header: Seq<Tax>, a: PostingAccounts)
    ensures
        posting_spec(lines, header, a) is Ok ==> ({
            let sp = posting_spec(lines, header, a)->Ok_0.0;
            let rl = revenue_section(lines, a)->Ok_0.0.len();
            forall|k: int|
                0 <= k < lines.len() ==> decimal_checked_mul(#[trigger] lines[k].product_base_cost, lines[k].quantity)
                    == Some(sp[rl + 2 * k].amount) && sp[rl + 2 * k].account_id == a.cost_of_sales && sp[rl + 2 * k
                    + 1].account_id == a.inventory && sp[rl + 2 * k + 1].amount == neg(sp[rl + 2 * k].amount)
                    && (muls_and_divs_exactly() && lines[k].product_base_cost.wf() && lines[k].quantity.wf()
                    && mul_exact(lines[k].product_base_cost, lines[k].quantity) ==> sp[rl + 2 * k].amount.val()
                    * unit() == lines[k].product_base_cost.val() * lines[k].quantity.val())
        }),
{
    lemma_cost_section_pairs(lines, a);
    if posting_spec(lines, header, a) is Ok {
        let rev = revenue_section(lines, a)->Ok_0.0;
        let cs = cost_section(lines, a)->Ok_0;
        let sp = posting_spec(lines, header, a)->Ok_0.0;
        let rl = rev.len();
        assert forall|k: int| 0 <= k < lines.len() implies #[trigger] lines[k] == lines[k] && sp[rl + 2 * k] == cs[2
            * k] && sp[rl + 2 * k + 1] == cs[2 * k + 1] by {}
        assert forall|k: int|
            0 <= k < lines.len() implies (muls_and_divs_exactly() && lines[k].product_base_cost.wf()
                && lines[k].quantity.wf() && mul_exact(#[trigger] lines[k].product_base_cost, lines[k].quantity)
                ==> sp[rl + 2 * k].amount.val() * unit() == lines[k].product_base_cost.val() * lines[k].quantity.val()) by {
            if muls_and_divs_exactly() && lines[k].product_base_cost.wf() && lines[k].quantity.wf() && mul_exact(
                lines[k].product_base_cost,
                lines[k].quantity,
            ) {
                assert(decimal_checked_mul(lines[k].product_base_cost, lines[k].quantity) is Some);
            }
        }
    }
}

/// The journal of a posted invoice (see the module documentation): the
/// lines, the index of each invoice line's revenue line, and the
/// receivable total.
pub open spec fn posting_spec(lines: Seq<PostingLine>, header: Seq<Tax>, accounts: PostingAccounts) -> Result<
    (Seq<JournalLineSpec>, Seq<usize>, Dec),
    Seq<char>,
> {
    match revenue_section(lines, accounts) {
        Err(e) => Err(e),
        Ok((rev, idx)) => match cost_section(lines, accounts) {
            Err(e) => Err(e),
            Ok(cost) => match lines_totals_spec(lines) {
                None => Err(out_of_range_message()),
                Some(t) => {
                    let ids = lines_tax_ids(lines);
                    match header_lines_spec(t.untaxed_subtotal, header_only(header, ids), accounts.tax_payable) {
                        Err(e) => Err(e),
                        Ok(hl) => match grand_total(t, header, ids) {
                            None => Err(out_of_range_message()),
                            Some(ar) => Ok(
                                (
                                    rev + cost + hl + seq![JournalLineSpec { account_id: accounts.receivable, amount: ar }],
                                    idx,
                                    ar,
                                ),
                            ),
                        },
                    }
                },
            },
        },
    }
}

/// A posted invoice's journal.
#[derive(Debug)]
pub struct PostingJournal {
    pub specs: Vec<JournalLineSpec>,
    /// For each invoice line, the index in `specs` of its revenue line.
    pub revenue_item_indices: Vec<usize>,
    pub total_receivable: Dec,
}

proof fn lemma_revenue_err_stays(lines: Seq<PostingLine>, a: PostingAccounts, k: int)
    requires
        1 <= k <= lines.len(),
        revenue_section(lines.take(k), a) is Err,
    ensures
        revenue_section(lines, a) == revenue_section(lines.take(k), a),
    decreases lines.len() - k,
{
    if k < lines.len() {
        assert(lines.take(k + 1).drop_last() =~= lines.take(k));
        lemma_revenue_err_stays(lines, a, k + 1);
    } else {
        assert(lines.take(k) =~= lines);
    }
}

proof fn lemma_cost_err_stays(lines: Seq<PostingLine>, a: PostingAccounts, k: int)
    requires
        1 <= k <= lines.len(),
        cost_section(lines.take(k), a) is Err,
    ensures
        cost_section(lines, a) == cost_section(lines.take(k), a),
    decreases lines.len() - k,
{
    if k < lines.len() {
        assert(lines.take(k + 1).drop_last() =~= lines.take(k));
        lemma_cost_err_stays(lines, a, k + 1);
    } else {
        assert(lines.take(k) =~= lines);
    }
}

fn append_lines(dst: &mut Vec<JournalLineSpec>, src: &Vec<JournalLineSpec>)
    ensures
        final(dst)@ == old(dst)@ + src@,
{
    let mut k: usize = 0;
    while k < src.len()
        invariant
            k <= src.len(),
            dst@ == old(dst)@ + src@.take(k as int),
        decreases src.len() - k,
    {
        dst.push(src[k]);
        proof {
            assert(dst@ =~= old(dst)@ + src@.take(k + 1));
        }
        k = k + 1;
    }
    proof {
        assert(src@.take(k as int) =~= src@);
    }
}

/// The message for a journal entry whose lines do not sum to zero (or whose
/// sum cannot be computed without rounding).
pub open spec fn unbalanced_message() -> Seq<char> {
    "journal entry does not balance"@
}

/// Whether journal lines are checked to balance: their exact total is
/// computed without rounding and is zero.
pub open spec fn checked_balanced(s: Seq<JournalLineSpec>) -> bool {
    exact_total(s) matches Some(t) && t.val() == 0
}

/// The journal entry of posting a draft with these lines and header taxes.
///
/// Every `Ok` entry balances exactly.  For bounded lines and header
/// percentages (`lines_ok`, `pcts_ok`) the lines balance by construction, the
/// entry is never refused for balance, and the receivable total is the exact
/// net amount of the invoice.  Other entries are checked before they are
/// handed out, and refused when their exact total is not zero.
pub fn posting_journal(lines: &Vec<PostingLine>, header_taxes: &Vec<Tax>, accounts: &PostingAccounts) -> (r:
    Result<PostingJournal, String>)
    requires
        forall|i: int| 0 <= i < lines.len() ==> (#[trigger] lines@[i]).wf(),
        taxes_wf(header_taxes@),
    ensures
        match (r, posting_spec(lines@, header_taxes@, *accounts)) {
            (Ok(j), Ok((sp, idx, ar))) => j.specs@ == sp && j.revenue_item_indices@ == idx
                && j.total_receivable == ar && ((lines_ok(lines@) && pcts_ok(header_taxes@))
                || checked_balanced(sp)),
            (Err(e), Ok((sp, idx, ar))) => !(lines_ok(lines@) && pcts_ok(header_taxes@)) && !checked_balanced(
                sp,
            ) && e@ == unbalanced_message(),
            (Err(e), Err(se)) => e@ == se,
            _ => false,
        },
        r matches Ok(j) ==> lines_total(j.specs@) == 0,
        lines_ok(lines@) && pcts_ok(header_taxes@) && posting_spec(lines@, header_taxes@, *accounts) is Ok
            ==> r is Ok,
        lines_ok(lines@) && pcts_ok(header_taxes@) ==> match r {
            Ok(j) => lines_total(j.specs@) == 0 && j.total_receivable.val() * unit() * 100
                == scaled_net_total(lines@) + untaxed_total(lines@) * header_net_pct(
                header_taxes@,
                lines_tax_ids(lines@),
            ),
            Err(_) => true,
        },
{
    let ghost bounded = lines_ok(lines@) && pcts_ok(header_taxes@);
    let mut specs: Vec<JournalLineSpec> = Vec::new();
    let mut idx: Vec<usize> = Vec::new();
    let mut i: usize = 0;
    proof {
        assert(lines@.take(0) =~= Seq::<PostingLine>::empty());
    }
    while i < lines.len()
        invariant
            i <= lines.len(),
            forall|k: int| 0 <= k < lines.len() ==> (#[trigger] lines@[k]).wf(),
            bounded == (lines_ok(lines@) && pcts_ok(header_taxes@)),
            revenue_section(lines@.take(i as int), *accounts) == Ok::<
                (Seq<JournalLineSpec>, Seq<usize>),
                Seq<char>,
            >((specs@, idx@)),
            bounded ==> lines_total(specs@) * unit() * 100 == -scaled_net_total(lines@.take(i as int)),
        decreases lines.len() - i,
    {
        let ghost pre = lines@.take(i as int);
        let ghost post = lines@.take(i + 1);
        proof {
            assert(post.drop_last() =~= pre);
            assert(post.last() == lines@[i as int]);
            if bounded {
                assert(line_ok(lines@[i as int].quantity, lines@[i as int].rate, lines@[i as int].taxes@));
            }
        }
        let n = specs.len();
        let v = match line_revenue_lines(&lines[i], accounts) {
            Ok(v) => v,
            Err(e) => {
                proof {
                    lemma_revenue_err_stays(lines@, *accounts, i + 1);
                }
                return Err(e);
            },
        };
        let ghost old_specs = specs@;
        idx.push(n);
        append_lines(&mut specs, &v);
        proof {
            if bounded {
                lemma_lines_total_concat(old_specs, v@);
                assert(scaled_net_total(post) == scaled_net_total(pre) + line_scaled_net(lines@[i as int]));
                assert(lines_total(specs@) * unit() * 100 == -scaled_net_total(post)) by (nonlinear_arith)
                    requires
                        lines_total(specs@) == lines_total(old_specs) + lines_total(v@),
                        lines_total(old_specs) * unit() * 100 == -scaled_net_total(pre),
                        lines_total(v@) * unit() * 100 == -line_scaled_net(lines@[i as int]),
                        scaled_net_total(post) == scaled_net_total(pre) + line_scaled_net(lines@[i as int]),
                ;
            }
        }
        i = i + 1;
    }
    proof {
        assert(lines@.take(i as int) =~= lines@);
    }
    let ghost rev_part = specs@;
    let mut cost: Vec<JournalLineSpec> = Vec::new();
    let mut i: usize = 0;
    while i < lines.len()
        invariant
            i <= lines.len(),
            forall|k: int| 0 <= k < lines.len() ==> (#[trigger] lines@[k]).wf(),
            cost_section(lines@.take(i as int), *accounts) == Ok::<Seq<JournalLineSpec>, Seq<char>>(
                cost@,
            ),
            lines_total(cost@) == 0,
            specs@ == rev_part,
            revenue_section(lines@, *accounts) == Ok::<(Seq<JournalLineSpec>, Seq<usize>), Seq<char>>(
                (rev_part, idx@),
            ),
            bounded == (lines_ok(lines@) && pcts_ok(header_taxes@)),
            bounded ==> lines_total(rev_part) * unit() * 100 == -scaled_net_total(lines@),
        decreases lines.len() - i,
    {
        let ghost pre = lines@.take(i as int);
        proof {
            assert(lines@.take(i + 1).drop_last() =~= pre);
            assert(lines@.take(i + 1).last() == lines@[i as int]);
        }
        let c = match decimal_mul(&lines[i].product_base_cost, &lines[i].quantity) {
            Some(c) => c,
            None => {
                proof {
                    lemma_cost_err_stays(lines@, *accounts, i + 1);
                }
                return Err(String::from_str("amount out of range"));
            },
        };
        let ghost old_cost = cost@;
        let nc = dec_neg(&c);
        cost.push(JournalLineSpec { account_id: accounts.cost_of_sales, amount: c });
        cost.push(JournalLineSpec { account_id: accounts.inventory, amount: nc });
        proof {
            let pair = seq![
                JournalLineSpec { account_id: accounts.cost_of_sales, amount: c },
                JournalLineSpec { account_id: accounts.inventory, amount: nc },
            ];
            assert(cost@ =~= old_cost + pair);
            lemma_lines_total_concat(old_cost, pair);
            assert(pair.drop_last() =~= seq![pair[0]]);
            lemma_single_total(pair[0]);
            assert(lines_total(pair) == c.val() + nc.val());
        }
        i = i + 1;
    }
    proof {
        assert(lines@.take(i as int) =~= lines@);
    }
    append_lines(&mut specs, &cost);
    let (totals, ids) = match invoice_lines_totals(lines) {
        Some(x) => x,
        None => return Err(String::from_str("amount out of range")),
    };
    let doc = crate::logic::tax_calculations::document_level_header_taxes(header_taxes, &ids);
    proof {
        crate::logic::tax_calculations::lemma_taxes_wf_header_only(header_taxes@, ids@);
        if bounded {
            crate::logic::tax_calculations::lemma_pcts_ok_header_only(header_taxes@, ids@);
        }
    }
    let ghost before_header = specs@;
    let hl = match header_journal_lines(&totals.untaxed_subtotal, &doc, accounts.tax_payable) {
        Ok(v) => v,
        Err(e) => return Err(e),
    };
    append_lines(&mut specs, &hl);
    let ar = match invoice_receivable_grand_total(&totals, header_taxes, &ids) {
        Some(x) => x,
        None => return Err(String::from_str("amount out of range")),
    };
    let ghost before_ar = specs@;
    specs.push(JournalLineSpec { account_id: accounts.receivable, amount: ar });
    proof {
        let last = seq![JournalLineSpec { account_id: accounts.receivable, amount: ar }];
        assert(specs@ =~= rev_part + cost@ + hl@ + last);
        if bounded {
            let net = scaled_net_total(lines@);
            let sub = totals.untaxed_subtotal.val();
            let hnet = header_net_pct(header_taxes@, ids@);
            lemma_lines_total_concat(rev_part, cost@);
            lemma_lines_total_concat(rev_part + cost@, hl@);
            lemma_lines_total_concat(rev_part + cost@ + hl@, last);
            lemma_single_total(last[0]);
            assert(last =~= seq![last[0]]);
            assert(lines_total(hl@) * unit() * 100 == sub * (pct_total(select_kind(doc@, true))
                - pct_total(select_kind(doc@, false))));
            assert(hnet == pct_total(select_kind(doc@, false)) - pct_total(select_kind(doc@, true)));
            assert(ar.val() * unit() * 100 == (sub + totals.lines_levied.val()
                - totals.lines_withholding.val()) * unit() * 100 + sub * hnet);
            assert(lines_total(specs@) * (unit() * 100) == 0) by (nonlinear_arith)
                requires
                    lines_total(specs@) == lines_total(rev_part) + lines_total(cost@) + lines_total(hl@)
                        + ar.val(),
                    lines_total(rev_part) * unit() * 100 == -net,
                    lines_total(cost@) == 0,
                    lines_total(hl@) * unit() * 100 == sub * (-hnet),
                    ar.val() * unit() * 100 == net + sub * hnet,
            ;
            crate::decimal::lemma_pow10_positive(28);
            crate::decimal::lemma_le_cancel(lines_total(specs@), 0, unit() * 100);
            crate::decimal::lemma_le_cancel(0, lines_total(specs@), unit() * 100);
        }
    }
    let balanced = if lines_ok_check(lines) && pcts_ok_check(header_taxes) {
        true
    } else {
        match exact_lines_total(&specs) {
            Some(t) => dec_is_zero(&t),
            None => false,
        }
    };
    if !balanced {
        return Err(String::from_str("journal entry does not balance"));
    }
    Ok(PostingJournal { specs, revenue_item_indices: idx, total_receivable: ar })
}

/// A draft can be posted once, and only with lines.
pub fn check_posting_state(posted_count: u64, line_count: usize) -> (r: Result<(), String>)
    ensures
        match r {
            Ok(_) => posted_count == 0 && line_count > 0,
            Err(e) => (posted_count > 0 && e@ == "draft already posted"@) || (posted_count == 0
                && line_count == 0 && e@ == "draft has no lines"@),
        },
{
    if posted_count > 0 {
        return Err(String::from_str("draft already posted"));
    }
    if line_count == 0 {
        return Err(String::from_str("draft has no lines"));
    }
    Ok(())
}

/// What posting decides from the database's answers: a live draft is
/// needed, it must not be posted yet, and it must have lines (checked in
/// that order).
pub open spec fn posting_state(found: bool, posted_count: nat, line_count: nat) -> Result<(), Seq<char>> {
    if !found {
        Err("draft invoice required"@)
    } else if posted_count > 0 {
        Err("draft already posted"@)
    } else if line_count == 0 {
        Err("draft has no lines"@)
    } else {
        Ok(())
    }
}

/// The checks before a draft is posted: whether the draft was found, how
/// many live posted invoices already come from it, and how many lines it has.
pub fn check_draft_postable(found: bool, posted_count: u64, line_count: usize) -> (r: Result<(), String>)
    ensures
        match (r, posting_state(found, posted_count as nat, line_count as nat)) {
            (Ok(_), Ok(_)) => true,
            (Err(e), Err(se)) => e@ == se,
            _ => false,
        },
{
    if !found {
        return Err(String::from_str("draft invoice required"));
    }
    check_posting_state(posted_count, line_count)
}

/// A draft is posted at most once: once a posting has succeeded, the live
/// posted invoice it left makes every later attempt fail with "draft already
/// posted".
pub proof fn lemma_posted_at_most_once(found: bool, posted_count: nat, line_count: nat)
    requires
        posting_state(found, posted_count, line_count) is Ok,
    ensures
        posting_state(found, posted_count + 1, line_count) == Err::<(), Seq<char>>("draft already posted"@),
{
}

/// What cancelling decides from the database's answers: the posted invoice
/// must be live and have no live cancelled, paid or partially paid row.
pub open spec fn cancellable(live: bool, cancelled: nat, paid: nat, partial: nat) -> bool {
    live && cancelled == 0 && paid == 0 && partial == 0
}

/// The check before a posted invoice is cancelled.
pub fn check_cancellable(live: bool, cancelled: u64, paid: u64, partial: u64) -> (r: Result<(), String>)
    ensures
        match r {
            Ok(_) => cancellable(live, cancelled as nat, paid as nat, partial as nat),
            Err(e) => !cancellable(live, cancelled as nat, paid as nat, partial as nat) && e@
                == "posted invoice is not cancellable"@,
        },
{
    if !live || cancelled > 0 || paid > 0 || partial > 0 {
        return Err(String::from_str("posted invoice is not cancellable"));
    }
    Ok(())
}

/// An invoice is cancelled at most once, and never once a payment has
/// settled it: a cancellation, a full or a partial settlement each leave a
/// live row that makes it not cancellable.
pub proof fn lemma_cancelled_at_most_once(live: bool, cancelled: nat, paid: nat, partial: nat)
    ensures
        !cancellable(live, cancelled + 1, paid, partial),
        !cancellable(live, cancelled, paid + 1, partial),
        !cancellable(live, cancelled, paid, partial + 1),
{
}

/// The error for a number another posted invoice already carries.
pub fn duplicate_number_message(number: &str) -> (r: String)
    ensures
        r@ == "invoice number "@ + number@ + " is already used by another posted invoice"@,
{
    let mut s = String::from_str("invoice number ");
    s.append(number);
    s.append(" is already used by another posted invoice");
    s
}

/// The last position of `x` in `s`, if any.
pub open spec fn last_index(s: Seq<i64>, x: i64) -> int
    decreases s.len(),
{
    if s.len() == 0 {
        -1
    } else if s.last() == x {
        s.len() - 1
    } else {
        last_index(s.drop_last(), x)
    }
}

proof fn lemma_last_index(s: Seq<i64>, x: i64)
    ensures
        -1 <= last_index(s, x) < s.len(),
        last_index(s, x) >= 0 ==> s[last_index(s, x)] == x,
        forall|k: int| last_index(s, x) < k < s.len() ==> s[k] != x,
    decreases s.len(),
{
    if s.len() > 0 && s.last() != x {
        lemma_last_index(s.drop_last(), x);
        assert forall|k: int| last_index(s, x) < k < s.len() implies s[k] != x by {
            if k < s.len() - 1 {
                assert(s[k] == s.drop_last()[k]);
            }
        }
    }
}

fn find_last(s: &Vec<i64>, x: i64) -> (r: Option<usize>)
    ensures
        match r {
            Some(j) => j == last_index(s@, x),
            None => last_index(s@, x) == -1,
        },
{
    let mut j = s.len();
    proof {
        assert(s@.take(j as int) =~= s@);
    }
    while j > 0
        invariant
            j <= s.len(),
            last_index(s@, x) == last_index(s@.take(j as int), x),
        decreases j,
    {
        proof {
            assert(s@.take(j as int).drop_last() =~= s@.take(j - 1));
            assert(s@.take(j as int).last() == s@[j - 1]);
        }
        if s[j - 1] == x {
            return Some(j - 1);
        }
        j = j - 1;
    }
    proof {
        assert(s@.take(0) =~= Seq::<i64>::empty());
    }
    None
}

/// For each posted line (its id and its revenue journal item), the item of
/// the credit note's reversing entry that takes its place: the reversing
/// entry lists its items in the same order as the original, and a repeated
/// original item maps to the last of its positions.
pub fn reversed_line_items(
    original_items: &Vec<i64>,
    reversed_items: &Vec<i64>,
    lines: &Vec<(i64, i64)>,
) -> (r: Result<Vec<i64>, String>)
    ensures
        original_items.len() != reversed_items.len() ==> (r matches Err(e) && e@
            == "reversal line count mismatch"@),
        original_items.len() == reversed_items.len() ==> match r {
            Ok(v) => v.len() == lines.len() && forall|i: int|
                0 <= i < lines.len() ==> last_index(original_items@, #[trigger] lines@[i].1) >= 0
                    && v@[i] == reversed_items@[last_index(original_items@, lines@[i].1)],
            Err(e) => exists|i: int|
                0 <= i < lines.len() && last_index(original_items@, #[trigger] lines@[i].1) == -1 && (
                forall|k: int| 0 <= k < i ==> last_index(original_items@, #[trigger] lines@[k].1) >= 0)
                    && e@ == "could not map journal line for posted invoice line "@ + crate::text::int_text(
                    lines@[i].0 as int,
                ),
        },
{
    if original_items.len() != reversed_items.len() {
        return Err(String::from_str("reversal line count mismatch"));
    }
    let mut out: Vec<i64> = Vec::new();
    let mut i: usize = 0;
    while i < lines.len()
        invariant
            i <= lines.len(),
            original_items.len() == reversed_items.len(),
            out.len() == i,
            forall|k: int|
                0 <= k < i ==> last_index(original_items@, #[trigger] lines@[k].1) >= 0 && out@[k]
                    == reversed_items@[last_index(original_items@, lines@[k].1)],
        decreases lines.len() - i,
    {
        let (line_id, item) = lines[i];
        proof {
            lemma_last_index(original_items@, item);
        }
        match find_last(original_items, item) {
            Some(j) => {
                out.push(reversed_items[j]);
            },
            None => {
                let mut msg = String::from_str("could not map journal line for posted invoice line ");
                let t = crate::text::int_to_text(line_id);
                msg.append(t.as_str());
                return Err(msg);
            },
        }
        i = i + 1;
    }
    Ok(out)
}

} // verus!
