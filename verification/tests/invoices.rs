use rust_decimal::Decimal;
use std::str::FromStr;
use uniquity_finance_invoices::decimal::Dec;
use uniquity_finance_invoices::handlers::invoice_pdf_preview::{is_valid_preview_token, preview_pdf_path};
use uniquity_finance_invoices::logic::payment::{build_payment_lines_for_allocation, JournalLineSpec, PostedInvoice};
use uniquity_finance_invoices::logic::payment_batch::{batch_allocations_from_rows, validate_same_journal, AllocationRow};
use uniquity_finance_invoices::logic::tax_calculations::{Tax, TaxKind};

fn d(s: &str) -> Dec {
    let x = Decimal::from_str(s).unwrap();
    Dec { mantissa: x.mantissa(), scale: x.scale() }
}

fn dec(x: &Dec) -> Decimal {
    Decimal::from_i128_with_scale(x.mantissa, x.scale)
}

fn sample_posted(id: i64, ar_id: i64) -> PostedInvoice {
    PostedInvoice {
        id,
        number: format!("INV-{id}"),
        account_receivable_id: ar_id,
        journal_id: 1,
        customer_id: 0,
    }
}

fn withholding_tax(id: i64, pct: Dec, acct: i64) -> Tax {
    Tax {
        id,
        name: format!("WH {id}"),
        percentage: pct,
        tax_type: TaxKind::Withholding,
        account_id: Some(acct),
    }
}

fn row(id: i64, amount: &str, tax_ids: Vec<i64>) -> AllocationRow {
    AllocationRow { posted_invoice_id: id, amount: amount.to_string(), tax_ids }
}

#[test]
fn preview_token_validation_rejects_path_traversal() {
    assert!(!is_valid_preview_token("../etc/passwd"));
    assert!(!is_valid_preview_token(""));
    assert!(is_valid_preview_token("12345-67890"));
}

#[test]
fn preview_pdf_path_stays_in_cache_dir() {
    let dir = "/tmp/uniquity-invoice-pdf-preview";
    let path = preview_pdf_path(dir, "abc-123");
    assert!(path.starts_with(dir));
    assert_eq!(path, "/tmp/uniquity-invoice-pdf-preview/abc-123.pdf");
}

#[test]
fn parse_batch_allocations_json_requires_two_rows() {
    let err = batch_allocations_from_rows(&vec![row(1, "100", vec![])]).unwrap_err();
    assert!(err.contains("at least two"));
}

#[test]
fn parse_batch_allocations_json_rejects_duplicate_invoice() {
    let rows = vec![row(1, "100", vec![]), row(1, "50", vec![])];
    let err = batch_allocations_from_rows(&rows).unwrap_err();
    assert!(err.contains("duplicate"));
}

#[test]
fn parse_batch_allocations_json_ok() {
    let rows = vec![row(1, "100.00", vec![2]), row(3, "50", vec![])];
    let allocs = batch_allocations_from_rows(&rows).unwrap();
    assert_eq!(allocs.len(), 2);
    assert_eq!(allocs[0].posted_invoice_id, 1);
    assert_eq!(dec(&allocs[0].amount), Decimal::from_str("100.00").unwrap());
    assert_eq!(allocs[0].withholding_tax_ids, vec![2]);
}

#[test]
fn batch_journal_lines_balance_with_withholding() {
    let posted1 = sample_posted(1, 100);
    let posted2 = sample_posted(2, 200);
    let taxes = vec![withholding_tax(10, d("10"), 300)];

    // Withholding base is untaxed (100), not GST-inclusive settlement (118).
    let (bank1, lines1) =
        build_payment_lines_for_allocation(&posted1, &d("118"), &d("100"), &taxes).unwrap();
    let (bank2, lines2) =
        build_payment_lines_for_allocation(&posted2, &d("200"), &d("200"), &vec![]).unwrap();

    let total = dec(&bank1) + dec(&bank2);
    let mut lines = vec![JournalLineSpec { account_id: 50, amount: Dec { mantissa: total.mantissa(), scale: total.scale() } }];
    lines.extend(lines1);
    lines.extend(lines2);

    let balance: Decimal = lines.iter().map(|l| dec(&l.amount)).sum();
    assert!(balance.is_zero());
    // 10% of untaxed 100 = 10; bank = 118 - 10 = 108
    assert_eq!(dec(&bank1), Decimal::from_str("108").unwrap());
    assert_eq!(dec(&bank2), Decimal::from_str("200").unwrap());
}

#[test]
fn validate_same_journal_rejects_mixed() {
    let mut a = sample_posted(1, 100);
    let mut b = sample_posted(2, 200);
    b.journal_id = 2;
    let err = validate_same_journal(&vec![sample_posted(1, 100), {
        let mut c = sample_posted(2, 200);
        c.journal_id = 2;
        c
    }])
    .unwrap_err();
    assert!(err.contains("multiple journals"));

    a.journal_id = 5;
    b.journal_id = 5;
    assert_eq!(validate_same_journal(&vec![a, b]).unwrap(), 5);
}

/// Manual verification checklist (run against a dev environment):
/// 1. Post 2 invoices (same journal, different customers) with open balances.
/// 2. On Posted tab, select both → Pay selected → full balances, save batch.
/// 3. Verify one journal entry in accounts; both invoices leave Posted tab.
/// 4. Batch detail shows 2 child payments linked to the shared journal entry.
/// 5. Retry with per-invoice withholding; bank debit equals net of withholdings.
/// 6. Confirm mixed journals, over-allocation, cancelled invoice, and single-invoice batch are rejected.
#[test]
fn manual_verification_checklist_documented() {}
