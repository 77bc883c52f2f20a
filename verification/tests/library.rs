use rust_decimal::Decimal;
use std::collections::HashSet;
use std::str::FromStr;
use uniquity_finance_invoices::accounting_preferences_patch::{fk_value, param_opt_i64, param_opt_str};
use uniquity_finance_invoices::decimal::{decimal_display, Dec};
use uniquity_finance_invoices::handlers::cancelled;
use uniquity_finance_invoices::handlers::cancelled::credit_note_display_label;
use uniquity_finance_invoices::handlers::drafts::draft_form_payment_term;
use uniquity_finance_invoices::forms::DraftInvoiceForm;
use uniquity_finance_invoices::logic::draft::{check_payment_term_selection, PaymentTermSelection};
use uniquity_finance_invoices::logic::invoice_number::{generated_posted_number, next_posted_invoice_seq};
use uniquity_finance_invoices::logic::payment::{exact_lines_total, JournalLineSpec};
use uniquity_finance_invoices::logic::payment_term::due_date_local_seconds;
use uniquity_finance_invoices::components::{
    batch_allocations_alpine_data, invoice_lines_alpine_data, INVOICE_LINES_DRAFT_ALPINE_METHODS,
    PAYMENT_BATCH_ALLOCATIONS_ALPINE,
};
use uniquity_finance_invoices::decimal::{add_is_exact, within6};
use uniquity_finance_invoices::logic::tax_calculations::pcts_ok_check;
use uniquity_finance_invoices::templates::{hub_row_cells, hub_table_layout, HubCell, InvoiceRow};
use uniquity_finance_invoices::logic::payment_term::{due_date_text, due_datetime_text};
use uniquity_finance_invoices::logic::payment_batch::{check_posted_found, mixed_journals_message};
use uniquity_finance_invoices::text::{sort_texts, text_less};
use uniquity_finance_invoices::templates::PaymentBatchAllocationRow;
use uniquity_finance_invoices::handlers::hub::{hub_row_extras_none, hub_tab, page_number, HubTab};
use uniquity_finance_invoices::handlers::payment_batches::{
    batch_allocation_row, check_batch_selection, check_selection_available, enrich_allocation_row,
    parse_optional_account_id, parse_posted_invoice_ids, AllocationRowSource,
};
use uniquity_finance_invoices::handlers::payments::posted_invoice_display_label;
use uniquity_finance_invoices::logic::draft::{
    check_draft_header, check_draft_not_sealed, check_line_product_and_quantity, draft_number, lines_json_text,
    merge_tax_ids, optional_display, optional_trimmed_text, parse_header_tax_ids, resolve_line_rate,
    unknown_product_message, DraftLinePending,
};
use uniquity_finance_invoices::logic::invoice_line_editor::{
    default_lines_json, format_withholding, line_display_row, name_or_id, tax_labels_text,
};
use uniquity_finance_invoices::logic::invoice_number::{draft_posted_number, format_posted_invoice_number};
use uniquity_finance_invoices::logic::invoice_posting::{
    check_cancellable, check_draft_postable, check_posting_state, duplicate_number_message, lines_ok_check, posting_journal, reversed_line_items, PostingAccounts, PostingLine,
};
use uniquity_finance_invoices::logic::preferences::{
    check_invoice_journal, check_payment_account_preference, check_product_posting_accounts, optional_id,
};
use uniquity_finance_invoices::logic::payment::{
    allocation_outcome, build_payment_lines_for_allocation, can_accept_payment, check_allocation_request,
    check_allocation_state, open_balance, parse_payment_amount, parse_withholding_tax_ids,
    resolve_payment_account, PostedInvoice,
};
use uniquity_finance_invoices::logic::payment_batch::{
    batch_journal, check_batch_allocations, BatchAllocation, PreparedAllocation,
};
use uniquity_finance_invoices::logic::payment_term::{
    payment_term_form_values, payment_term_summary_fallback, payment_term_type_label, payment_term_update_plan,
    CreatePaymentTermDueDate, CreatePaymentTermInput, CreatePaymentTermRelative, PAYMENT_TERM_TYPE_DUE_DATE,
    PAYMENT_TERM_TYPE_RELATIVE,
};
use uniquity_finance_invoices::logic::tax_calculations::{
    document_level_header_taxes, invoice_line_amount_breakdown, invoice_receivable_grand_total,
    merge_invoice_line_tax_ids, payment_bank_amount, payment_withholding_base, payment_withholding_total,
    sum_tax_percents, tax_amount_on_base, taxes_levied, taxes_withholding, validate_payment_taxes,
    validate_withholding_tax_accounts, withholding_tax_account_id, InvoiceLinesTotals, Tax, TaxKind,
};
use uniquity_finance_invoices::scope::{
    environment_cookie_candidates, fiscal_year_cookie_choice, hub_tab_url, parse_filter_datetime, percent_decode,
    FiscalYearChoice,
};
use uniquity_finance_invoices::source_docs::invoice_instance_name;
use uniquity_finance_invoices::templates::{
    payment_term_display_label, PaidInvoiceDetailPage, PartiallyPaidInvoiceDetailPage, PaymentTermDetailPage,
    PaymentTermFormPage, SettlementDetailContext,
};
use uniquity_finance_invoices::forms::PaymentTermForm;

fn d(s: &str) -> Dec {
    let x = Decimal::from_str(s).unwrap();
    Dec { mantissa: x.mantissa(), scale: x.scale() }
}

fn dec(x: &Dec) -> Decimal {
    Decimal::from_i128_with_scale(x.mantissa, x.scale)
}

fn n(s: &str) -> Decimal {
    Decimal::from_str(s).unwrap()
}

fn tax(id: i64, name: &str, pct: &str, kind: TaxKind, account: Option<i64>) -> Tax {
    Tax { id, name: name.to_string(), percentage: d(pct), tax_type: kind, account_id: account }
}

fn posted(id: i64, ar: i64, journal: i64) -> PostedInvoice {
    PostedInvoice { id, number: format!("INV-{id}"), account_receivable_id: ar, journal_id: journal, customer_id: 1 }
}

#[test]
fn tax_amount_is_base_times_percent_over_hundred() {
    assert_eq!(dec(&tax_amount_on_base(&d("250"), &d("18")).unwrap()), n("45"));
    assert_eq!(dec(&tax_amount_on_base(&d("0"), &d("18")).unwrap()), n("0"));
    assert_eq!(dec(&tax_amount_on_base(&d("100"), &d("0")).unwrap()), n("0"));
    assert_eq!(dec(&tax_amount_on_base(&d("10.50"), &d("2.5")).unwrap()), n("0.2625"));
}

#[test]
fn taxes_split_into_levied_and_withholding() {
    let taxes = vec![
        tax(1, "GST", "18", TaxKind::Levied, None),
        tax(2, "TDS", "10", TaxKind::Withholding, Some(7)),
        tax(3, "Cess", "1", TaxKind::Levied, None),
    ];
    let l = taxes_levied(&taxes);
    let w = taxes_withholding(&taxes);
    assert_eq!(l.iter().map(|t| t.id).collect::<Vec<_>>(), vec![1, 3]);
    assert_eq!(w.iter().map(|t| t.id).collect::<Vec<_>>(), vec![2]);
    assert_eq!(l.len() + w.len(), taxes.len());
    assert_eq!(dec(&sum_tax_percents(&l).unwrap()), n("19"));
}

#[test]
fn line_breakdown_net_is_untaxed_plus_levied_less_withholding() {
    let taxes = vec![
        tax(1, "GST", "18", TaxKind::Levied, None),
        tax(2, "TDS", "10", TaxKind::Withholding, Some(7)),
    ];
    let (u, l, w, net) = invoice_line_amount_breakdown(&d("2"), &d("50"), &taxes).unwrap();
    assert_eq!(dec(&u), n("100"));
    assert_eq!(dec(&l), n("18"));
    assert_eq!(dec(&w), n("10"));
    assert_eq!(dec(&net), n("108"));
    assert_eq!(dec(&net), dec(&u) + dec(&l) - dec(&w));
}

#[test]
fn grand_total_adds_document_level_header_taxes_only() {
    let totals = InvoiceLinesTotals { untaxed_subtotal: d("100"), lines_levied: d("18"), lines_withholding: d("0") };
    let mut ids = HashSet::new();
    ids.insert(1i64);
    let header = vec![
        tax(1, "GST", "18", TaxKind::Levied, None),
        tax(4, "TDS", "2", TaxKind::Withholding, Some(9)),
    ];
    let doc = document_level_header_taxes(&header, &ids);
    assert_eq!(doc.len(), 1);
    assert_eq!(doc[0].id, 4);
    let total = invoice_receivable_grand_total(&totals, &header, &ids).unwrap();
    // 100 + 18 - 2% of 100
    assert_eq!(dec(&total), n("116"));
    assert_eq!(dec(&totals.lines_gross_before_withholding().unwrap()), n("118"));
}

#[test]
fn merge_line_tax_ids_skips_zero() {
    let mut ids = HashSet::new();
    merge_invoice_line_tax_ids(&mut ids, &vec![tax(0, "x", "1", TaxKind::Levied, None), tax(5, "y", "1", TaxKind::Levied, None)]);
    assert!(ids.contains(&5));
    assert!(!ids.contains(&0));
    assert_eq!(ids.len(), 1);
}

#[test]
fn withholding_account_errors_name_the_tax() {
    let ok = tax(2, "TDS", "10", TaxKind::Withholding, Some(7));
    assert_eq!(withholding_tax_account_id(&ok), Ok(7));
    let none = tax(3, "  ", "10", TaxKind::Withholding, Some(0));
    assert_eq!(withholding_tax_account_id(&none).unwrap_err(), "withholding tax #3 requires a ledger account");
    let named = tax(4, "TDS 2%", "2", TaxKind::Withholding, None);
    assert_eq!(
        validate_withholding_tax_accounts(&vec![ok.duplicate(), named.duplicate()]).unwrap_err(),
        "withholding tax TDS 2% requires a ledger account"
    );
    assert!(validate_withholding_tax_accounts(&vec![tax(1, "GST", "18", TaxKind::Levied, None)]).is_ok());
}

#[test]
fn payment_taxes_must_be_withholding() {
    let gst = tax(1, "GST", "18", TaxKind::Levied, None);
    let tds = tax(2, "TDS", "10", TaxKind::Withholding, Some(7));
    assert!(validate_payment_taxes(&vec![tds.duplicate()]).is_ok());
    assert_eq!(
        validate_payment_taxes(&vec![tds.duplicate(), gst.duplicate()]).unwrap_err(),
        "levied tax GST cannot be applied on a payment; use withholding taxes only"
    );
}

#[test]
fn payment_amounts_follow_the_withholding_base() {
    let taxes = vec![tax(2, "TDS", "10", TaxKind::Withholding, Some(7))];
    assert_eq!(dec(&payment_withholding_total(&d("100"), &taxes).unwrap()), n("10"));
    assert_eq!(dec(&payment_bank_amount(&d("118"), &d("100"), &taxes).unwrap()), n("108"));
    // a full settlement of 118 on an invoice of 118 with 100 untaxed
    assert_eq!(dec(&payment_withholding_base(&d("118"), &d("118"), &d("100")).unwrap()), n("100"));
    assert_eq!(dec(&payment_withholding_base(&d("59"), &d("118"), &d("100")).unwrap()), n("50"));
    assert_eq!(dec(&payment_withholding_base(&d("10"), &d("0"), &d("100")).unwrap()), n("10"));
}

#[test]
fn allocation_lines_balance_and_reject_excess_withholding() {
    let taxes = vec![tax(2, "TDS", "10", TaxKind::Withholding, Some(7)), tax(3, "Zero", "0", TaxKind::Withholding, None)];
    let (bank, lines) = build_payment_lines_for_allocation(&posted(1, 100, 1), &d("50.00"), &d("40"), &taxes).unwrap();
    assert_eq!(dec(&bank), n("46"));
    assert_eq!(lines.len(), 2);
    assert_eq!(lines[0].account_id, 100);
    assert_eq!(dec(&lines[0].amount), n("-50"));
    assert_eq!(lines[1].account_id, 7);
    let sum: Decimal = dec(&bank) + lines.iter().map(|l| dec(&l.amount)).sum::<Decimal>();
    assert!(sum.is_zero());
    let big = vec![tax(2, "TDS", "200", TaxKind::Withholding, Some(7))];
    assert_eq!(
        build_payment_lines_for_allocation(&posted(1, 100, 1), &d("10"), &d("10"), &big).unwrap_err(),
        "withholding exceeds settlement amount"
    );
    let missing = vec![tax(2, "TDS", "1", TaxKind::Withholding, None)];
    assert_eq!(
        build_payment_lines_for_allocation(&posted(1, 100, 1), &d("10"), &d("10"), &missing).unwrap_err(),
        "withholding tax TDS requires a ledger account"
    );
}

#[test]
fn allocation_checks_follow_the_invoice_state() {
    assert_eq!(check_allocation_request(0, &d("1")).unwrap_err(), "posted invoice is required");
    assert_eq!(check_allocation_request(3, &d("0")).unwrap_err(), "amount must be positive");
    assert!(check_allocation_request(3, &d("0.01")).is_ok());
    assert_eq!(check_allocation_state(false, 0, 0).unwrap_err(), "posted invoice not found");
    assert_eq!(check_allocation_state(true, 1, 0).unwrap_err(), "cannot pay a cancelled invoice");
    assert_eq!(check_allocation_state(true, 0, 1).unwrap_err(), "invoice is already fully paid");
    assert!(check_allocation_state(true, 0, 0).is_ok());
    assert_eq!(allocation_outcome(&d("60"), &d("100"), &d("50")).unwrap_err(), "payment exceeds open balance");
    assert_eq!(allocation_outcome(&d("50"), &d("100"), &d("50")), Ok(true));
    assert_eq!(allocation_outcome(&d("20"), &d("100"), &d("50")), Ok(false));
    assert_eq!(dec(&open_balance(&d("100"), &d("30")).unwrap()), n("70"));
    assert!(can_accept_payment(0, 0, Some(d("1"))));
    assert!(!can_accept_payment(0, 0, Some(d("0"))));
    assert!(!can_accept_payment(1, 0, Some(d("5"))));
    assert!(!can_accept_payment(0, 0, None));
    assert_eq!(resolve_payment_account(Some(4), Some(9)), 4);
    assert_eq!(resolve_payment_account(Some(0), Some(9)), 9);
    assert_eq!(resolve_payment_account(None, None), 0);
}

#[test]
fn payment_form_values_parse() {
    assert_eq!(dec(&parse_payment_amount(" 12.50 ").unwrap()), n("12.50"));
    assert_eq!(parse_payment_amount("abc").unwrap_err(), "invalid amount");
    assert_eq!(parse_withholding_tax_ids(" 1, x, -2,0, 3 "), vec![1, 3]);
    assert_eq!(parse_withholding_tax_ids(""), Vec::<i64>::new());
    assert_eq!(parse_header_tax_ids("4,+5, 6 "), vec![4, 5, 6]);
    assert_eq!(parse_posted_invoice_ids("7,,8"), vec![7, 8]);
}

#[test]
fn batch_checks_and_journal() {
    let a = BatchAllocation { posted_invoice_id: 1, amount: d("10"), withholding_tax_ids: vec![] };
    let b = BatchAllocation { posted_invoice_id: 1, amount: d("10"), withholding_tax_ids: vec![] };
    assert_eq!(check_batch_allocations(&vec![a]).unwrap_err(), "batch payment requires at least two invoices");
    let a = BatchAllocation { posted_invoice_id: 1, amount: d("10"), withholding_tax_ids: vec![] };
    assert_eq!(check_batch_allocations(&vec![a, b]).unwrap_err(), "duplicate invoice in batch");
    assert_eq!(check_batch_selection(1).unwrap_err(), "select at least two posted invoices");
    let taxes = vec![tax(10, "WH", "10", TaxKind::Withholding, Some(300))];
    let (bank1, lines1) = build_payment_lines_for_allocation(&posted(1, 100, 1), &d("118"), &d("100"), &taxes).unwrap();
    let (bank2, lines2) = build_payment_lines_for_allocation(&posted(2, 200, 1), &d("200"), &d("200"), &vec![]).unwrap();
    let prepared = vec![
        PreparedAllocation { settlement: d("118"), bank: bank1, lines: lines1 },
        PreparedAllocation { settlement: d("200"), bank: bank2, lines: lines2 },
    ];
    let j = batch_journal(50, &prepared).unwrap();
    assert_eq!(j.lines[0].account_id, 50);
    assert_eq!(dec(&j.total_bank), n("308"));
    assert_eq!(dec(&j.total_settlement), n("318"));
    let sum: Decimal = j.lines.iter().map(|l| dec(&l.amount)).sum();
    assert!(sum.is_zero());
    assert_eq!(j.lines.len(), 4);
}

#[test]
fn posting_journal_balances() {
    let lines = vec![
        PostingLine {
            product_id: 1,
            quantity: d("2"),
            rate: d("50"),
            taxes: vec![tax(1, "GST", "18", TaxKind::Levied, None), tax(2, "TDS", "10", TaxKind::Withholding, Some(70))],
            product_base_cost: d("30"),
        },
        PostingLine { product_id: 2, quantity: d("1.5"), rate: d("20"), taxes: vec![], product_base_cost: d("0") },
    ];
    let header = vec![tax(1, "GST", "18", TaxKind::Levied, None), tax(3, "Cess", "1", TaxKind::Levied, None)];
    let accounts = PostingAccounts { receivable: 11, revenue: 12, tax_payable: 13, inventory: 14, cost_of_sales: 15 };
    let j = posting_journal(&lines, &header, &accounts).unwrap();
    let sum: Decimal = j.specs.iter().map(|l| dec(&l.amount)).sum();
    assert!(sum.is_zero());
    // untaxed 100 + 30, levied 18, withholding 10, cess 1% of 130
    assert_eq!(dec(&j.total_receivable), n("139.3"));
    assert_eq!(j.revenue_item_indices, vec![0, 3]);
    assert_eq!(j.specs[0].account_id, 12);
    assert_eq!(dec(&j.specs[0].amount), n("-100"));
    assert_eq!(j.specs.last().unwrap().account_id, 11);
    let missing = vec![PostingLine {
        product_id: 1,
        quantity: d("1"),
        rate: d("10"),
        taxes: vec![tax(2, "TDS", "10", TaxKind::Withholding, None)],
        product_base_cost: d("1"),
    }];
    assert_eq!(
        posting_journal(&missing, &vec![], &accounts).unwrap_err(),
        "withholding tax TDS requires a ledger account"
    );
}

#[test]
fn draft_helpers() {
    assert_eq!(optional_trimmed_text("  ref 1 "), Some("ref 1".to_string()));
    assert_eq!(optional_trimmed_text("   "), None);
    assert_eq!(optional_display(&None), "—");
    assert_eq!(optional_display(&Some(String::new())), "—");
    assert_eq!(optional_display(&Some("x".to_string())), "x");
    assert_eq!(merge_tax_ids(&vec![1, 0, 2], &vec![2, 3], None), vec![1, 2, 3]);
    assert_eq!(merge_tax_ids(&vec![1], &vec![2], Some(&vec![5, 5])), vec![5, 5]);
    assert_eq!(lines_json_text("  ").unwrap_err(), "add at least one invoice line");
    assert_eq!(lines_json_text(" [] ").unwrap(), "[]");
    let row = DraftLinePending { product_id: 0, rate: None, quantity: "1".into(), tax_ids: None };
    assert_eq!(check_line_product_and_quantity(&row).unwrap_err(), "choose a product for each line");
    let row = DraftLinePending { product_id: 3, rate: Some(" ".into()), quantity: "0".into(), tax_ids: None };
    assert_eq!(check_line_product_and_quantity(&row).unwrap_err(), "quantity must be positive");
    assert_eq!(dec(&resolve_line_rate(&row, &d("9.99")).unwrap()), n("9.99"));
    let row = DraftLinePending { product_id: 3, rate: Some("-1".into()), quantity: "2".into(), tax_ids: None };
    assert_eq!(dec(&check_line_product_and_quantity(&row).unwrap()), n("2"));
    assert_eq!(resolve_line_rate(&row, &d("1")).unwrap_err(), "rate must be non-negative");
    let row = DraftLinePending { product_id: 3, rate: Some("x".into()), quantity: "2".into(), tax_ids: None };
    assert_eq!(resolve_line_rate(&row, &d("1")).unwrap_err(), "invalid rate");
    assert_eq!(unknown_product_message(42), "unknown product #42");
    assert_eq!(check_draft_header(0, 1, true).unwrap_err(), "add at least one invoice line");
    assert_eq!(check_draft_header(1, 0, true).unwrap_err(), "customer is required");
    assert!(check_draft_header(1, 0, false).is_ok());
    assert_eq!(draft_number(&Some("  A-1 ".into())), Some("A-1".to_string()));
    assert_eq!(draft_number(&Some("  ".into())), None);
    assert_eq!(check_draft_not_sealed(5, 1).unwrap_err(), "draft invoice is posted and cannot be changed");
    assert!(check_draft_not_sealed(0, 1).is_ok());
}

#[test]
fn invoice_numbers_fill_the_format() {
    assert_eq!(format_posted_invoice_number("", "FY24", "2024", "24", 7), "INV-2024-7");
    assert_eq!(format_posted_invoice_number("{{FISCAL_CODE}}/{{YY}}/{{POSTED_SEQ}}", "FY24", "2024", "24", 12), "FY24/24/12");
    assert_eq!(format_posted_invoice_number("{{YYYY}}{{YY}}", "", "2025", "25", 1), "202525");
    assert_eq!(draft_posted_number(&Some(" X-9 ".into())), Some("X-9".to_string()));
    assert_eq!(draft_posted_number(&Some(" ".into())), None);
}

#[test]
fn payment_term_helpers() {
    assert_eq!(payment_term_type_label(PAYMENT_TERM_TYPE_DUE_DATE), "Due Date");
    assert_eq!(payment_term_type_label(PAYMENT_TERM_TYPE_RELATIVE), "Relative");
    assert_eq!(payment_term_type_label("other"), "other");
    assert_eq!(payment_term_summary_fallback(PAYMENT_TERM_TYPE_DUE_DATE, 3), "Due date #3");
    assert_eq!(payment_term_summary_fallback(PAYMENT_TERM_TYPE_RELATIVE, 4), "Relative #4");
    assert_eq!(payment_term_summary_fallback("x", 5), "x #5");
    let bad = CreatePaymentTermInput::Relative(CreatePaymentTermRelative { duration_nanos: 0 });
    assert_eq!(payment_term_update_plan(PAYMENT_TERM_TYPE_RELATIVE, &bad).unwrap_err(), "duration must be positive");
    let due = CreatePaymentTermInput::DueDate(CreatePaymentTermDueDate { datetime: 1_700_000_000 });
    let plan = payment_term_update_plan(PAYMENT_TERM_TYPE_RELATIVE, &due).unwrap();
    assert_eq!(plan.term_type, PAYMENT_TERM_TYPE_DUE_DATE);
    assert!(!plan.update_in_place);
    let plan = payment_term_update_plan(PAYMENT_TERM_TYPE_DUE_DATE, &due).unwrap();
    assert!(plan.update_in_place);
    let v = payment_term_form_values(PAYMENT_TERM_TYPE_RELATIVE, "2024-01-01".into(), "3d".into());
    assert_eq!(v.due_datetime, "");
    assert_eq!(v.duration, "3d");
    let choices = PaymentTermForm::term_type_choices();
    assert_eq!(choices[0], (PAYMENT_TERM_TYPE_DUE_DATE, "Due on calendar date"));
    assert_eq!(choices[1], (PAYMENT_TERM_TYPE_RELATIVE, "Relative"));
    let owned = PaymentTermFormPage::term_choices();
    assert_eq!(owned[1].1, "Relative");
    assert_eq!(PaymentTermForm::alpine_x_data("a\"b"), "{ paymentTermType: \"a\\\"b\" }");
}

#[test]
fn labels_and_pages() {
    assert_eq!(posted_invoice_display_label(5, "INV-1"), "INV-1 (#5)");
    assert_eq!(posted_invoice_display_label(5, "  "), "#5");
    assert_eq!(cancelled::posted_invoice_display_label(6, "INV-2"), "INV-2");
    assert_eq!(cancelled::posted_invoice_display_label(6, ""), "#6");
    assert_eq!(invoice_instance_name(7, ""), "#7");
    assert_eq!(invoice_instance_name(7, "INV-7"), "INV-7");
    assert_eq!(payment_term_display_label("", 8), "#8");
    assert_eq!(payment_term_display_label("Net 30", 8), "Net 30");
    let page = PaymentTermDetailPage { id: 9, term_type: String::new(), summary: String::new(), can_edit: false };
    assert_eq!(page.title(), "#9");
    let ctx = SettlementDetailContext::empty(4);
    assert_eq!(ctx.number, "Not found");
    assert_eq!(ctx.settlement_id, 4);
    assert!(ctx.line_rows.is_empty());
    let paid = PaidInvoiceDetailPage::not_found(4);
    assert!(!paid.can_pay && !paid.can_edit);
    assert_eq!(paid.title(), "Paid invoice #4");
    let mut partial = PartiallyPaidInvoiceDetailPage::not_found(5);
    assert_eq!(partial.title(), "Partially paid invoice #5");
    partial.ctx.number = "INV-5".into();
    assert_eq!(partial.title(), "Partially paid invoice INV-5");
    assert_eq!(hub_row_extras_none(), (String::new(), String::new(), false));
    assert_eq!(hub_tab(Some("paid")), HubTab::Paid);
    assert_eq!(hub_tab(Some("nope")), HubTab::Drafts);
    assert_eq!(hub_tab(None), HubTab::Drafts);
    assert_eq!(page_number(Some(0)), 1);
    assert_eq!(page_number(Some(3)), 3);
    assert_eq!(hub_tab_url("posted"), "/finance-invoices/?tab=posted");
    assert_eq!(
        default_lines_json(),
        r#"[{"product_id":0,"quantity":"1","rate":"","product_label":"","fk_slot":"line-slot-0","tax_ids":[]}]"#
    );
    assert_eq!(name_or_id(None, 3), "#3");
    assert_eq!(tax_labels_text(&vec![]), "—");
    assert_eq!(tax_labels_text(&vec!["GST 18%".into(), "TDS".into()]), "GST 18%, TDS");
}

#[test]
fn line_display_rows_show_amounts() {
    assert_eq!(decimal_display(&d("2.500")), "2.5");
    assert_eq!(format_withholding(&d("0")), "—");
    assert_eq!(format_withholding(&d("10.00")), "(10)");
    let taxes = vec![tax(1, "GST", "18", TaxKind::Levied, None)];
    let row = line_display_row("Widget".into(), &d("2"), &d("50.00"), &vec!["GST 18%".into()], &taxes).unwrap();
    assert_eq!(row.product, "Widget");
    assert_eq!(row.rate, "50");
    assert_eq!(row.line_taxes, "GST 18%");
    assert_eq!(row.untaxed_amount, "100");
    assert_eq!(row.levied_tax_amount, "18");
    assert_eq!(row.withholding_amount, "—");
    assert_eq!(row.line_total, "118");
}

#[test]
fn cookie_and_filters() {
    assert_eq!(percent_decode("%7B%22a%22%3A%221%22%7D"), "{\"a\":\"1\"}");
    assert_eq!(percent_decode("abc%"), "abc%");
    assert_eq!(percent_decode("%zz%41"), "%zzA");
    assert_eq!(percent_decode("%+5x"), "\u{5}x");
    assert_eq!(environment_cookie_candidates("a=b; environment=%7B%7D ;x"), vec!["{}".to_string()]);
    assert!(environment_cookie_candidates("a=b").is_empty());
    assert_eq!(fiscal_year_cookie_choice(None), FiscalYearChoice::Default);
    assert_eq!(fiscal_year_cookie_choice(Some(" ")), FiscalYearChoice::AllYears);
    assert_eq!(fiscal_year_cookie_choice(Some(" 12 ")), FiscalYearChoice::Year(12));
    assert_eq!(fiscal_year_cookie_choice(Some("-3")), FiscalYearChoice::AllYears);
    assert_eq!(fiscal_year_cookie_choice(Some("x")), FiscalYearChoice::AllYears);
    assert_eq!(param_opt_i64(Some(" 42 ")), Some(42));
    assert_eq!(param_opt_i64(Some("  ")), None);
    assert_eq!(param_opt_i64(Some("4x")), None);
    assert_eq!(param_opt_i64(None), None);
    assert_eq!(param_opt_str(Some("")), None);
    assert_eq!(param_opt_str(Some(" a")), Some(" a".to_string()));
    assert_eq!(fk_value(None), "0");
    assert_eq!(fk_value(Some(15)), "15");
}

#[test]
fn posting_needs_an_unposted_draft_with_lines() {
    assert_eq!(check_posting_state(0, 3), Ok(()));
    assert_eq!(check_posting_state(1, 3), Err("draft already posted".to_string()));
    assert_eq!(check_posting_state(1, 0), Err("draft already posted".to_string()));
    assert_eq!(check_posting_state(0, 0), Err("draft has no lines".to_string()));
}

#[test]
fn duplicate_number_names_the_number() {
    assert_eq!(
        duplicate_number_message("INV-2024-0001"),
        "invoice number INV-2024-0001 is already used by another posted invoice"
    );
}

#[test]
fn reversed_items_follow_the_original_order() {
    let original = vec![10, 11, 12];
    let reversed = vec![20, 21, 22];
    let lines = vec![(1, 12), (2, 10)];
    assert_eq!(reversed_line_items(&original, &reversed, &lines), Ok(vec![22, 20]));
    // A repeated original item maps to its last position.
    let original = vec![10, 11, 10];
    assert_eq!(reversed_line_items(&original, &reversed, &vec![(1, 10)]), Ok(vec![22]));
    assert_eq!(
        reversed_line_items(&original, &vec![20], &lines),
        Err("reversal line count mismatch".to_string())
    );
    assert_eq!(
        reversed_line_items(&vec![10, 11, 12], &reversed, &vec![(1, 10), (7, 99)]),
        Err("could not map journal line for posted invoice line 7".to_string())
    );
    assert_eq!(reversed_line_items(&vec![], &vec![], &vec![]), Ok(vec![]));
}

#[test]
fn batch_row_offers_the_open_balance() {
    let row = batch_allocation_row(5, "INV-1", Some("Acme".to_string()), &d("120.50")).unwrap();
    assert_eq!(row.posted_invoice_id, 5);
    assert_eq!(row.amount, "120.5");
    assert_eq!(row.open_balance, "120.5");
    assert!(row.tax_ids.is_empty());
    assert_eq!(row.invoice_number, "INV-1 (#5)");
    assert_eq!(row.customer_name, "Acme");
    let row = batch_allocation_row(6, "", None, &d("1")).unwrap();
    assert_eq!(row.invoice_number, "#6");
    assert_eq!(row.customer_name, "—");
    assert_eq!(
        batch_allocation_row(5, "INV-1", None, &d("0")).unwrap_err(),
        "invoice INV-1 (#5) has no open balance"
    );
    assert_eq!(
        batch_allocation_row(5, "INV-1", None, &d("-3")).unwrap_err(),
        "invoice INV-1 (#5) has no open balance"
    );
}

#[test]
fn optional_account_id_is_a_positive_integer() {
    assert_eq!(parse_optional_account_id(" 42 "), Some(42));
    assert_eq!(parse_optional_account_id("0"), None);
    assert_eq!(parse_optional_account_id("-4"), None);
    assert_eq!(parse_optional_account_id(""), None);
    assert_eq!(parse_optional_account_id("abc"), None);
}

#[test]
fn preferences_must_name_accounts() {
    assert_eq!(optional_id(Some(4)), 4);
    assert_eq!(optional_id(None), 0);
    assert_eq!(check_invoice_journal(Some(3)), Ok(()));
    assert_eq!(check_invoice_journal(Some(0)), Err("journal is required in invoice preferences".to_string()));
    assert_eq!(check_invoice_journal(None), Err("journal is required in invoice preferences".to_string()));
    assert_eq!(check_payment_account_preference(Some(9)), Ok(9));
    assert_eq!(
        check_payment_account_preference(None),
        Err("payment account is required in payment preferences".to_string())
    );
    assert_eq!(check_product_posting_accounts(Some(1), Some(2)), Ok(()));
    let msg = "product preferences must have inventory and cost-of-sales accounts for posting".to_string();
    assert_eq!(check_product_posting_accounts(Some(1), None), Err(msg.clone()));
    assert_eq!(check_product_posting_accounts(Some(0), Some(2)), Err(msg));
}

#[test]
fn credit_note_label_shortens_long_reasons() {
    assert_eq!(credit_note_display_label(3, "05 Jan 2024", None), "#3 · 05 Jan 2024");
    assert_eq!(credit_note_display_label(3, "05 Jan 2024", Some("   ")), "#3 · 05 Jan 2024");
    assert_eq!(credit_note_display_label(3, "05 Jan 2024", Some("  wrong rate ")), "#3 · 05 Jan 2024 · wrong rate");
    let exact = "a".repeat(48);
    assert_eq!(credit_note_display_label(4, "d", Some(&exact)), format!("#4 · d · {exact}"));
    let long = "b".repeat(49);
    assert_eq!(credit_note_display_label(4, "d", Some(&long)), format!("#4 · d · {}…", "b".repeat(45)));
}

#[test]
fn draft_form_needs_customer_then_term() {
    let mut form = DraftInvoiceForm {
        number: String::new(),
        reference: String::new(),
        payment_reference: String::new(),
        bank_account: String::new(),
        datetime: String::new(),
        customer_id: 0,
        payment_term_id: 0,
        taxes: vec![],
        invoice_lines_json: String::new(),
    };
    assert_eq!(draft_form_payment_term(&form).err(), Some("select a customer".to_string()));
    form.customer_id = 7;
    assert_eq!(draft_form_payment_term(&form).err(), Some("select a payment term".to_string()));
    form.payment_term_id = 9;
    assert!(matches!(draft_form_payment_term(&form), Ok(PaymentTermSelection::Existing(9))));
}

#[test]
fn due_dates_must_not_be_blank() {
    assert_eq!(due_date_text(" 2024-03-01 "), Ok("2024-03-01".to_string()));
    assert_eq!(due_date_text("  "), Err("due date is required".to_string()));
    assert_eq!(due_datetime_text("2024-03-01T10:00"), Ok("2024-03-01T10:00".to_string()));
    assert_eq!(due_datetime_text(""), Err("datetime is required for due date payment term".to_string()));
}

#[test]
fn batch_found_counts_must_match() {
    assert_eq!(check_posted_found(3, 3), Ok(()));
    assert_eq!(check_posted_found(2, 3), Err("one or more posted invoices not found".to_string()));
    assert_eq!(check_selection_available(2, 2), Ok(()));
    assert_eq!(check_selection_available(1, 2), Err("one or more selected invoices are unavailable".to_string()));
}

#[test]
fn mixed_journals_are_listed_in_order() {
    let labels = vec!["Sales".to_string(), "Bank".to_string(), "Misc".to_string()];
    assert_eq!(
        mixed_journals_message(&labels),
        "all invoices in a batch must share the same journal (found: Bank, Misc, Sales)"
    );
    let mut expected = vec!["b".to_string(), "B".to_string(), "ab".to_string(), "a".to_string(), "é".to_string()];
    let sorted = sort_texts(&expected);
    expected.sort();
    assert_eq!(sorted, expected);
    assert!(text_less("a", "ab"));
    assert!(!text_less("ab", "a"));
    assert!(text_less("B", "a"));
    assert!(!text_less("a", "a"));
}

#[test]
fn submitted_rows_are_filled_from_the_invoice() {
    let blank = PaymentBatchAllocationRow {
        posted_invoice_id: 5,
        amount: "10".to_string(),
        tax_ids: vec![2],
        invoice_number: String::new(),
        customer_name: String::new(),
        open_balance: String::new(),
    };
    let source = AllocationRowSource {
        id: 5,
        number: "INV-5".to_string(),
        customer_name: None,
        open_balance: Some(d("40.00")),
    };
    let row = enrich_allocation_row(blank, Some(source));
    assert_eq!(row.amount, "10");
    assert_eq!(row.tax_ids, vec![2]);
    assert_eq!(row.invoice_number, "INV-5 (#5)");
    assert_eq!(row.customer_name, "—");
    assert_eq!(row.open_balance, "40");
    let typed = PaymentBatchAllocationRow {
        posted_invoice_id: 5,
        amount: "10".to_string(),
        tax_ids: vec![],
        invoice_number: "kept".to_string(),
        customer_name: "Acme".to_string(),
        open_balance: "1".to_string(),
    };
    let row = enrich_allocation_row(typed, Some(AllocationRowSource {
        id: 5,
        number: "INV-5".to_string(),
        customer_name: Some("Other".to_string()),
        open_balance: None,
    }));
    assert_eq!((row.invoice_number.as_str(), row.customer_name.as_str(), row.open_balance.as_str()), ("kept", "Acme", "1"));
    let unknown = PaymentBatchAllocationRow {
        posted_invoice_id: 8,
        amount: "3".to_string(),
        tax_ids: vec![],
        invoice_number: String::new(),
        customer_name: String::new(),
        open_balance: String::new(),
    };
    let row = enrich_allocation_row(unknown, None);
    assert_eq!(row.invoice_number, "");
}

#[test]
fn posting_sequence_follows_the_largest_id() {
    assert_eq!(next_posted_invoice_seq(0), Some(1));
    assert_eq!(next_posted_invoice_seq(41), Some(42));
    assert_eq!(next_posted_invoice_seq(i64::MAX), None);
}

#[test]
fn an_existing_term_must_be_named() {
    assert_eq!(check_payment_term_selection(&PaymentTermSelection::Existing(3)), Ok(()));
    assert_eq!(
        check_payment_term_selection(&PaymentTermSelection::Existing(0)),
        Err("payment term is required".to_string())
    );
    assert_eq!(check_payment_term_selection(&PaymentTermSelection::DueDate(1_700_000_000)), Ok(()));
}

#[test]
fn filter_datetimes_read_three_forms() {
    assert_eq!(parse_filter_datetime("  "), None);
    assert_eq!(parse_filter_datetime("2024-01-02T03:04:05Z"), Some((1704164645, 0)));
    assert_eq!(parse_filter_datetime("2024-01-02T08:34:05+05:30"), Some((1704164645, 0)));
    assert_eq!(parse_filter_datetime("2024-01-02T03:04:05.5Z"), Some((1704164645, 500_000_000)));
    assert_eq!(parse_filter_datetime(" 2024-01-02T03:04:05 "), Some((1704164645, 0)));
    assert_eq!(parse_filter_datetime("2024-01-02T03:04"), Some((1704164640, 0)));
    assert_eq!(parse_filter_datetime("yesterday"), None);
}

#[test]
fn due_dates_end_at_the_last_second() {
    assert_eq!(due_date_local_seconds(" 1970-01-01 "), Ok(86399));
    assert_eq!(due_date_local_seconds("2024-01-02"), Ok(1704153600 + 86399));
    assert_eq!(due_date_local_seconds(""), Err("due date is required".to_string()));
    assert_eq!(due_date_local_seconds("02/01/2024"), Err("invalid due date".to_string()));
}

#[test]
fn generated_numbers_use_the_invoice_year() {
    assert_eq!(generated_posted_number("", "FY24", 1704164645, 7), Some("INV-2024-7".to_string()));
    assert_eq!(
        generated_posted_number("{{FISCAL_CODE}}/{{YY}}/{{POSTED_SEQ}}", "FY24", 1704164645, 12),
        Some("FY24/24/12".to_string())
    );
    assert_eq!(generated_posted_number("", "", i64::MAX, 1), None);
}

#[test]
fn editor_state_is_assembled_from_its_parts() {
    let data = invoice_lines_alpine_data("  ", "[]", "{}", "{}", "[]", "/p?x=1", "/t");
    let expected = format!(
        "{{ lines: {}, products: [], tax_pct_by_id: {{}}, tax_kind_by_id: {{}}, all_taxes: [], product_pick_base: \"/p?x=1\", tax_pick_base: \"/t\", {} }}",
        r#"[{"product_id":0,"quantity":"1","rate":"","product_label":"","fk_slot":"line-slot-0","tax_ids":[]}]"#,
        INVOICE_LINES_DRAFT_ALPINE_METHODS
    );
    assert_eq!(data, expected);
    let data = invoice_lines_alpine_data(" [1] ", "[2]", "{\"1\":\"18\"}", "{}", "[]", "a", "b");
    assert!(data.starts_with("{ lines: [1], products: [2], tax_pct_by_id: {\"1\":\"18\"}, "));
    let batch = batch_allocations_alpine_data("[{\"a\":1}]", "/t", "{}", "[]");
    assert_eq!(
        batch,
        format!(
            "{{ allocations: [{{\"a\":1}}], hidden_json: \"[{{\\\"a\\\":1}}]\", tax_pick_base: \"/t\", tax_pct_by_id: {{}}, all_taxes: [], {} }}",
            PAYMENT_BATCH_ALLOCATIONS_ALPINE
        )
    );
}

#[test]
fn journal_totals_are_exact_or_absent() {
    let line = |amount: &str| JournalLineSpec { account_id: 1, amount: d(amount) };
    let t = exact_lines_total(&vec![line("100.50"), line("-40.25"), line("-60.25")]).unwrap();
    assert_eq!(dec(&t), n("0"));
    let t = exact_lines_total(&vec![line("1.5"), line("2.25")]).unwrap();
    assert_eq!(dec(&t), n("3.75"));
    assert_eq!(dec(&exact_lines_total(&vec![]).unwrap()), n("0"));
    let huge = Dec { mantissa: 79228162514264337593543950335, scale: 0 };
    let tiny = Dec { mantissa: 1, scale: 28 };
    assert!(!add_is_exact(&huge, &tiny));
    assert!(add_is_exact(&d("1.5"), &d("2.25")));
    let two = vec![JournalLineSpec { account_id: 1, amount: huge }, JournalLineSpec { account_id: 1, amount: huge }];
    assert!(exact_lines_total(&two).is_none());
}

#[test]
fn hub_table_depends_on_tab_and_rights() {
    let l = hub_table_layout("posted", true);
    assert!(l.show_select && !l.show_create);
    assert_eq!(l.headers, vec!["", "Number", "Customer", "Open balance", "Date", "Status"]);
    let l = hub_table_layout("drafts", true);
    assert!(!l.show_select && l.show_create);
    assert_eq!(l.headers, vec!["Number", "Date", "Status"]);
    let l = hub_table_layout("posted", false);
    assert!(!l.show_select && !l.show_create);
    let row = InvoiceRow {
        id: 4,
        number: "INV-4".into(),
        datetime: "01 Jan".into(),
        status: "Posted".into(),
        detail_href: "/x".into(),
        customer_name: "Acme".into(),
        open_balance: "10".into(),
        selectable: true,
    };
    let cells = hub_row_cells(&row, true, true);
    assert_eq!(cells.len(), 6);
    assert!(matches!(cells[0], HubCell::Select(4)));
    assert!(matches!(&cells[3], HubCell::Amount(t) if t == "10"));
    let cells = hub_row_cells(&row, false, false);
    assert_eq!(cells.len(), 3);
    assert!(matches!(&cells[0], HubCell::Text(t) if t == "INV-4"));
}

#[test]
fn decimals_are_written_as_display_writes_them() {
    assert_eq!(decimal_display(&Dec { mantissa: -5, scale: 2 }), "-0.05");
    assert_eq!(decimal_display(&Dec { mantissa: 1205, scale: 1 }), "120.5");
    assert_eq!(decimal_display(&Dec { mantissa: 0, scale: 3 }), "0");
    assert_eq!(decimal_display(&Dec { mantissa: 4200, scale: 0 }), "4200");
    assert_eq!(decimal_display(&Dec { mantissa: 12345, scale: 5 }), "0.12345");
}

#[test]
fn json_strings_escape_quotes_and_controls() {
    let batch = batch_allocations_alpine_data("a\"b\n\u{1}", "", "{}", "[]");
    assert!(batch.starts_with("{ allocations: a\"b\n\u{1}, hidden_json: \"a\\\"b\\n\\u0001\", tax_pick_base: \"\", "));
}

#[test]
fn draft_posting_checks_come_in_order() {
    assert_eq!(check_draft_postable(false, 1, 0), Err("draft invoice required".to_string()));
    assert_eq!(check_draft_postable(true, 1, 0), Err("draft already posted".to_string()));
    assert_eq!(check_draft_postable(true, 0, 0), Err("draft has no lines".to_string()));
    assert_eq!(check_draft_postable(true, 0, 2), Ok(()));
}

#[test]
fn only_open_invoices_can_be_cancelled() {
    assert_eq!(check_cancellable(true, 0, 0, 0), Ok(()));
    let no = Err("posted invoice is not cancellable".to_string());
    assert_eq!(check_cancellable(false, 0, 0, 0), no);
    assert_eq!(check_cancellable(true, 1, 0, 0), no);
    assert_eq!(check_cancellable(true, 0, 1, 0), no);
    assert_eq!(check_cancellable(true, 0, 0, 1), no);
}

#[test]
fn bounds_are_checked_exactly() {
    assert!(within6(&d("999.999999"), 1_000_000_000));
    assert!(!within6(&d("1000.000001"), 1_000_000_000));
    assert!(!within6(&d("0.0000001"), 1_000_000_000));
    assert!(pcts_ok_check(&vec![tax(1, "A", "600", TaxKind::Levied, None), tax(2, "B", "400", TaxKind::Levied, None)]));
    assert!(!pcts_ok_check(&vec![tax(1, "A", "600", TaxKind::Levied, None), tax(2, "B", "400.5", TaxKind::Levied, None)]));
    let line = |q: &str, r: &str| PostingLine { product_id: 1, quantity: d(q), rate: d(r), taxes: vec![], product_base_cost: d("0") };
    assert!(lines_ok_check(&vec![line("2", "2500000"), line("1", "-5000000")]));
    assert!(!lines_ok_check(&vec![line("2", "2500000"), line("1", "-5000000.01")]));
    assert!(!lines_ok_check(&vec![line("0.0000001", "1")]));
    assert!(lines_ok_check(&vec![]));
}
