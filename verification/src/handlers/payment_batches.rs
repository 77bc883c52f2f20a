//! Batch payment pages.
use crate::decimal::{decimal_display, decimal_lt, dec_zero, display_text, Dec};
use crate::handlers::payments::posted_label;
use crate::templates::PaymentBatchAllocationRow;
use crate::handlers::ModalNameQuery;
use crate::text::{id_list, parse_positive_id_list};
use vstd::prelude::*;

verus! {

/// Query of the batch list.
#[derive(Debug, Default)]
pub struct ListQuery {
    pub page: Option<u32>,
}

/// Query of the batch create modal.
#[derive(Debug, Default)]
pub struct BatchCreateQuery {
    pub modal: ModalNameQuery,
    pub posted_invoice_ids: Option<String>,
}

/// The invoices selected for a batch: the comma-separated pieces that parse
/// as positive integers, in order.
pub fn parse_posted_invoice_ids(raw: &str) -> (r: Vec<i64>)
    ensures
        r@ == id_list(raw@),
        forall|i: int| 0 <= i < r.len() ==> #[trigger] r@[i] > 0,
{
    parse_positive_id_list(raw)
}

/// How batch pages name a posted invoice: as payment pages do.
pub fn posted_invoice_display_label(id: i64, number: &str) -> (r: String)
    ensures
        r@ == posted_label(id as int, number@),
{
    crate::handlers::payments::posted_invoice_display_label(id, number)
}

/// A batch needs at least two invoices to be offered.
pub fn check_batch_selection(count: usize) -> (r: Result<(), String>)
    ensures
        match r {
            Ok(_) => count >= 2,
            Err(e) => count < 2 && e@ == "select at least two posted invoices"@,
        },
{
    if count < 2 {
        return Err(String::from_str("select at least two posted invoices"));
    }
    Ok(())
}

/// The row offered for an invoice in a new batch: its open balance as the
/// amount, its label and customer (a dash when unknown); an invoice with
/// nothing left to pay is refused.
pub fn batch_allocation_row(
    posted_invoice_id: i64,
    number: &str,
    customer_name: Option<String>,
    open: &Dec,
) -> (r: Result<PaymentBatchAllocationRow, String>)
    requires
        open.wf(),
    ensures
        match r {
            Ok(row) => open.val() > 0 && row.posted_invoice_id == posted_invoice_id && row.amount@
                == display_text(*open) && row.tax_ids@.len() == 0 && row.invoice_number@ == posted_label(
                posted_invoice_id as int,
                number@,
            ) && row.customer_name@ == match customer_name {
                Some(c) => c@,
                None => "—"@,
            } && row.open_balance@ == display_text(*open),
            Err(e) => open.val() <= 0 && e@ == "invoice "@ + posted_label(posted_invoice_id as int, number@)
                + " has no open balance"@,
        },
{
    let label = posted_invoice_display_label(posted_invoice_id, number);
    let zero = dec_zero();
    if !decimal_lt(&zero, open) {
        let mut msg = String::from_str("invoice ");
        msg.append(label.as_str());
        msg.append(" has no open balance");
        return Err(msg);
    }
    let customer = match customer_name {
        Some(c) => c,
        None => String::from_str("—"),
    };
    Ok(
        PaymentBatchAllocationRow {
            posted_invoice_id,
            amount: decimal_display(open),
            tax_ids: Vec::new(),
            invoice_number: label,
            customer_name: customer,
            open_balance: decimal_display(open),
        },
    )
}

/// Every selected invoice must still be open for a batch: as many invoices
/// were found as were selected.
pub fn check_selection_available(found: usize, selected: usize) -> (r: Result<(), String>)
    ensures
        match r {
            Ok(_) => found == selected,
            Err(e) => found != selected && e@ == "one or more selected invoices are unavailable"@,
        },
{
    if found != selected {
        return Err(String::from_str("one or more selected invoices are unavailable"));
    }
    Ok(())
}

/// What is known of a submitted row's invoice when the form is shown again:
/// its id and number, its customer's name if found, and its open balance if
/// it could be computed.
pub struct AllocationRowSource {
    pub id: i64,
    pub number: String,
    pub customer_name: Option<String>,
    pub open_balance: Option<Dec>,
}

/// A submitted row shown again: the amount and taxes as typed; the label,
/// customer and open balance as submitted, each filled from the invoice
/// where it came back empty and the invoice is known.
pub fn enrich_allocation_row(row: PaymentBatchAllocationRow, source: Option<AllocationRowSource>) -> (r:
    PaymentBatchAllocationRow)
    requires
        source matches Some(src) ==> (src.open_balance matches Some(o) ==> o.wf()),
    ensures
        r.posted_invoice_id == row.posted_invoice_id,
        r.amount@ == row.amount@,
        r.tax_ids@ == row.tax_ids@,
        r.invoice_number@ == match source {
            Some(src) => if row.invoice_number@.len() == 0 {
                posted_label(src.id as int, src.number@)
            } else {
                row.invoice_number@
            },
            None => row.invoice_number@,
        },
        r.customer_name@ == match source {
            Some(src) => if row.customer_name@.len() == 0 {
                match src.customer_name {
                    Some(c) => c@,
                    None => "—"@,
                }
            } else {
                row.customer_name@
            },
            None => row.customer_name@,
        },
        r.open_balance@ == match source {
            Some(src) => if row.open_balance@.len() == 0 {
                match src.open_balance {
                    Some(o) => display_text(o),
                    None => row.open_balance@,
                }
            } else {
                row.open_balance@
            },
            None => row.open_balance@,
        },
{
    let PaymentBatchAllocationRow {
        posted_invoice_id,
        amount,
        tax_ids,
        invoice_number,
        customer_name,
        open_balance,
    } = row;
    match source {
        None => PaymentBatchAllocationRow {
            posted_invoice_id,
            amount,
            tax_ids,
            invoice_number,
            customer_name,
            open_balance,
        },
        Some(src) => {
            let invoice_number = if invoice_number.as_str().is_empty() {
                posted_invoice_display_label(src.id, src.number.as_str())
            } else {
                invoice_number
            };
            let customer_name = if customer_name.as_str().is_empty() {
                match src.customer_name {
                    Some(c) => c,
                    None => String::from_str("—"),
                }
            } else {
                customer_name
            };
            let open_balance = if open_balance.as_str().is_empty() {
                match &src.open_balance {
                    Some(o) => decimal_display(o),
                    None => open_balance,
                }
            } else {
                open_balance
            };
            PaymentBatchAllocationRow {
                posted_invoice_id,
                amount,
                tax_ids,
                invoice_number,
                customer_name,
                open_balance,
            }
        },
    }
}

/// The account typed into the batch form: a positive integer, else none.
pub fn parse_optional_account_id(raw: &str) -> (r: Option<i64>)
    ensures
        r == match crate::text::parse_i64_spec(crate::text::trim(raw@)) {
            Some(id) => if id > 0 {
                Some(id)
            } else {
                None
            },
            None => None,
        },
{
    let c = crate::text::chars_of(raw);
    let (a, b) = crate::text::trim_bounds(&c, 0, c.len());
    proof {
        assert(c@.subrange(0, c@.len() as int) =~= raw@);
    }
    match crate::text::parse_i64_range(&c, a, b) {
        Some(id) => {
            if id > 0 {
                Some(id)
            } else {
                None
            }
        },
        None => None,
    }
}

} // verus!
