//! What the invoice line editor starts from and how invoice lines are shown.
use crate::decimal::{dec_is_zero, decimal_display, display_text, Dec};
use crate::logic::tax_calculations::{invoice_line_amount_breakdown, line_breakdown, taxes_wf, Tax};
use crate::text::{hash_id, hash_id_text, join_text, join_with};
use vstd::prelude::*;

verus! {

/// The editor's contents for a new draft: one empty line.
pub fn default_lines_json() -> (r: String)
    ensures
        r@ == "[{\"product_id\":0,\"quantity\":\"1\",\"rate\":\"\",\"product_label\":\"\",\"fk_slot\":\"line-slot-0\",\"tax_ids\":[]}]"@,
{
    String::from_str(
        "[{\"product_id\":0,\"quantity\":\"1\",\"rate\":\"\",\"product_label\":\"\",\"fk_slot\":\"line-slot-0\",\"tax_ids\":[]}]",
    )
}

/// One invoice line as the detail pages show it.
#[derive(Debug)]
pub struct InvoiceLineDisplayRow {
    pub product: String,
    pub quantity: String,
    pub rate: String,
    pub line_taxes: String,
    pub untaxed_amount: String,
    pub levied_tax_amount: String,
    pub withholding_amount: String,
    pub line_total: String,
}

/// A withholding amount as shown: a dash for zero, else in parentheses.
pub open spec fn withholding_text(d: Dec) -> Seq<char> {
    if d.val() == 0 {
        "—"@
    } else {
        "("@ + display_text(d) + ")"@
    }
}

pub fn format_withholding(d: &Dec) -> (r: String)
    requires
        d.wf(),
    ensures
        r@ == withholding_text(*d),
{
    if dec_is_zero(d) {
        return String::from_str("—");
    }
    let mut s = String::from_str("(");
    let t = decimal_display(d);
    s.append(t.as_str());
    s.append(")");
    s
}

/// Tax labels joined by commas, or a dash when there are none.
pub open spec fn labels_text(labels: Seq<Seq<char>>) -> Seq<char> {
    if labels.len() == 0 {
        "—"@
    } else {
        join_with(labels, ", "@)
    }
}

pub fn tax_labels_text(labels: &Vec<String>) -> (r: String)
    ensures
        r@ == labels_text(labels@.map_values(|l: String| l@)),
{
    if labels.len() == 0 {
        return String::from_str("—");
    }
    join_text(labels, ", ")
}

/// A name, or `#id` when there is none.
pub fn name_or_id(name: Option<String>, id: i64) -> (r: String)
    ensures
        r@ == match name {
            Some(n) => n@,
            None => hash_id(id as int),
        },
{
    match name {
        Some(n) => n,
        None => hash_id_text(id),
    }
}

/// The row shown for one invoice line: its product, quantity and rate, its
/// taxes, and the amounts of its breakdown.
pub fn line_display_row(
    product: String,
    quantity: &Dec,
    rate: &Dec,
    tax_labels: &Vec<String>,
    taxes: &Vec<Tax>,
) -> (r: Option<InvoiceLineDisplayRow>)
    requires
        quantity.wf(),
        rate.wf(),
        taxes_wf(taxes@),
    ensures
        match line_breakdown(*quantity, *rate, taxes@) {
            None => r is None,
            Some((u, l, w, n)) => r is Some && {
                let row = r.unwrap();
                &&& row.product@ == product@
                &&& row.quantity@ == display_text(*quantity)
                &&& row.rate@ == display_text(*rate)
                &&& row.line_taxes@ == if taxes@.len() == 0 {
                    "—"@
                } else {
                    join_with(tax_labels@.map_values(|s: String| s@), ", "@)
                }
                &&& row.untaxed_amount@ == display_text(u)
                &&& row.levied_tax_amount@ == display_text(l)
                &&& row.withholding_amount@ == withholding_text(w)
                &&& row.line_total@ == display_text(n)
            },
        },
{
    let (u, l, w, n) = match invoice_line_amount_breakdown(quantity, rate, taxes) {
        Some(x) => x,
        None => return None,
    };
    let line_taxes = if taxes.len() == 0 {
        String::from_str("—")
    } else {
        join_text(tax_labels, ", ")
    };
    Some(
        InvoiceLineDisplayRow {
            product,
            quantity: decimal_display(quantity),
            rate: decimal_display(rate),
            line_taxes,
            untaxed_amount: decimal_display(&u),
            levied_tax_amount: decimal_display(&l),
            withholding_amount: format_withholding(&w),
            line_total: decimal_display(&n),
        },
    )
}

} // verus!
