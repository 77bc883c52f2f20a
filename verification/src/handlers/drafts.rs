//! Draft invoice pages.
use crate::forms::DraftInvoiceForm;
use crate::logic::draft::PaymentTermSelection;
use vstd::prelude::*;

verus! {

/// Query of the draft delete confirmation.
#[derive(Debug, Default)]
pub struct DeleteQuery {
    pub confirmed: Option<bool>,
}

/// Query of the draft detail page.
#[derive(Debug, Default)]
pub struct DetailQuery {
    pub error: Option<String>,
}

/// The checks a submitted draft form passes before its lines are read: a
/// customer is chosen, then a payment term; the term chosen is the draft's.
pub fn draft_form_payment_term(form: &DraftInvoiceForm) -> (r: Result<PaymentTermSelection, String>)
    ensures
        match r {
            Ok(sel) => form.customer_id > 0 && form.payment_term_id > 0 && sel == PaymentTermSelection::Existing(
                form.payment_term_id,
            ),
            Err(e) => (form.customer_id <= 0 && e@ == "select a customer"@) || (form.customer_id > 0
                && form.payment_term_id <= 0 && e@ == "select a payment term"@),
        },
{
    if form.customer_id <= 0 {
        return Err(String::from_str("select a customer"));
    }
    if form.payment_term_id <= 0 {
        return Err(String::from_str("select a payment term"));
    }
    Ok(PaymentTermSelection::Existing(form.payment_term_id))
}

} // verus!
