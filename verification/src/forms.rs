//! The forms' fields, as plain values.
use crate::logic::payment_term::{due_date_key, relative_key, PAYMENT_TERM_TYPE_DUE_DATE, PAYMENT_TERM_TYPE_RELATIVE};
use vstd::prelude::*;

verus! {

/// The draft line editor widget (Alpine editor with hidden JSON).
#[derive(Debug, Default, Clone, Copy)]
pub struct InvoiceLinesDraft;

/// The draft invoice form.
#[derive(Debug, Default)]
pub struct DraftInvoiceForm {
    pub number: String,
    pub reference: String,
    pub payment_reference: String,
    pub bank_account: String,
    pub datetime: String,
    pub customer_id: i64,
    pub payment_term_id: i64,
    pub taxes: Vec<i64>,
    pub invoice_lines_json: String,
}

/// The payment term form.
#[derive(Debug, Default)]
pub struct PaymentTermForm {
    pub term_type: String,
    pub due_datetime: String,
    pub duration: String,
}

/// A hexadecimal digit as serde_json writes it (lower case).
pub open spec fn hex_digit_char(v: int) -> char {
    if v < 10 {
        ((v + 48) as u32) as char
    } else {
        ((v + 87) as u32) as char
    }
}

/// How serde_json writes one character inside a JSON string: quote and
/// backslash escaped with a backslash, the usual short escapes for
/// backspace, tab, line feed, form feed and carriage return, other control
/// characters as `\u00XX`, everything else as is.
pub open spec fn json_escape_char(c: char) -> Seq<char> {
    if c == '"' {
        seq!['\\', '"']
    } else if c == '\\' {
        seq!['\\', '\\']
    } else if c == '\u{8}' {
        seq!['\\', 'b']
    } else if c == '\t' {
        seq!['\\', 't']
    } else if c == '\n' {
        seq!['\\', 'n']
    } else if c == '\u{c}' {
        seq!['\\', 'f']
    } else if c == '\r' {
        seq!['\\', 'r']
    } else if (c as u32) < 0x20 {
        seq!['\\', 'u', '0', '0', hex_digit_char(((c as u32) / 16) as int), hex_digit_char(((c as u32) % 16) as int)]
    } else {
        seq![c]
    }
}

/// The escaped characters of a text.
pub open spec fn json_escaped(s: Seq<char>) -> Seq<char>
    decreases s.len(),
{
    if s.len() == 0 {
        Seq::empty()
    } else {
        json_escaped(s.drop_last()) + json_escape_char(s.last())
    }
}

/// What `serde_json::to_string` writes for a text: the escaped text in
/// double quotes.
pub open spec fn json_string(s: Seq<char>) -> Seq<char> {
    seq!['"'] + json_escaped(s) + seq!['"']
}

/// `serde_json::to_string` of a string slice (`""` on failure, which
/// writing a string never meets).
///
/// Claimed: the text is `json_string` of the text, as serde_json's
/// `format_escaped_str` writes it with its escape table.
#[verifier::external_body]
pub(crate) fn json_quote(s: &str) -> (r: String)
    ensures
        r@ == json_string(s@),
{
    serde_json::to_string(s).unwrap_or_else(|_| "\"\"".to_string())
}

impl PaymentTermForm {
    /// The term kinds offered, as (type key, label).
    pub fn term_type_choices() -> (r: Vec<(&'static str, &'static str)>)
        ensures
            r@.len() == 2,
            r@[0].0@ == due_date_key(),
            r@[0].1@ == "Due on calendar date"@,
            r@[1].0@ == relative_key(),
            r@[1].1@ == "Relative"@,
    {
        let mut v: Vec<(&'static str, &'static str)> = Vec::new();
        v.push((PAYMENT_TERM_TYPE_DUE_DATE, "Due on calendar date"));
        v.push((PAYMENT_TERM_TYPE_RELATIVE, "Relative"));
        v
    }

    /// Alpine `x-data` for the form (`paymentTermType` drives the
    /// conditional fields).
    pub fn alpine_x_data(term_type: &str) -> (r: String)
        ensures
            r@ == "{ paymentTermType: "@ + json_string(term_type@) + " }"@,
    {
        let mut s = String::from_str("{ paymentTermType: ");
        let q = json_quote(term_type);
        s.append(q.as_str());
        s.append(" }");
        s
    }
}

/// The payment form.
#[derive(Debug, Default)]
pub struct PaymentForm {
    pub posted_invoice_id: i64,
    pub amount: String,
    pub account_id: String,
    pub datetime: String,
    pub taxes: Vec<i64>,
}

/// The batch payment form's header fields.
#[derive(Debug, Default)]
pub struct PaymentBatchForm {
    pub datetime: String,
    pub account_id: String,
    pub allocations_json: String,
}

/// The batch allocations editor widget (Alpine editor with hidden JSON).
#[derive(Debug, Default, Clone, Copy)]
pub struct PaymentBatchAllocations;

/// The invoice preferences form.
#[derive(Debug, Default)]
pub struct InvoicePreferencesForm {
    pub account_receivable_id: String,
    pub account_revenue_id: String,
    pub account_tax_payable_id: String,
    pub journal_id: String,
}

/// The payment preferences form.
#[derive(Debug, Default)]
pub struct PaymentPreferencesForm {
    pub payment_account_id: String,
}

/// The cancel invoice form.
#[derive(Debug, Default)]
pub struct CancelInvoiceForm {
    pub reason: String,
}

} // verus!
