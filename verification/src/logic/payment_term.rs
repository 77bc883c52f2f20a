//! Payment terms: due on a calendar date, or relative to the invoice date.
use crate::text::{hash_id, hash_id_text, str_eq, trim, trimmed};
use chrono::NaiveDate;
use vstd::prelude::*;

verus! {

/// Type key of a payment term due on a calendar date.
pub const PAYMENT_TERM_TYPE_DUE_DATE: &'static str = "p_uniquity_finance_invoices.PaymentTermDueDate";

/// Type key of a payment term relative to the invoice date.
pub const PAYMENT_TERM_TYPE_RELATIVE: &'static str = "p_uniquity_finance_invoices.PaymentTermRelative";

pub open spec fn due_date_key() -> Seq<char> {
    "p_uniquity_finance_invoices.PaymentTermDueDate"@
}

pub open spec fn relative_key() -> Seq<char> {
    "p_uniquity_finance_invoices.PaymentTermRelative"@
}

/// A term due at a fixed moment (seconds since the Unix epoch).
pub struct CreatePaymentTermDueDate {
    pub datetime: i64,
}

/// A term due a fixed time after the invoice date.
pub struct CreatePaymentTermRelative {
    pub duration_nanos: i64,
}

/// A payment term to create or to change to.
pub enum CreatePaymentTermInput {
    DueDate(CreatePaymentTermDueDate),
    Relative(CreatePaymentTermRelative),
}

/// What the payment term form shows for an existing term.
#[derive(Debug)]
pub struct PaymentTermFormValues {
    pub term_type: String,
    pub due_datetime: String,
    pub duration: String,
}

/// Human-readable label for a payment term type key; other keys are shown
/// as they are.
pub fn payment_term_type_label<'a>(term_type: &'a str) -> (r: &'a str)
    ensures
        r@ == if term_type@ == due_date_key() {
            "Due Date"@
        } else if term_type@ == relative_key() {
            "Relative"@
        } else {
            term_type@
        },
{
    if str_eq(term_type, PAYMENT_TERM_TYPE_DUE_DATE) {
        "Due Date"
    } else if str_eq(term_type, PAYMENT_TERM_TYPE_RELATIVE) {
        "Relative"
    } else {
        term_type
    }
}

/// The type key an input creates.
pub open spec fn input_type_key(input: CreatePaymentTermInput) -> Seq<char> {
    match input {
        CreatePaymentTermInput::DueDate(_) => due_date_key(),
        CreatePaymentTermInput::Relative(_) => relative_key(),
    }
}

/// A relative term's duration must be positive.
pub fn check_payment_term_input(input: &CreatePaymentTermInput) -> (r: Result<(), String>)
    ensures
        match r {
            Ok(_) => !(input matches CreatePaymentTermInput::Relative(rel) && rel.duration_nanos <= 0),
            Err(e) => (input matches CreatePaymentTermInput::Relative(rel) && rel.duration_nanos <= 0)
                && e@ == "duration must be positive"@,
        },
{
    match input {
        CreatePaymentTermInput::Relative(rel) => {
            if rel.duration_nanos <= 0 {
                return Err(String::from_str("duration must be positive"));
            }
            Ok(())
        },
        CreatePaymentTermInput::DueDate(_) => Ok(()),
    }
}

/// How an existing term is changed: its new type key, and whether its
/// backing row is updated in place (same type) or replaced (new row, old one
/// deleted).
#[derive(Debug)]
pub struct PaymentTermUpdatePlan {
    pub term_type: String,
    pub update_in_place: bool,
}

/// The plan for changing a term of type `existing_type` to `input`.
pub fn payment_term_update_plan(existing_type: &str, input: &CreatePaymentTermInput) -> (r: Result<
    PaymentTermUpdatePlan,
    String,
>)
    ensures
        match r {
            Ok(plan) => !(input matches CreatePaymentTermInput::Relative(rel) && rel.duration_nanos <= 0)
                && plan.term_type@ == input_type_key(*input) && plan.update_in_place == (existing_type@
                == input_type_key(*input)),
            Err(e) => (input matches CreatePaymentTermInput::Relative(rel) && rel.duration_nanos <= 0)
                && e@ == "duration must be positive"@,
        },
{
    match check_payment_term_input(input) {
        Ok(_) => {},
        Err(e) => return Err(e),
    }
    let key = match input {
        CreatePaymentTermInput::DueDate(_) => PAYMENT_TERM_TYPE_DUE_DATE,
        CreatePaymentTermInput::Relative(_) => PAYMENT_TERM_TYPE_RELATIVE,
    };
    let same = str_eq(existing_type, key);
    Ok(PaymentTermUpdatePlan { term_type: String::from_str(key), update_in_place: same })
}

/// The summary shown for a term whose backing row cannot be read.
pub fn payment_term_summary_fallback(term_type: &str, backing_id: i64) -> (r: String)
    ensures
        r@ == if term_type@ == due_date_key() {
            "Due date "@ + hash_id(backing_id as int)
        } else if term_type@ == relative_key() {
            "Relative "@ + hash_id(backing_id as int)
        } else {
            term_type@ + " "@ + hash_id(backing_id as int)
        },
{
    let id = hash_id_text(backing_id);
    let mut s = if str_eq(term_type, PAYMENT_TERM_TYPE_DUE_DATE) {
        String::from_str("Due date ")
    } else if str_eq(term_type, PAYMENT_TERM_TYPE_RELATIVE) {
        String::from_str("Relative ")
    } else {
        let mut t = String::from_str(term_type);
        t.append(" ");
        t
    };
    s.append(id.as_str());
    s
}

/// The form values of a term: the due date for a due-date term, the
/// duration for a relative term, nothing else.
pub fn payment_term_form_values(term_type: &str, due_datetime: String, duration: String) -> (r:
    PaymentTermFormValues)
    ensures
        r.term_type@ == term_type@,
        r.due_datetime@ == if term_type@ == due_date_key() {
            due_datetime@
        } else {
            Seq::<char>::empty()
        },
        r.duration@ == if term_type@ == relative_key() && term_type@ != due_date_key() {
            duration@
        } else {
            Seq::<char>::empty()
        },
{
    if str_eq(term_type, PAYMENT_TERM_TYPE_DUE_DATE) {
        PaymentTermFormValues { term_type: String::from_str(term_type), due_datetime, duration: String::new() }
    } else if str_eq(term_type, PAYMENT_TERM_TYPE_RELATIVE) {
        PaymentTermFormValues { term_type: String::from_str(term_type), due_datetime: String::new(), duration }
    } else {
        PaymentTermFormValues {
            term_type: String::from_str(term_type),
            due_datetime: String::new(),
            duration: String::new(),
        }
    }
}

/// The due moment typed for a due-date term, trimmed; it must not be blank.
/// (Reading it as a moment in the viewer's time zone comes after.)
pub fn due_datetime_text(raw: &str) -> (r: Result<String, String>)
    ensures
        match r {
            Ok(t) => trim(raw@).len() > 0 && t@ == trim(raw@),
            Err(e) => trim(raw@).len() == 0 && e@ == "datetime is required for due date payment term"@,
        },
{
    let t = trimmed(raw);
    if t.as_str().is_empty() {
        return Err(String::from_str("datetime is required for due date payment term"));
    }
    Ok(t)
}

/// The due date typed in a date field, trimmed; it must not be blank.
/// (`due_date_local_seconds` reads it as a date.)
pub fn due_date_text(raw: &str) -> (r: Result<String, String>)
    ensures
        match r {
            Ok(t) => trim(raw@).len() > 0 && t@ == trim(raw@),
            Err(e) => trim(raw@).len() == 0 && e@ == "due date is required"@,
        },
{
    let t = trimmed(raw);
    if t.as_str().is_empty() {
        return Err(String::from_str("due date is required"));
    }
    Ok(t)
}

/// What `chrono::NaiveDate::parse_from_str` reads from a text with a format,
/// as days since 1970-01-01.
pub uninterp spec fn naive_date_days(s: Seq<char>, format: Seq<char>) -> Option<i64>;

/// `NaiveDate::parse_from_str`, as days since the Unix epoch.
///
/// Claimed: the result is what chrono reads from the text with this format
/// (`naive_date_days`), and any date chrono reads is within 300,000 years of
/// 1970 (chrono's `NaiveDate` spans about 262,000 years either way).  The
/// calendar and the format language are left to chrono.
#[verifier::external_body]
fn parse_naive_date_days(s: &str, format: &str) -> (r: Option<i64>)
    ensures
        r == naive_date_days(s@, format@),
        r matches Some(d) ==> -110_000_000 <= d <= 110_000_000,
{
    NaiveDate::parse_from_str(s, format).ok().map(
        |d| d.signed_duration_since(NaiveDate::from_ymd_opt(1970, 1, 1).unwrap()).num_days(),
    )
}

/// The last second of the date typed in a date field (`YYYY-MM-DD`), as
/// local seconds since the Unix epoch; blank and unreadable texts are refused.
pub fn due_date_local_seconds(raw: &str) -> (r: Result<i64, String>)
    ensures
        match r {
            Ok(secs) => trim(raw@).len() > 0 && (naive_date_days(trim(raw@), "%Y-%m-%d"@) matches Some(d)
                && secs == d * 86400 + 86399),
            Err(e) => (trim(raw@).len() == 0 && e@ == "due date is required"@) || (trim(raw@).len() > 0
                && naive_date_days(trim(raw@), "%Y-%m-%d"@) is None && e@ == "invalid due date"@),
        },
{
    let t = match due_date_text(raw) {
        Ok(t) => t,
        Err(e) => return Err(e),
    };
    match parse_naive_date_days(t.as_str(), "%Y-%m-%d") {
        Some(d) => Ok(d * 86400 + 86399),
        None => Err(String::from_str("invalid due date")),
    }
}

} // verus!
