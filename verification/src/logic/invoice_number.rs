//! Posted invoice numbers.
use crate::text::{int_text, int_to_text, replace_all, replace_text, trim, trimmed};
use chrono::DateTime;
use vstd::prelude::*;

verus! {

/// The numbering format used when none is configured.
pub open spec fn default_number_format() -> Seq<char> {
    "INV-{{YYYY}}-{{POSTED_SEQ}}"@
}

/// The number made from a format: `{{FISCAL_CODE}}`, `{{YYYY}}`, `{{YY}}`
/// and `{{POSTED_SEQ}}` replaced in that order by the fiscal year's code,
/// the invoice year in four and two digits, and the posting sequence; an
/// empty format means the default one.
pub open spec fn number_from_format(
    format: Seq<char>,
    fiscal_code: Seq<char>,
    yyyy: Seq<char>,
    yy: Seq<char>,
    posted_seq: int,
) -> Seq<char> {
    let f = if format.len() == 0 {
        default_number_format()
    } else {
        format
    };
    replace_all(
        replace_all(
            replace_all(replace_all(f, "{{FISCAL_CODE}}"@, fiscal_code), "{{YYYY}}"@, yyyy),
            "{{YY}}"@,
            yy,
        ),
        "{{POSTED_SEQ}}"@,
        int_text(posted_seq),
    )
}

/// Fills in an invoice number format (see `number_from_format`).
pub fn format_posted_invoice_number(
    format: &str,
    fiscal_code: &str,
    yyyy: &str,
    yy: &str,
    posted_seq: i64,
) -> (r: String)
    ensures
        r@ == number_from_format(format@, fiscal_code@, yyyy@, yy@, posted_seq as int),
{
    let f = if format.is_empty() {
        String::from_str("INV-{{YYYY}}-{{POSTED_SEQ}}")
    } else {
        String::from_str(format)
    };
    proof {
        reveal_strlit("{{FISCAL_CODE}}");
        reveal_strlit("{{YYYY}}");
        reveal_strlit("{{YY}}");
        reveal_strlit("{{POSTED_SEQ}}");
    }
    let a = replace_text(f.as_str(), "{{FISCAL_CODE}}", fiscal_code);
    let b = replace_text(a.as_str(), "{{YYYY}}", yyyy);
    let c = replace_text(b.as_str(), "{{YY}}", yy);
    let seq = int_to_text(posted_seq);
    replace_text(c.as_str(), "{{POSTED_SEQ}}", seq.as_str())
}

/// The number a draft is posted under when it carries one: its trimmed
/// number, unless blank (then a number is generated from the format).
pub fn draft_posted_number(number: &Option<String>) -> (r: Option<String>)
    ensures
        match number {
            Some(n) => match r {
                Some(t) => trim(n@).len() > 0 && t@ == trim(n@),
                None => trim(n@).len() == 0,
            },
            None => r is None,
        },
{
    match number {
        Some(n) => {
            let t = trimmed(n.as_str());
            if t.as_str().is_empty() {
                None
            } else {
                Some(t)
            }
        },
        None => None,
    }
}

/// The next posting sequence number after the largest id so far.
pub fn next_posted_invoice_seq(max_id: i64) -> (r: Option<i64>)
    ensures
        r == (if max_id < i64::MAX {
            Some((max_id + 1) as i64)
        } else {
            None::<i64>
        }),
{
    if max_id < i64::MAX {
        Some(max_id + 1)
    } else {
        None
    }
}

/// What chrono writes for an instant (seconds since the Unix epoch, UTC)
/// with a `strftime` format; `None` when the instant is out of chrono's range.
pub uninterp spec fn utc_format_text(secs: i64, format: Seq<char>) -> Option<Seq<char>>;

/// `DateTime::from_timestamp(secs, 0)` then `format(..).to_string()`.
///
/// Claimed: the text is what chrono writes (`utc_format_text`); the calendar
/// is left to chrono.  Only the two year formats are admitted: chrono's
/// `Display` fails on a format it cannot read, and `to_string` then panics.
#[verifier::external_body]
fn format_utc(secs: i64, format: &str) -> (r: Option<String>)
    requires
        format@ == "%Y"@ || format@ == "%y"@,
    ensures
        r matches Some(t) ==> utc_format_text(secs, format@) == Some(t@),
        r is None ==> utc_format_text(secs, format@) is None,
{
    DateTime::from_timestamp(secs, 0).map(|dt| dt.format(format).to_string())
}

/// The number a posting generates: the format filled in with the fiscal
/// year's code, the invoice year (`%Y`, `%y` of its date, UTC) and the
/// sequence; `None` when the date is outside chrono's range.
pub fn generated_posted_number(format: &str, fiscal_code: &str, invoice_secs: i64, posted_seq: i64) -> (r:
    Option<String>)
    ensures
        match (utc_format_text(invoice_secs, "%Y"@), utc_format_text(invoice_secs, "%y"@)) {
            (Some(yyyy), Some(yy)) => r matches Some(n) && n@ == number_from_format(
                format@,
                fiscal_code@,
                yyyy,
                yy,
                posted_seq as int,
            ),
            _ => r is None,
        },
{
    let yyyy = match format_utc(invoice_secs, "%Y") {
        Some(t) => t,
        None => return None,
    };
    let yy = match format_utc(invoice_secs, "%y") {
        Some(t) => t,
        None => return None,
    };
    Some(format_posted_invoice_number(format, fiscal_code, yyyy.as_str(), yy.as_str(), posted_seq))
}

} // verus!
