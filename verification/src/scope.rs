//! Invoice list filters: the hub's tab links, the fiscal year chosen in the
//! `environment` cookie, the cookie's percent-decoding, and the date range
//! typed into the list filters.
use crate::text::{
    chars_of, parse_i64_range, parse_i64_spec, split_bounds, split_on, text_of_range, trim, trim_bounds, trimmed,
};
use chrono::{DateTime, NaiveDateTime};
use vstd::prelude::*;
use vstd::utf8::{decode_utf8, encode_utf8, valid_utf8};

verus! {

/// Key of the fiscal year in the `environment` cookie.
pub const INVOICE_FISCAL_YEAR_COOKIE: &'static str = "finance_invoices_fiscal_year";

/// What `chrono::DateTime::parse_from_rfc3339` reads from a text, as an
/// instant in UTC: seconds since the Unix epoch and the nanoseconds within
/// that second.
pub uninterp spec fn rfc3339_instant(s: Seq<char>) -> Option<(i64, u32)>;

/// `DateTime::parse_from_rfc3339`, converted to UTC.
///
/// Claimed: the result is what chrono reads from the text (`rfc3339_instant`);
/// the RFC 3339 grammar is left to chrono.
#[verifier::external_body]
fn rfc3339_to_instant(s: &str) -> (r: Option<(i64, u32)>)
    ensures
        r == rfc3339_instant(s@),
{
    DateTime::parse_from_rfc3339(s).ok().map(|dt| (dt.timestamp(), dt.timestamp_subsec_nanos()))
}

/// What `chrono::NaiveDateTime::parse_from_str` reads from a text with a
/// format, taken as UTC: seconds since the Unix epoch and nanoseconds.
pub uninterp spec fn naive_instant(s: Seq<char>, format: Seq<char>) -> Option<(i64, u32)>;

/// `NaiveDateTime::parse_from_str`, then `and_utc`.
///
/// Claimed: the result is what chrono reads from the text with this format
/// (`naive_instant`); the format language is left to chrono.
#[verifier::external_body]
fn naive_to_instant(s: &str, format: &str) -> (r: Option<(i64, u32)>)
    ensures
        r == naive_instant(s@, format@),
{
    NaiveDateTime::parse_from_str(s, format).ok().map(
        |n| (n.and_utc().timestamp(), n.and_utc().timestamp_subsec_nanos()),
    )
}

/// The instant a non-blank filter text names: RFC 3339 first, then a local
/// `YYYY-MM-DDTHH:MM:SS`, then `YYYY-MM-DDTHH:MM`, both read as UTC.
pub open spec fn filter_instant(t: Seq<char>) -> Option<(i64, u32)> {
    match rfc3339_instant(t) {
        Some(x) => Some(x),
        None => match naive_instant(t, "%Y-%m-%dT%H:%M:%S"@) {
            Some(x) => Some(x),
            None => naive_instant(t, "%Y-%m-%dT%H:%M"@),
        },
    }
}

/// A list filter's date and time (seconds and nanoseconds since the Unix
/// epoch, UTC): nothing when blank or unreadable.
pub fn parse_filter_datetime(s: &str) -> (r: Option<(i64, u32)>)
    ensures
        r == if trim(s@).len() == 0 {
            None
        } else {
            filter_instant(trim(s@))
        },
{
    let t = trimmed(s);
    let ts: &str = t.as_str();
    if ts.is_empty() {
        return None;
    }
    match rfc3339_to_instant(ts) {
        Some(x) => Some(x),
        None => match naive_to_instant(ts, "%Y-%m-%dT%H:%M:%S") {
            Some(x) => Some(x),
            None => naive_to_instant(ts, "%Y-%m-%dT%H:%M"),
        },
    }
}

/// Hub list URL for a tab (`drafts`, `posted`, `paid`, `partial`, `cancelled`).
pub fn hub_tab_url(tab: &str) -> (r: String)
    ensures
        r@ == "/finance-invoices/?tab="@ + tab@,
{
    let mut s = String::from_str("/finance-invoices/?tab=");
    s.append(tab);
    s
}

pub open spec fn is_hex(b: u8) -> bool {
    (0x30 <= b <= 0x39) || (0x41 <= b <= 0x46) || (0x61 <= b <= 0x66)
}

pub open spec fn hex_val(b: u8) -> int {
    if 0x30 <= b <= 0x39 {
        b - 0x30
    } else if 0x41 <= b <= 0x46 {
        b - 0x41 + 10
    } else {
        b - 0x61 + 10
    }
}

/// The two bytes after a `%` that `u8::from_str_radix(.., 16)` accepts: two
/// hex digits, or `+` and one hex digit.
pub open spec fn hex_pair_ok(x: u8, y: u8) -> bool {
    (is_hex(x) && is_hex(y)) || (x == 0x2b && is_hex(y))
}

pub open spec fn hex_pair_val(x: u8, y: u8) -> u8 {
    if x == 0x2b {
        hex_val(y) as u8
    } else {
        (hex_val(x) * 16 + hex_val(y)) as u8
    }
}

/// The bytes with every `%XX` whose two following bytes parse as a hex byte
/// replaced by that byte, left to right.
pub open spec fn percent_decoded(b: Seq<u8>) -> Seq<u8>
    decreases b.len(),
{
    if b.len() == 0 {
        Seq::empty()
    } else if b[0] == 0x25 && b.len() > 2 && hex_pair_ok(b[1], b[2]) {
        seq![hex_pair_val(b[1], b[2])] + percent_decoded(b.skip(3))
    } else {
        seq![b[0]] + percent_decoded(b.skip(1))
    }
}

/// What `String::from_utf8_lossy` makes of the bytes.
pub uninterp spec fn utf8_lossy(b: Seq<u8>) -> Seq<char>;

/// `String::from_utf8_lossy(..).into_owned()`.
///
/// Claimed: the text is what std makes of these bytes (`utf8_lossy`), and
/// valid UTF-8 is decoded as is.  How invalid sequences are replaced is left
/// to std.
#[verifier::external_body]
fn utf8_lossy_text(b: &Vec<u8>) -> (r: String)
    ensures
        r@ == utf8_lossy(b@),
        valid_utf8(b@) ==> r@ == decode_utf8(b@),
{
    String::from_utf8_lossy(b.as_slice()).into_owned()
}

fn hex_digit(b: u8) -> (r: Option<u8>)
    ensures
        match r {
            Some(v) => is_hex(b) && v == hex_val(b),
            None => !is_hex(b),
        },
{
    if 0x30 <= b && b <= 0x39 {
        Some(b - 0x30)
    } else if 0x41 <= b && b <= 0x46 {
        Some(b - 0x41 + 10)
    } else if 0x61 <= b && b <= 0x66 {
        Some(b - 0x61 + 10)
    } else {
        None
    }
}

fn hex_pair(x: u8, y: u8) -> (r: Option<u8>)
    ensures
        match r {
            Some(v) => hex_pair_ok(x, y) && v == hex_pair_val(x, y),
            None => !hex_pair_ok(x, y),
        },
{
    let lo = match hex_digit(y) {
        Some(v) => v,
        None => return None,
    };
    if x == 0x2b {
        return Some(lo);
    }
    match hex_digit(x) {
        Some(hi) => Some(hi * 16 + lo),
        None => None,
    }
}

/// The bytes of the text percent-decoded, read back as UTF-8 (invalid
/// sequences replaced).
pub open spec fn decoded_text(s: Seq<char>) -> Seq<char> {
    utf8_lossy(percent_decoded(encode_utf8(s)))
}

/// Decodes `%XX` escapes of a cookie value (see `percent_decoded`).
pub fn percent_decode(input: &str) -> (r: String)
    ensures
        r@ == decoded_text(input@),
{
    let bytes = input.as_bytes();
    let mut out: Vec<u8> = Vec::new();
    let mut i: usize = 0;
    let ghost b = bytes@;
    proof {
        assert(b.skip(0) =~= b);
        assert(Seq::<u8>::empty() + percent_decoded(b.skip(0)) =~= percent_decoded(b));
    }
    while i < bytes.len()
        invariant
            b == bytes@,
            b == encode_utf8(input@),
            i <= bytes.len(),
            out@ + percent_decoded(b.skip(i as int)) == percent_decoded(b),
        decreases bytes.len() - i,
    {
        let ghost rest = b.skip(i as int);
        let ghost before = out@;
        if bytes[i] == 0x25 && bytes.len() > 2 && i < bytes.len() - 2 {
            match hex_pair(bytes[i + 1], bytes[i + 2]) {
                Some(v) => {
                    out.push(v);
                    proof {
                        assert(rest[0] == b[i as int] && rest[1] == b[i + 1] && rest[2] == b[i + 2]);
                        assert(rest.skip(3) =~= b.skip(i + 3));
                        assert(out@ + percent_decoded(b.skip(i + 3)) =~= before + percent_decoded(rest));
                    }
                    i = i + 3;
                    continue;
                },
                None => {
                    proof {
                        assert(rest[0] == b[i as int] && rest[1] == b[i + 1] && rest[2] == b[i + 2]);
                    }
                },
            }
        }
        out.push(bytes[i]);
        proof {
            assert(rest[0] == b[i as int]);
            if rest.len() > 2 {
                assert(rest[1] == b[i + 1] && rest[2] == b[i + 2]);
            }
            assert(rest.skip(1) =~= b.skip(i + 1));
            assert(out@ + percent_decoded(b.skip(i + 1)) =~= before + percent_decoded(rest));
        }
        i = i + 1;
    }
    proof {
        assert(b.skip(i as int) =~= Seq::<u8>::empty());
        assert(out@ + Seq::<u8>::empty() =~= out@);
    }
    utf8_lossy_text(&out)
}

/// The values of the `environment` entries of a `Cookie` header, in order:
/// each `;`-separated part, trimmed, that starts with `environment=`,
/// without that prefix and percent-decoded.
pub open spec fn environment_values(pieces: Seq<Seq<char>>) -> Seq<Seq<char>>
    decreases pieces.len(),
{
    if pieces.len() == 0 {
        Seq::empty()
    } else {
        let prev = environment_values(pieces.drop_last());
        let t = trim(pieces.last());
        if t.len() >= 12 && t.take(12) == "environment="@ {
            prev.push(decoded_text(t.skip(12)))
        } else {
            prev
        }
    }
}

/// The candidate `environment` cookie values of a raw `Cookie` header (see
/// `environment_values`); the first that is a JSON object of strings is the
/// environment.
pub fn environment_cookie_candidates(raw: &str) -> (r: Vec<String>)
    ensures
        r@.map_values(|s: String| s@) == environment_values(split_on(raw@, ';')),
{
    let v = chars_of(raw);
    let parts = split_bounds(&v, ';');
    let prefix = chars_of("environment=");
    proof {
        reveal_strlit("environment=");
    }
    let mut out: Vec<String> = Vec::new();
    let mut k: usize = 0;
    let ghost pieces = split_on(v@, ';');
    proof {
        assert(pieces.take(0) =~= Seq::<Seq<char>>::empty());
        assert(out@.map_values(|s: String| s@) =~= Seq::<Seq<char>>::empty());
    }
    while k < parts.len()
        invariant
            k <= parts.len(),
            v@ == raw@,
            pieces == split_on(v@, ';'),
            parts.len() == pieces.len(),
            prefix@ == "environment="@,
            forall|m: int|
                0 <= m < parts.len() ==> (#[trigger] parts@[m]).0 <= parts@[m].1 <= v.len()
                    && v@.subrange(parts@[m].0 as int, parts@[m].1 as int) == pieces[m],
            out@.map_values(|s: String| s@) == environment_values(pieces.take(k as int)),
        decreases parts.len() - k,
    {
        let (lo, hi) = parts[k];
        let (a, b) = trim_bounds(&v, lo, hi);
        let ghost t = v@.subrange(a as int, b as int);
        proof {
            assert(pieces.take(k + 1).drop_last() =~= pieces.take(k as int));
            assert(pieces.take(k + 1).last() == pieces[k as int]);
            assert(t == trim(pieces[k as int]));
        }
        proof {
            reveal_strlit("environment=");
        }
        let mut starts = b - a >= 12;
        let mut m: usize = 0;
        while starts && m < 12
            invariant
                m <= 12,
                a <= b <= v.len(),
                prefix@ == "environment="@,
                prefix@.len() == 12,
                starts ==> b - a >= 12,
                starts ==> forall|n: int| 0 <= n < m ==> v@[a + n] == prefix@[n],
                !starts ==> (b - a < 12 || (m < 12 && b - a >= 12 && v@[a + m] != prefix@[m as int])),
            decreases 12 - m + (if starts { 1int } else { 0int }),
        {
            if v[a + m] != prefix[m] {
                starts = false;
            } else {
                m = m + 1;
            }
        }
        proof {
            if starts {
                assert(t.take(12) =~= "environment="@);
            } else if t.len() >= 12 && t.take(12) == "environment="@ {
                assert(t.take(12)[m as int] == v@[a + m]);
            }
        }
        let ghost old_out = out@;
        if starts {
            let rest = text_of_range(&v, a + 12, b);
            proof {
                assert(rest@ =~= t.skip(12));
            }
            let d = percent_decode(rest.as_str());
            out.push(d);
            proof {
                assert(out@.map_values(|s: String| s@) =~= old_out.map_values(|s: String| s@).push(
                    decoded_text(t.skip(12)),
                ));
            }
        }
        k = k + 1;
    }
    proof {
        assert(pieces.take(k as int) =~= pieces);
    }
    out
}

/// Which fiscal year the invoice lists are limited to.
#[derive(Debug, PartialEq, Eq, Structural)]
pub enum FiscalYearChoice {
    /// No choice in the cookie: the current or active fiscal year.
    Default,
    /// An explicit empty or unusable choice: all years.
    AllYears,
    /// The fiscal year with this id.
    Year(i64),
}

/// The fiscal year choice from the cookie's value (`None` when the cookie
/// has no such key): blank means all years, a positive integer a year, and
/// anything else all years too.
pub fn fiscal_year_cookie_choice(value: Option<&str>) -> (r: FiscalYearChoice)
    ensures
        r == match value {
            None => FiscalYearChoice::Default,
            Some(v) => if trim(v@).len() == 0 {
                FiscalYearChoice::AllYears
            } else {
                match parse_i64_spec(trim(v@)) {
                    Some(id) => if id > 0 {
                        FiscalYearChoice::Year(id)
                    } else {
                        FiscalYearChoice::AllYears
                    },
                    None => FiscalYearChoice::AllYears,
                }
            },
        },
{
    match value {
        None => FiscalYearChoice::Default,
        Some(v) => {
            let c = chars_of(v);
            let (a, b) = trim_bounds(&c, 0, c.len());
            proof {
                assert(c@.subrange(0, c@.len() as int) =~= v@);
            }
            if a == b {
                return FiscalYearChoice::AllYears;
            }
            match parse_i64_range(&c, a, b) {
                Some(id) => {
                    if id > 0 {
                        FiscalYearChoice::Year(id)
                    } else {
                        FiscalYearChoice::AllYears
                    }
                },
                None => FiscalYearChoice::AllYears,
            }
        },
    }
}

} // verus!
