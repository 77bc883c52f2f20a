//! Reading the invoice and payment preferences posted with the accounting
//! preferences form.
use crate::text::{chars_of, int_text, int_to_text, parse_i64_range, parse_i64_spec, trim, trim_bounds};
use vstd::prelude::*;

verus! {

/// An optional id field: nothing when absent or blank, else the trimmed
/// text parsed as an integer (nothing when it does not parse).
pub fn param_opt_i64(value: Option<&str>) -> (r: Option<i64>)
    ensures
        r == match value {
            None => None,
            Some(v) => if trim(v@).len() == 0 {
                None
            } else {
                parse_i64_spec(trim(v@))
            },
        },
{
    match value {
        None => None,
        Some(v) => {
            let c = chars_of(v);
            let (a, b) = trim_bounds(&c, 0, c.len());
            proof {
                assert(c@.subrange(0, c@.len() as int) =~= v@);
            }
            if a == b {
                return None;
            }
            parse_i64_range(&c, a, b)
        },
    }
}

/// An optional text field: nothing when absent or empty, else the text.
pub fn param_opt_str(value: Option<&str>) -> (r: Option<String>)
    ensures
        match value {
            None => r is None,
            Some(v) => if v@.len() == 0 {
                r is None
            } else {
                r matches Some(s) && s@ == v@
            },
        },
{
    match value {
        None => None,
        Some(v) => {
            if v.is_empty() {
                None
            } else {
                Some(String::from_str(v))
            }
        },
    }
}

/// The form value of an optional account id (`0` when unset).
pub fn fk_value(id: Option<i64>) -> (r: String)
    ensures
        r@ == int_text(
            match id {
                Some(x) => x as int,
                None => 0,
            },
        ),
{
    match id {
        Some(x) => int_to_text(x),
        None => int_to_text(0),
    }
}

} // verus!
