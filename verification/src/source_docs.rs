//! Posted invoices, payments and batches as source documents of journal
//! entries.
use crate::text::{hash_id, hash_id_text};
use vstd::prelude::*;

verus! {

/// Registers the plugin's source document types.
#[derive(Debug, Default, Clone, Copy)]
pub struct Hook;

/// How a posted invoice is named as a source document: its number, or
/// `#id` when it has none.
pub fn invoice_instance_name(id: i64, number: &str) -> (r: String)
    ensures
        r@ == if number@.len() == 0 {
            hash_id(id as int)
        } else {
            number@
        },
{
    if number.is_empty() {
        hash_id_text(id)
    } else {
        String::from_str(number)
    }
}

} // verus!
