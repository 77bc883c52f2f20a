//! Payment pages.
use crate::handlers::ModalNameQuery;
use crate::text::{hash_id, hash_id_text, is_blank, trim};
use vstd::prelude::*;

verus! {

/// Query of the payment list.
#[derive(Debug, Default)]
pub struct ListQuery {
    pub tab: Option<String>,
    pub page: Option<u32>,
    pub target_input: Option<String>,
}

/// Query of the payment create modal.
#[derive(Debug, Default)]
pub struct PaymentCreateQuery {
    pub modal: ModalNameQuery,
    pub posted_invoice_id: Option<i64>,
}

/// How payment pages name a posted invoice: `number (#id)`, or `#id` when
/// the number is blank.
pub open spec fn posted_label(id: int, number: Seq<char>) -> Seq<char> {
    if trim(number).len() == 0 {
        hash_id(id)
    } else {
        number + " ("@ + hash_id(id) + ")"@
    }
}

pub fn posted_invoice_display_label(id: i64, number: &str) -> (r: String)
    ensures
        r@ == posted_label(id as int, number@),
{
    let hid = hash_id_text(id);
    if is_blank(number) {
        return hid;
    }
    let mut s = String::from_str(number);
    s.append(" (");
    s.append(hid.as_str());
    s.append(")");
    s
}

} // verus!
