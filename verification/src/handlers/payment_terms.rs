//! Payment term pages.
use vstd::prelude::*;

verus! {

/// Query of the payment term list.
#[derive(Debug, Default)]
pub struct ListQuery {
    pub page: Option<u32>,
}

/// Query of the payment term picker.
#[derive(Debug, Default)]
pub struct PaymentTermSelectQuery {
    pub page: Option<u32>,
    pub target_input: Option<String>,
}

} // verus!
