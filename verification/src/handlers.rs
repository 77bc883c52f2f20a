//! What the request handlers decide before and after they touch the
//! database: query parameters, labels, and the checks on submitted values.
pub mod cancelled;
pub mod drafts;
pub mod hub;
pub mod invoice_pdf_preview;
pub mod payment_batches;
pub mod payment_terms;
pub mod payments;

use vstd::prelude::*;

verus! {

/// Modal opener query (`?name=…&refresh=table-id`).
#[derive(Debug, Default)]
pub struct ModalNameQuery {
    pub name: Option<String>,
    pub refresh: Option<String>,
}

} // verus!
