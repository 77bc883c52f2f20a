//! The invoicing rules: tax arithmetic, payments, batch payments, posting,
//! drafts, payment terms and invoice numbers.
pub mod draft;
pub mod invoice_line_editor;
pub mod invoice_number;
pub mod invoice_posting;
pub mod payment;
pub mod payment_batch;
pub mod payment_term;
pub mod preferences;
pub mod tax_calculations;
