//! Verified core of the finance invoices plugin: tax arithmetic, payment and
//! batch-payment journals, invoice posting, draft-line checks, payment terms,
//! list filters, and the forms and pages as plain values.
pub mod accounting_preferences_patch;
pub mod accounting_sidebar;
pub mod apps;
pub mod components;
pub mod decimal;
pub mod forms;
pub mod handlers;
pub mod logic;
pub mod scope;
pub mod source_docs;
pub mod templates;
pub mod text;

use vstd::prelude::*;

verus! {

/// The plugin's tag.
#[derive(Debug, Default, Clone, Copy)]
pub struct UniquityFinanceInvoicesTag;

/// Attaches the plugin's state (its database handle) to the app.
#[derive(Debug, Default, Clone, Copy)]
pub struct StateHook;

} // verus!
