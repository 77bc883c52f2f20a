//! The invoices app tile.
use vstd::prelude::*;

verus! {

/// Key of the invoices app.
pub const INVOICES_APP_KEY: &'static str = "p_uniquity_finance_invoices";

/// Registers the invoices app.
#[derive(Debug, Default, Clone, Copy)]
pub struct Hook;

} // verus!
