//! Sidebar links on the shared Accounting app.
use vstd::prelude::*;

verus! {

/// Registers the invoices links in the Accounting sidebar.
#[derive(Debug, Default, Clone, Copy)]
pub struct Hook;

} // verus!
