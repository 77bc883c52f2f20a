//! The invoice hub: one list per invoice state.
use crate::text::str_eq;
use vstd::prelude::*;

verus! {

/// Query of the hub.
#[derive(Debug, Default)]
pub struct HubQuery {
    pub tab: Option<String>,
    pub page: Option<u32>,
    pub datetime_from: Option<String>,
    pub datetime_to: Option<String>,
}

/// The hub's tabs.
#[derive(Debug, PartialEq, Eq, Structural)]
pub enum HubTab {
    Drafts,
    Posted,
    Cancelled,
    Paid,
    Partial,
}

/// The tab a hub request shows: `posted`, `cancelled`, `paid` and
/// `partial` name their tabs; anything else (or nothing) shows the drafts.
pub fn hub_tab(tab: Option<&str>) -> (r: HubTab)
    ensures
        r == match tab {
            Some(t) => if t@ == "posted"@ {
                HubTab::Posted
            } else if t@ == "cancelled"@ {
                HubTab::Cancelled
            } else if t@ == "paid"@ {
                HubTab::Paid
            } else if t@ == "partial"@ {
                HubTab::Partial
            } else {
                HubTab::Drafts
            },
            None => HubTab::Drafts,
        },
{
    match tab {
        Some(t) => {
            if str_eq(t, "posted") {
                HubTab::Posted
            } else if str_eq(t, "cancelled") {
                HubTab::Cancelled
            } else if str_eq(t, "paid") {
                HubTab::Paid
            } else if str_eq(t, "partial") {
                HubTab::Partial
            } else {
                HubTab::Drafts
            }
        },
        None => HubTab::Drafts,
    }
}

/// The page to list: the one asked for, at least the first.
pub fn page_number(page: Option<u32>) -> (r: u32)
    ensures
        r == match page {
            Some(p) => if p >= 1 {
                p
            } else {
                1
            },
            None => 1,
        },
{
    match page {
        Some(p) => {
            if p >= 1 {
                p
            } else {
                1
            }
        },
        None => 1,
    }
}

/// Customer name, open balance and selectability of a hub row on the tabs
/// that show none of them.
pub fn hub_row_extras_none() -> (r: (String, String, bool))
    ensures
        r.0@ == Seq::<char>::empty(),
        r.1@ == Seq::<char>::empty(),
        !r.2,
{
    (String::new(), String::new(), false)
}

} // verus!
