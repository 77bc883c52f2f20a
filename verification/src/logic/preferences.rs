//! The invoice and payment preferences a posting or payment needs.
use vstd::prelude::*;

verus! {

/// An optional account or journal id, `0` when unset.
pub fn optional_id(id: Option<i64>) -> (r: i64)
    ensures
        r == match id {
            Some(x) => x,
            None => 0,
        },
{
    match id {
        Some(x) => x,
        None => 0,
    }
}

/// Posting needs a journal in the invoice preferences.
pub fn check_invoice_journal(journal_id: Option<i64>) -> (r: Result<(), String>)
    ensures
        match r {
            Ok(_) => journal_id matches Some(j) && j != 0,
            Err(e) => !(journal_id matches Some(j) && j != 0) && e@
                == "journal is required in invoice preferences"@,
        },
{
    if optional_id(journal_id) == 0 {
        return Err(String::from_str("journal is required in invoice preferences"));
    }
    Ok(())
}

/// Payments need a payment account in the payment preferences.
pub fn check_payment_account_preference(account_id: Option<i64>) -> (r: Result<i64, String>)
    ensures
        match r {
            Ok(id) => account_id == Some(id) && id != 0,
            Err(e) => !(account_id matches Some(j) && j != 0) && e@
                == "payment account is required in payment preferences"@,
        },
{
    let id = optional_id(account_id);
    if id == 0 {
        return Err(String::from_str("payment account is required in payment preferences"));
    }
    Ok(id)
}

/// Posting books the cost of goods, so the product preferences must name
/// the inventory and cost-of-sales accounts.
pub fn check_product_posting_accounts(inventory_account_id: Option<i64>, cost_of_sales_account_id: Option<i64>) -> (r:
    Result<(), String>)
    ensures
        match r {
            Ok(_) => (inventory_account_id matches Some(a) && a != 0) && (cost_of_sales_account_id matches Some(
                b,
            ) && b != 0),
            Err(e) => !((inventory_account_id matches Some(a) && a != 0) && (
            cost_of_sales_account_id matches Some(b) && b != 0)) && e@
                == "product preferences must have inventory and cost-of-sales accounts for posting"@,
        },
{
    if optional_id(inventory_account_id) == 0 || optional_id(cost_of_sales_account_id) == 0 {
        return Err(
            String::from_str(
                "product preferences must have inventory and cost-of-sales accounts for posting",
            ),
        );
    }
    Ok(())
}

} // verus!
