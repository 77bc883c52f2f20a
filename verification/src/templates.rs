//! The pages' contents, as plain values, and the titles and labels they
//! compute.
use crate::forms::{CancelInvoiceForm, InvoicePreferencesForm, PaymentBatchForm, PaymentPreferencesForm, PaymentTermForm};
use crate::logic::invoice_line_editor::InvoiceLineDisplayRow;
use crate::logic::payment_term::{due_date_key, relative_key};
use crate::text::{hash_id, hash_id_text, str_eq};
use vstd::prelude::*;

verus! {

/// A payment term's label: its summary, or `#id` when the summary is empty.
pub fn payment_term_display_label(summary: &str, id: i64) -> (r: String)
    ensures
        r@ == if summary@.len() == 0 {
            hash_id(id as int)
        } else {
            summary@
        },
{
    if summary.is_empty() {
        hash_id_text(id)
    } else {
        String::from_str(summary)
    }
}

/// One row of the invoice hub.
#[derive(Debug)]
pub struct InvoiceRow {
    pub id: i64,
    pub number: String,
    pub datetime: String,
    pub status: String,
    pub detail_href: String,
    pub customer_name: String,
    pub open_balance: String,
    pub selectable: bool,
}

/// What the hub's invoice table shows for a tab: the selection column (on
/// the posted tab, for editors), the "create draft" button (on the drafts
/// tab, for editors), and the column headers.
#[derive(Debug)]
pub struct HubTableLayout {
    pub show_select: bool,
    pub show_create: bool,
    pub headers: Vec<String>,
}

/// The hub's column headers: a blank one for the selection column, then
/// number, customer and open balance (posted tab only), date and status.
pub open spec fn hub_headers(posted: bool, select: bool) -> Seq<Seq<char>> {
    (if select {
        seq![""@]
    } else {
        Seq::<Seq<char>>::empty()
    }) + seq!["Number"@] + (if posted {
        seq!["Customer"@, "Open balance"@]
    } else {
        Seq::<Seq<char>>::empty()
    }) + seq!["Date"@, "Status"@]
}

/// The layout of the hub's table for a tab.
pub fn hub_table_layout(tab: &str, can_edit: bool) -> (r: HubTableLayout)
    ensures
        r.show_select == (tab@ == "posted"@ && can_edit),
        r.show_create == (tab@ == "drafts"@ && can_edit),
        r.headers@.map_values(|h: String| h@) == hub_headers(tab@ == "posted"@, r.show_select),
{
    let posted = str_eq(tab, "posted");
    let show_select = posted && can_edit;
    let mut headers: Vec<String> = Vec::new();
    if show_select {
        headers.push(String::from_str(""));
    }
    headers.push(String::from_str("Number"));
    if posted {
        headers.push(String::from_str("Customer"));
        headers.push(String::from_str("Open balance"));
    }
    headers.push(String::from_str("Date"));
    headers.push(String::from_str("Status"));
    let r = HubTableLayout { show_select, show_create: str_eq(tab, "drafts") && can_edit, headers };
    proof {
        assert(r.headers@.map_values(|h: String| h@) =~= hub_headers(posted, show_select));
    }
    r
}

/// One cell of a hub row.
#[derive(Debug)]
pub enum HubCell {
    /// The selection checkbox of a posted invoice.
    Select(i64),
    /// An empty selection cell (the invoice cannot be selected).
    Empty,
    /// A text cell.
    Text(String),
    /// A right-aligned amount.
    Amount(String),
}

/// A cell as plain values: its kind, its text and the invoice it selects.
pub open spec fn cell_view(c: HubCell) -> (int, Seq<char>, i64) {
    match c {
        HubCell::Select(id) => (0, Seq::empty(), id),
        HubCell::Empty => (1, Seq::empty(), 0),
        HubCell::Text(t) => (2, t@, 0),
        HubCell::Amount(t) => (3, t@, 0),
    }
}

/// The cells of a hub row, matching `hub_headers`.
pub open spec fn hub_cells(row: InvoiceRow, posted: bool, select: bool) -> Seq<(int, Seq<char>, i64)> {
    (if select {
        if row.selectable {
            seq![(0, Seq::<char>::empty(), row.id)]
        } else {
            seq![(1, Seq::<char>::empty(), 0i64)]
        }
    } else {
        Seq::empty()
    }) + seq![(2, row.number@, 0i64)] + (if posted {
        seq![(2, row.customer_name@, 0i64), (3, row.open_balance@, 0i64)]
    } else {
        Seq::empty()
    }) + seq![(2, row.datetime@, 0i64), (2, row.status@, 0i64)]
}

/// The cells of one hub row.
pub fn hub_row_cells(row: &InvoiceRow, posted: bool, show_select: bool) -> (r: Vec<HubCell>)
    ensures
        r@.map_values(|c: HubCell| cell_view(c)) == hub_cells(*row, posted, show_select),
{
    let mut cells: Vec<HubCell> = Vec::new();
    if show_select {
        if row.selectable {
            cells.push(HubCell::Select(row.id));
        } else {
            cells.push(HubCell::Empty);
        }
    }
    cells.push(HubCell::Text(row.number.clone()));
    if posted {
        cells.push(HubCell::Text(row.customer_name.clone()));
        cells.push(HubCell::Amount(row.open_balance.clone()));
    }
    cells.push(HubCell::Text(row.datetime.clone()));
    cells.push(HubCell::Text(row.status.clone()));
    proof {
        assert(cells@.map_values(|c: HubCell| cell_view(c)) =~= hub_cells(*row, posted, show_select));
    }
    cells
}

/// A draft invoice's detail page.
#[derive(Debug)]
pub struct DraftInvoiceDetailPage {
    pub id: i64,
    pub number: String,
    pub reference: String,
    pub payment_reference: String,
    pub bank_account: String,
    pub datetime: String,
    pub customer_name: String,
    pub payment_term_summary: String,
    pub tax_labels: String,
    pub line_rows: Vec<InvoiceLineDisplayRow>,
    pub can_edit: bool,
    pub error: Option<String>,
}

/// A posted invoice's detail page.
#[derive(Debug)]
pub struct PostedInvoiceDetailPage {
    pub id: i64,
    pub number: String,
    pub reference: String,
    pub payment_reference: String,
    pub bank_account: String,
    pub datetime: String,
    pub customer_name: String,
    pub payment_term_summary: String,
    pub tax_labels: String,
    pub line_rows: Vec<InvoiceLineDisplayRow>,
    pub journal_entry_id: i64,
    pub can_edit: bool,
    pub can_pay: bool,
}

/// What a paid or partially paid invoice's detail page shows.
#[derive(Debug)]
pub struct SettlementDetailContext {
    pub settlement_id: i64,
    pub posted_invoice_id: i64,
    pub number: String,
    pub reference: String,
    pub payment_reference: String,
    pub bank_account: String,
    pub datetime: String,
    pub posted_at: Option<String>,
    pub customer_name: String,
    pub payment_term_summary: String,
    pub tax_labels: String,
    pub line_rows: Vec<InvoiceLineDisplayRow>,
    pub journal_entry_id: i64,
    pub payment_id: i64,
    pub payment_label: String,
    pub payment_href: String,
    pub payment_datetime: String,
    pub prior_partial_label: Option<String>,
    pub prior_partial_href: Option<String>,
}

impl SettlementDetailContext {
    /// The page of a settlement that was not found: only its id, and the
    /// number `Not found`.
    pub open spec fn is_empty_for(self, settlement_id: i64) -> bool {
        &&& self.settlement_id == settlement_id
        &&& self.posted_invoice_id == 0
        &&& self.number@ == "Not found"@
        &&& self.reference@.len() == 0
        &&& self.payment_reference@.len() == 0
        &&& self.bank_account@.len() == 0
        &&& self.datetime@.len() == 0
        &&& self.posted_at is None
        &&& self.customer_name@.len() == 0
        &&& self.payment_term_summary@.len() == 0
        &&& self.tax_labels@.len() == 0
        &&& self.line_rows@.len() == 0
        &&& self.journal_entry_id == 0
        &&& self.payment_id == 0
        &&& self.payment_label@.len() == 0
        &&& self.payment_href@.len() == 0
        &&& self.payment_datetime@.len() == 0
        &&& self.prior_partial_label is None
        &&& self.prior_partial_href is None
    }

    pub fn empty(settlement_id: i64) -> (r: Self)
        ensures
            r.is_empty_for(settlement_id),
    {
        SettlementDetailContext {
            settlement_id,
            posted_invoice_id: 0,
            number: String::from_str("Not found"),
            reference: String::new(),
            payment_reference: String::new(),
            bank_account: String::new(),
            datetime: String::new(),
            posted_at: None,
            customer_name: String::new(),
            payment_term_summary: String::new(),
            tax_labels: String::new(),
            line_rows: Vec::new(),
            journal_entry_id: 0,
            payment_id: 0,
            payment_label: String::new(),
            payment_href: String::new(),
            payment_datetime: String::new(),
            prior_partial_label: None,
            prior_partial_href: None,
        }
    }
}

/// A settlement page's title: `{kind} {number}`, or `{kind} #id` when the
/// number is empty or the settlement was not found.
pub open spec fn settlement_title(kind: Seq<char>, ctx: SettlementDetailContext) -> Seq<char> {
    if ctx.number@.len() == 0 || ctx.number@ == "Not found"@ {
        kind + " "@ + hash_id(ctx.settlement_id as int)
    } else {
        kind + " "@ + ctx.number@
    }
}

fn settlement_title_text(kind: &str, ctx: &SettlementDetailContext) -> (r: String)
    ensures
        r@ == settlement_title(kind@, *ctx),
{
    let mut s = String::from_str(kind);
    s.append(" ");
    if ctx.number.as_str().is_empty() || str_eq(ctx.number.as_str(), "Not found") {
        let h = hash_id_text(ctx.settlement_id);
        s.append(h.as_str());
    } else {
        s.append(ctx.number.as_str());
    }
    s
}

/// A paid invoice's detail page.
#[derive(Debug)]
pub struct PaidInvoiceDetailPage {
    pub ctx: SettlementDetailContext,
    pub can_edit: bool,
    pub can_pay: bool,
}

impl PaidInvoiceDetailPage {
    /// The page for a paid invoice that does not exist.
    pub fn not_found(id: i64) -> (r: Self)
        ensures
            r.ctx.is_empty_for(id),
            !r.can_edit,
            !r.can_pay,
    {
        PaidInvoiceDetailPage { ctx: SettlementDetailContext::empty(id), can_edit: false, can_pay: false }
    }

    pub fn title(&self) -> (r: String)
        ensures
            r@ == settlement_title("Paid invoice"@, self.ctx),
    {
        settlement_title_text("Paid invoice", &self.ctx)
    }
}

/// A partially paid invoice's detail page.
#[derive(Debug)]
pub struct PartiallyPaidInvoiceDetailPage {
    pub ctx: SettlementDetailContext,
    pub can_edit: bool,
    pub can_pay: bool,
}

impl PartiallyPaidInvoiceDetailPage {
    /// The page for a partially paid invoice that does not exist.
    pub fn not_found(id: i64) -> (r: Self)
        ensures
            r.ctx.is_empty_for(id),
            !r.can_edit,
            !r.can_pay,
    {
        PartiallyPaidInvoiceDetailPage {
            ctx: SettlementDetailContext::empty(id),
            can_edit: false,
            can_pay: false,
        }
    }

    pub fn title(&self) -> (r: String)
        ensures
            r@ == settlement_title("Partially paid invoice"@, self.ctx),
    {
        settlement_title_text("Partially paid invoice", &self.ctx)
    }
}

/// A cancelled invoice's detail page.
#[derive(Debug)]
pub struct CancelledInvoiceDetailPage {
    pub id: i64,
    pub number: String,
    pub reference: String,
    pub payment_reference: String,
    pub bank_account: String,
    pub datetime: String,
    pub customer_name: String,
    pub payment_term_summary: String,
    pub tax_labels: String,
    pub line_rows: Vec<InvoiceLineDisplayRow>,
    pub posted_invoice_label: String,
    pub posted_invoice_href: Option<String>,
    pub credit_note_label: String,
    pub credit_note_href: Option<String>,
    pub can_edit: bool,
}

/// One row of the payment list.
#[derive(Debug)]
pub struct PaymentRow {
    pub id: i64,
    pub invoice_label: String,
    pub amount: String,
    pub datetime: String,
}

/// One row of the batch list.
#[derive(Debug)]
pub struct PaymentBatchRow {
    pub id: i64,
    pub datetime: String,
    pub total_amount: String,
    pub payment_count: u64,
}

/// A payment's detail page.
#[derive(Debug)]
pub struct PaymentDetailPage {
    pub id: i64,
    pub posted_invoice_label: String,
    pub posted_invoice_href: Option<String>,
    pub amount: String,
    pub tax_labels: String,
    pub datetime: String,
    pub journal_entry_id: i64,
    pub payment_batch_id: Option<i64>,
    pub payment_batch_href: Option<String>,
    pub can_edit: bool,
}

/// One allocation row of the batch editor.
#[derive(Debug)]
pub struct PaymentBatchAllocationRow {
    pub posted_invoice_id: i64,
    pub amount: String,
    pub tax_ids: Vec<i64>,
    pub invoice_number: String,
    pub customer_name: String,
    pub open_balance: String,
}

/// The batch payment form page.
#[derive(Debug)]
pub struct PaymentBatchFormPage {
    pub form: PaymentBatchForm,
    pub account_display: String,
    pub batch_allocations_preview: String,
    pub error: Option<String>,
    pub can_edit: bool,
}

/// One payment of a batch's detail page.
#[derive(Debug)]
pub struct PaymentBatchPaymentRow {
    pub id: i64,
    pub href: String,
    pub invoice_label: String,
    pub invoice_href: String,
    pub amount: String,
    pub tax_labels: String,
}

/// A batch's detail page.
#[derive(Debug)]
pub struct PaymentBatchDetailPage {
    pub id: i64,
    pub datetime: String,
    pub account_label: String,
    pub total_amount: String,
    pub journal_entry_id: i64,
    pub payments: Vec<PaymentBatchPaymentRow>,
    pub can_edit: bool,
}

/// One row of the payment term list.
#[derive(Debug)]
pub struct PaymentTermRow {
    pub id: i64,
    pub term_type: String,
    pub summary: String,
}

/// One row of the posted invoice picker.
#[derive(Debug)]
pub struct PostedInvoiceSelectRow {
    pub id: i64,
    pub number: String,
    pub datetime: String,
}

/// The payment term create and edit page.
#[derive(Debug)]
pub struct PaymentTermFormPage {
    pub id: i64,
    pub form: PaymentTermForm,
    pub summary: String,
    pub is_edit: bool,
}

impl PaymentTermFormPage {
    /// The kind choices of the form, as owned (type key, label) pairs.
    pub fn term_choices() -> (r: Vec<(String, String)>)
        ensures
            r@.len() == 2,
            r@[0].0@ == due_date_key(),
            r@[0].1@ == "Due on calendar date"@,
            r@[1].0@ == relative_key(),
            r@[1].1@ == "Relative"@,
    {
        let c = PaymentTermForm::term_type_choices();
        let mut out: Vec<(String, String)> = Vec::new();
        let mut i: usize = 0;
        while i < c.len()
            invariant
                i <= c.len(),
                out.len() == i,
                forall|k: int| 0 <= k < i ==> (#[trigger] out@[k]).0@ == c@[k].0@ && out@[k].1@ == c@[k].1@,
            decreases c.len() - i,
        {
            let (k, v) = c[i];
            out.push((String::from_str(k), String::from_str(v)));
            i = i + 1;
        }
        out
    }

    /// The page's heading.
    pub fn heading(&self) -> (r: &'static str)
        ensures
            r@ == if self.is_edit {
                "Edit payment term"@
            } else {
                "Create payment term"@
            },
    {
        if self.is_edit {
            "Edit payment term"
        } else {
            "Create payment term"
        }
    }
}

/// A payment term's detail page.
#[derive(Debug)]
pub struct PaymentTermDetailPage {
    pub id: i64,
    pub term_type: String,
    pub summary: String,
    pub can_edit: bool,
}

impl PaymentTermDetailPage {
    /// The page's title: the term's label.
    pub fn title(&self) -> (r: String)
        ensures
            r@ == if self.summary@.len() == 0 {
                hash_id(self.id as int)
            } else {
                self.summary@
            },
    {
        payment_term_display_label(self.summary.as_str(), self.id)
    }
}

/// The cancel invoice page.
#[derive(Debug)]
pub struct CancelInvoicePage {
    pub id: i64,
    pub form: CancelInvoiceForm,
    pub can_edit: bool,
}

/// The invoice preferences page.
#[derive(Debug)]
pub struct InvoicePreferencesPage {
    pub form: InvoicePreferencesForm,
    pub can_edit: bool,
}

/// The payment preferences page.
#[derive(Debug)]
pub struct PaymentPreferencesPage {
    pub form: PaymentPreferencesForm,
    pub can_edit: bool,
}

} // verus!
