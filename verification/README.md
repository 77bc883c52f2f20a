# uniquity_finance_invoices

The invoicing rules of the Uniquity finance suite, as a verified library:
draft invoices, posting to the journal, cancellation, single and batch
payments with withholding taxes, and payment terms.

- `src/decimal.rs` models `rust_decimal::Decimal` as a mantissa and a scale
  and reaches the crate's checked arithmetic through a few trusted wrappers.
- `src/logic/` holds the accounting: tax breakdowns and totals, the posting
  journal (which balances, and whose receivable line is the grand total),
  payment allocations and batch journals (which balance), draft checks,
  invoice numbers and payment terms.
- `src/handlers/`, `src/templates.rs`, `src/forms.rs` and `src/components.rs`
  hold the decisions the web pages make: query values, labels, form checks,
  page titles.
- Calls into chrono (reading filter dates and due dates, writing the invoice
  year) and serde_json (quoting strings) stand in `src/` behind trusted
  wrappers too.
- `src/text.rs` holds the text primitives (trimming, integer parsing and
  printing, splitting, joining, sorting) with their specifications.
- `app/` holds what stays outside verification: serde copies of the library
  types, JSON parsing, conversions between chrono's dates and the library's
  seconds, and the preview file cache.
