//! The plugin's own widgets: their parameters and defaults, and the Alpine
//! state their editors start from.
use crate::forms::{json_quote, json_string};
use crate::text::{trim, trimmed};
use vstd::prelude::*;

verus! {

/// One entry of the fiscal year dropdown.
#[derive(Debug)]
pub struct FiscalYearOption {
    pub id: i64,
    pub label: String,
}

/// Parameters of the draft invoice lines editor.
pub struct InputInvoiceLinesDraft<'a> {
    pub name: &'a str,
    pub defaults: &'a str,
    pub preview: &'a str,
    pub product_pick_url: &'a str,
    pub tax_pick_url: &'a str,
    pub classes: &'a str,
}

impl Default for InputInvoiceLinesDraft<'_> {
    fn default() -> (r: Self)
        ensures
            r.name@ == "InvoiceLinesJSON"@,
            r.defaults@ == "[]"@,
            r.preview@ == "{}"@,
            r.product_pick_url@ == "/finance-products/pick-product"@,
            r.tax_pick_url@ == "/finance-taxes/multi-select"@,
            r.classes@ == "w-full"@,
    {
        InputInvoiceLinesDraft {
            name: "InvoiceLinesJSON",
            defaults: "[]",
            preview: "{}",
            product_pick_url: "/finance-products/pick-product",
            tax_pick_url: "/finance-taxes/multi-select",
            classes: "w-full",
        }
    }
}

/// Parameters of the batch allocations editor.
pub struct InputPaymentBatchAllocations<'a> {
    pub name: &'a str,
    pub defaults: &'a str,
    pub tax_pick_url: &'a str,
    pub tax_pct_json: &'a str,
    pub all_taxes_json: &'a str,
    pub classes: &'a str,
}

impl Default for InputPaymentBatchAllocations<'_> {
    fn default() -> (r: Self)
        ensures
            r.name@ == "allocations_json"@,
            r.defaults@ == "[]"@,
            r.tax_pick_url@ == "/finance-taxes/multi-select"@,
            r.tax_pct_json@ == "{}"@,
            r.all_taxes_json@ == "[]"@,
            r.classes@ == "w-full"@,
    {
        InputPaymentBatchAllocations {
            name: "allocations_json",
            defaults: "[]",
            tax_pick_url: "/finance-taxes/multi-select",
            tax_pct_json: "{}",
            all_taxes_json: "[]",
            classes: "w-full",
        }
    }
}

/// The Alpine methods of the draft invoice lines editor.
pub const INVOICE_LINES_DRAFT_ALPINE_METHODS: &'static str = r#"allocFkSlot() {
	if (typeof crypto !== 'undefined' && crypto.randomUUID) return 'InvoiceLineProduct_' + crypto.randomUUID();
	return 'InvoiceLineProduct_' + Math.random().toString(36).slice(2) + '_' + Date.now().toString(36);
},
productPickHref(slot) {
	const b = this.product_pick_base || '';
	if (!b || !slot) return b || '#';
	const sep = b.indexOf('?') >= 0 ? '&' : '?';
	return b + sep + 'target_input=' + encodeURIComponent(String(slot));
},
lineTaxPickHref(fkSlot) {
	const b = this.tax_pick_base || '';
	if (!b || !fkSlot) return b || '#';
	const sep = b.indexOf('?') >= 0 ? '&' : '?';
	const name = 'InvoiceLineTaxes_' + String(fkSlot);
	return b + sep + 'target_input=' + encodeURIComponent(name);
},
formatDec(n) {
	if (typeof n !== 'number' || !isFinite(n)) return '—';
	let s = n.toFixed(6);
	s = s.replace(/0+$/, '');
	s = s.replace(/\.$/, '');
	return s || '0';
},
lineUntaxedNumber(line) {
	const q = parseFloat(String(line.quantity).replace(/,/g, '.')) || 0;
	const rate = parseFloat(String(line.rate ?? '').trim().replace(/,/g, '.')) || 0;
	return q * rate;
},
taxKindForId(id) {
	const k = this.tax_kind_by_id && this.tax_kind_by_id[id];
	return k === 'withholding' ? 'withholding' : 'levied';
},
lineTaxAmountForKind(line, kind) {
	const base = this.lineUntaxedNumber(line);
	if (!Array.isArray(line.line_taxes) || line.line_taxes.length === 0) return 0;
	let sum = 0;
	for (const t of line.line_taxes) {
		const id = String(t.Key);
		if (this.taxKindForId(id) !== kind) continue;
		const pctStr = this.tax_pct_by_id[id];
		const pct = pctStr != null && pctStr !== '' ? parseFloat(String(pctStr)) : NaN;
		if (!isNaN(pct)) {
			sum += base * (pct / 100);
		}
	}
	return sum;
},
lineLeviedTaxNumber(line) {
	return this.lineTaxAmountForKind(line, 'levied');
},
lineWithholdingTaxNumber(line) {
	return this.lineTaxAmountForKind(line, 'withholding');
},
lineUntaxedDisplay(line) {
	const u = this.lineUntaxedNumber(line);
	if (!line.product_id && u === 0) return '—';
	return this.formatDec(u);
},
lineLeviedTaxDisplay(line) {
	const u = this.lineUntaxedNumber(line);
	const tax = this.lineLeviedTaxNumber(line);
	if (!line.product_id && u === 0 && tax === 0) return '—';
	return this.formatDec(tax);
},
lineWithholdingDisplay(line) {
	const wh = this.lineWithholdingTaxNumber(line);
	if (wh === 0) return '—';
	return '(' + this.formatDec(wh) + ')';
},
lineTotal(line) {
	const u = this.lineUntaxedNumber(line);
	const lev = this.lineLeviedTaxNumber(line);
	const wh = this.lineWithholdingTaxNumber(line);
	const tot = u + lev - wh;
	if (!line.product_id && tot === 0) return '—';
	return this.formatDec(tot);
},
lineTotalNumber(line) {
	return this.lineUntaxedNumber(line) + this.lineLeviedTaxNumber(line) - this.lineWithholdingTaxNumber(line);
},
linesUntaxedSubtotalNumber() {
	if (!Array.isArray(this.lines)) return 0;
	let sum = 0;
	for (const line of this.lines) {
		sum += this.lineUntaxedNumber(line);
	}
	return sum;
},
linesLeviedSubtotalNumber() {
	if (!Array.isArray(this.lines)) return 0;
	let sum = 0;
	for (const line of this.lines) {
		sum += this.lineLeviedTaxNumber(line);
	}
	return sum;
},
linesWithholdingSubtotalNumber() {
	if (!Array.isArray(this.lines)) return 0;
	let sum = 0;
	for (const line of this.lines) {
		sum += this.lineWithholdingTaxNumber(line);
	}
	return sum;
},
linesSubtotalNumber() {
	return this.linesUntaxedSubtotalNumber() + this.linesLeviedSubtotalNumber();
},
linesSubtotalDisplay() {
	if (!Array.isArray(this.lines) || this.lines.length === 0) return '—';
	return this.formatDec(this.linesSubtotalNumber());
},
invoiceTaxLabel(item) {
	if (item.Value != null && String(item.Value).trim() !== '') {
		return String(item.Value);
	}
	return 'Tax #' + String(item.Key);
},
invoiceHeaderTaxAmountForKind(kind) {
	const base = this.linesUntaxedSubtotalNumber();
	const st = typeof Alpine !== 'undefined' && Alpine.store && Alpine.store('m2mSelections');
	const sel = st && st.Taxes;
	if (!sel || !Array.isArray(sel)) {
		return 0;
	}
	let sum = 0;
	for (const item of sel) {
		const id = String(item.Key);
		if (this.taxKindForId(id) !== kind) continue;
		const pctStr = this.tax_pct_by_id[id];
		const pct = pctStr != null && pctStr !== '' ? parseFloat(String(pctStr)) : NaN;
		if (!isNaN(pct)) {
			sum += base * (pct / 100);
		}
	}
	return sum;
},
invoiceTaxAmountDisplay(item) {
	const base = this.linesUntaxedSubtotalNumber();
	const id = String(item.Key);
	const kind = this.taxKindForId(id);
	const pctStr = this.tax_pct_by_id[id];
	const pct = pctStr != null && pctStr !== '' ? parseFloat(String(pctStr)) : NaN;
	if (isNaN(pct)) {
		return '—';
	}
	const amt = base * (pct / 100);
	if (kind === 'withholding') {
		return '(' + this.formatDec(amt) + ')';
	}
	return this.formatDec(amt);
},
invoiceGrandTotalDisplay() {
	const sub = this.linesSubtotalNumber();
	const headerLevied = this.invoiceHeaderTaxAmountForKind('levied');
	const headerWithholding = this.invoiceHeaderTaxAmountForKind('withholding');
	const lineWh = this.linesWithholdingSubtotalNumber();
	const total = sub + headerLevied - lineWh - headerWithholding;
	const st = typeof Alpine !== 'undefined' && Alpine.store && Alpine.store('m2mSelections');
	const sel = st && st.Taxes;
	const hasTaxes = sel && Array.isArray(sel) && sel.length > 0;
	const hasLines = Array.isArray(this.lines) && this.lines.length > 0;
	if (!hasLines && !hasTaxes && total === 0) {
		return '—';
	}
	return this.formatDec(total);
}"#;

/// The lines an empty editor starts with: one blank line.
pub open spec fn default_lines_text() -> Seq<char> {
    "[{\"product_id\":0,\"quantity\":\"1\",\"rate\":\"\",\"product_label\":\"\",\"fk_slot\":\"line-slot-0\",\"tax_ids\":[]}]"@
}

/// The `x-data` of the draft invoice lines editor: the lines (the trimmed
/// defaults, or one blank line when they are blank), the preview's
/// products and taxes as JSON, the two picker URLs as JSON strings, and the
/// editor's methods.
pub fn invoice_lines_alpine_data(
    defaults: &str,
    products_json: &str,
    tax_pct_json: &str,
    tax_kind_json: &str,
    all_taxes_json: &str,
    product_pick_url: &str,
    tax_pick_url: &str,
) -> (r: String)
    ensures
        r@ == "{ lines: "@ + (if trim(defaults@).len() == 0 {
            default_lines_text()
        } else {
            trim(defaults@)
        }) + ", products: "@ + products_json@ + ", tax_pct_by_id: "@ + tax_pct_json@
            + ", tax_kind_by_id: "@ + tax_kind_json@ + ", all_taxes: "@ + all_taxes_json@
            + ", product_pick_base: "@ + json_string(product_pick_url@) + ", tax_pick_base: "@
            + json_string(tax_pick_url@) + ", "@ + INVOICE_LINES_DRAFT_ALPINE_METHODS@ + " }"@,
{
    let t = trimmed(defaults);
    let product_pick_base = json_quote(product_pick_url);
    let tax_pick_base = json_quote(tax_pick_url);
    let mut s = String::from_str("{ lines: ");
    if t.as_str().is_empty() {
        s.append(
            "[{\"product_id\":0,\"quantity\":\"1\",\"rate\":\"\",\"product_label\":\"\",\"fk_slot\":\"line-slot-0\",\"tax_ids\":[]}]",
        );
    } else {
        s.append(t.as_str());
    }
    s.append(", products: ");
    s.append(products_json);
    s.append(", tax_pct_by_id: ");
    s.append(tax_pct_json);
    s.append(", tax_kind_by_id: ");
    s.append(tax_kind_json);
    s.append(", all_taxes: ");
    s.append(all_taxes_json);
    s.append(", product_pick_base: ");
    s.append(product_pick_base.as_str());
    s.append(", tax_pick_base: ");
    s.append(tax_pick_base.as_str());
    s.append(", ");
    s.append(INVOICE_LINES_DRAFT_ALPINE_METHODS);
    s.append(" }");
    s
}

/// The Alpine methods of the batch allocations editor.
pub const PAYMENT_BATCH_ALLOCATIONS_ALPINE: &'static str = r#"taxPickHref(rowIdx) {
	const b = this.tax_pick_base || '';
	if (!b) return '#';
	const sep = b.indexOf('?') >= 0 ? '&' : '?';
	const slot = 'BatchAllocTaxes_' + String(rowIdx);
	return b + sep + 'target_input=' + encodeURIComponent(slot);
},
formatDec(n) {
	if (typeof n !== 'number' || !isFinite(n)) return '—';
	let s = n.toFixed(6);
	s = s.replace(/0+$/, '');
	s = s.replace(/\.$/, '');
	return s || '0';
},
parseAmount(s) {
	return parseFloat(String(s || '').trim().replace(/,/g, '.')) || 0;
},
rowWithholdingNumber(row) {
	const base = this.parseAmount(row.amount);
	if (!Array.isArray(row.tax_items) || row.tax_items.length === 0) return 0;
	let sum = 0;
	for (const item of row.tax_items) {
		const id = String(item.Key);
		const pctStr = this.tax_pct_by_id[id];
		const pct = pctStr != null && pctStr !== '' ? parseFloat(String(pctStr)) : NaN;
		if (!isNaN(pct)) sum += base * (pct / 100);
	}
	return sum;
},
rowBankNumber(row) {
	return this.parseAmount(row.amount) - this.rowWithholdingNumber(row);
},
totalSettlementNumber() {
	if (!Array.isArray(this.allocations)) return 0;
	return this.allocations.reduce((s, row) => s + this.parseAmount(row.amount), 0);
},
totalBankNumber() {
	if (!Array.isArray(this.allocations)) return 0;
	return this.allocations.reduce((s, row) => s + this.rowBankNumber(row), 0);
},
syncHidden() {
	const payload = (this.allocations || []).map(row => ({
		posted_invoice_id: row.posted_invoice_id,
		amount: String(row.amount || ''),
		tax_ids: (row.tax_items || []).map(t => parseInt(String(t.Key), 10)).filter(id => !isNaN(id) && id > 0),
	}));
	this.hidden_json = JSON.stringify(payload);
},
taxLabel(item) {
	if (item.Value != null && String(item.Value).trim() !== '') return String(item.Value);
	return 'Tax #' + String(item.Key);
}"#;

/// The `x-data` of the batch allocations editor: the allocations as given,
/// the same text as the hidden field's JSON string, the tax picker URL as a
/// JSON string, the tax percentages and the taxes, and the editor's methods.
pub fn batch_allocations_alpine_data(
    defaults: &str,
    tax_pick_url: &str,
    tax_pct_json: &str,
    all_taxes_json: &str,
) -> (r: String)
    ensures
        r@ == "{ allocations: "@ + defaults@ + ", hidden_json: "@ + json_string(defaults@)
            + ", tax_pick_base: "@ + json_string(tax_pick_url@) + ", tax_pct_by_id: "@ + tax_pct_json@
            + ", all_taxes: "@ + all_taxes_json@ + ", "@ + PAYMENT_BATCH_ALLOCATIONS_ALPINE@ + " }"@,
{
    let hidden = json_quote(defaults);
    let tax_pick_base = json_quote(tax_pick_url);
    let mut s = String::from_str("{ allocations: ");
    s.append(defaults);
    s.append(", hidden_json: ");
    s.append(hidden.as_str());
    s.append(", tax_pick_base: ");
    s.append(tax_pick_base.as_str());
    s.append(", tax_pct_by_id: ");
    s.append(tax_pct_json);
    s.append(", all_taxes: ");
    s.append(all_taxes_json);
    s.append(", ");
    s.append(PAYMENT_BATCH_ALLOCATIONS_ALPINE);
    s.append(" }");
    s
}

} // verus!
