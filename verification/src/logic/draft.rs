//! Draft invoices: the checks on a draft and its lines before they are
//! stored, the tax ids a line gets, and the optional text fields.
use crate::decimal::{decimal_from_str, decimal_lt, decimal_parse, dec_zero, Dec};
use crate::text::{chars_of, id_list, is_blank, parse_positive_id_list, trim, trim_bounds, trimmed, hash_id, hash_id_text};
use std::collections::HashSet;
use vstd::prelude::*;

verus! {

broadcast use vstd::std_specs::hash::group_hash_axioms;

/// One line of the draft line editor, as submitted.
#[derive(Debug)]
pub struct DraftLinePending {
    pub product_id: i64,
    pub rate: Option<String>,
    pub quantity: String,
    pub tax_ids: Option<Vec<i64>>,
}

/// The ids in order, zeros and repeats dropped.
pub open spec fn dedup_nonzero(s: Seq<i64>) -> Seq<i64>
    decreases s.len(),
{
    if s.len() == 0 {
        Seq::empty()
    } else {
        let prev = dedup_nonzero(s.drop_last());
        if s.last() != 0 && !prev.contains(s.last()) {
            prev.push(s.last())
        } else {
            prev
        }
    }
}

/// `a` occurs in `s` before any occurrence of `b`.
pub open spec fn appears_before(s: Seq<i64>, a: i64, b: i64) -> bool {
    exists|p: int| 0 <= p < s.len() && s[p] == a && forall|q: int| 0 <= q <= p ==> #[trigger] s[q] != b
}

proof fn lemma_appears_before_extend(t: Seq<i64>, s: Seq<i64>, a: i64, b: i64)
    requires
        appears_before(t, a, b),
        s.len() >= t.len(),
        forall|k: int| 0 <= k < t.len() ==> s[k] == t[k],
    ensures
        appears_before(s, a, b),
{
    let p = choose|p: int| 0 <= p < t.len() && t[p] == a && forall|q: int| 0 <= q <= p ==> #[trigger] t[q] != b;
    assert forall|q: int| 0 <= q <= p implies #[trigger] s[q] != b by {
        assert(s[q] == t[q]);
    }
    assert(s[p] == a);
}

proof fn lemma_dedup_nonzero(s: Seq<i64>)
    ensures
        forall|x: i64| #[trigger] dedup_nonzero(s).contains(x) <==> (x != 0 && s.contains(x)),
        forall|i: int, j: int|
            0 <= i < j < dedup_nonzero(s).len() ==> #[trigger] dedup_nonzero(s)[i] != #[trigger] dedup_nonzero(s)[j],
        forall|i: int, j: int|
            0 <= i < j < dedup_nonzero(s).len() ==> appears_before(s, #[trigger] dedup_nonzero(s)[i], #[trigger] dedup_nonzero(s)[j]),
    decreases s.len(),
{
    if s.len() > 0 {
        let t = s.drop_last();
        let x = s.last();
        let prev = dedup_nonzero(t);
        lemma_dedup_nonzero(t);
        let r = dedup_nonzero(s);
        assert forall|y: i64| #[trigger] r.contains(y) <==> (y != 0 && s.contains(y)) by {
            if s.contains(y) {
                let k = choose|k: int| 0 <= k < s.len() && s[k] == y;
                if k < t.len() {
                    assert(t[k] == y);
                    assert(t.contains(y));
                }
            }
            if t.contains(y) {
                let k = choose|k: int| 0 <= k < t.len() && t[k] == y;
                assert(s[k] == y);
            }
            if y == x {
                assert(s[s.len() - 1] == y);
            }
            if x != 0 && !prev.contains(x) {
                if r.contains(y) && y != x {
                    let k = choose|k: int| 0 <= k < r.len() && r[k] == y;
                    assert(prev[k] == y);
                }
                if prev.contains(y) {
                    let k = choose|k: int| 0 <= k < prev.len() && prev[k] == y;
                    assert(r[k] == y);
                }
                if y == x {
                    assert(r[r.len() - 1] == y);
                }
            }
        }
        assert forall|k: int| 0 <= k < t.len() implies s[k] == t[k] by {}
        if x != 0 && !prev.contains(x) {
            assert forall|i: int, j: int| 0 <= i < j < r.len() implies #[trigger] r[i] != #[trigger] r[j] by {
                if j == r.len() - 1 {
                    assert(r[i] == prev[i]);
                    assert(prev.contains(prev[i]));
                } else {
                    assert(r[i] == prev[i] && r[j] == prev[j]);
                }
            }
            assert forall|i: int, j: int| 0 <= i < j < r.len() implies appears_before(s, #[trigger] r[i], #[trigger] r[j]) by {
                assert(r[i] == prev[i]);
                if j == r.len() - 1 {
                    assert(prev.contains(prev[i]));
                    let k = choose|k: int| 0 <= k < t.len() && t[k] == prev[i];
                    assert forall|q: int| 0 <= q <= k implies #[trigger] s[q] != r[j] by {
                        assert(s[q] == t[q]);
                        if s[q] == x {
                            assert(t.contains(x));
                        }
                    }
                    assert(s[k] == r[i]);
                } else {
                    assert(r[j] == prev[j]);
                    lemma_appears_before_extend(t, s, prev[i], prev[j]);
                }
            }
        } else {
            assert forall|i: int, j: int| 0 <= i < j < r.len() implies appears_before(s, #[trigger] r[i], #[trigger] r[j]) by {
                assert(r[i] == prev[i] && r[j] == prev[j]);
                lemma_appears_before_extend(t, s, prev[i], prev[j]);
            }
        }
    }
}

/// When a line makes no choice of its own, its taxes are the header taxes
/// and then the product's: each non-zero id of either exactly once, none
/// other, in the order of first appearance (of two ids, the one that first
/// appears earlier in header-then-product comes first).
pub proof fn lemma_merged_tax_ids_no_repeats(header: Seq<i64>, product: Seq<i64>)
    ensures
        forall|x: i64|
            #[trigger] merged_tax_ids(header, product, None).contains(x) <==> (x != 0 && (header + product).contains(x)),
        forall|i: int, j: int|
            0 <= i < j < merged_tax_ids(header, product, None).len() ==> #[trigger] merged_tax_ids(
                header,
                product,
                None,
            )[i] != #[trigger] merged_tax_ids(header, product, None)[j],
        forall|i: int, j: int|
            0 <= i < j < merged_tax_ids(header, product, None).len() ==> appears_before(
                header + product,
                #[trigger] merged_tax_ids(header, product, None)[i],
                #[trigger] merged_tax_ids(header, product, None)[j],
            ),
{
    lemma_dedup_nonzero(header + product);
}

/// The taxes of a line: the line's own choice when it made one, else the
/// header taxes followed by the product's, without zeros or repeats.
pub open spec fn merged_tax_ids(header: Seq<i64>, product: Seq<i64>, line: Option<Seq<i64>>) -> Seq<i64> {
    match line {
        Some(ids) => ids,
        None => dedup_nonzero(header + product),
    }
}

/// The tax ids a draft line is stored with (see `merged_tax_ids`).
pub fn merge_tax_ids(header: &Vec<i64>, product: &Vec<i64>, line: Option<&Vec<i64>>) -> (r: Vec<i64>)
    ensures
        r@ == merged_tax_ids(header@, product@, match line {
            Some(v) => Some(v@),
            None => None,
        }),
{
    match line {
        Some(ids) => {
            let mut out: Vec<i64> = Vec::new();
            let mut i: usize = 0;
            while i < ids.len()
                invariant
                    i <= ids.len(),
                    out@ == ids@.take(i as int),
                decreases ids.len() - i,
            {
                out.push(ids[i]);
                proof {
                    assert(out@ =~= ids@.take(i + 1));
                }
                i = i + 1;
            }
            proof {
                assert(ids@.take(i as int) =~= ids@);
            }
            return out;
        },
        None => {},
    }
    let mut combined: Vec<i64> = Vec::new();
    let mut h: usize = 0;
    while h < header.len()
        invariant
            h <= header.len(),
            combined@ == header@.take(h as int),
        decreases header.len() - h,
    {
        combined.push(header[h]);
        proof {
            assert(combined@ =~= header@.take(h + 1));
        }
        h = h + 1;
    }
    let mut p: usize = 0;
    while p < product.len()
        invariant
            p <= product.len(),
            h == header.len(),
            combined@ == header@.take(h as int) + product@.take(p as int),
        decreases product.len() - p,
    {
        combined.push(product[p]);
        proof {
            assert(combined@ =~= header@.take(h as int) + product@.take(p + 1));
        }
        p = p + 1;
    }
    let ghost all = header@ + product@;
    proof {
        assert(header@.take(h as int) =~= header@);
        assert(product@.take(p as int) =~= product@);
        assert(combined@ =~= all);
    }
    let n = combined.len();
    let mut seen: HashSet<i64> = HashSet::new();
    let mut out: Vec<i64> = Vec::new();
    let mut i: usize = 0;
    proof {
        assert(all.take(0) =~= Seq::<i64>::empty());
    }
    while i < n
        invariant
            n == all.len(),
            combined@ == all,
            i <= n,
            out@ == dedup_nonzero(all.take(i as int)),
            forall|x: i64| seen@.contains(x) <==> out@.contains(x),
        decreases n - i,
    {
        let id = combined[i];
        proof {
            assert(all.take(i + 1).drop_last() =~= all.take(i as int));
            assert(all.take(i + 1).last() == id);
        }
        if id != 0 {
            let ghost before = seen@;
            let ghost old_out = out@;
            if seen.insert(id) {
                out.push(id);
                proof {
                    assert(out@.drop_last() =~= old_out);
                    assert forall|x: i64| seen@.contains(x) <==> out@.contains(x) by {
                        if x == id {
                            assert(out@[out@.len() - 1] == id);
                        }
                        if out@.contains(x) && x != id {
                            let k = choose|k: int| 0 <= k < out@.len() && out@[k] == x;
                            assert(k < old_out.len());
                            assert(old_out[k] == x);
                            assert(old_out.contains(x));
                        }
                        if before.contains(x) {
                            assert(old_out.contains(x));
                            let k = choose|k: int| 0 <= k < old_out.len() && old_out[k] == x;
                            assert(out@[k] == x);
                        }
                    }
                }
            }
        }
        i = i + 1;
    }
    proof {
        assert(all.take(n as int) =~= all);
    }
    out
}

/// The trimmed text, or nothing when it is blank.  The text it gives is
/// already trimmed, so giving it back yields it again.
pub fn optional_trimmed_text(raw: &str) -> (r: Option<String>)
    ensures
        match r {
            Some(t) => trim(raw@).len() > 0 && t@ == trim(raw@),
            None => trim(raw@).len() == 0,
        },
        r matches Some(t) ==> trim(t@) == t@,
{
    proof {
        crate::text::lemma_trim_idempotent(raw@);
    }
    let t = trimmed(raw);
    if t.as_str().is_empty() {
        None
    } else {
        Some(t)
    }
}

/// The text to show for an optional field: the text itself, or a dash when
/// it is absent or empty.
pub fn optional_display(opt: &Option<String>) -> (r: String)
    ensures
        r@ == match opt {
            Some(s) => if s@.len() > 0 {
                s@
            } else {
                "—"@
            },
            None => "—"@,
        },
{
    match opt {
        Some(s) => {
            if !s.as_str().is_empty() {
                return s.clone();
            }
        },
        None => {},
    }
    String::from_str("—")
}

/// The header tax ids of a draft form: the comma-separated pieces that parse
/// as positive integers, in order.
pub fn parse_header_tax_ids(s: &str) -> (r: Vec<i64>)
    ensures
        r@ == id_list(s@),
        forall|i: int| 0 <= i < r.len() ==> #[trigger] r@[i] > 0,
{
    parse_positive_id_list(s)
}

/// The line editor's JSON, trimmed; an empty editor is refused.
pub fn lines_json_text(raw: &str) -> (r: Result<String, String>)
    ensures
        match r {
            Ok(t) => trim(raw@).len() > 0 && t@ == trim(raw@),
            Err(e) => trim(raw@).len() == 0 && e@ == "add at least one invoice line"@,
        },
{
    let t = trimmed(raw);
    if t.as_str().is_empty() {
        return Err(String::from_str("add at least one invoice line"));
    }
    Ok(t)
}

/// A draft line must name a product and a positive quantity; the quantity.
pub fn check_line_product_and_quantity(row: &DraftLinePending) -> (r: Result<Dec, String>)
    ensures
        match r {
            Ok(q) => row.product_id != 0 && decimal_parse(trim(row.quantity@)) == Some(q) && q.val() > 0,
            Err(e) => (row.product_id == 0 && e@ == "choose a product for each line"@) || (row.product_id
                != 0 && !(decimal_parse(trim(row.quantity@)) matches Some(q) && q.val() > 0) && e@
                == "quantity must be positive"@),
        },
{
    if row.product_id == 0 {
        return Err(String::from_str("choose a product for each line"));
    }
    let t = trimmed(row.quantity.as_str());
    match decimal_from_str(t.as_str()) {
        Some(q) => {
            let zero = dec_zero();
            if decimal_lt(&zero, &q) {
                return Ok(q);
            }
        },
        None => {},
    }
    Err(String::from_str("quantity must be positive"))
}

/// The error for a line whose product does not exist.
pub fn unknown_product_message(product_id: i64) -> (r: String)
    ensures
        r@ == "unknown product "@ + hash_id(product_id as int),
{
    let mut msg = String::from_str("unknown product ");
    let id = hash_id_text(product_id);
    msg.append(id.as_str());
    msg
}

/// The rate of a draft line: the rate typed in when it is not blank (it must
/// parse and be non-negative), else the product's sales price.
pub fn resolve_line_rate(row: &DraftLinePending, sales_price: &Dec) -> (r: Result<Dec, String>)
    ensures
        match row.rate {
            Some(text) if trim(text@).len() > 0 => match decimal_parse(trim(text@)) {
                None => r matches Err(e) && e@ == "invalid rate"@,
                Some(d) => if d.val() < 0 {
                    r matches Err(e) && e@ == "rate must be non-negative"@
                } else {
                    r == Ok::<Dec, String>(d)
                },
            },
            _ => r == Ok::<Dec, String>(*sales_price),
        },
{
    match &row.rate {
        Some(text) => {
            if !is_blank(text.as_str()) {
                let t = trimmed(text.as_str());
                match decimal_from_str(t.as_str()) {
                    None => return Err(String::from_str("invalid rate")),
                    Some(d) => {
                        let zero = dec_zero();
                        if decimal_lt(&d, &zero) {
                            return Err(String::from_str("rate must be non-negative"));
                        }
                        return Ok(d);
                    },
                }
            }
        },
        None => {},
    }
    Ok(*sales_price)
}

/// A draft needs at least one line, and (when created) a customer.
pub fn check_draft_header(line_count: usize, customer_id: i64, creating: bool) -> (r: Result<(), String>)
    ensures
        match r {
            Ok(_) => line_count > 0 && (creating ==> customer_id != 0),
            Err(e) => (line_count == 0 && e@ == "add at least one invoice line"@) || (line_count > 0
                && creating && customer_id == 0 && e@ == "customer is required"@),
        },
{
    if line_count == 0 {
        return Err(String::from_str("add at least one invoice line"));
    }
    if creating && customer_id == 0 {
        return Err(String::from_str("customer is required"));
    }
    Ok(())
}

/// The number a draft is stored with: the trimmed text, or none when blank.
pub fn draft_number(number: &Option<String>) -> (r: Option<String>)
    ensures
        match number {
            Some(n) => match r {
                Some(t) => trim(n@).len() > 0 && t@ == trim(n@),
                None => trim(n@).len() == 0,
            },
            None => r is None,
        },
{
    match number {
        Some(n) => optional_trimmed_text(n.as_str()),
        None => None,
    }
}

/// A draft that has been posted cannot be changed.
pub fn check_draft_not_sealed(draft_id: i64, posted_count: u64) -> (r: Result<(), String>)
    ensures
        match r {
            Ok(_) => draft_id == 0 || posted_count == 0,
            Err(e) => draft_id != 0 && posted_count > 0 && e@
                == "draft invoice is posted and cannot be changed"@,
        },
{
    if draft_id == 0 {
        return Ok(());
    }
    if posted_count > 0 {
        return Err(String::from_str("draft invoice is posted and cannot be changed"));
    }
    Ok(())
}

/// How a draft's payment term is chosen: an existing term, or a new one due
/// on a date (seconds since the Unix epoch).
pub enum PaymentTermSelection {
    Existing(i64),
    DueDate(i64),
}

/// An existing payment term must be named.
pub fn check_payment_term_selection(selection: &PaymentTermSelection) -> (r: Result<(), String>)
    ensures
        match r {
            Ok(_) => !(selection matches PaymentTermSelection::Existing(id) && id == 0),
            Err(e) => (selection matches PaymentTermSelection::Existing(id) && id == 0) && e@
                == "payment term is required"@,
        },
{
    match selection {
        PaymentTermSelection::Existing(id) => {
            if *id == 0 {
                return Err(String::from_str("payment term is required"));
            }
            Ok(())
        },
        PaymentTermSelection::DueDate(_) => Ok(()),
    }
}

/// A draft to create.
pub struct CreateDraftInput {
    pub number: Option<String>,
    pub reference: Option<String>,
    pub payment_reference: Option<String>,
    pub bank_account: Option<String>,
    /// Seconds since the Unix epoch.
    pub datetime: i64,
    pub customer_id: i64,
    pub payment_term: PaymentTermSelection,
    pub header_tax_ids: Vec<i64>,
    pub lines: Vec<DraftLinePending>,
}

/// A draft's new contents.
pub struct UpdateDraftInput {
    pub number: Option<String>,
    pub reference: Option<String>,
    pub payment_reference: Option<String>,
    pub bank_account: Option<String>,
    /// Seconds since the Unix epoch.
    pub datetime: i64,
    pub customer_id: i64,
    pub payment_term: PaymentTermSelection,
    pub header_tax_ids: Vec<i64>,
    pub lines: Vec<DraftLinePending>,
}

} // verus!
