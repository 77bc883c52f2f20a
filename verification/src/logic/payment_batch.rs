//! Batch payments: one bank receipt clears several posted invoices in a
//! single journal entry.
//!
//! A batch names at least two distinct invoices, all in the same journal.
//! Its journal entry is one bank debit for the pooled bank amounts followed
//! by every allocation's own lines; when each allocation balances, so does
//! the batch.
use crate::decimal::{
    abs, adds_exactly, decimal_add, decimal_checked_add, decimal_parse, dec_zero, lemma_add_exact_by_value,
    lemma_pow10_positive, pow10, zero_dec, Dec, MAX_MANTISSA,
};
use crate::logic::payment::{lines_total, lemma_lines_total_concat, parse_payment_amount, JournalLineSpec, PostedInvoice};
use crate::text::{int_text, int_to_text, join_text, join_with, sort_texts, texts_of, texts_sorted, trim};
use std::collections::HashSet;
use vstd::prelude::*;

verus! {

broadcast use vstd::std_specs::hash::group_hash_axioms;

/// One invoice's share of a batch payment.
#[derive(Debug)]
pub struct BatchAllocation {
    pub posted_invoice_id: i64,
    pub amount: Dec,
    pub withholding_tax_ids: Vec<i64>,
}

/// One row of the allocations editor, as submitted.
#[derive(Debug)]
pub struct AllocationRow {
    pub posted_invoice_id: i64,
    pub amount: String,
    pub tax_ids: Vec<i64>,
}

/// A checked allocation: invoice id, amount, withholding tax ids.
pub open spec fn alloc_view(a: BatchAllocation) -> (i64, Dec, Seq<i64>) {
    (a.posted_invoice_id, a.amount, a.withholding_tax_ids@)
}

pub open spec fn too_few_message() -> Seq<char> {
    "batch payment requires at least two invoices"@
}

pub open spec fn duplicate_message() -> Seq<char> {
    "duplicate invoice in batch"@
}

pub open spec fn invalid_id_message() -> Seq<char> {
    "invalid posted invoice id"@
}

/// Whether an earlier row names the same invoice.
pub open spec fn id_seen_before(rows: Seq<AllocationRow>, k: int) -> bool {
    exists|j: int| 0 <= j < k && (#[trigger] rows[j]).posted_invoice_id == rows[k].posted_invoice_id
}

/// The rows checked left to right: each names a positive invoice id not
/// named before and an amount that parses.
pub open spec fn checked_rows(rows: Seq<AllocationRow>) -> Result<Seq<(i64, Dec, Seq<i64>)>, Seq<char>>
    decreases rows.len(),
{
    if rows.len() == 0 {
        Ok(Seq::empty())
    } else {
        match checked_rows(rows.drop_last()) {
            Err(e) => Err(e),
            Ok(prev) => {
                let r = rows.last();
                if r.posted_invoice_id <= 0 {
                    Err(invalid_id_message())
                } else if id_seen_before(rows, rows.len() - 1) {
                    Err(duplicate_message())
                } else {
                    match decimal_parse(trim(r.amount@)) {
                        None => Err("invalid amount"@),
                        Some(d) => Ok(prev.push((r.posted_invoice_id, d, r.tax_ids@))),
                    }
                }
            },
        }
    }
}

/// The allocations of a batch: at least two rows, then `checked_rows`.
pub open spec fn batch_allocations(rows: Seq<AllocationRow>) -> Result<Seq<(i64, Dec, Seq<i64>)>, Seq<char>> {
    if rows.len() < 2 {
        Err(too_few_message())
    } else {
        checked_rows(rows)
    }
}

fn copy_ids(v: &Vec<i64>) -> (r: Vec<i64>)
    ensures
        r@ == v@,
{
    let mut out: Vec<i64> = Vec::new();
    let mut i: usize = 0;
    while i < v.len()
        invariant
            i <= v.len(),
            out@ == v@.take(i as int),
        decreases v.len() - i,
    {
        out.push(v[i]);
        proof {
            assert(out@ =~= v@.take(i + 1));
        }
        i = i + 1;
    }
    proof {
        assert(v@.take(i as int) =~= v@);
    }
    out
}

proof fn lemma_checked_rows_prefix(rows: Seq<AllocationRow>, k: int)
    requires
        0 <= k < rows.len(),
    ensures
        rows.take(k + 1).drop_last() == rows.take(k),
        rows.take(k + 1).last() == rows[k],
        id_seen_before(rows.take(k + 1), k) == id_seen_before(rows, k),
{
    assert(rows.take(k + 1).drop_last() =~= rows.take(k));
    if id_seen_before(rows, k) {
        let j = choose|j: int| 0 <= j < k && (#[trigger] rows[j]).posted_invoice_id == rows[k].posted_invoice_id;
        assert(rows.take(k + 1)[j] == rows[j]);
    }
    if id_seen_before(rows.take(k + 1), k) {
        let j = choose|j: int| 0 <= j < k && (#[trigger] rows.take(k + 1)[j]).posted_invoice_id
            == rows.take(k + 1)[k].posted_invoice_id;
        assert(rows.take(k + 1)[j] == rows[j]);
    }
}

proof fn lemma_checked_rows_err_stays(rows: Seq<AllocationRow>, k: int)
    requires
        1 <= k <= rows.len(),
        checked_rows(rows.take(k)) is Err,
    ensures
        checked_rows(rows) == checked_rows(rows.take(k)),
    decreases rows.len() - k,
{
    if k < rows.len() {
        lemma_checked_rows_prefix(rows, k);
        lemma_checked_rows_err_stays(rows, k + 1);
    } else {
        assert(rows.take(k) =~= rows);
    }
}

/// Checks the submitted rows of a batch and turns them into allocations:
/// at least two rows, each with a positive invoice id, no invoice twice,
/// and an amount that parses (`parse_payment_amount`).
///
/// On success the allocations follow the rows one for one, their invoice
/// ids are positive and pairwise distinct.
pub fn batch_allocations_from_rows(rows: &Vec<AllocationRow>) -> (r: Result<Vec<BatchAllocation>, String>)
    ensures
        match (r, batch_allocations(rows@)) {
            (Ok(allocs), Ok(spec)) => allocs@.map_values(|a: BatchAllocation| alloc_view(a)) == spec,
            (Err(e), Err(se)) => e@ == se,
            _ => false,
        },
        r matches Ok(allocs) ==> allocs.len() >= 2 && allocs.len() == rows.len() && (forall|i: int|
            0 <= i < allocs.len() ==> (#[trigger] allocs@[i]).posted_invoice_id
                == rows@[i].posted_invoice_id && allocs@[i].posted_invoice_id > 0) && (forall|
            i: int,
            j: int,
        |
            0 <= i < j < allocs.len() ==> (#[trigger] allocs@[i]).posted_invoice_id != (
            #[trigger] allocs@[j]).posted_invoice_id),
{
    if rows.len() < 2 {
        return Err(String::from_str("batch payment requires at least two invoices"));
    }
    let mut seen: HashSet<i64> = HashSet::new();
    let mut out: Vec<BatchAllocation> = Vec::new();
    let mut i: usize = 0;
    proof {
        assert(rows@.take(0) =~= Seq::<AllocationRow>::empty());
        assert(out@.map_values(|a: BatchAllocation| alloc_view(a)) =~= Seq::<(i64, Dec, Seq<i64>)>::empty());
    }
    while i < rows.len()
        invariant
            i <= rows.len(),
            rows.len() >= 2,
            checked_rows(rows@.take(i as int)) == Ok::<Seq<(i64, Dec, Seq<i64>)>, Seq<char>>(
                out@.map_values(|a: BatchAllocation| alloc_view(a)),
            ),
            out.len() == i,
            forall|k: int|
                0 <= k < i ==> (#[trigger] out@[k]).posted_invoice_id == rows@[k].posted_invoice_id
                    && out@[k].posted_invoice_id > 0,
            forall|k: int, l: int|
                0 <= k < l < i ==> (#[trigger] out@[k]).posted_invoice_id != (
                #[trigger] out@[l]).posted_invoice_id,
            forall|x: i64| seen@.contains(x) <==> exists|k: int| 0 <= k < i && (#[trigger] rows@[k]).posted_invoice_id == x,
        decreases rows.len() - i,
    {
        proof {
            lemma_checked_rows_prefix(rows@, i as int);
        }
        let row = &rows[i];
        if row.posted_invoice_id <= 0 {
            proof {
                lemma_checked_rows_err_stays(rows@, i + 1);
            }
            return Err(String::from_str("invalid posted invoice id"));
        }
        let ghost seen_before = seen@;
        let fresh = seen.insert(row.posted_invoice_id);
        if !fresh {
            proof {
                let k = choose|k: int| 0 <= k < i && (#[trigger] rows@[k]).posted_invoice_id == row.posted_invoice_id;
                assert(id_seen_before(rows@, i as int));
                lemma_checked_rows_err_stays(rows@, i + 1);
            }
            return Err(String::from_str("duplicate invoice in batch"));
        }
        proof {
            if id_seen_before(rows@, i as int) {
                let k = choose|k: int| 0 <= k < i && (#[trigger] rows@[k]).posted_invoice_id == rows@[i as int].posted_invoice_id;
                assert(false);
            }
        }
        let amount = match parse_payment_amount(row.amount.as_str()) {
            Ok(d) => d,
            Err(e) => {
                proof {
                    lemma_checked_rows_err_stays(rows@, i + 1);
                }
                return Err(e);
            },
        };
        let ids = copy_ids(&row.tax_ids);
        let ghost old_out = out@;
        out.push(BatchAllocation { posted_invoice_id: row.posted_invoice_id, amount, withholding_tax_ids: ids });
        proof {
            assert(out@.map_values(|a: BatchAllocation| alloc_view(a)) =~= old_out.map_values(
                |a: BatchAllocation| alloc_view(a),
            ).push((rows@[i as int].posted_invoice_id, amount, rows@[i as int].tax_ids@)));
            assert forall|x: i64| seen@.contains(x) <==> exists|k: int|
                0 <= k < i + 1 && (#[trigger] rows@[k]).posted_invoice_id == x by {
                if x == rows@[i as int].posted_invoice_id {
                    assert(rows@[i as int].posted_invoice_id == x);
                }
            }
            assert forall|k: int, l: int| 0 <= k < l < i + 1 implies (#[trigger] out@[k]).posted_invoice_id
                != (#[trigger] out@[l]).posted_invoice_id by {
                if l == i {
                    assert(out@[k] == old_out[k]);
                    assert(out@[k].posted_invoice_id == rows@[k].posted_invoice_id);
                    assert(!seen_before.contains(rows@[i as int].posted_invoice_id));
                    if out@[k].posted_invoice_id == out@[l].posted_invoice_id {
                        assert(seen_before.contains(rows@[k].posted_invoice_id));
                    }
                } else {
                    assert(out@[k] == old_out[k]);
                    assert(out@[l] == old_out[l]);
                }
            }
        }
        i = i + 1;
    }
    proof {
        assert(rows@.take(i as int) =~= rows@);
    }
    Ok(out)
}

/// The checks a batch passes before anything is looked up: at least two
/// allocations, and no invoice twice.
pub fn check_batch_allocations(allocs: &Vec<BatchAllocation>) -> (r: Result<(), String>)
    ensures
        match r {
            Ok(_) => allocs.len() >= 2 && forall|i: int, j: int|
                0 <= i < j < allocs.len() ==> (#[trigger] allocs@[i]).posted_invoice_id != (
                #[trigger] allocs@[j]).posted_invoice_id,
            Err(e) => (allocs.len() < 2 && e@ == too_few_message()) || (allocs.len() >= 2 && (exists|
                i: int,
                j: int,
            |
                0 <= i < j < allocs.len() && (#[trigger] allocs@[i]).posted_invoice_id == (
                #[trigger] allocs@[j]).posted_invoice_id) && e@ == duplicate_message()),
        },
{
    if allocs.len() < 2 {
        return Err(String::from_str("batch payment requires at least two invoices"));
    }
    let mut seen: HashSet<i64> = HashSet::new();
    let mut i: usize = 0;
    while i < allocs.len()
        invariant
            i <= allocs.len(),
            allocs.len() >= 2,
            forall|k: int, l: int|
                0 <= k < l < i ==> (#[trigger] allocs@[k]).posted_invoice_id != (
                #[trigger] allocs@[l]).posted_invoice_id,
            forall|x: i64| seen@.contains(x) <==> exists|k: int| 0 <= k < i && (#[trigger] allocs@[k]).posted_invoice_id == x,
        decreases allocs.len() - i,
    {
        let id = allocs[i].posted_invoice_id;
        let ghost seen_before = seen@;
        if !seen.insert(id) {
            proof {
                let k = choose|k: int| 0 <= k < i && (#[trigger] allocs@[k]).posted_invoice_id == id;
                assert(allocs@[k].posted_invoice_id == allocs@[i as int].posted_invoice_id);
            }
            return Err(String::from_str("duplicate invoice in batch"));
        }
        proof {
            assert forall|x: i64| seen@.contains(x) <==> exists|k: int|
                0 <= k < i + 1 && (#[trigger] allocs@[k]).posted_invoice_id == x by {
                if x == id {
                    assert(allocs@[i as int].posted_invoice_id == x);
                }
            }
            assert forall|k: int, l: int| 0 <= k < l < i + 1 implies (#[trigger] allocs@[k]).posted_invoice_id
                != (#[trigger] allocs@[l]).posted_invoice_id by {
                if l == i && allocs@[k].posted_invoice_id == allocs@[l].posted_invoice_id {
                    assert(seen_before.contains(allocs@[k].posted_invoice_id));
                }
            }
        }
        i = i + 1;
    }
    Ok(())
}

/// The journal ids in order of first appearance.
pub open spec fn distinct_in_order(s: Seq<i64>) -> Seq<i64>
    decreases s.len(),
{
    if s.len() == 0 {
        Seq::empty()
    } else {
        let prev = distinct_in_order(s.drop_last());
        if prev.contains(s.last()) {
            prev
        } else {
            prev.push(s.last())
        }
    }
}

/// Integers separated by `", "`.
pub open spec fn join_ids(s: Seq<i64>) -> Seq<char>
    decreases s.len(),
{
    if s.len() == 0 {
        Seq::empty()
    } else if s.len() == 1 {
        int_text(s[0] as int)
    } else {
        join_ids(s.drop_last()) + ", "@ + int_text(s.last() as int)
    }
}

pub open spec fn journal_ids(posted: Seq<PostedInvoice>) -> Seq<i64> {
    posted.map_values(|p: PostedInvoice| p.journal_id)
}

proof fn lemma_distinct_in_order_contains(s: Seq<i64>, x: i64)
    ensures
        distinct_in_order(s).contains(x) <==> s.contains(x),
    decreases s.len(),
{
    if s.len() > 0 {
        lemma_distinct_in_order_contains(s.drop_last(), x);
        if s.drop_last().contains(x) {
            let k = choose|k: int| 0 <= k < s.drop_last().len() && s.drop_last()[k] == x;
            assert(s[k] == x);
        }
        if s.contains(x) && x != s.last() {
            let k = choose|k: int| 0 <= k < s.len() && s[k] == x;
            assert(s.drop_last()[k] == x);
        }
        let prev = distinct_in_order(s.drop_last());
        if !prev.contains(s.last()) {
            assert(prev.push(s.last())[prev.len() as int] == s.last());
            if prev.contains(x) {
                let k = choose|k: int| 0 <= k < prev.len() && prev[k] == x;
                assert(prev.push(s.last())[k] == x);
            }
            if prev.push(s.last()).contains(x) && x != s.last() {
                let k = choose|k: int| 0 <= k < prev.len() + 1 && prev.push(s.last())[k] == x;
                assert(prev[k] == x);
            }
        }
    }
}

/// All invoices of a batch are in one journal; its id, or an error naming
/// every journal involved.
pub fn validate_same_journal(posted: &Vec<PostedInvoice>) -> (r: Result<i64, String>)
    requires
        posted.len() > 0,
    ensures
        match r {
            Ok(j) => j == posted@[0].journal_id && forall|i: int|
                0 <= i < posted.len() ==> (#[trigger] posted@[i]).journal_id == j,
            Err(e) => (exists|i: int|
                0 <= i < posted.len() && (#[trigger] posted@[i]).journal_id != posted@[0].journal_id)
                && e@ == "invoices span multiple journals (ids: "@ + join_ids(
                distinct_in_order(journal_ids(posted@)),
            ) + ")"@,
        },
{
    let first = posted[0].journal_id;
    let mut ids: Vec<i64> = Vec::new();
    let mut mixed = false;
    let mut i: usize = 0;
    while i < posted.len()
        invariant
            i <= posted.len(),
            posted.len() > 0,
            first == posted@[0].journal_id,
            ids@ == distinct_in_order(journal_ids(posted@).take(i as int)),
            mixed <==> exists|k: int| 0 <= k < i && (#[trigger] posted@[k]).journal_id != first,
        decreases posted.len() - i,
    {
        let j = posted[i].journal_id;
        proof {
            assert(journal_ids(posted@).take(i + 1).drop_last() =~= journal_ids(posted@).take(i as int));
            assert(journal_ids(posted@).take(i + 1).last() == j);
        }
        let mut present = false;
        let mut k: usize = 0;
        while k < ids.len()
            invariant
                k <= ids.len(),
                present <==> exists|m: int| 0 <= m < k && ids@[m] == j,
            decreases ids.len() - k,
        {
            if ids[k] == j {
                present = true;
            }
            k = k + 1;
        }
        proof {
            if present {
                let m = choose|m: int| 0 <= m < k && ids@[m] == j;
                assert(ids@.contains(j));
            }
            if ids@.contains(j) {
                let m = choose|m: int| 0 <= m < ids@.len() && ids@[m] == j;
                assert(ids@[m] == j);
            }
        }
        if !present {
            ids.push(j);
        }
        if j != first {
            mixed = true;
        }
        proof {
            assert forall|k: int| 0 <= k < i + 1 && (#[trigger] posted@[k]).journal_id != first implies
                mixed by {
            }
        }
        i = i + 1;
    }
    proof {
        assert(journal_ids(posted@).take(i as int) =~= journal_ids(posted@));
    }
    if !mixed {
        return Ok(first);
    }
    let mut msg = String::from_str("invoices span multiple journals (ids: ");
    let joined = join_id_text(&ids);
    msg.append(joined.as_str());
    msg.append(")");
    Err(msg)
}

fn join_id_text(ids: &Vec<i64>) -> (r: String)
    ensures
        r@ == join_ids(ids@),
{
    let mut out = String::from_str("");
    let mut i: usize = 0;
    proof {
        reveal_strlit("");
        assert(ids@.take(0) =~= Seq::<i64>::empty());
    }
    while i < ids.len()
        invariant
            i <= ids.len(),
            out@ == join_ids(ids@.take(i as int)),
        decreases ids.len() - i,
    {
        proof {
            assert(ids@.take(i + 1).drop_last() =~= ids@.take(i as int));
        }
        if i > 0 {
            out.append(", ");
        }
        let t = int_to_text(ids[i]);
        out.append(t.as_str());
        proof {
            if i == 0 {
                assert(out@ =~= int_text(ids@[0] as int));
            }
        }
        i = i + 1;
    }
    proof {
        assert(ids@.take(i as int) =~= ids@);
    }
    out
}

/// Every invoice of a batch must exist: as many were found as were named.
pub fn check_posted_found(found: usize, requested: usize) -> (r: Result<(), String>)
    ensures
        match r {
            Ok(_) => found == requested,
            Err(e) => found != requested && e@ == "one or more posted invoices not found"@,
        },
{
    if found != requested {
        return Err(String::from_str("one or more posted invoices not found"));
    }
    Ok(())
}

/// The error for a batch that spans journals: the labels of the journals
/// involved, sorted, and joined with commas.
pub fn mixed_journals_message(labels: &Vec<String>) -> (r: String)
    ensures
        exists|sorted: Seq<Seq<char>>|
            #![trigger join_with(sorted, ", "@)]
            sorted.to_multiset() == texts_of(labels@).to_multiset() && texts_sorted(sorted) && r@
                == "all invoices in a batch must share the same journal (found: "@ + join_with(
                sorted,
                ", "@,
            ) + ")"@,
{
    let sorted = sort_texts(labels);
    let joined = join_text(&sorted, ", ");
    let mut msg = String::from_str("all invoices in a batch must share the same journal (found: ");
    msg.append(joined.as_str());
    msg.append(")");
    proof {
        assert(sorted@.map_values(|p: String| p@) == texts_of(sorted@));
    }
    msg
}

/// One allocation ready for the batch journal.
#[derive(Debug)]
pub struct PreparedAllocation {
    pub settlement: Dec,
    pub bank: Dec,
    pub lines: Vec<JournalLineSpec>,
}

/// The batch's journal lines and totals.
#[derive(Debug)]
pub struct BatchJournal {
    pub lines: Vec<JournalLineSpec>,
    pub total_bank: Dec,
    pub total_settlement: Dec,
}

pub open spec fn bank_sum(s: Seq<PreparedAllocation>) -> Option<Dec>
    decreases s.len(),
{
    if s.len() == 0 {
        Some(zero_dec())
    } else {
        match bank_sum(s.drop_last()) {
            Some(acc) => decimal_checked_add(acc, s.last().bank),
            None => None,
        }
    }
}

pub open spec fn settlement_sum(s: Seq<PreparedAllocation>) -> Option<Dec>
    decreases s.len(),
{
    if s.len() == 0 {
        Some(zero_dec())
    } else {
        match settlement_sum(s.drop_last()) {
            Some(acc) => decimal_checked_add(acc, s.last().settlement),
            None => None,
        }
    }
}

/// The allocations' own lines, one allocation after the other.
pub open spec fn concat_lines(s: Seq<PreparedAllocation>) -> Seq<JournalLineSpec>
    decreases s.len(),
{
    if s.len() == 0 {
        Seq::empty()
    } else {
        concat_lines(s.drop_last()) + s.last().lines@
    }
}

/// Each allocation balances on its own.
pub open spec fn allocations_balanced(s: Seq<PreparedAllocation>) -> bool {
    forall|i: int| 0 <= i < s.len() ==> (#[trigger] s[i]).bank.val() + lines_total(s[i].lines@) == 0
}

pub open spec fn bank_magnitude(s: Seq<PreparedAllocation>) -> int
    decreases s.len(),
{
    if s.len() == 0 {
        0
    } else {
        bank_magnitude(s.drop_last()) + abs(s.last().bank.val())
    }
}

pub open spec fn settlement_magnitude(s: Seq<PreparedAllocation>) -> int
    decreases s.len(),
{
    if s.len() == 0 {
        0
    } else {
        settlement_magnitude(s.drop_last()) + abs(s.last().settlement.val())
    }
}

/// The bank amounts have at most 14 places and their total fits in 96 bits
/// at that scale; likewise the settlements at 6 places.
pub open spec fn totals_fit(s: Seq<PreparedAllocation>) -> bool {
    &&& forall|i: int|
        0 <= i < s.len() ==> (#[trigger] s[i]).bank.wf() && s[i].bank.scale <= 14 && s[i].settlement.wf()
            && s[i].settlement.scale <= 6
    &&& bank_magnitude(s) <= MAX_MANTISSA * pow10(14)
    &&& settlement_magnitude(s) <= MAX_MANTISSA * pow10(22)
}

pub open spec fn exact_bank_total(s: Seq<PreparedAllocation>) -> int
    decreases s.len(),
{
    if s.len() == 0 {
        0
    } else {
        exact_bank_total(s.drop_last()) + s.last().bank.val()
    }
}

/// The exact sum of the settlements.
pub open spec fn exact_settlement_total(s: Seq<PreparedAllocation>) -> int
    decreases s.len(),
{
    if s.len() == 0 {
        0
    } else {
        exact_settlement_total(s.drop_last()) + s.last().settlement.val()
    }
}

proof fn lemma_magnitudes(s: Seq<PreparedAllocation>, k: int)
    requires
        0 <= k <= s.len(),
    ensures
        bank_magnitude(s.take(k)) <= bank_magnitude(s),
        settlement_magnitude(s.take(k)) <= settlement_magnitude(s),
        abs(exact_bank_total(s.take(k))) <= bank_magnitude(s.take(k)),
    decreases s.len() - k,
{
    if k < s.len() {
        lemma_magnitudes(s, k + 1);
        assert(s.take(k + 1).drop_last() =~= s.take(k));
    } else {
        assert(s.take(k) =~= s);
    }
    lemma_exact_total_bound(s.take(k));
}

proof fn lemma_exact_total_bound(s: Seq<PreparedAllocation>)
    ensures
        abs(exact_bank_total(s)) <= bank_magnitude(s),
    decreases s.len(),
{
    if s.len() > 0 {
        lemma_exact_total_bound(s.drop_last());
    }
}

proof fn lemma_concat_lines_total(s: Seq<PreparedAllocation>)
    requires
        allocations_balanced(s),
    ensures
        lines_total(concat_lines(s)) == -exact_bank_total(s),
    decreases s.len(),
{
    if s.len() > 0 {
        assert(allocations_balanced(s.drop_last())) by {
            assert forall|i: int| 0 <= i < s.drop_last().len() implies (#[trigger] s.drop_last()[i]).bank.val()
                + lines_total(s.drop_last()[i].lines@) == 0 by {
                assert(s.drop_last()[i] == s[i]);
            }
        }
        lemma_concat_lines_total(s.drop_last());
        lemma_lines_total_concat(concat_lines(s.drop_last()), s.last().lines@);
        assert(s.last() == s[s.len() - 1]);
    }
}

proof fn lemma_batch_sums(s: Seq<PreparedAllocation>)
    requires
        adds_exactly(),
        totals_fit(s),
    ensures
        bank_sum(s) is Some,
        bank_sum(s).unwrap().wf(),
        bank_sum(s).unwrap().scale <= 14,
        bank_sum(s).unwrap().val() == exact_bank_total(s),
        settlement_sum(s) is Some,
        settlement_sum(s).unwrap().wf(),
        settlement_sum(s).unwrap().scale <= 6,
        settlement_sum(s).unwrap().val() == exact_settlement_total(s),
        abs(exact_settlement_total(s)) <= settlement_magnitude(s),
    decreases s.len(),
{
    if s.len() > 0 {
        let t = s.drop_last();
        let x = s.last();
        assert(x == s[s.len() - 1]);
        assert forall|i: int| 0 <= i < t.len() implies (#[trigger] t[i]).bank.wf() && t[i].bank.scale <= 14
            && t[i].settlement.wf() && t[i].settlement.scale <= 6 by {
            assert(t[i] == s[i]);
        }
        assert(totals_fit(t));
        lemma_batch_sums(t);
        lemma_exact_total_bound(t);
        lemma_exact_total_bound(s);
        lemma_pow10_positive(14);
        lemma_pow10_positive(22);
        let tb = bank_sum(t).unwrap();
        let ts = settlement_sum(t).unwrap();
        lemma_add_exact_by_value(tb, x.bank, 14);
        lemma_add_exact_by_value(ts, x.settlement, 6);
        assert(decimal_checked_add(tb, x.bank) is Some);
        assert(decimal_checked_add(ts, x.settlement) is Some);
    } else {
        assert(zero_dec().val() == 0);
    }
}

/// The totals of a batch are exact: whenever rust_decimal adds exactly where
/// the sum fits, and the amounts fit (`totals_fit`), the batch's settlement
/// total is the sum of every allocation's settlement and its bank total the
/// sum of every allocation's bank amount.
pub proof fn lemma_batch_totals_exact(s: Seq<PreparedAllocation>)
    requires
        adds_exactly(),
        totals_fit(s),
    ensures
        settlement_sum(s) is Some && settlement_sum(s).unwrap().val() == exact_settlement_total(s),
        bank_sum(s) is Some && bank_sum(s).unwrap().val() == exact_bank_total(s),
{
    lemma_batch_sums(s);
}

/// The journal of a batch: one bank line for `account_id` carrying the
/// pooled bank amounts, then every allocation's lines; with the totals of
/// the bank amounts and of the settlements.
///
/// When every allocation balances and the totals fit, the result exists
/// and the batch journal balances too.
pub fn batch_journal(account_id: i64, prepared: &Vec<PreparedAllocation>) -> (r: Option<BatchJournal>)
    requires
        forall|i: int|
            0 <= i < prepared.len() ==> (#[trigger] prepared@[i]).bank.wf()
                && prepared@[i].settlement.wf(),
    ensures
        match (bank_sum(prepared@), settlement_sum(prepared@)) {
            (Some(tb), Some(ts)) => r is Some && r.unwrap().total_bank == tb && r.unwrap().total_settlement
                == ts && r.unwrap().lines@ == seq![JournalLineSpec { account_id, amount: tb }]
                + concat_lines(prepared@),
            _ => r is None,
        },
        totals_fit(prepared@) ==> r is Some && r.unwrap().total_bank.val() == exact_bank_total(
            prepared@,
        ) && r.unwrap().total_settlement.val() == exact_settlement_total(prepared@),
        totals_fit(prepared@) && allocations_balanced(prepared@) ==> r is Some && lines_total(
            r.unwrap().lines@,
        ) == 0,
{
    let mut total_bank = dec_zero();
    let mut total_settlement = dec_zero();
    let mut rest: Vec<JournalLineSpec> = Vec::new();
    let mut i: usize = 0;
    let ghost fit = totals_fit(prepared@);
    proof {
        assert(prepared@.take(0) =~= Seq::<PreparedAllocation>::empty());
    }
    while i < prepared.len()
        invariant
            i <= prepared.len(),
            forall|k: int|
                0 <= k < prepared.len() ==> (#[trigger] prepared@[k]).bank.wf()
                    && prepared@[k].settlement.wf(),
            total_bank.wf(),
            total_settlement.wf(),
            fit == totals_fit(prepared@),
            bank_sum(prepared@.take(i as int)) == Some(total_bank),
            settlement_sum(prepared@.take(i as int)) == Some(total_settlement),
            rest@ == concat_lines(prepared@.take(i as int)),
            fit ==> total_bank.val() == exact_bank_total(prepared@.take(i as int))
                && total_settlement.val() == exact_settlement_total(prepared@.take(i as int))
                && total_bank.scale <= 14 && total_settlement.scale <= 6 && abs(total_settlement.val())
                <= settlement_magnitude(prepared@.take(i as int)),
        decreases prepared.len() - i,
    {
        let p = &prepared[i];
        let ghost pre = prepared@.take(i as int);
        let ghost post = prepared@.take(i + 1);
        proof {
            assert(post.drop_last() =~= pre);
            assert(post.last() == prepared@[i as int]);
            if fit {
                lemma_magnitudes(prepared@, i + 1);
                lemma_magnitudes(prepared@, i as int);
                lemma_pow10_positive(14);
                lemma_add_exact_by_value(total_bank, p.bank, 14);
                lemma_add_exact_by_value(total_settlement, p.settlement, 6);
            }
        }
        let tb = match decimal_add(&total_bank, &p.bank) {
            Some(x) => x,
            None => {
                proof {
                    lemma_sum_none_stays(prepared@, i + 1, true);
                }
                return None;
            },
        };
        let ts = match decimal_add(&total_settlement, &p.settlement) {
            Some(x) => x,
            None => {
                proof {
                    lemma_sum_none_stays(prepared@, i + 1, false);
                }
                return None;
            },
        };
        total_bank = tb;
        total_settlement = ts;
        let mut k: usize = 0;
        let ghost before = rest@;
        while k < p.lines.len()
            invariant
                k <= p.lines.len(),
                rest@ == before + p.lines@.take(k as int),
            decreases p.lines.len() - k,
        {
            rest.push(p.lines[k]);
            proof {
                assert(p.lines@.take(k + 1) =~= p.lines@.take(k as int).push(p.lines@[k as int]));
                assert(rest@ =~= before + p.lines@.take(k + 1));
            }
            k = k + 1;
        }
        proof {
            assert(p.lines@.take(k as int) =~= p.lines@);
        }
        i = i + 1;
    }
    proof {
        assert(prepared@.take(i as int) =~= prepared@);
    }
    let mut lines: Vec<JournalLineSpec> = Vec::new();
    lines.push(JournalLineSpec { account_id, amount: total_bank });
    let mut k: usize = 0;
    while k < rest.len()
        invariant
            k <= rest.len(),
            lines@ == seq![JournalLineSpec { account_id, amount: total_bank }] + rest@.take(k as int),
        decreases rest.len() - k,
    {
        lines.push(rest[k]);
        proof {
            assert(lines@ =~= seq![JournalLineSpec { account_id, amount: total_bank }] + rest@.take(k + 1));
        }
        k = k + 1;
    }
    proof {
        assert(rest@.take(k as int) =~= rest@);
        if totals_fit(prepared@) && allocations_balanced(prepared@) {
            lemma_concat_lines_total(prepared@);
            let head = seq![JournalLineSpec { account_id, amount: total_bank }];
            lemma_lines_total_concat(head, rest@);
            assert(head.drop_last() =~= Seq::<JournalLineSpec>::empty());
            assert(head.len() == 1);
            assert(head.last().amount == total_bank);
            assert(lines_total(head.drop_last()) == 0);
            assert(lines_total(head) == total_bank.val());
        }
    }
    Some(BatchJournal { lines, total_bank, total_settlement })
}

proof fn lemma_sum_none_stays(s: Seq<PreparedAllocation>, k: int, bank: bool)
    requires
        1 <= k <= s.len(),
        bank ==> bank_sum(s.take(k)) is None,
        !bank ==> settlement_sum(s.take(k)) is None,
    ensures
        bank ==> bank_sum(s) is None,
        !bank ==> settlement_sum(s) is None,
    decreases s.len() - k,
{
    if k < s.len() {
        assert(s.take(k + 1).drop_last() =~= s.take(k));
        lemma_sum_none_stays(s, k + 1, bank);
    } else {
        assert(s.take(k) =~= s);
    }
}

/// A batch payment to record.
pub struct CreatePaymentBatchInput {
    /// Seconds since the Unix epoch; zero means "now".
    pub datetime: i64,
    pub account_id: Option<i64>,
    pub allocations: Vec<BatchAllocation>,
}

/// A recorded batch payment.
#[derive(Debug)]
pub struct PaymentBatch {
    pub id: i64,
    /// Seconds since the Unix epoch.
    pub datetime: i64,
    pub account_id: i64,
    pub journal_entry_id: i64,
    pub total_amount: Dec,
}

/// The outcome of recording a batch payment: the batch and the payment
/// recorded for each allocation, in order.
pub struct CreatePaymentBatchResult {
    pub batch: PaymentBatch,
    pub payment_ids: Vec<i64>,
}

} // verus!
