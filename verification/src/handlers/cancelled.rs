//! Cancelled invoice pages.
use crate::text::{hash_id, hash_id_text, is_blank, trim, trimmed};
use vstd::prelude::*;
use vstd::utf8::{decode_utf8, encode_utf8, is_char_boundary};

verus! {

/// How a cancelled invoice names the posted invoice it came from: its
/// number, or `#id` when the number is blank.
pub fn posted_invoice_display_label(id: i64, number: &str) -> (r: String)
    ensures
        r@ == if trim(number@).len() == 0 {
            hash_id(id as int)
        } else {
            number@
        },
{
    if is_blank(number) {
        hash_id_text(id)
    } else {
        String::from_str(number)
    }
}

/// A credit note's reason as shown in its label: kept whole up to 48 bytes
/// of UTF-8, else its first 45 bytes and an ellipsis.
pub open spec fn reason_summary(reason: Seq<char>) -> Seq<char> {
    let bytes = encode_utf8(reason);
    if bytes.len() > 48 {
        decode_utf8(bytes.subrange(0, 45)) + "…"@
    } else {
        reason
    }
}

/// Whether a reason can be shortened where its label cuts it: not too long
/// for this machine, and a long one has a character boundary at byte 45.
pub open spec fn reason_cuttable(reason: Seq<char>) -> bool {
    let bytes = encode_utf8(reason);
    &&& bytes.len() <= usize::MAX
    &&& bytes.len() > 48 ==> is_char_boundary(bytes, 45)
}

/// The label of a credit note: `#id · date`, then ` · ` and the summary of
/// its reason when the reason is not blank.
pub open spec fn credit_note_label(id: int, date: Seq<char>, reason: Option<Seq<char>>) -> Seq<char> {
    let head = hash_id(id) + " · "@ + date;
    match reason {
        Some(text) => if trim(text).len() > 0 {
            head + " · "@ + reason_summary(trim(text))
        } else {
            head
        },
        None => head,
    }
}

/// How the cancelled pages name a credit note, given its date already
/// written out in the viewer's time zone.
pub fn credit_note_display_label(id: i64, date: &str, reason: Option<&str>) -> (r: String)
    requires
        reason matches Some(text) ==> reason_cuttable(trim(text@)),
    ensures
        r@ == credit_note_label(id as int, date@, match reason {
            Some(text) => Some(text@),
            None => None,
        }),
{
    let mut label = hash_id_text(id);
    label.append(" · ");
    label.append(date);
    match reason {
        Some(text) => {
            let t = trimmed(text);
            let ts: &str = t.as_str();
            if !ts.is_empty() {
                label.append(" · ");
                if ts.len() > 48 {
                    let (head, _tail) = ts.split_at(45);
                    proof {
                        vstd::utf8::encode_utf8_decode_utf8(head@);
                    }
                    label.append(head);
                    label.append("…");
                } else {
                    label.append(ts);
                }
            }
        },
        None => {},
    }
    label
}

} // verus!
