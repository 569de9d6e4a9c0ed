//! Laws relating lookup, decoding and mutation of extension sequences.
use vstd::prelude::*;

use crate::extension::{
    add_result, decode_after, decode_record, decode_single, encoded_record, has_name_payload,
    is_next_match, lemma_next_match_is_next, lemma_next_match_unique, next_match, record_nid,
    search_start, selects, AddPolicy, DecodeFailure, DecodeOutcome, ExtError, ExtensionModel,
    SelectorModel,
};
use crate::general_name::{
    decode_general_names, encode_general_names, lemma_general_names_round_trip,
    lemma_general_names_sound, names_encodable, GeneralNameModel,
};
use crate::nid::{lemma_nid_of_registered_oid, NID_UNDEF};

verus! {

/// A single-occurrence decode is absent exactly when no record has the NID.
pub proof fn lemma_absent_iff_no_record(s: Seq<ExtensionModel>, nid: i32)
    requires
        s.len() <= usize::MAX,
    ensures
        decode_single(s, nid) == DecodeOutcome::Absent <==> forall|i: int|
            0 <= i < s.len() ==> !selects(SelectorModel::Nid(nid), #[trigger] s[i]),
{
    lemma_next_match_is_next(s, SelectorModel::Nid(nid), 0);
    if let Some(p) = next_match(s, SelectorModel::Nid(nid), 0) {
        lemma_next_match_is_next(s, SelectorModel::Nid(nid), p + 1);
        if next_match(s, SelectorModel::Nid(nid), p + 1) is None {
            match decode_record(s[p as int], nid, p) {
                DecodeOutcome::Absent => {},
                _ => {},
            }
        }
    }
}

/// A decode from a cursor is absent exactly when no record after the cursor
/// has the NID.
pub proof fn lemma_absent_after_iff_no_record(s: Seq<ExtensionModel>, nid: i32, last: Option<usize>)
    requires
        s.len() <= usize::MAX,
    ensures
        decode_after(s, nid, last) == DecodeOutcome::Absent <==> forall|i: int|
            search_start(last) <= i < s.len() ==> !selects(SelectorModel::Nid(nid), #[trigger] s[i]),
{
    lemma_next_match_is_next(s, SelectorModel::Nid(nid), search_start(last));
}

/// Where the one record with the NID holds a payload that is not a valid
/// encoding, the decode fails at that record: it is neither absent nor a
/// value.
pub proof fn lemma_malformed_payload_fails(s: Seq<ExtensionModel>, nid: i32, p: usize)
    requires
        s.len() <= usize::MAX,
        p < s.len(),
        selects(SelectorModel::Nid(nid), s[p as int]),
        forall|i: int| 0 <= i < s.len() && i != p ==> !selects(SelectorModel::Nid(nid), #[trigger] s[i]),
        has_name_payload(nid),
        decode_general_names(s[p as int].value) is None,
    ensures
        decode_single(s, nid) == DecodeOutcome::Failed(
            ExtError::DecodeFailed { position: p, reason: DecodeFailure::Malformed },
        ),
        decode_after(s, nid, None) == DecodeOutcome::Failed(
            ExtError::DecodeFailed { position: p, reason: DecodeFailure::Malformed },
        ),
{
    let sel = SelectorModel::Nid(nid);
    lemma_next_match_is_next(s, sel, 0);
    lemma_next_match_unique(s, sel, 0, Some(p), next_match(s, sel, 0));
    lemma_next_match_is_next(s, sel, p + 1);
    lemma_next_match_unique(s, sel, p + 1, None, next_match(s, sel, p + 1));
}

/// A decoded value is never made up: it is the value whose encoding the
/// matching record holds, with that record's critical flag.
pub proof fn lemma_decoded_value_is_encoded(s: Seq<ExtensionModel>, nid: i32, ns: Seq<GeneralNameModel>, critical: bool)
    requires
        s.len() <= usize::MAX,
        decode_single(s, nid) == DecodeOutcome::Found(ns, critical),
    ensures
        exists|p: int|
            0 <= p < s.len() && selects(SelectorModel::Nid(nid), #[trigger] s[p])
                && s[p].value == encode_general_names(ns) && s[p].critical == critical,
        names_encodable(ns),
{
    let p = next_match(s, SelectorModel::Nid(nid), 0).unwrap();
    lemma_next_match_is_next(s, SelectorModel::Nid(nid), 0);
    lemma_general_names_sound(s[p as int].value);
    assert(selects(SelectorModel::Nid(nid), s[p as int]));
}

proof fn lemma_encoded_record_selected(nid: i32, ns: Seq<GeneralNameModel>, critical: bool)
    requires
        has_name_payload(nid),
        names_encodable(ns),
    ensures
        selects(SelectorModel::Nid(nid), encoded_record(nid, ns, critical)),
        decode_general_names(encoded_record(nid, ns, critical).value) == Some(ns),
{
    lemma_nid_of_registered_oid(nid);
    lemma_general_names_round_trip(ns);
}

/// After a successful addition that writes a record, the record at the
/// returned position has the NID and decodes to exactly the names added, with
/// the critical flag given.
pub proof fn lemma_add_then_decode_at(
    s: Seq<ExtensionModel>,
    nid: i32,
    ns: Seq<GeneralNameModel>,
    critical: bool,
    policy: AddPolicy,
)
    requires
        s.len() <= usize::MAX,
        add_result(s, nid, ns, critical, policy) is Ok,
        policy != AddPolicy::KeepExisting,
        policy != AddPolicy::Delete,
    ensures
        ({
            let (t, p) = add_result(s, nid, ns, critical, policy).unwrap();
            &&& p < t.len()
            &&& selects(SelectorModel::Nid(nid), t[p as int])
            &&& decode_record(t[p as int], nid, p) == DecodeOutcome::Found(ns, critical)
        }),
{
    lemma_next_match_is_next(s, SelectorModel::Nid(nid), 0);
    lemma_encoded_record_selected(nid, ns, critical);
}

/// Adding names for a NID that no record has yet, then decoding that NID,
/// gives back exactly the names added, with the critical flag given.
pub proof fn lemma_add_then_decode(
    s: Seq<ExtensionModel>,
    nid: i32,
    ns: Seq<GeneralNameModel>,
    critical: bool,
    policy: AddPolicy,
)
    requires
        s.len() <= usize::MAX,
        add_result(s, nid, ns, critical, policy) is Ok,
        policy != AddPolicy::Delete,
        forall|i: int| 0 <= i < s.len() ==> !selects(SelectorModel::Nid(nid), #[trigger] s[i]),
    ensures
        decode_single(add_result(s, nid, ns, critical, policy).unwrap().0, nid)
            == DecodeOutcome::Found(ns, critical),
{
    let sel = SelectorModel::Nid(nid);
    lemma_next_match_is_next(s, sel, 0);
    lemma_next_match_unique(s, sel, 0, None, next_match(s, sel, 0));
    lemma_encoded_record_selected(nid, ns, critical);
    let rec = encoded_record(nid, ns, critical);
    let t = s.push(rec);
    assert(add_result(s, nid, ns, critical, policy).unwrap().0 == t);
    let n = s.len() as usize;
    assert(is_next_match(t, sel, 0, Some(n))) by {
        assert forall|i: int| 0 <= i < n implies !selects(sel, #[trigger] t[i]) by {
            assert(t[i] == s[i]);
        }
    }
    lemma_next_match_is_next(t, sel, 0);
    lemma_next_match_unique(t, sel, 0, Some(n), next_match(t, sel, 0));
    lemma_next_match_is_next(t, sel, n + 1);
    lemma_next_match_unique(t, sel, n + 1, None, next_match(t, sel, n + 1));
}

/// Deleting a record takes exactly one record out; where it was the only
/// record with its NID, decoding that NID afterwards finds nothing, from any
/// cursor.
pub proof fn lemma_delete_removes(s: Seq<ExtensionModel>, p: int, last: Option<usize>)
    requires
        s.len() <= usize::MAX,
        0 <= p < s.len(),
        record_nid(s[p]) != NID_UNDEF,
        forall|i: int|
            0 <= i < s.len() && i != p ==> record_nid(#[trigger] s[i]) != record_nid(s[p]),
    ensures
        s.remove(p).len() == s.len() - 1,
        decode_single(s.remove(p), record_nid(s[p])) == DecodeOutcome::Absent,
        decode_after(s.remove(p), record_nid(s[p]), last) == DecodeOutcome::Absent,
{
    let t = s.remove(p);
    let nid = record_nid(s[p]);
    assert forall|i: int| 0 <= i < t.len() implies !selects(SelectorModel::Nid(nid), #[trigger] t[i]) by {
        if i < p {
            assert(t[i] == s[i]);
        } else {
            assert(t[i] == s[i + 1]);
        }
    }
    lemma_absent_iff_no_record(t, nid);
    lemma_absent_after_iff_no_record(t, nid, last);
}

} // verus!
