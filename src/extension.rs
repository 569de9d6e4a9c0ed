//! Extension records and the sequence of them that a certificate, a
//! certificate builder or a revocation list holds: lookup by NID, by object
//! identifier and by critical flag, resumable from a cursor, and access by
//! position.
use vstd::prelude::*;

use crate::general_name::{
    can_encode, decode_general_names, decode_names, encode_general_names, encode_names,
    names_encodable, names_view, GeneralName, GeneralNameModel,
};
use crate::nid::{
    nid_of, nid_of_oid, oid_of, oid_of_nid, NID_ISSUER_ALT_NAME, NID_SUBJECT_ALT_NAME, NID_UNDEF,
};

verus! {

/// One extension: its object identifier (content octets), its critical flag
/// and its undecoded DER payload.
pub struct X509Extension {
    pub oid: Vec<u8>,
    pub critical: bool,
    pub value: Vec<u8>,
}

/// Mathematical model of an [`X509Extension`].
pub struct ExtensionModel {
    pub oid: Seq<u8>,
    pub critical: bool,
    pub value: Seq<u8>,
}

impl View for X509Extension {
    type V = ExtensionModel;

    open spec fn view(&self) -> ExtensionModel {
        ExtensionModel { oid: self.oid@, critical: self.critical, value: self.value@ }
    }
}

/// The NID of a record: the one registered for its object identifier.
pub open spec fn record_nid(e: ExtensionModel) -> i32 {
    nid_of_oid(e.oid)
}

impl X509Extension {
    /// A record for an arbitrary object identifier.
    pub fn new(oid: Vec<u8>, critical: bool, value: Vec<u8>) -> (r: X509Extension)
        ensures
            r@ == (ExtensionModel { oid: oid@, critical, value: value@ }),
    {
        X509Extension { oid, critical, value }
    }

    /// A record for a registered NID; `None` if `nid` is not registered.
    pub fn from_nid(nid: i32, critical: bool, value: Vec<u8>) -> (r: Option<X509Extension>)
        ensures
            match oid_of_nid(nid) {
                Some(o) => r is Some && r.unwrap()@ == (ExtensionModel {
                    oid: o,
                    critical,
                    value: value@,
                }),
                None => r is None,
            },
    {
        match oid_of(nid) {
            Some(oid) => Some(X509Extension { oid, critical, value }),
            None => None,
        }
    }

    /// The NID registered for this record's object identifier, `NID_UNDEF`
    /// if none is.
    pub fn nid(&self) -> (r: i32)
        ensures
            r == record_nid(self@),
    {
        nid_of(&self.oid)
    }
}

/// What a search selects records by.
pub enum Selector {
    /// Records whose registered NID is this one.
    Nid(i32),
    /// Records with exactly this object identifier.
    Object(Vec<u8>),
    /// Records whose critical flag is this one.
    Critical(bool),
    /// Every record.
    Any,
}

pub enum SelectorModel {
    Nid(i32),
    Object(Seq<u8>),
    Critical(bool),
    Any,
}

impl View for Selector {
    type V = SelectorModel;

    open spec fn view(&self) -> SelectorModel {
        match self {
            Selector::Nid(n) => SelectorModel::Nid(*n),
            Selector::Object(o) => SelectorModel::Object(o@),
            Selector::Critical(c) => SelectorModel::Critical(*c),
            Selector::Any => SelectorModel::Any,
        }
    }
}

/// Whether a search by `sel` selects record `e`. No record has `NID_UNDEF`
/// as its identifier.
pub open spec fn selects(sel: SelectorModel, e: ExtensionModel) -> bool {
    match sel {
        SelectorModel::Nid(n) => n != NID_UNDEF && record_nid(e) == n,
        SelectorModel::Object(o) => e.oid == o,
        SelectorModel::Critical(c) => e.critical == c,
        SelectorModel::Any => true,
    }
}

/// Where a search resumes: just after the cursor, or at the start.
pub open spec fn search_start(last: Option<usize>) -> int {
    match last {
        Some(p) => p + 1,
        None => 0,
    }
}

/// `r` is the first position at or after `from` that `sel` selects, and
/// `None` exactly when there is none.
pub open spec fn is_next_match(
    s: Seq<ExtensionModel>,
    sel: SelectorModel,
    from: int,
    r: Option<usize>,
) -> bool {
    match r {
        Some(p) => {
            &&& from <= p < s.len()
            &&& selects(sel, s[p as int])
            &&& forall|i: int| from <= i < p ==> !selects(sel, #[trigger] s[i])
        },
        None => forall|i: int| from <= i < s.len() ==> !selects(sel, #[trigger] s[i]),
    }
}

/// The first position at or after `from` that `sel` selects.
pub open spec fn next_match(s: Seq<ExtensionModel>, sel: SelectorModel, from: int) -> Option<
    usize,
>
    decreases s.len() - from,
{
    if from < 0 || from >= s.len() {
        None
    } else if selects(sel, s[from]) {
        Some(from as usize)
    } else {
        next_match(s, sel, from + 1)
    }
}

pub proof fn lemma_next_match_is_next(s: Seq<ExtensionModel>, sel: SelectorModel, from: int)
    requires
        0 <= from,
        s.len() <= usize::MAX,
    ensures
        is_next_match(s, sel, from, next_match(s, sel, from)),
    decreases s.len() - from,
{
    if from < s.len() && !selects(sel, s[from]) {
        lemma_next_match_is_next(s, sel, from + 1);
    }
}

/// A search has one answer: two results that both meet its description are
/// equal, so repeating a lookup on an unchanged sequence gives the same
/// position.
pub proof fn lemma_next_match_unique(
    s: Seq<ExtensionModel>,
    sel: SelectorModel,
    from: int,
    r1: Option<usize>,
    r2: Option<usize>,
)
    requires
        is_next_match(s, sel, from, r1),
        is_next_match(s, sel, from, r2),
    ensures
        r1 == r2,
{
    match (r1, r2) {
        (Some(p), Some(q)) => {
            if p < q {
                assert(!selects(sel, s[p as int]));
            } else if q < p {
                assert(!selects(sel, s[q as int]));
            }
        },
        (Some(p), None) => {
            assert(!selects(sel, s[p as int]));
        },
        (None, Some(q)) => {
            assert(!selects(sel, s[q as int]));
        },
        (None, None) => {},
    }
}

/// The errors of extension access.
#[derive(PartialEq, Eq, Structural, Debug, Clone, Copy)]
pub enum ExtError {
    /// A record was found at `position` and its payload did not decode.
    DecodeFailed { position: usize, reason: DecodeFailure },
    /// A position past the end of the sequence.
    OutOfBounds,
    /// A single occurrence was asked for and there are several.
    MultipleOccurrences,
    /// An insertion or addition that the adding policy or the encoder refused.
    MutationRejected,
}

/// Why a payload did not decode.
#[derive(PartialEq, Eq, Structural, Debug, Clone, Copy)]
pub enum DecodeFailure {
    /// The payload is not valid DER for the shape of the extension.
    Malformed,
    /// No decoder is known for the extension's NID.
    Unsupported,
}

/// What a decode call returns: the decoded names and the critical flag of the
/// record, `None` where no record matched, or the error.
pub type Decoded = Result<Option<(Vec<GeneralName>, bool)>, ExtError>;

/// Model of a [`Decoded`] result.
pub enum DecodeOutcome {
    Absent,
    Found(Seq<GeneralNameModel>, bool),
    Failed(ExtError),
}

pub open spec fn outcome_of(r: Decoded) -> DecodeOutcome {
    match r {
        Ok(Some((v, c))) => DecodeOutcome::Found(names_view(v@), c),
        Ok(None) => DecodeOutcome::Absent,
        Err(e) => DecodeOutcome::Failed(e),
    }
}

/// NIDs whose payload is a `GeneralNames` value.
pub open spec fn has_name_payload(nid: i32) -> bool {
    nid == NID_SUBJECT_ALT_NAME || nid == NID_ISSUER_ALT_NAME
}

/// Decoding the payload of record `e`, found at `pos`, as extension `nid`.
pub open spec fn decode_record(e: ExtensionModel, nid: i32, pos: usize) -> DecodeOutcome {
    if has_name_payload(nid) {
        match decode_general_names(e.value) {
            Some(ns) => DecodeOutcome::Found(ns, e.critical),
            None => DecodeOutcome::Failed(
                ExtError::DecodeFailed { position: pos, reason: DecodeFailure::Malformed },
            ),
        }
    } else {
        DecodeOutcome::Failed(
            ExtError::DecodeFailed { position: pos, reason: DecodeFailure::Unsupported },
        )
    }
}

/// Decoding the one record with NID `nid`: absent where there is none, an
/// error where there are several.
pub open spec fn decode_single(s: Seq<ExtensionModel>, nid: i32) -> DecodeOutcome {
    match next_match(s, SelectorModel::Nid(nid), 0) {
        None => DecodeOutcome::Absent,
        Some(p) => match next_match(s, SelectorModel::Nid(nid), p + 1) {
            Some(_) => DecodeOutcome::Failed(ExtError::MultipleOccurrences),
            None => decode_record(s[p as int], nid, p),
        },
    }
}

/// Decoding the first record with NID `nid` after the cursor `last`.
pub open spec fn decode_after(s: Seq<ExtensionModel>, nid: i32, last: Option<usize>) -> DecodeOutcome {
    match next_match(s, SelectorModel::Nid(nid), search_start(last)) {
        None => DecodeOutcome::Absent,
        Some(p) => decode_record(s[p as int], nid, p),
    }
}

/// How `add_encoded` treats a record that already has the NID.
#[derive(PartialEq, Eq, Structural, Debug, Clone, Copy)]
pub enum AddPolicy {
    /// Append; refuse where one exists.
    RejectExisting,
    /// Append whether or not one exists.
    Append,
    /// Replace the first existing one, or append where none exists.
    Replace,
    /// Replace the first existing one; refuse where none exists.
    ReplaceExisting,
    /// Leave the first existing one as it is, or append where none exists.
    KeepExisting,
    /// Delete the first existing one; refuse where none exists.
    Delete,
}

/// The record that `add_encoded` writes.
pub open spec fn encoded_record(nid: i32, ns: Seq<GeneralNameModel>, critical: bool) -> ExtensionModel {
    ExtensionModel { oid: oid_of_nid(nid).unwrap(), critical, value: encode_general_names(ns) }
}

/// What `add_encoded` makes of `s`: the new sequence and the position of the
/// record concerned, or the error.
pub open spec fn add_result(
    s: Seq<ExtensionModel>,
    nid: i32,
    ns: Seq<GeneralNameModel>,
    critical: bool,
    policy: AddPolicy,
) -> Result<(Seq<ExtensionModel>, usize), ExtError> {
    let first = if policy == AddPolicy::Append {
        None
    } else {
        next_match(s, SelectorModel::Nid(nid), 0)
    };
    let encodable = has_name_payload(nid) && names_encodable(ns);
    let rec = encoded_record(nid, ns, critical);
    match first {
        Some(p) => match policy {
            AddPolicy::KeepExisting => Ok((s, p)),
            AddPolicy::Delete => Ok((s.remove(p as int), p)),
            AddPolicy::RejectExisting => Err(ExtError::MutationRejected),
            _ => if encodable {
                Ok((s.update(p as int, rec), p))
            } else {
                Err(ExtError::MutationRejected)
            },
        },
        None => match policy {
            AddPolicy::ReplaceExisting | AddPolicy::Delete => Err(ExtError::MutationRejected),
            _ => if encodable && s.len() < usize::MAX {
                Ok((s.push(rec), s.len() as usize))
            } else {
                Err(ExtError::MutationRejected)
            },
        },
    }
}

/// A sequence of extension records, in insertion order.
pub struct Extensions {
    pub items: Vec<X509Extension>,
}

impl View for Extensions {
    type V = Seq<ExtensionModel>;

    open spec fn view(&self) -> Seq<ExtensionModel> {
        self.items@.map_values(|e: X509Extension| e@)
    }
}

impl Extensions {
    /// An empty sequence.
    pub fn new() -> (r: Extensions)
        ensures
            r@ == Seq::<ExtensionModel>::empty(),
    {
        let r = Extensions { items: Vec::new() };
        assert(r@ =~= Seq::<ExtensionModel>::empty());
        r
    }

    /// The number of records.
    pub fn count(&self) -> (r: usize)
        ensures
            r == self@.len(),
    {
        self.items.len()
    }

    /// The first record after `last` (from the start where `last` is `None`)
    /// that `sel` selects.
    pub fn find_next(&self, sel: &Selector, last: Option<usize>) -> (r: Option<usize>)
        ensures
            is_next_match(self@, sel@, search_start(last), r),
            r == next_match(self@, sel@, search_start(last)),
    {
        let ghost s = self@;
        let len = self.items.len();
        assert(s.len() == len);
        let mut i: usize = match last {
            Some(p) => {
                if p >= self.items.len() {
                    proof {
                        lemma_next_match_is_next(s, sel@, search_start(last));
                    }
                    return None;
                }
                p + 1
            },
            None => 0,
        };
        proof {
            lemma_next_match_is_next(s, sel@, search_start(last));
        }
        while i < self.items.len()
            invariant
                search_start(last) <= i <= self.items@.len(),
                s == self@,
                s.len() == self.items@.len(),
                forall|j: int| search_start(last) <= j < i ==> !selects(sel@, #[trigger] s[j]),
                is_next_match(s, sel@, search_start(last), next_match(
                    s,
                    sel@,
                    search_start(last),
                )),
            decreases self.items@.len() - i,
        {
            let e = &self.items[i];
            assert(s[i as int] == e@);
            let hit = match sel {
                Selector::Nid(n) => *n != NID_UNDEF && e.nid() == *n,
                Selector::Object(o) => bytes_equal(&e.oid, o),
                Selector::Critical(c) => e.critical == *c,
                Selector::Any => true,
            };
            if hit {
                proof {
                    lemma_next_match_unique(
                        s,
                        sel@,
                        search_start(last),
                        Some(i),
                        next_match(s, sel@, search_start(last)),
                    );
                }
                return Some(i);
            }
            i = i + 1;
        }
        proof {
            lemma_next_match_unique(
                s,
                sel@,
                search_start(last),
                None,
                next_match(s, sel@, search_start(last)),
            );
        }
        None
    }

    /// The next record with registered NID `nid` after `last`.
    pub fn find_by_nid(&self, nid: i32, last: Option<usize>) -> (r: Option<usize>)
        ensures
            is_next_match(self@, SelectorModel::Nid(nid), search_start(last), r),
    {
        self.find_next(&Selector::Nid(nid), last)
    }

    /// The next record with object identifier `oid` after `last`; this finds
    /// records whose identifier has no registered NID too.
    pub fn find_by_object(&self, oid: &Vec<u8>, last: Option<usize>) -> (r: Option<usize>)
        ensures
            is_next_match(self@, SelectorModel::Object(oid@), search_start(last), r),
    {
        let sel = Selector::Object(copy_bytes(oid));
        self.find_next(&sel, last)
    }

    /// The next record whose critical flag is `critical` after `last`.
    pub fn find_by_critical(&self, critical: bool, last: Option<usize>) -> (r: Option<usize>)
        ensures
            is_next_match(self@, SelectorModel::Critical(critical), search_start(last), r),
    {
        self.find_next(&Selector::Critical(critical), last)
    }

    /// Decodes the record at `pos` as the extension its own NID names.
    pub fn decode_at(&self, pos: usize) -> (r: Decoded)
        ensures
            pos < self@.len() ==> outcome_of(r) == decode_record(
                self@[pos as int],
                record_nid(self@[pos as int]),
                pos,
            ),
            pos >= self@.len() ==> r == Err::<Option<(Vec<GeneralName>, bool)>, ExtError>(
                ExtError::OutOfBounds,
            ),
    {
        if pos < self.items.len() {
            let nid = self.items[pos].nid();
            self.decode_as(nid, pos)
        } else {
            Err(ExtError::OutOfBounds)
        }
    }

    fn decode_as(&self, nid: i32, pos: usize) -> (r: Decoded)
        requires
            pos < self@.len(),
        ensures
            outcome_of(r) == decode_record(self@[pos as int], nid, pos),
    {
        let e = &self.items[pos];
        assert(self@[pos as int] == e@);
        if nid == NID_SUBJECT_ALT_NAME || nid == NID_ISSUER_ALT_NAME {
            match decode_names(&e.value) {
                Some(ns) => Ok(Some((ns, e.critical))),
                None => Err(ExtError::DecodeFailed { position: pos, reason: DecodeFailure::Malformed }),
            }
        } else {
            Err(ExtError::DecodeFailed { position: pos, reason: DecodeFailure::Unsupported })
        }
    }

    /// Decodes the one record with NID `nid`. `Ok(None)` where there is none;
    /// `MultipleOccurrences` where there are several.
    pub fn decode_extension(&self, nid: i32) -> (r: Decoded)
        ensures
            outcome_of(r) == decode_single(self@, nid),
    {
        let sel = Selector::Nid(nid);
        match self.find_next(&sel, None) {
            None => Ok(None),
            Some(p) => match self.find_next(&sel, Some(p)) {
                Some(_) => Err(ExtError::MultipleOccurrences),
                None => self.decode_as(nid, p),
            },
        }
    }

    /// Decodes the first record with NID `nid` after `*cursor` (from the
    /// start where it is `None`). The cursor moves to the record found, also
    /// where its payload does not decode, and back to `None` where none is
    /// left.
    pub fn decode_extension_next(&self, nid: i32, cursor: &mut Option<usize>) -> (r: Decoded)
        ensures
            outcome_of(r) == decode_after(self@, nid, *old(cursor)),
            *final(cursor) == next_match(self@, SelectorModel::Nid(nid), search_start(*old(cursor))),
            is_next_match(self@, SelectorModel::Nid(nid), search_start(*old(cursor)), *final(cursor)),
    {
        let found = self.find_next(&Selector::Nid(nid), *cursor);
        *cursor = found;
        match found {
            None => Ok(None),
            Some(p) => self.decode_as(nid, p),
        }
    }

    /// Removes the record at `pos` and hands it over.
    pub fn delete_at(&mut self, pos: usize) -> (r: Result<X509Extension, ExtError>)
        ensures
            pos < old(self)@.len() ==> r is Ok && r.unwrap()@ == old(self)@[pos as int]
                && final(self)@ == old(self)@.remove(pos as int),
            pos >= old(self)@.len() ==> r == Err::<X509Extension, ExtError>(ExtError::OutOfBounds)
                && final(self)@ == old(self)@,
    {
        if pos < self.items.len() {
            let e = self.items.remove(pos);
            assert(final(self)@ =~= old(self)@.remove(pos as int));
            Ok(e)
        } else {
            Err(ExtError::OutOfBounds)
        }
    }

    /// Inserts a record at `pos`, shifting the records from there on; appends
    /// where `pos` is `None`. Returns where the record went.
    pub fn insert(&mut self, ext: X509Extension, pos: Option<usize>) -> (r: Result<usize, ExtError>)
        ensures
            match pos {
                None => old(self)@.len() < usize::MAX ==> r == Ok::<usize, ExtError>(
                    old(self)@.len() as usize,
                ) && final(self)@ == old(self)@.push(ext@),
                Some(p) => p <= old(self)@.len() ==> r == Ok::<usize, ExtError>(p) && final(self)@
                    == old(self)@.insert(p as int, ext@),
            },
            r is Err ==> final(self)@ == old(self)@,
            pos is Some && pos.unwrap() > old(self)@.len() ==> r == Err::<usize, ExtError>(
                ExtError::OutOfBounds,
            ),
            pos is None && old(self)@.len() == usize::MAX ==> r == Err::<usize, ExtError>(
                ExtError::MutationRejected,
            ),
    {
        let len = self.items.len();
        let p = match pos {
            None => {
                if len == usize::MAX {
                    return Err(ExtError::MutationRejected);
                }
                len
            },
            Some(p) => {
                if p > len {
                    return Err(ExtError::OutOfBounds);
                }
                p
            },
        };
        let ghost v = ext@;
        self.items.insert(p, ext);
        assert(final(self)@ =~= old(self)@.insert(p as int, v));
        assert(p == old(self)@.len() ==> old(self)@.insert(p as int, v) =~= old(self)@.push(v));
        Ok(p)
    }

    /// Encodes `names` as the payload of extension `nid` and adds the record
    /// as `policy` says. Returns the position of the record concerned: the one
    /// written, kept or deleted.
    pub fn add_encoded(
        &mut self,
        nid: i32,
        names: &Vec<GeneralName>,
        critical: bool,
        policy: AddPolicy,
    ) -> (r: Result<usize, ExtError>)
        ensures
            match add_result(old(self)@, nid, names_view(names@), critical, policy) {
                Ok((s, p)) => r == Ok::<usize, ExtError>(p) && final(self)@ == s,
                Err(e) => r == Err::<usize, ExtError>(e) && final(self)@ == old(self)@,
            },
    {
        let ghost ns = names_view(names@);
        let first = if policy == AddPolicy::Append {
            None
        } else {
            self.find_next(&Selector::Nid(nid), None)
        };
        if let Some(p) = first {
            if policy == AddPolicy::KeepExisting {
                return Ok(p);
            } else if policy == AddPolicy::Delete {
                let _removed = self.items.remove(p);
                assert(final(self)@ =~= old(self)@.remove(p as int));
                return Ok(p);
            } else if policy == AddPolicy::RejectExisting {
                return Err(ExtError::MutationRejected);
            }
        } else if policy == AddPolicy::ReplaceExisting || policy == AddPolicy::Delete {
            return Err(ExtError::MutationRejected);
        }
        if !(nid == NID_SUBJECT_ALT_NAME || nid == NID_ISSUER_ALT_NAME) || !can_encode(names) {
            return Err(ExtError::MutationRejected);
        }
        let value = encode_names(names);
        let ext = match X509Extension::from_nid(nid, critical, value) {
            Some(e) => e,
            None => return Err(ExtError::MutationRejected),
        };
        let ghost rec = ext@;
        assert(rec == encoded_record(nid, ns, critical));
        match first {
            Some(p) => {
                let _old = self.items.remove(p);
                self.items.insert(p, ext);
                assert(final(self)@ =~= old(self)@.update(p as int, rec));
                Ok(p)
            },
            None => {
                let len = self.items.len();
                if len == usize::MAX {
                    return Err(ExtError::MutationRejected);
                }
                self.items.push(ext);
                assert(final(self)@ =~= old(self)@.push(rec));
                Ok(len)
            },
        }
    }

    /// The record at `pos`.
    pub fn get(&self, pos: usize) -> (r: Result<&X509Extension, ExtError>)
        ensures
            pos < self@.len() ==> r is Ok && r.unwrap()@ == self@[pos as int],
            pos >= self@.len() ==> r == Err::<&X509Extension, ExtError>(ExtError::OutOfBounds),
    {
        if pos < self.items.len() {
            Ok(&self.items[pos])
        } else {
            Err(ExtError::OutOfBounds)
        }
    }
}

fn bytes_equal(a: &Vec<u8>, b: &Vec<u8>) -> (r: bool)
    ensures
        r == (a@ == b@),
{
    if a.len() != b.len() {
        return false;
    }
    let mut i: usize = 0;
    while i < a.len()
        invariant
            i <= a@.len() == b@.len(),
            forall|j: int| 0 <= j < i ==> a@[j] == b@[j],
        decreases a@.len() - i,
    {
        if a[i] != b[i] {
            return false;
        }
        i = i + 1;
    }
    assert(a@ =~= b@);
    true
}

pub(crate) fn copy_bytes(a: &Vec<u8>) -> (r: Vec<u8>)
    ensures
        r@ == a@,
{
    let mut r: Vec<u8> = Vec::new();
    let mut i: usize = 0;
    while i < a.len()
        invariant
            i <= a@.len(),
            r@ == a@.take(i as int),
        decreases a@.len() - i,
    {
        r.push(a[i]);
        i = i + 1;
        assert(r@ =~= a@.take(i as int));
    }
    assert(a@.take(i as int) =~= a@);
    r
}

} // verus!
