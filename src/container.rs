//! The kinds of container that hold extensions, and the access they give.
//! Certificates and revocation lists give read access only; the builder and a
//! bare [`Extensions`] sequence can also be changed.
use vstd::prelude::*;

use crate::extension::{
    add_result, decode_single, outcome_of, AddPolicy, Decoded, ExtError, ExtensionModel,
    Extensions, X509Extension,
};
use crate::general_name::{names_view, GeneralName};
use crate::nid::{NID_ISSUER_ALT_NAME, NID_SUBJECT_ALT_NAME};

verus! {

/// Ties one NID to the shape its payload decodes to. Both markers here
/// decode to a list of general names.
pub trait ExtensionMark {
    spec fn spec_nid() -> i32;

    fn nid() -> (r: i32)
        ensures
            r == Self::spec_nid(),
    ;
}

/// Marker for the subject alternative name extension.
pub struct ExtSubjectAltName;

/// Marker for the issuer alternative name extension.
pub struct ExtIssuerAltName;

impl ExtensionMark for ExtSubjectAltName {
    open spec fn spec_nid() -> i32 {
        NID_SUBJECT_ALT_NAME
    }

    fn nid() -> (r: i32) {
        NID_SUBJECT_ALT_NAME
    }
}

impl ExtensionMark for ExtIssuerAltName {
    open spec fn spec_nid() -> i32 {
        NID_ISSUER_ALT_NAME
    }

    fn nid() -> (r: i32) {
        NID_ISSUER_ALT_NAME
    }
}

/// Containers that hold a sequence of extensions and decode them.
pub trait DecodeExtension {
    spec fn extension_records(&self) -> Seq<ExtensionModel>;

    fn extensions(&self) -> (r: &Extensions)
        ensures
            r@ == self.extension_records(),
    ;

    /// Decodes the one record with NID `nid`.
    fn decode_extension(&self, nid: i32) -> (r: Decoded)
        ensures
            outcome_of(r) == decode_single(self.extension_records(), nid),
    {
        self.extensions().decode_extension(nid)
    }

    /// Decodes the one record of the extension that `M` marks.
    fn decode_extension_to<M: ExtensionMark>(&self) -> (r: Decoded)
        ensures
            outcome_of(r) == decode_single(self.extension_records(), M::spec_nid()),
    {
        self.extensions().decode_extension(M::nid())
    }
}

/// Typed access to the alternative names of any container.
pub trait X509ExtensionContainer: DecodeExtension {
    /// The subject alternative name entries, if there is one such extension.
    fn subject_alt_names(&self) -> (r: Decoded)
        ensures
            outcome_of(r) == decode_single(self.extension_records(), NID_SUBJECT_ALT_NAME),
    {
        self.decode_extension_to::<ExtSubjectAltName>()
    }

    /// The issuer alternative name entries, if there is one such extension.
    fn issuer_alt_names(&self) -> (r: Decoded)
        ensures
            outcome_of(r) == decode_single(self.extension_records(), NID_ISSUER_ALT_NAME),
    {
        self.decode_extension_to::<ExtIssuerAltName>()
    }
}

impl DecodeExtension for Extensions {
    open spec fn extension_records(&self) -> Seq<ExtensionModel> {
        self@
    }

    fn extensions(&self) -> (r: &Extensions) {
        self
    }
}

impl X509ExtensionContainer for Extensions {}

/// A certificate: its extensions can be read, not changed.
pub struct X509 {
    exts: Extensions,
}

impl View for X509 {
    type V = Seq<ExtensionModel>;

    closed spec fn view(&self) -> Seq<ExtensionModel> {
        self.exts@
    }
}

impl DecodeExtension for X509 {
    open spec fn extension_records(&self) -> Seq<ExtensionModel> {
        self@
    }

    fn extensions(&self) -> (r: &Extensions) {
        &self.exts
    }
}

impl X509ExtensionContainer for X509 {}

/// A certificate revocation list: its extensions can be read, not changed.
pub struct X509Crl {
    exts: Extensions,
}

impl View for X509Crl {
    type V = Seq<ExtensionModel>;

    closed spec fn view(&self) -> Seq<ExtensionModel> {
        self.exts@
    }
}

impl X509Crl {
    /// A revocation list with these extensions.
    pub fn new(exts: Extensions) -> (r: X509Crl)
        ensures
            r@ == exts@,
    {
        X509Crl { exts }
    }
}

impl DecodeExtension for X509Crl {
    open spec fn extension_records(&self) -> Seq<ExtensionModel> {
        self@
    }

    fn extensions(&self) -> (r: &Extensions) {
        &self.exts
    }
}

impl X509ExtensionContainer for X509Crl {}

/// A certificate under construction: its extensions can be read and changed.
pub struct X509Builder {
    exts: Extensions,
}

impl View for X509Builder {
    type V = Seq<ExtensionModel>;

    closed spec fn view(&self) -> Seq<ExtensionModel> {
        self.exts@
    }
}

impl X509Builder {
    /// A builder with no extensions.
    pub fn new() -> (r: X509Builder)
        ensures
            r@ == Seq::<ExtensionModel>::empty(),
    {
        X509Builder { exts: Extensions::new() }
    }

    /// Removes the record at `pos` and hands it over.
    pub fn delete_at(&mut self, pos: usize) -> (r: Result<X509Extension, ExtError>)
        ensures
            pos < old(self)@.len() ==> r is Ok && r.unwrap()@ == old(self)@[pos as int]
                && final(self)@ == old(self)@.remove(pos as int),
            pos >= old(self)@.len() ==> r == Err::<X509Extension, ExtError>(ExtError::OutOfBounds)
                && final(self)@ == old(self)@,
    {
        self.exts.delete_at(pos)
    }

    /// Inserts a record at `pos`, or appends it where `pos` is `None`.
    pub fn insert(&mut self, ext: X509Extension, pos: Option<usize>) -> (r: Result<usize, ExtError>)
        ensures
            match pos {
                None => old(self)@.len() < usize::MAX ==> r == Ok::<usize, ExtError>(
                    old(self)@.len() as usize,
                ) && final(self)@ == old(self)@.push(ext@),
                Some(p) => p <= old(self)@.len() ==> r == Ok::<usize, ExtError>(p) && final(self)@
                    == old(self)@.insert(p as int, ext@),
            },
            r is Err ==> final(self)@ == old(self)@,
            pos is Some && pos.unwrap() > old(self)@.len() ==> r == Err::<usize, ExtError>(
                ExtError::OutOfBounds,
            ),
    {
        self.exts.insert(ext, pos)
    }

    /// Encodes `names` as extension `nid` and adds it as `policy` says.
    pub fn add_encoded(
        &mut self,
        nid: i32,
        names: &Vec<GeneralName>,
        critical: bool,
        policy: AddPolicy,
    ) -> (r: Result<usize, ExtError>)
        ensures
            match add_result(old(self)@, nid, names_view(names@), critical, policy) {
                Ok((s, p)) => r == Ok::<usize, ExtError>(p) && final(self)@ == s,
                Err(e) => r == Err::<usize, ExtError>(e) && final(self)@ == old(self)@,
            },
    {
        self.exts.add_encoded(nid, names, critical, policy)
    }

    /// The certificate, with the extensions added so far.
    pub fn build(self) -> (r: X509)
        ensures
            r@ == self@,
    {
        X509 { exts: self.exts }
    }
}

impl DecodeExtension for X509Builder {
    open spec fn extension_records(&self) -> Seq<ExtensionModel> {
        self@
    }

    fn extensions(&self) -> (r: &Extensions) {
        &self.exts
    }
}

impl X509ExtensionContainer for X509Builder {}

} // verus!
