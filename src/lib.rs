//! Typed access to the X.509 extensions of certificates, certificate builders
//! and revocation lists: lookup of records by NID, object identifier or
//! critical flag, resumable from a cursor; decoding of alternative-name
//! payloads that tells an absent extension from a malformed one; and the
//! changes a builder may make.
use vstd::prelude::*;

pub mod container;
pub mod extension;
pub mod general_name;
pub mod iter;
pub mod lemmas;
pub mod nid;

pub use container::{
    DecodeExtension, ExtIssuerAltName, ExtSubjectAltName, ExtensionMark, X509Builder, X509Crl,
    X509ExtensionContainer, X509,
};
pub use extension::{
    AddPolicy, DecodeFailure, Decoded, ExtError, Extensions, Selector, X509Extension,
};
pub use general_name::GeneralName;
pub use iter::{ExtensionsIter, IterState};

verus! {

} // verus!
