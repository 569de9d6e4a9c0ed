//! The registry of extension identifiers: each registered NID and the object
//! identifier (content octets of the DER `OBJECT IDENTIFIER`) it stands for.
use vstd::prelude::*;

verus! {

/// The identifier of no registered object.
pub const NID_UNDEF: i32 = 0;
/// `subjectKeyIdentifier`, 2.5.29.14.
pub const NID_SUBJECT_KEY_IDENTIFIER: i32 = 82;
/// `keyUsage`, 2.5.29.15.
pub const NID_KEY_USAGE: i32 = 83;
/// `subjectAltName`, 2.5.29.17.
pub const NID_SUBJECT_ALT_NAME: i32 = 85;
/// `issuerAltName`, 2.5.29.18.
pub const NID_ISSUER_ALT_NAME: i32 = 86;
/// `basicConstraints`, 2.5.29.19.
pub const NID_BASIC_CONSTRAINTS: i32 = 87;
/// `cRLNumber`, 2.5.29.20.
pub const NID_CRL_NUMBER: i32 = 88;
/// `authorityKeyIdentifier`, 2.5.29.35.
pub const NID_AUTHORITY_KEY_IDENTIFIER: i32 = 90;
/// `extKeyUsage`, 2.5.29.37.
pub const NID_EXT_KEY_USAGE: i32 = 126;
/// `authorityInfoAccess`, 1.3.6.1.5.5.7.1.1.
pub const NID_INFO_ACCESS: i32 = 177;

/// Last arc of the object identifiers under 2.5.29 (`id-ce`), by NID.
pub open spec fn id_ce_arc(nid: i32) -> Option<u8> {
    if nid == NID_SUBJECT_KEY_IDENTIFIER {
        Some(14u8)
    } else if nid == NID_KEY_USAGE {
        Some(15u8)
    } else if nid == NID_SUBJECT_ALT_NAME {
        Some(17u8)
    } else if nid == NID_ISSUER_ALT_NAME {
        Some(18u8)
    } else if nid == NID_BASIC_CONSTRAINTS {
        Some(19u8)
    } else if nid == NID_CRL_NUMBER {
        Some(20u8)
    } else if nid == NID_AUTHORITY_KEY_IDENTIFIER {
        Some(35u8)
    } else if nid == NID_EXT_KEY_USAGE {
        Some(37u8)
    } else {
        None
    }
}

/// Content octets of 1.3.6.1.5.5.7.1.1.
pub open spec fn info_access_oid() -> Seq<u8> {
    seq![0x2Bu8, 0x06, 0x01, 0x05, 0x05, 0x07, 0x01, 0x01]
}

/// The object identifier registered for `nid`, if any.
pub open spec fn oid_of_nid(nid: i32) -> Option<Seq<u8>> {
    if nid == NID_INFO_ACCESS {
        Some(info_access_oid())
    } else {
        match id_ce_arc(nid) {
            Some(arc) => Some(seq![0x55u8, 0x1D, arc]),
            None => None,
        }
    }
}

/// The NID registered for an object identifier; `NID_UNDEF` if there is none.
pub open spec fn nid_of_oid(oid: Seq<u8>) -> i32 {
    if exists|n: i32| n != NID_UNDEF && oid_of_nid(n) == Some(oid) {
        choose|n: i32| n != NID_UNDEF && oid_of_nid(n) == Some(oid)
    } else {
        NID_UNDEF
    }
}

/// Distinct NIDs have distinct object identifiers.
pub proof fn lemma_registry_injective(a: i32, b: i32)
    requires
        oid_of_nid(a) is Some,
        oid_of_nid(a) == oid_of_nid(b),
    ensures
        a == b,
{
    if a == NID_INFO_ACCESS || b == NID_INFO_ACCESS {
        if a != b {
            assert(oid_of_nid(a).unwrap().len() != oid_of_nid(b).unwrap().len());
        }
    } else {
        assert(oid_of_nid(a).unwrap()[2] == oid_of_nid(b).unwrap()[2]);
    }
}

/// The registry read both ways agrees.
pub proof fn lemma_nid_of_registered_oid(nid: i32)
    requires
        oid_of_nid(nid) is Some,
    ensures
        nid_of_oid(oid_of_nid(nid).unwrap()) == nid,
        nid != NID_UNDEF,
{
    let oid = oid_of_nid(nid).unwrap();
    assert(nid != NID_UNDEF && oid_of_nid(nid) == Some(oid));
    let n = nid_of_oid(oid);
    lemma_registry_injective(nid, n);
}

/// The object identifier of a registered NID.
pub fn oid_of(nid: i32) -> (r: Option<Vec<u8>>)
    ensures
        match oid_of_nid(nid) {
            Some(o) => r is Some && r.unwrap()@ == o,
            None => r is None,
        },
{
    let arc: u8 = if nid == NID_INFO_ACCESS {
        let v: Vec<u8> = vec![0x2Bu8, 0x06, 0x01, 0x05, 0x05, 0x07, 0x01, 0x01];
        assert(v@ =~= info_access_oid());
        return Some(v);
    } else if nid == NID_SUBJECT_KEY_IDENTIFIER {
        14
    } else if nid == NID_KEY_USAGE {
        15
    } else if nid == NID_SUBJECT_ALT_NAME {
        17
    } else if nid == NID_ISSUER_ALT_NAME {
        18
    } else if nid == NID_BASIC_CONSTRAINTS {
        19
    } else if nid == NID_CRL_NUMBER {
        20
    } else if nid == NID_AUTHORITY_KEY_IDENTIFIER {
        35
    } else if nid == NID_EXT_KEY_USAGE {
        37
    } else {
        return None;
    };
    let v: Vec<u8> = vec![0x55u8, 0x1D, arc];
    assert(v@ =~= seq![0x55u8, 0x1D, arc]);
    Some(v)
}

/// The NID registered for an object identifier; `NID_UNDEF` if there is none.
pub fn nid_of(oid: &Vec<u8>) -> (r: i32)
    ensures
        r == nid_of_oid(oid@),
{
    let n: i32 = if oid.len() == 3 && oid[0] == 0x55 && oid[1] == 0x1D {
        let arc = oid[2];
        assert(oid@ =~= seq![0x55u8, 0x1D, arc]);
        if arc == 14 {
            NID_SUBJECT_KEY_IDENTIFIER
        } else if arc == 15 {
            NID_KEY_USAGE
        } else if arc == 17 {
            NID_SUBJECT_ALT_NAME
        } else if arc == 18 {
            NID_ISSUER_ALT_NAME
        } else if arc == 19 {
            NID_BASIC_CONSTRAINTS
        } else if arc == 20 {
            NID_CRL_NUMBER
        } else if arc == 35 {
            NID_AUTHORITY_KEY_IDENTIFIER
        } else if arc == 37 {
            NID_EXT_KEY_USAGE
        } else {
            NID_UNDEF
        }
    } else if oid.len() == 8 && oid[0] == 0x2B && oid[1] == 0x06 && oid[2] == 0x01 && oid[3]
        == 0x05 && oid[4] == 0x05 && oid[5] == 0x07 && oid[6] == 0x01 && oid[7] == 0x01 {
        assert(oid@ =~= info_access_oid());
        NID_INFO_ACCESS
    } else {
        NID_UNDEF
    };
    proof {
        if n != NID_UNDEF {
            lemma_nid_of_registered_oid(n);
        } else if exists|m: i32| m != NID_UNDEF && oid_of_nid(m) == Some(oid@) {
            let m = choose|m: i32| m != NID_UNDEF && oid_of_nid(m) == Some(oid@);
            let o = oid_of_nid(m).unwrap();
            if m == NID_INFO_ACCESS {
                assert(oid@[7] == o[7]);
            } else {
                assert(oid@[2] == o[2]);
            }
        }
    }
    n
}

} // verus!
