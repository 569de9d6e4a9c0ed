//! DER encoding and decoding of the `GeneralNames` value carried by the
//! subject and issuer alternative name extensions:
//!
//! ```text
//! GeneralNames ::= SEQUENCE OF GeneralName
//! GeneralName  ::= CHOICE { [0] .. [8] }
//! ```
//!
//! Each alternative is kept as its context tag number and its content octets.
//! Alternatives 0, 3, 4 and 5 are constructed; their contents are carried as
//! raw bytes and not interpreted further. Lengths are limited to two length
//! octets (at most 65535 content bytes per element).
use vstd::prelude::*;

verus! {

/// Largest content length that the codec writes or reads.
pub const MAX_CONTENT_LEN: usize = 65535;

/// Identifier octet of the outer `SEQUENCE`.
pub const SEQUENCE_TAG: u8 = 0x30;

/// One alternative name: the context tag number of the `GeneralName` choice
/// and the content octets of that alternative.
pub struct GeneralName {
    pub tag: u8,
    pub value: Vec<u8>,
}

/// Mathematical model of a [`GeneralName`].
pub struct GeneralNameModel {
    pub tag: u8,
    pub value: Seq<u8>,
}

impl View for GeneralName {
    type V = GeneralNameModel;

    open spec fn view(&self) -> GeneralNameModel {
        GeneralNameModel { tag: self.tag, value: self.value@ }
    }
}

pub open spec fn names_view(names: Seq<GeneralName>) -> Seq<GeneralNameModel> {
    names.map_values(|g: GeneralName| g@)
}

/// Tag number of `rfc822Name`.
pub const TAG_EMAIL: u8 = 1;
/// Tag number of `dNSName`.
pub const TAG_DNS: u8 = 2;
/// Tag number of `uniformResourceIdentifier`.
pub const TAG_URI: u8 = 6;
/// Tag number of `iPAddress`.
pub const TAG_IP: u8 = 7;
/// Largest tag number of the choice (`registeredID`).
pub const TAG_MAX: u8 = 8;

impl GeneralName {
    /// A `dNSName` alternative.
    pub fn dns(value: Vec<u8>) -> (r: GeneralName)
        ensures
            r@ == (GeneralNameModel { tag: TAG_DNS, value: value@ }),
    {
        GeneralName { tag: TAG_DNS, value }
    }

    /// An `rfc822Name` alternative.
    pub fn email(value: Vec<u8>) -> (r: GeneralName)
        ensures
            r@ == (GeneralNameModel { tag: TAG_EMAIL, value: value@ }),
    {
        GeneralName { tag: TAG_EMAIL, value }
    }

    /// A `uniformResourceIdentifier` alternative.
    pub fn uri(value: Vec<u8>) -> (r: GeneralName)
        ensures
            r@ == (GeneralNameModel { tag: TAG_URI, value: value@ }),
    {
        GeneralName { tag: TAG_URI, value }
    }

    /// An `iPAddress` alternative (4 or 16 address octets).
    pub fn ip(value: Vec<u8>) -> (r: GeneralName)
        ensures
            r@ == (GeneralNameModel { tag: TAG_IP, value: value@ }),
    {
        GeneralName { tag: TAG_IP, value }
    }
}

/// Alternatives of the choice whose encoding is constructed.
pub open spec fn is_constructed(tag: u8) -> bool {
    tag == 0 || tag == 3 || tag == 4 || tag == 5
}

/// Identifier octet of alternative `tag` (context-specific class).
pub open spec fn identifier(tag: u8) -> u8
    recommends
        tag <= TAG_MAX,
{
    if is_constructed(tag) {
        (0xA0 + tag) as u8
    } else {
        (0x80 + tag) as u8
    }
}

/// The alternative whose identifier octet is `id`, if any.
pub open spec fn tag_of_identifier(id: u8) -> Option<u8> {
    if 0x80 <= id <= 0x88 && !is_constructed((id - 0x80) as u8) {
        Some((id - 0x80) as u8)
    } else if 0xA0 <= id <= 0xA8 && is_constructed((id - 0xA0) as u8) {
        Some((id - 0xA0) as u8)
    } else {
        None
    }
}

/// DER length octets of a content length `n`, in the shortest form.
pub open spec fn encode_length(n: nat) -> Seq<u8>
    recommends
        n <= MAX_CONTENT_LEN,
{
    if n < 128 {
        seq![n as u8]
    } else if n < 256 {
        seq![0x81u8, n as u8]
    } else {
        seq![0x82u8, (n / 256) as u8, (n % 256) as u8]
    }
}

/// Reads length octets from the front of `b`: the length and how many octets
/// it took. Only the shortest form is accepted, as DER demands.
pub open spec fn decode_length(b: Seq<u8>) -> Option<(nat, nat)> {
    if b.len() == 0 {
        None
    } else if b[0] < 128 {
        Some((b[0] as nat, 1))
    } else if b[0] == 0x81 && b.len() >= 2 && b[1] >= 128 {
        Some((b[1] as nat, 2))
    } else if b[0] == 0x82 && b.len() >= 3 && b[1] >= 1 {
        Some((b[1] as nat * 256 + b[2] as nat, 3))
    } else {
        None
    }
}

/// Encoding of one element: identifier, length, contents.
pub open spec fn encode_element(id: u8, content: Seq<u8>) -> Seq<u8> {
    seq![id] + encode_length(content.len()) + content
}

/// Reads one element from the front of `b`: identifier, contents, and the
/// number of octets it took.
pub open spec fn decode_element(b: Seq<u8>) -> Option<(u8, Seq<u8>, nat)> {
    if b.len() == 0 {
        None
    } else {
        match decode_length(b.skip(1)) {
            Some((n, k)) => if 1 + k + n <= b.len() {
                Some((b[0], b.subrange((1 + k) as int, (1 + k + n) as int), 1 + k + n))
            } else {
                None
            },
            None => None,
        }
    }
}

pub open spec fn encode_name(g: GeneralNameModel) -> Seq<u8> {
    encode_element(identifier(g.tag), g.value)
}

pub open spec fn decode_name(b: Seq<u8>) -> Option<(GeneralNameModel, nat)> {
    match decode_element(b) {
        Some((id, content, used)) => match tag_of_identifier(id) {
            Some(tag) => Some((GeneralNameModel { tag, value: content }, used)),
            None => None,
        },
        None => None,
    }
}

/// Concatenated encodings of the names, in order.
pub open spec fn encode_name_list(ns: Seq<GeneralNameModel>) -> Seq<u8>
    decreases ns.len(),
{
    if ns.len() == 0 {
        Seq::empty()
    } else {
        encode_name(ns[0]) + encode_name_list(ns.skip(1))
    }
}

/// Reads names until `b` is used up; `None` if any of it is not a name.
pub open spec fn decode_name_list(b: Seq<u8>) -> Option<Seq<GeneralNameModel>>
    decreases b.len(),
{
    if b.len() == 0 {
        Some(Seq::empty())
    } else {
        match decode_name(b) {
            Some((g, used)) => if 0 < used <= b.len() {
                match decode_name_list(b.skip(used as int)) {
                    Some(rest) => Some(seq![g] + rest),
                    None => None,
                }
            } else {
                None
            },
            None => None,
        }
    }
}

/// DER encoding of `GeneralNames`.
pub open spec fn encode_general_names(ns: Seq<GeneralNameModel>) -> Seq<u8> {
    encode_element(SEQUENCE_TAG, encode_name_list(ns))
}

/// DER decoding of `GeneralNames`: the whole of `b` is one `SEQUENCE` whose
/// contents are a list of names.
pub open spec fn decode_general_names(b: Seq<u8>) -> Option<Seq<GeneralNameModel>> {
    match decode_element(b) {
        Some((id, content, used)) => if id == SEQUENCE_TAG && used == b.len() {
            decode_name_list(content)
        } else {
            None
        },
        None => None,
    }
}

/// A name that the codec can write: a tag of the choice and contents that
/// fit the length limit.
pub open spec fn name_encodable(g: GeneralNameModel) -> bool {
    g.tag <= TAG_MAX && g.value.len() <= MAX_CONTENT_LEN
}

/// Names that the codec can write as one `GeneralNames` value.
pub open spec fn names_encodable(ns: Seq<GeneralNameModel>) -> bool {
    &&& forall|i: int| 0 <= i < ns.len() ==> name_encodable(#[trigger] ns[i])
    &&& encode_name_list(ns).len() <= MAX_CONTENT_LEN
}

proof fn lemma_tag_identifier(tag: u8)
    requires
        tag <= TAG_MAX,
    ensures
        tag_of_identifier(identifier(tag)) == Some(tag),
{
}

proof fn lemma_identifier_tag(id: u8)
    requires
        tag_of_identifier(id) is Some,
    ensures
        identifier(tag_of_identifier(id).unwrap()) == id,
        tag_of_identifier(id).unwrap() <= TAG_MAX,
{
}

proof fn lemma_length_round_trip(n: nat, rest: Seq<u8>)
    requires
        n <= MAX_CONTENT_LEN,
    ensures
        decode_length(encode_length(n) + rest) == Some((n, encode_length(n).len())),
        1 <= encode_length(n).len() <= 3,
{
    let b = encode_length(n) + rest;
    if n < 128 {
    } else if n < 256 {
        assert(b[1] == n as u8);
    } else {
        assert(b[1] == (n / 256) as u8);
        assert(b[2] == (n % 256) as u8);
        assert((n / 256) as u8 as nat * 256 + (n % 256) as u8 as nat == n);
    }
}

proof fn lemma_length_sound(b: Seq<u8>)
    requires
        decode_length(b) is Some,
    ensures
        ({
            let (n, k) = decode_length(b).unwrap();
            &&& n <= MAX_CONTENT_LEN
            &&& k <= b.len()
            &&& b.subrange(0, k as int) == encode_length(n)
        }),
{
    let (n, k) = decode_length(b).unwrap();
    if b[0] < 128 {
        assert(b.subrange(0, 1) =~= encode_length(n));
    } else if b[0] == 0x81 {
        assert(b.subrange(0, 2) =~= encode_length(n));
    } else {
        assert(n / 256 == b[1] as nat);
        assert(n % 256 == b[2] as nat);
        assert(b.subrange(0, 3) =~= encode_length(n));
    }
}

proof fn lemma_element_round_trip(id: u8, c: Seq<u8>, rest: Seq<u8>)
    requires
        c.len() <= MAX_CONTENT_LEN,
    ensures
        decode_element(encode_element(id, c) + rest) == Some(
            (id, c, encode_element(id, c).len()),
        ),
{
    let e = encode_element(id, c);
    let b = e + rest;
    let l = encode_length(c.len());
    lemma_length_round_trip(c.len(), c + rest);
    assert(b.skip(1) =~= l + (c + rest));
    assert(b.subrange((1 + l.len()) as int, (1 + l.len() + c.len()) as int) =~= c);
}

proof fn lemma_element_sound(b: Seq<u8>)
    requires
        decode_element(b) is Some,
    ensures
        ({
            let (id, c, used) = decode_element(b).unwrap();
            &&& c.len() <= MAX_CONTENT_LEN
            &&& 0 < used <= b.len()
            &&& b.subrange(0, used as int) == encode_element(id, c)
        }),
{
    let (id, c, used) = decode_element(b).unwrap();
    let (n, k) = decode_length(b.skip(1)).unwrap();
    lemma_length_sound(b.skip(1));
    assert(b.skip(1).subrange(0, k as int) =~= b.subrange(1, (1 + k) as int));
    assert(b.subrange(0, used as int) =~= seq![b[0]] + b.subrange(1, (1 + k) as int) + c);
}

/// Encoding of a concatenation is the concatenation of the encodings.
proof fn lemma_encode_name_list_append(a: Seq<GeneralNameModel>, b: Seq<GeneralNameModel>)
    ensures
        encode_name_list(a + b) == encode_name_list(a) + encode_name_list(b),
    decreases a.len(),
{
    if a.len() == 0 {
        assert(a + b =~= b);
        assert(encode_name_list(a) + encode_name_list(b) =~= encode_name_list(b));
    } else {
        assert((a + b).skip(1) =~= a.skip(1) + b);
        lemma_encode_name_list_append(a.skip(1), b);
        assert((a + b)[0] == a[0]);
        assert(encode_name_list(a + b) =~= encode_name_list(a) + encode_name_list(b));
    }
}

proof fn lemma_encode_single(g: GeneralNameModel)
    ensures
        encode_name_list(seq![g]) == encode_name(g),
{
    let s = seq![g];
    assert(s.skip(1) =~= Seq::<GeneralNameModel>::empty());
    assert(encode_name_list(s.skip(1)) == Seq::<u8>::empty());
    assert(encode_name_list(s) =~= encode_name(g));
}

proof fn lemma_name_list_round_trip(ns: Seq<GeneralNameModel>)
    requires
        forall|i: int| 0 <= i < ns.len() ==> name_encodable(#[trigger] ns[i]),
    ensures
        decode_name_list(encode_name_list(ns)) == Some(ns),
    decreases ns.len(),
{
    if ns.len() > 0 {
        let g = ns[0];
        let e = encode_name(g);
        let tail = encode_name_list(ns.skip(1));
        let b = encode_name_list(ns);
        assert(name_encodable(ns[0]));
        lemma_element_round_trip(identifier(g.tag), g.value, tail);
        lemma_tag_identifier(g.tag);
        assert(forall|i: int| 0 <= i < ns.skip(1).len() ==> ns.skip(1)[i] == ns[i + 1]);
        lemma_name_list_round_trip(ns.skip(1));
        assert(b.skip(e.len() as int) =~= tail);
        assert(seq![g] + ns.skip(1) =~= ns);
    }
}

proof fn lemma_name_list_sound(b: Seq<GeneralNameModel>, bytes: Seq<u8>)
    requires
        decode_name_list(bytes) == Some(b),
    ensures
        forall|i: int| 0 <= i < b.len() ==> name_encodable(#[trigger] b[i]),
        encode_name_list(b) == bytes,
    decreases bytes.len(),
{
    if bytes.len() == 0 {
        assert(b =~= Seq::<GeneralNameModel>::empty());
    } else {
        let (g, used) = decode_name(bytes).unwrap();
        let (id, c, u) = decode_element(bytes).unwrap();
        lemma_element_sound(bytes);
        lemma_identifier_tag(id);
        let rest = decode_name_list(bytes.skip(used as int)).unwrap();
        lemma_name_list_sound(rest, bytes.skip(used as int));
        assert(b =~= seq![g] + rest);
        assert(b[0] == g);
        assert(b.skip(1) =~= rest);
        assert(bytes =~= bytes.subrange(0, used as int) + bytes.skip(used as int));
        assert forall|i: int| 0 <= i < b.len() implies name_encodable(#[trigger] b[i]) by {
            if i > 0 {
                assert(b[i] == rest[i - 1]);
            }
        }
    }
}

/// Decoding the encoding of names gives back the same names.
pub proof fn lemma_general_names_round_trip(ns: Seq<GeneralNameModel>)
    requires
        names_encodable(ns),
    ensures
        decode_general_names(encode_general_names(ns)) == Some(ns),
{
    let body = encode_name_list(ns);
    lemma_element_round_trip(SEQUENCE_TAG, body, Seq::empty());
    assert(encode_general_names(ns) + Seq::<u8>::empty() =~= encode_general_names(ns));
    lemma_name_list_round_trip(ns);
}

/// Whatever decodes is a list of names that encodes to exactly the bytes that
/// were read: the decoder yields no value that the bytes do not hold.
pub proof fn lemma_general_names_sound(b: Seq<u8>)
    requires
        decode_general_names(b) is Some,
    ensures
        names_encodable(decode_general_names(b).unwrap()),
        encode_general_names(decode_general_names(b).unwrap()) == b,
{
    let ns = decode_general_names(b).unwrap();
    let (id, c, used) = decode_element(b).unwrap();
    lemma_element_sound(b);
    lemma_name_list_sound(ns, c);
    assert(b.subrange(0, used as int) =~= b);
}

fn push_length(out: &mut Vec<u8>, n: usize)
    requires
        n <= MAX_CONTENT_LEN,
    ensures
        final(out)@ == old(out)@ + encode_length(n as nat),
{
    if n < 128 {
        out.push(n as u8);
    } else if n < 256 {
        out.push(0x81u8);
        out.push(n as u8);
    } else {
        out.push(0x82u8);
        out.push((n / 256) as u8);
        out.push((n % 256) as u8);
    }
    assert(final(out)@ =~= old(out)@ + encode_length(n as nat));
}

fn push_element(out: &mut Vec<u8>, id: u8, content: &Vec<u8>)
    requires
        content@.len() <= MAX_CONTENT_LEN,
    ensures
        final(out)@ == old(out)@ + encode_element(id, content@),
{
    out.push(id);
    push_length(out, content.len());
    let mut i: usize = 0;
    let ghost start = out@;
    while i < content.len()
        invariant
            i <= content@.len(),
            out@ == start + content@.take(i as int),
        decreases content@.len() - i,
    {
        out.push(content[i]);
        i = i + 1;
        assert(out@ =~= start + content@.take(i as int));
    }
    assert(content@.take(i as int) =~= content@);
    assert(final(out)@ =~= old(out)@ + encode_element(id, content@));
}

fn identifier_of(tag: u8) -> (r: u8)
    requires
        tag <= TAG_MAX,
    ensures
        r == identifier(tag),
{
    if tag == 0 || tag == 3 || tag == 4 || tag == 5 {
        0xA0 + tag
    } else {
        0x80 + tag
    }
}

fn encoded_len(n: usize) -> (r: usize)
    requires
        n <= MAX_CONTENT_LEN,
    ensures
        r == 1 + encode_length(n as nat).len() + n,
{
    if n < 128 {
        2 + n
    } else if n < 256 {
        3 + n
    } else {
        4 + n
    }
}

/// Whether the names can be written as one `GeneralNames` value.
pub fn can_encode(names: &Vec<GeneralName>) -> (r: bool)
    ensures
        r == names_encodable(names_view(names@)),
{
    let ghost ns = names_view(names@);
    let mut total: usize = 0;
    let mut i: usize = 0;
    while i < names.len()
        invariant
            i <= names@.len(),
            ns == names_view(names@),
            total <= MAX_CONTENT_LEN,
            total == encode_name_list(ns.take(i as int)).len(),
            forall|j: int| 0 <= j < i ==> name_encodable(#[trigger] ns[j]),
        decreases names@.len() - i,
    {
        let g = &names[i];
        if g.tag > TAG_MAX || g.value.len() > MAX_CONTENT_LEN {
            assert(!name_encodable(ns[i as int]));
            return false;
        }
        let n = encoded_len(g.value.len());
        proof {
            assert(ns.take(i + 1) =~= ns.take(i as int) + seq![ns[i as int]]);
            lemma_encode_name_list_append(ns.take(i as int), seq![ns[i as int]]);
            lemma_encode_single(ns[i as int]);
        }
        if n > MAX_CONTENT_LEN - total {
            proof {
                assert(ns =~= ns.take(i + 1) + ns.skip(i + 1));
                lemma_encode_name_list_append(ns.take(i + 1), ns.skip(i + 1));
            }
            return false;
        }
        total = total + n;
        i = i + 1;
    }
    assert(ns.take(i as int) =~= ns);
    true
}

/// DER encoding of the names as `GeneralNames`.
pub fn encode_names(names: &Vec<GeneralName>) -> (r: Vec<u8>)
    requires
        names_encodable(names_view(names@)),
    ensures
        r@ == encode_general_names(names_view(names@)),
{
    let ghost ns = names_view(names@);
    let mut body: Vec<u8> = Vec::new();
    let mut i: usize = 0;
    while i < names.len()
        invariant
            i <= names@.len(),
            ns == names_view(names@),
            names_encodable(ns),
            body@ == encode_name_list(ns.take(i as int)),
        decreases names@.len() - i,
    {
        let g = &names[i];
        assert(name_encodable(ns[i as int]));
        let id = identifier_of(g.tag);
        proof {
            assert(ns.take(i + 1) =~= ns.take(i as int) + seq![ns[i as int]]);
            lemma_encode_name_list_append(ns.take(i as int), seq![ns[i as int]]);
            lemma_encode_single(ns[i as int]);
        }
        push_element(&mut body, id, &g.value);
        i = i + 1;
    }
    assert(ns.take(i as int) =~= ns);
    let mut out: Vec<u8> = Vec::new();
    push_element(&mut out, SEQUENCE_TAG, &body);
    assert(out@ =~= encode_general_names(ns));
    out
}

fn read_length(b: &Vec<u8>, pos: usize) -> (r: Option<(usize, usize)>)
    requires
        pos <= b@.len(),
    ensures
        match decode_length(b@.skip(pos as int)) {
            Some((n, k)) => r == Some((n as usize, k as usize)),
            None => r is None,
        },
{
    let ghost t = b@.skip(pos as int);
    if pos >= b.len() {
        return None;
    }
    let f = b[pos];
    assert(t[0] == f);
    if f < 128 {
        Some((f as usize, 1))
    } else if f == 0x81 && b.len() - pos >= 2 && b[pos + 1] >= 128 {
        assert(t[1] == b@[pos + 1]);
        Some((b[pos + 1] as usize, 2))
    } else if f == 0x82 && b.len() - pos >= 3 && b[pos + 1] >= 1 {
        assert(t[1] == b@[pos + 1]);
        assert(t[2] == b@[pos + 2]);
        Some((b[pos + 1] as usize * 256 + b[pos + 2] as usize, 3))
    } else {
        proof {
            if t.len() >= 2 {
                assert(t[1] == b@[pos + 1]);
            }
        }
        None
    }
}

/// Reads the element at `pos`: its identifier, and where its contents start
/// and end.
fn read_element(b: &Vec<u8>, pos: usize) -> (r: Option<(u8, usize, usize)>)
    requires
        pos <= b@.len(),
    ensures
        match decode_element(b@.skip(pos as int)) {
            Some((id, c, used)) => {
                &&& r is Some
                &&& r.unwrap().0 == id
                &&& pos <= r.unwrap().1 <= r.unwrap().2 <= b@.len()
                &&& b@.subrange(r.unwrap().1 as int, r.unwrap().2 as int) == c
                &&& r.unwrap().2 == pos + used
            },
            None => r is None,
        },
{
    let ghost t = b@.skip(pos as int);
    if pos >= b.len() {
        return None;
    }
    let id = b[pos];
    assert(t.skip(1) =~= b@.skip(pos + 1));
    match read_length(b, pos + 1) {
        Some((n, k)) => {
            if n <= b.len() - pos - 1 - k {
                let start = pos + 1 + k;
                assert(b@.subrange(start as int, (start + n) as int) =~= t.subrange(
                    (1 + k) as int,
                    (1 + k + n) as int,
                ));
                Some((id, start, start + n))
            } else {
                None
            }
        },
        None => None,
    }
}

fn copy_range(b: &Vec<u8>, start: usize, end: usize) -> (r: Vec<u8>)
    requires
        start <= end <= b@.len(),
    ensures
        r@ == b@.subrange(start as int, end as int),
{
    let mut r: Vec<u8> = Vec::new();
    let mut i: usize = start;
    while i < end
        invariant
            start <= i <= end <= b@.len(),
            r@ == b@.subrange(start as int, i as int),
        decreases end - i,
    {
        r.push(b[i]);
        i = i + 1;
        assert(r@ =~= b@.subrange(start as int, i as int));
    }
    r
}

fn tag_from_identifier(id: u8) -> (r: Option<u8>)
    ensures
        r == tag_of_identifier(id),
{
    if 0x80 <= id && id <= 0x88 {
        let t = id - 0x80;
        if t == 0 || t == 3 || t == 4 || t == 5 {
            None
        } else {
            Some(t)
        }
    } else if 0xA0 <= id && id <= 0xA8 {
        let t = id - 0xA0;
        if t == 0 || t == 3 || t == 4 || t == 5 {
            Some(t)
        } else {
            None
        }
    } else {
        None
    }
}

/// Decodes a DER `GeneralNames` value; `None` where the bytes are not one.
pub fn decode_names(b: &Vec<u8>) -> (r: Option<Vec<GeneralName>>)
    ensures
        match decode_general_names(b@) {
            Some(ns) => r is Some && names_view(r.unwrap()@) == ns,
            None => r is None,
        },
{
    let (id, start, end) = match read_element(b, 0) {
        Some(e) => e,
        None => {
            assert(b@.skip(0) =~= b@);
            return None;
        },
    };
    assert(b@.skip(0) =~= b@);
    if id != SEQUENCE_TAG || end != b.len() {
        return None;
    }
    let ghost content = b@.subrange(start as int, end as int);
    assert(decode_general_names(b@) == decode_name_list(content));
    let mut out: Vec<GeneralName> = Vec::new();
    let mut pos: usize = start;
    while pos < end
        invariant
            start <= pos <= end == b@.len(),
            content == b@.subrange(start as int, end as int),
            decode_general_names(b@) == decode_name_list(content),
            decode_name_list(content) == match decode_name_list(b@.skip(pos as int)) {
                Some(rest) => Some(names_view(out@) + rest),
                None => None::<Seq<GeneralNameModel>>,
            },
        decreases end - pos,
    {
        let ghost t = b@.skip(pos as int);
        let (eid, cs, ce) = match read_element(b, pos) {
            Some(e) => e,
            None => {
                assert(t.len() > 0 && decode_name(t) is None);
                return None;
            },
        };
        let tag = match tag_from_identifier(eid) {
            Some(tag) => tag,
            None => {
                assert(t.len() > 0 && decode_name(t) is None);
                return None;
            },
        };
        let value = copy_range(b, cs, ce);
        let ghost g = GeneralNameModel { tag, value: value@ };
        proof {
            let used = (ce - pos) as nat;
            assert(decode_name(t) == Some((g, used)));
            assert(t.skip(used as int) =~= b@.skip(ce as int));
            assert(names_view(out@.push(GeneralName { tag, value })) =~= names_view(out@).push(g));
            match decode_name_list(b@.skip(ce as int)) {
                Some(rest) => {
                    assert(names_view(out@) + (seq![g] + rest) =~= names_view(out@).push(g) + rest);
                },
                None => {},
            }
        }
        out.push(GeneralName { tag, value });
        pos = ce;
    }
    proof {
        assert(b@.skip(pos as int) =~= Seq::<u8>::empty());
        assert(names_view(out@) + Seq::<GeneralNameModel>::empty() =~= names_view(out@));
    }
    Some(out)
}

} // verus!
