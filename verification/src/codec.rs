use vstd::prelude::*;

verus! {

/// The eight bytes of `x`, most significant first.
pub open spec fn u64_be_bytes(x: u64) -> Seq<u8> {
    seq![
        (x >> 56u64) as u8,
        (x >> 48u64) as u8,
        (x >> 40u64) as u8,
        (x >> 32u64) as u8,
        (x >> 24u64) as u8,
        (x >> 16u64) as u8,
        (x >> 8u64) as u8,
        x as u8,
    ]
}

/// The number whose big-endian bytes are the first eight of `b`.
pub open spec fn u64_from_be(b: Seq<u8>) -> u64
    recommends
        b.len() >= 8,
{
    ((b[0] as u64) << 56u64) | ((b[1] as u64) << 48u64) | ((b[2] as u64) << 40u64) | ((
    b[3] as u64) << 32u64) | ((b[4] as u64) << 24u64) | ((b[5] as u64) << 16u64) | ((
    b[6] as u64) << 8u64) | (b[7] as u64)
}

/// The big-endian bytes of a number denote that number.
pub proof fn lemma_u64_be_roundtrip(x: u64)
    ensures
        u64_from_be(u64_be_bytes(x)) == x,
{
    let b = u64_be_bytes(x);
    let (b0, b1, b2, b3, b4, b5, b6, b7) = (b[0], b[1], b[2], b[3], b[4], b[5], b[6], b[7]);
    assert(((b0 as u64) << 56u64) | ((b1 as u64) << 48u64) | ((b2 as u64) << 40u64) | ((
    b3 as u64) << 32u64) | ((b4 as u64) << 24u64) | ((b5 as u64) << 16u64) | ((
    b6 as u64) << 8u64) | (b7 as u64) == x) by (bit_vector)
        requires
            b0 == (x >> 56u64) as u8,
            b1 == (x >> 48u64) as u8,
            b2 == (x >> 40u64) as u8,
            b3 == (x >> 32u64) as u8,
            b4 == (x >> 24u64) as u8,
            b5 == (x >> 16u64) as u8,
            b6 == (x >> 8u64) as u8,
            b7 == x as u8,
    ;
}

/// What can go wrong while turning stored bytes back into a value.
#[derive(Debug, Clone, PartialEq, Eq)]
pub enum CodecError {
    Decode(String),
}

/// A value that has a byte encoding, under which it is stored as a table key.
pub trait Encode: Sized {
    /// The bytes that `encode` produces for this value.
    spec fn spec_encode(self) -> Seq<u8>;

    fn encode(self) -> (bytes: Vec<u8>)
        ensures
            bytes@ == self.spec_encode(),
    ;
}

/// A value that can be read back from its byte encoding.
pub trait Decode: Sized {
    /// The inputs that `decode` accepts.
    spec fn decodable(bytes: Seq<u8>) -> bool;

    /// What `decode` yields for a decodable input.
    spec fn spec_decode(bytes: Seq<u8>) -> Result<Self, CodecError>;

    fn decode(bytes: &[u8]) -> (res: Result<Self, CodecError>)
        requires
            Self::decodable(bytes@),
        ensures
            res == Self::spec_decode(bytes@),
    ;
}

impl Encode for u64 {
    open spec fn spec_encode(self) -> Seq<u8> {
        u64_be_bytes(self)
    }

    fn encode(self) -> (bytes: Vec<u8>) {
        let mut bytes: Vec<u8> = Vec::with_capacity(8);
        bytes.push((self >> 56u64) as u8);
        bytes.push((self >> 48u64) as u8);
        bytes.push((self >> 40u64) as u8);
        bytes.push((self >> 32u64) as u8);
        bytes.push((self >> 24u64) as u8);
        bytes.push((self >> 16u64) as u8);
        bytes.push((self >> 8u64) as u8);
        bytes.push(self as u8);
        assert(bytes@ =~= u64_be_bytes(self));
        bytes
    }
}

impl Decode for u64 {
    /// A stored number is exactly its eight bytes.
    open spec fn decodable(bytes: Seq<u8>) -> bool {
        bytes.len() == 8
    }

    open spec fn spec_decode(bytes: Seq<u8>) -> Result<u64, CodecError> {
        Ok(u64_from_be(bytes))
    }

    fn decode(bytes: &[u8]) -> (res: Result<u64, CodecError>) {
        let value: u64 = ((bytes[0] as u64) << 56u64) | ((bytes[1] as u64) << 48u64) | ((
        bytes[2] as u64) << 40u64) | ((bytes[3] as u64) << 32u64) | ((bytes[4] as u64)
            << 24u64) | ((bytes[5] as u64) << 16u64) | ((bytes[6] as u64) << 8u64) | (
        bytes[7] as u64);
        Ok(value)
    }
}

/// A table key scoped to one tenant: stored under the tenant's id, so that the
/// keys of different tenants never meet.
#[derive(Debug, Clone)]
pub struct TenantKey<K> {
    pub id: u64,
    pub key: K,
}

/// The bytes that every stored key of tenant `id` begins with.
pub open spec fn tenant_prefix(id: u64) -> Seq<u8> {
    u64_be_bytes(id)
}

/// The stored form of the key whose own encoding is `key`, for tenant `id`: the
/// tenant's prefix, then `key`.
pub fn tenant_key_bytes(id: u64, key: &[u8]) -> (bytes: Vec<u8>)
    ensures
        bytes@ == tenant_prefix(id) + key@,
{
    let mut bytes = id.encode();
    let mut rest = vstd::slice::slice_to_vec(key);
    bytes.append(&mut rest);
    bytes
}

/// Splits a stored key into its tenant id and the key's own encoding.
pub fn split_tenant_key(bytes: &[u8]) -> (parts: (u64, &[u8]))
    requires
        bytes@.len() >= 8,
    ensures
        parts.0 == u64_from_be(bytes@.take(8)),
        parts.1@ == bytes@.skip(8),
{
    let (head, rest) = bytes.split_at(8);
    assert(head@ =~= bytes@.take(8));
    assert(rest@ =~= bytes@.skip(8));
    let id = match <u64 as Decode>::decode(head) {
        Ok(id) => id,
        Err(_) => {
            assert(false);
            0
        },
    };
    (id, rest)
}

/// Splitting a stored key gives back the tenant and the key it was made from.
pub proof fn law_split_tenant_key_bytes(id: u64, key: Seq<u8>)
    ensures
        (tenant_prefix(id) + key).len() >= 8,
        u64_from_be((tenant_prefix(id) + key).take(8)) == id,
        (tenant_prefix(id) + key).skip(8) == key,
{
    assert((tenant_prefix(id) + key).take(8) =~= u64_be_bytes(id));
    assert((tenant_prefix(id) + key).skip(8) =~= key);
    lemma_u64_be_roundtrip(id);
}

impl<K: Encode> Encode for TenantKey<K> {
    open spec fn spec_encode(self) -> Seq<u8> {
        tenant_prefix(self.id) + self.key.spec_encode()
    }

    fn encode(self) -> (bytes: Vec<u8>) {
        let id = self.id;
        let key = self.key.encode();
        tenant_key_bytes(id, key.as_slice())
    }
}

impl<K: Decode> Decode for TenantKey<K> {
    /// A stored tenant key has at least the eight bytes of the tenant id, and what
    /// follows them must be a stored inner key.
    open spec fn decodable(bytes: Seq<u8>) -> bool {
        &&& bytes.len() >= 8
        &&& K::decodable(bytes.skip(8))
    }

    open spec fn spec_decode(bytes: Seq<u8>) -> Result<TenantKey<K>, CodecError> {
        match K::spec_decode(bytes.skip(8)) {
            Ok(key) => Ok(TenantKey { id: u64_from_be(bytes.take(8)), key }),
            Err(e) => Err(e),
        }
    }

    fn decode(bytes: &[u8]) -> (res: Result<TenantKey<K>, CodecError>) {
        let (id, rest) = split_tenant_key(bytes);
        let key = match K::decode(rest) {
            Ok(key) => key,
            Err(e) => return Err(e),
        };
        Ok(TenantKey { id, key })
    }
}

/// A stored number decodes to itself.
pub proof fn law_u64_roundtrip(x: u64)
    ensures
        <u64 as Decode>::decodable(x.spec_encode()),
        <u64 as Decode>::spec_decode(x.spec_encode()) == Ok::<u64, CodecError>(x),
{
    lemma_u64_be_roundtrip(x);
}

/// Two tenant ids share their key prefix only when they are the same id.
pub proof fn law_tenant_prefix_injective(a: u64, b: u64)
    ensures
        tenant_prefix(a) == tenant_prefix(b) <==> a == b,
{
    lemma_u64_be_roundtrip(a);
    lemma_u64_be_roundtrip(b);
}

/// Every stored key of a tenant begins with that tenant's prefix.
pub proof fn law_tenant_key_prefix<K: Encode>(t: TenantKey<K>)
    ensures
        t.spec_encode().len() >= 8,
        t.spec_encode().take(8) == tenant_prefix(t.id),
{
    assert(t.spec_encode().take(8) =~= tenant_prefix(t.id));
}

/// Tenant isolation: two tenant keys are stored under the same bytes exactly when
/// they belong to the same tenant and their inner keys encode alike. In particular
/// keys of different tenants never collide.
pub proof fn law_tenant_keys_isolated<K: Encode>(a: TenantKey<K>, b: TenantKey<K>)
    ensures
        a.spec_encode() == b.spec_encode() <==> (a.id == b.id && a.key.spec_encode()
            == b.key.spec_encode()),
{
    if a.spec_encode() == b.spec_encode() {
        law_tenant_key_prefix(a);
        law_tenant_key_prefix(b);
        law_tenant_prefix_injective(a.id, b.id);
        assert(a.key.spec_encode() =~= a.spec_encode().skip(8));
        assert(b.key.spec_encode() =~= b.spec_encode().skip(8));
    }
}

/// A tenant key whose inner key reads back from its own encoding reads back whole.
pub proof fn law_tenant_key_roundtrip<K: Encode + Decode>(t: TenantKey<K>)
    requires
        K::decodable(t.key.spec_encode()),
        K::spec_decode(t.key.spec_encode()) == Ok::<K, CodecError>(t.key),
    ensures
        TenantKey::<K>::decodable(t.spec_encode()),
        TenantKey::<K>::spec_decode(t.spec_encode()) == Ok::<TenantKey<K>, CodecError>(t),
{
    let e = t.spec_encode();
    assert(e.skip(8) =~= t.key.spec_encode());
    assert(e.take(8) =~= u64_be_bytes(t.id));
    lemma_u64_be_roundtrip(t.id);
}


/// `a` sorts strictly before `b` byte by byte: at the first place where they
/// differ, `a` holds the smaller byte.
pub open spec fn bytes_lt(a: Seq<u8>, b: Seq<u8>) -> bool {
    exists|i: int|
        0 <= i < a.len() && i < b.len() && a.take(i) == b.take(i) && #[trigger] a[i] < b[i]
}

proof fn lemma_u64_be_order(x: u64, y: u64)
    requires
        x < y,
    ensures
        bytes_lt(u64_be_bytes(x), u64_be_bytes(y)),
{
    let a = u64_be_bytes(x);
    let b = u64_be_bytes(y);
    let (a0, a1, a2, a3, a4, a5, a6, a7) = (a[0], a[1], a[2], a[3], a[4], a[5], a[6], a[7]);
    let (b0, b1, b2, b3, b4, b5, b6, b7) = (b[0], b[1], b[2], b[3], b[4], b[5], b[6], b[7]);
    // the first byte in which the two numbers differ is the smaller in `x`
    assert(a0 != b0 ==> a0 < b0) by (bit_vector)
        requires
            x < y,
            a0 == (x >> 56u64) as u8,
            b0 == (y >> 56u64) as u8,
    ;
    assert(a0 == b0 && a1 != b1 ==> a1 < b1) by (bit_vector)
        requires
            x < y,
            a0 == (x >> 56u64) as u8,
            b0 == (y >> 56u64) as u8,
            a1 == (x >> 48u64) as u8,
            b1 == (y >> 48u64) as u8,
    ;
    assert(a0 == b0 && a1 == b1 && a2 != b2 ==> a2 < b2) by (bit_vector)
        requires
            x < y,
            a0 == (x >> 56u64) as u8,
            b0 == (y >> 56u64) as u8,
            a1 == (x >> 48u64) as u8,
            b1 == (y >> 48u64) as u8,
            a2 == (x >> 40u64) as u8,
            b2 == (y >> 40u64) as u8,
    ;
    assert(a0 == b0 && a1 == b1 && a2 == b2 && a3 != b3 ==> a3 < b3) by (bit_vector)
        requires
            x < y,
            a0 == (x >> 56u64) as u8,
            b0 == (y >> 56u64) as u8,
            a1 == (x >> 48u64) as u8,
            b1 == (y >> 48u64) as u8,
            a2 == (x >> 40u64) as u8,
            b2 == (y >> 40u64) as u8,
            a3 == (x >> 32u64) as u8,
            b3 == (y >> 32u64) as u8,
    ;
    assert(a0 == b0 && a1 == b1 && a2 == b2 && a3 == b3 && a4 != b4 ==> a4 < b4) by (bit_vector)
        requires
            x < y,
            a0 == (x >> 56u64) as u8,
            b0 == (y >> 56u64) as u8,
            a1 == (x >> 48u64) as u8,
            b1 == (y >> 48u64) as u8,
            a2 == (x >> 40u64) as u8,
            b2 == (y >> 40u64) as u8,
            a3 == (x >> 32u64) as u8,
            b3 == (y >> 32u64) as u8,
            a4 == (x >> 24u64) as u8,
            b4 == (y >> 24u64) as u8,
    ;
    assert(a0 == b0 && a1 == b1 && a2 == b2 && a3 == b3 && a4 == b4 && a5 != b5 ==> a5 < b5)
        by (bit_vector)
        requires
            x < y,
            a0 == (x >> 56u64) as u8,
            b0 == (y >> 56u64) as u8,
            a1 == (x >> 48u64) as u8,
            b1 == (y >> 48u64) as u8,
            a2 == (x >> 40u64) as u8,
            b2 == (y >> 40u64) as u8,
            a3 == (x >> 32u64) as u8,
            b3 == (y >> 32u64) as u8,
            a4 == (x >> 24u64) as u8,
            b4 == (y >> 24u64) as u8,
            a5 == (x >> 16u64) as u8,
            b5 == (y >> 16u64) as u8,
    ;
    assert(a0 == b0 && a1 == b1 && a2 == b2 && a3 == b3 && a4 == b4 && a5 == b5 && a6 != b6
        ==> a6 < b6) by (bit_vector)
        requires
            x < y,
            a0 == (x >> 56u64) as u8,
            b0 == (y >> 56u64) as u8,
            a1 == (x >> 48u64) as u8,
            b1 == (y >> 48u64) as u8,
            a2 == (x >> 40u64) as u8,
            b2 == (y >> 40u64) as u8,
            a3 == (x >> 32u64) as u8,
            b3 == (y >> 32u64) as u8,
            a4 == (x >> 24u64) as u8,
            b4 == (y >> 24u64) as u8,
            a5 == (x >> 16u64) as u8,
            b5 == (y >> 16u64) as u8,
            a6 == (x >> 8u64) as u8,
            b6 == (y >> 8u64) as u8,
    ;
    assert(a0 == b0 && a1 == b1 && a2 == b2 && a3 == b3 && a4 == b4 && a5 == b5 && a6 == b6
        ==> a7 < b7) by (bit_vector)
        requires
            x < y,
            a0 == (x >> 56u64) as u8,
            b0 == (y >> 56u64) as u8,
            a1 == (x >> 48u64) as u8,
            b1 == (y >> 48u64) as u8,
            a2 == (x >> 40u64) as u8,
            b2 == (y >> 40u64) as u8,
            a3 == (x >> 32u64) as u8,
            b3 == (y >> 32u64) as u8,
            a4 == (x >> 24u64) as u8,
            b4 == (y >> 24u64) as u8,
            a5 == (x >> 16u64) as u8,
            b5 == (y >> 16u64) as u8,
            a6 == (x >> 8u64) as u8,
            b6 == (y >> 8u64) as u8,
            a7 == x as u8,
            b7 == y as u8,
    ;
    if a0 != b0 {
        assert(a.take(0) =~= b.take(0) && a[0] < b[0]);
    } else if a1 != b1 {
        assert(a.take(1) =~= b.take(1) && a[1] < b[1]);
    } else if a2 != b2 {
        assert(a.take(2) =~= b.take(2) && a[2] < b[2]);
    } else if a3 != b3 {
        assert(a.take(3) =~= b.take(3) && a[3] < b[3]);
    } else if a4 != b4 {
        assert(a.take(4) =~= b.take(4) && a[4] < b[4]);
    } else if a5 != b5 {
        assert(a.take(5) =~= b.take(5) && a[5] < b[5]);
    } else if a6 != b6 {
        assert(a.take(6) =~= b.take(6) && a[6] < b[6]);
    } else {
        assert(a.take(7) =~= b.take(7) && a[7] < b[7]);
    }
}

/// Stored keys sort by tenant first: every key of a tenant with a smaller id comes
/// before every key of a tenant with a larger one, so each tenant's keys form one
/// contiguous range.
pub proof fn law_tenant_keys_ordered<K: Encode>(a: TenantKey<K>, b: TenantKey<K>)
    requires
        a.id < b.id,
    ensures
        bytes_lt(a.spec_encode(), b.spec_encode()),
{
    lemma_u64_be_order(a.id, b.id);
    let pa = tenant_prefix(a.id);
    let pb = tenant_prefix(b.id);
    let i = choose|i: int| 0 <= i < pa.len() && i < pb.len() && pa.take(i) == pb.take(i) && #[trigger] pa[i] < pb[i];
    let ea = a.spec_encode();
    let eb = b.spec_encode();
    assert(ea.take(i) =~= pa.take(i));
    assert(eb.take(i) =~= pb.take(i));
    assert(ea[i] == pa[i]);
    assert(eb[i] == pb[i]);
}

} // verus!
