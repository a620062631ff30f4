//! Message identifiers: a 128-bit value, written on the wire as its sixteen
//! bytes, most significant first.

use vstd::prelude::*;

verus! {

/// `256` raised to the power `k`.
pub open spec fn pow256(k: nat) -> nat
    decreases k,
{
    if k == 0 {
        1
    } else {
        256 * pow256((k - 1) as nat)
    }
}

/// The value of a sequence of bytes read most significant first.
pub open spec fn be_value(s: Seq<u8>) -> nat
    decreases s.len(),
{
    if s.len() == 0 {
        0
    } else {
        (be_value(s.drop_last()) * 256 + s.last()) as nat
    }
}

/// The last `n` bytes of `u`, most significant first.
pub open spec fn be_bytes(u: nat, n: nat) -> Seq<u8>
    decreases n,
{
    if n == 0 {
        seq![]
    } else {
        be_bytes(u / 256, (n - 1) as nat).push((u % 256) as u8)
    }
}

/// The bytes of an identifier on the wire.
pub open spec fn uuid_bytes(u: u128) -> Seq<u8> {
    be_bytes(u as nat, 16)
}

/// The identifier that sixteen bytes stand for.
pub open spec fn uuid_value(b: Seq<u8>) -> u128 {
    be_value(b) as u128
}

proof fn lemma_be_roundtrip(u: nat, n: nat)
    requires
        u < pow256(n),
    ensures
        be_bytes(u, n).len() == n,
        be_value(be_bytes(u, n)) == u,
    decreases n,
{
    if n > 0 {
        let p = pow256((n - 1) as nat);
        assert(pow256(n) == 256 * p);
        assert(u / 256 < p);
        lemma_be_roundtrip(u / 256, (n - 1) as nat);
        let s = be_bytes(u, n);
        assert(s.drop_last() =~= be_bytes(u / 256, (n - 1) as nat));
        assert(s.last() == (u % 256) as u8);
    } else {
        assert(pow256(0) == 1);
    }
}

proof fn lemma_be_value_bound(s: Seq<u8>)
    ensures
        be_value(s) < pow256(s.len()),
    decreases s.len(),
{
    if s.len() > 0 {
        lemma_be_value_bound(s.drop_last());
        assert(pow256(s.len()) == 256 * pow256(s.drop_last().len()));
    } else {
        assert(pow256(0) == 1);
    }
}

/// An identifier's wire bytes are sixteen bytes that stand for it again, and
/// any sixteen bytes stand for an identifier.
pub proof fn lemma_uuid_roundtrip(u: u128, b: Seq<u8>)
    ensures
        uuid_bytes(u).len() == 16,
        uuid_value(uuid_bytes(u)) == u,
        b.len() == 16 ==> be_value(b) <= u128::MAX,
{
    reveal_with_fuel(pow256, 17);
    assert(pow256(16) == 0x1_0000_0000_0000_0000_0000_0000_0000_0000);
    lemma_be_roundtrip(u as nat, 16);
    lemma_be_value_bound(b);
}

/// Builds `uuid::Uuid::from_u128` and takes its `as_bytes`: the sixteen bytes
/// of the value, most significant first (the uuid crate's source shifts the
/// value right by 120, 112, ..., 0 bits, one byte each).
#[verifier::external_body]
pub(crate) fn uuid_to_bytes(u: u128) -> (r: Vec<u8>)
    ensures
        r@ == uuid_bytes(u),
{
    uuid::Uuid::from_u128(u).as_bytes().to_vec()
}

/// Calls `uuid::Uuid::from_slice` and takes `as_u128` of the result: the
/// slice is accepted exactly when it holds sixteen bytes, which are read most
/// significant first.
#[verifier::external_body]
pub(crate) fn uuid_from_slice(b: &[u8]) -> (r: Option<u128>)
    ensures
        r is Some <==> b@.len() == 16,
        r matches Some(v) ==> v as nat == be_value(b@),
{
    match uuid::Uuid::from_slice(b) {
        Ok(u) => Some(u.as_u128()),
        Err(_) => None,
    }
}

/// Calls `uuid::Uuid::new_v4` and takes `as_u128`: a random identifier. Its
/// bytes come from the operating system's random source, and which value is
/// drawn is left unsaid; the crate's source then sets the version nibble
/// (high half of byte 6) to 4 and the two top bits of byte 8 to the RFC 4122
/// variant `10`, which is what is stated here.
#[verifier::external_body]
pub(crate) fn random_uuid() -> (r: u128)
    ensures
        (r >> 76u128) & 0xfu128 == 4u128,
        (r >> 62u128) & 0x3u128 == 2u128,
{
    uuid::Uuid::new_v4().as_u128()
}

} // verus!
