//! Capability tokens: an HMAC-SHA256 tag over a capability's id, owner and permissions,
//! under a kernel key.
use vstd::prelude::*;
use vstd::bytes::{
    spec_u32_to_le_bytes, spec_u64_to_le_bytes, spec_u32_from_le_bytes, spec_u64_from_le_bytes, u32_to_le_bytes,
    u64_to_le_bytes, lemma_auto_spec_u32_to_from_le_bytes, lemma_auto_spec_u64_to_from_le_bytes,
};
use hmac::{Hmac, Mac};
use sha2::Sha256;
use super::rng::{Rng, fill_bytes, stream_bytes, stream_state};

verus! {

/// HMAC-SHA256 of `msg` under `key`.
pub uninterp spec fn hmac_sha256(key: Seq<u8>, msg: Seq<u8>) -> Seq<u8>;

/// `hmac::Hmac<Sha256>` (`new_from_slice`, `update`, `finalize`): the HMAC-SHA256 tag of
/// `msg` under `key`. HMAC takes keys of any length, so the key is never refused.
#[verifier::external_body]
fn hmac_sha256_tag(key: &[u8; 32], msg: &[u8]) -> (tag: [u8; 32])
    ensures
        tag@ == hmac_sha256(key@, msg@),
{
    let mut mac = <Hmac<Sha256> as Mac>::new_from_slice(key).expect("HMAC accepts keys of any length");
    mac.update(msg);
    mac.finalize().into_bytes().into()
}

/// The bytes a capability's tag covers: id and owner (little-endian `u64`), then
/// permissions (little-endian `u32`).
pub open spec fn tag_message(cap_id: u64, owner_id: u64, permissions: u32) -> Seq<u8> {
    spec_u64_to_le_bytes(cap_id) + spec_u64_to_le_bytes(owner_id) + spec_u32_to_le_bytes(permissions)
}

/// The bytes a tag covers determine the capability: two capabilities that differ in id,
/// owner or permissions never share a tag message.
pub proof fn lemma_tag_message_injective(
    cap1: u64,
    owner1: u64,
    perms1: u32,
    cap2: u64,
    owner2: u64,
    perms2: u32,
)
    requires
        tag_message(cap1, owner1, perms1) == tag_message(cap2, owner2, perms2),
    ensures
        cap1 == cap2 && owner1 == owner2 && perms1 == perms2,
{
    lemma_auto_spec_u32_to_from_le_bytes();
    lemma_auto_spec_u64_to_from_le_bytes();
    let m1 = tag_message(cap1, owner1, perms1);
    let m2 = tag_message(cap2, owner2, perms2);
    assert(m1.subrange(0, 8) =~= spec_u64_to_le_bytes(cap1));
    assert(m2.subrange(0, 8) =~= spec_u64_to_le_bytes(cap2));
    assert(m1.subrange(8, 16) =~= spec_u64_to_le_bytes(owner1));
    assert(m2.subrange(8, 16) =~= spec_u64_to_le_bytes(owner2));
    assert(m1.subrange(16, 20) =~= spec_u32_to_le_bytes(perms1));
    assert(m2.subrange(16, 20) =~= spec_u32_to_le_bytes(perms2));
    assert(spec_u64_from_le_bytes(spec_u64_to_le_bytes(cap1)) == cap1);
    assert(spec_u64_from_le_bytes(spec_u64_to_le_bytes(cap2)) == cap2);
    assert(spec_u64_from_le_bytes(spec_u64_to_le_bytes(owner1)) == owner1);
    assert(spec_u64_from_le_bytes(spec_u64_to_le_bytes(owner2)) == owner2);
    assert(spec_u32_from_le_bytes(spec_u32_to_le_bytes(perms1)) == perms1);
    assert(spec_u32_from_le_bytes(spec_u32_to_le_bytes(perms2)) == perms2);
}

/// `tag` is the tag `key` gives the capability `cap_id` of `owner_id` with `permissions`.
pub open spec fn tag_valid(key: Seq<u8>, cap_id: u64, owner_id: u64, permissions: u32, tag: Seq<u8>) -> bool {
    tag == hmac_sha256(key, tag_message(cap_id, owner_id, permissions))
}

/// The tag generated for a capability under a key is one that verification under that key
/// accepts for the same capability.
pub proof fn lemma_tag_round_trip(key: Seq<u8>, cap_id: u64, owner_id: u64, permissions: u32)
    ensures
        tag_valid(key, cap_id, owner_id, permissions, hmac_sha256(key, tag_message(cap_id, owner_id, permissions))),
{
}

/// A fresh random key for capability tags.
pub fn init(rng: &mut Rng) -> (key: [u8; 32])
    ensures
        final(rng).hardware() == old(rng).hardware(),
        !old(rng).hardware() ==> {
            &&& key@ == stream_bytes(old(rng).state(), 32)
            &&& final(rng).state() == stream_state(old(rng).state(), 32)
        },
{
    let mut key = [0u8; 32];
    fill_bytes(rng, &mut key);
    key
}

fn tag_bytes(cap_id: u64, owner_id: u64, permissions: u32) -> (m: Vec<u8>)
    ensures
        m@ == tag_message(cap_id, owner_id, permissions),
{
    let mut m = u64_to_le_bytes(cap_id);
    let mut o = u64_to_le_bytes(owner_id);
    let mut p = u32_to_le_bytes(permissions);
    m.append(&mut o);
    m.append(&mut p);
    m
}

/// The tag of a capability.
pub fn generate_tag(key: &[u8; 32], cap_id: u64, owner_id: u64, permissions: u32) -> (tag: [u8; 32])
    ensures
        tag_valid(key@, cap_id, owner_id, permissions, tag@),
{
    let m = tag_bytes(cap_id, owner_id, permissions);
    hmac_sha256_tag(key, m.as_slice())
}

/// `a` and `b` are equal, compared in time independent of where they differ.
pub fn constant_time_eq(a: &[u8; 32], b: &[u8; 32]) -> (r: bool)
    ensures
        r == (a@ == b@),
{
    let mut diff: u8 = 0;
    let mut i: usize = 0;
    while i < 32
        invariant
            i <= 32,
            a@.len() == 32 && b@.len() == 32,
            (diff == 0) == (forall|j: int| 0 <= j < i ==> a@[j] == b@[j]),
        decreases 32 - i,
    {
        let x = a[i];
        let y = b[i];
        let d = diff | (x ^ y);
        assert((d == 0) == (diff == 0 && x == y)) by (bit_vector)
            requires
                d == diff | (x ^ y),
        ;
        diff = d;
        i = i + 1;
    }
    assert((forall|j: int| 0 <= j < 32 ==> a@[j] == b@[j]) ==> a@ =~= b@);
    diff == 0
}

/// The tag is the one the key gives this capability.
pub fn verify_tag(key: &[u8; 32], cap_id: u64, owner_id: u64, permissions: u32, tag: &[u8; 32]) -> (r: bool)
    ensures
        r == tag_valid(key@, cap_id, owner_id, permissions, tag@),
{
    let expected = generate_tag(key, cap_id, owner_id, permissions);
    constant_time_eq(&expected, tag)
}

} // verus!
