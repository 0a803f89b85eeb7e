//! Agent signatures: each agent has a secret key and the public key `SHA256(secret)`; a
//! signature is `SHA256(secret || message)`.
use vstd::prelude::*;
use std::collections::BTreeMap;
use sha2::{Digest, Sha256};
use super::rng::{Rng, fill_bytes, stream_bytes, stream_state};
use super::hmac_cap::constant_time_eq;
use crate::agent::AgentId;
use crate::ipc::key_order::sorted_keys;

verus! {

/// SHA-256 digest of `data`.
pub uninterp spec fn sha256(data: Seq<u8>) -> Seq<u8>;

/// `sha2::Sha256::digest`: the SHA-256 digest of `data`.
#[verifier::external_body]
fn sha256_digest(data: &[u8]) -> (h: [u8; 32])
    ensures
        h@ == sha256(data@),
{
    Sha256::digest(data).into()
}

/// `a` followed by `b`.
fn concat_bytes(a: &[u8], b: &[u8]) -> (r: Vec<u8>)
    ensures
        r@ == a@ + b@,
{
    let mut r: Vec<u8> = Vec::new();
    let mut i: usize = 0;
    while i < a.len()
        invariant
            i <= a@.len(),
            r@ == a@.take(i as int),
        decreases a@.len() - i,
    {
        r.push(a[i]);
        i = i + 1;
        assert(r@ =~= a@.take(i as int));
    }
    let mut j: usize = 0;
    while j < b.len()
        invariant
            j <= b@.len(),
            i == a@.len(),
            r@ == a@ + b@.take(j as int),
        decreases b@.len() - j,
    {
        r.push(b[j]);
        j = j + 1;
        assert(r@ =~= a@ + b@.take(j as int));
    }
    assert(a@.take(i as int) =~= a@);
    assert(b@.take(j as int) =~= b@);
    r
}

/// An agent's key pair.
#[derive(Debug, Clone, Copy)]
pub struct KeyPair {
    pub public_key: [u8; 32],
    secret_key: [u8; 32],
}

/// The agent holding public key `pk` with the lowest id, if any.
pub closed spec fn key_owner(m: Map<AgentId, KeyPair>, pk: Seq<u8>) -> Option<AgentId> {
    if exists|id: AgentId| #[trigger] m.contains_key(id) && m[id].public() == pk {
        Some(choose|id: AgentId| {
            &&& #[trigger] m.contains_key(id)
            &&& m[id].public() == pk
            &&& forall|o: AgentId| #[trigger] m.contains_key(o) && m[o].public() == pk ==> id <= o
        })
    } else {
        None
    }
}

/// The signature `kp` gives `message`.
pub open spec fn signature_of(kp: KeyPair, message: Seq<u8>) -> Seq<u8> {
    sha256(kp.secret() + message)
}

/// `signature` is what the agent holding `pk` (the lowest-numbered one) gives `message`.
pub open spec fn signature_valid(m: Map<AgentId, KeyPair>, pk: Seq<u8>, message: Seq<u8>, signature: Seq<u8>) -> bool {
    match key_owner(m, pk) {
        Some(id) => signature == signature_of(m[id], message),
        None => false,
    }
}

/// A signature made by an agent verifies under its public key, when no other agent holds
/// the same public key.
pub proof fn lemma_sign_then_verify(m: Map<AgentId, KeyPair>, id: AgentId, message: Seq<u8>)
    requires
        m.contains_key(id),
        forall|o: AgentId| #[trigger] m.contains_key(o) && o != id ==> m[o].public() != m[id].public(),
    ensures
        signature_valid(m, m[id].public(), message, signature_of(m[id], message)),
{
    let pk = m[id].public();
    assert(m.contains_key(id) && m[id].public() == pk);
    assert(forall|o: AgentId| #[trigger] m.contains_key(o) && m[o].public() == pk ==> id <= o);
    let w = choose|w: AgentId| {
        &&& #[trigger] m.contains_key(w)
        &&& m[w].public() == pk
        &&& forall|o: AgentId| #[trigger] m.contains_key(o) && m[o].public() == pk ==> w <= o
    };
    assert(w == id);
}

/// Verification refuses every signature but the one the key's owner (the lowest-numbered
/// agent holding it) gives the message, and refuses everything under a key no agent holds.
pub proof fn lemma_verify_rejects(m: Map<AgentId, KeyPair>, pk: Seq<u8>, message: Seq<u8>, signature: Seq<u8>)
    ensures
        (forall|id: AgentId| #[trigger] m.contains_key(id) ==> m[id].public() != pk)
            ==> !signature_valid(m, pk, message, signature),
        key_owner(m, pk) matches Some(id) ==> (signature_valid(m, pk, message, signature)
            <==> signature == signature_of(m[id], message)),
{
}

/// `after` is `before` with a fresh key pair of public key `public` for `agent`, the other
/// agents' pairs unchanged.
pub open spec fn key_generated(before: Map<AgentId, KeyPair>, after: Map<AgentId, KeyPair>, agent: AgentId, public: Seq<u8>) -> bool {
    &&& after.dom() == before.dom().insert(agent)
    &&& forall|k: AgentId| k != agent && #[trigger] before.contains_key(k) ==> after[k] == before[k]
    &&& after[agent].public() == public
}

/// After a key pair is generated for an agent, its public key is the one generation
/// returned, and an agent never given a key pair still has none.
pub proof fn lemma_public_key_after_generate(
    before: Map<AgentId, KeyPair>,
    after: Map<AgentId, KeyPair>,
    agent: AgentId,
    public: Seq<u8>,
    other: AgentId,
)
    requires
        key_generated(before, after, agent, public),
    ensures
        after.contains_key(agent) && after[agent].public() == public,
        other != agent && !before.contains_key(other) ==> !after.contains_key(other),
{
    assert(after.dom().contains(agent));
}

impl KeyPair {
    /// The secret key.
    pub closed spec fn secret(&self) -> Seq<u8> {
        self.secret_key@
    }

    /// The public key.
    pub closed spec fn public(&self) -> Seq<u8> {
        self.public_key@
    }

    /// A key pair with a random secret.
    pub fn generate(rng: &mut Rng) -> (kp: KeyPair)
        ensures
            kp.public() == sha256(kp.secret()),
            final(rng).hardware() == old(rng).hardware(),
            !old(rng).hardware() ==> {
                &&& kp.secret() == stream_bytes(old(rng).state(), 32)
                &&& final(rng).state() == stream_state(old(rng).state(), 32)
            },
    {
        let mut secret_key = [0u8; 32];
        fill_bytes(rng, &mut secret_key);
        let public_key = sha256_digest(&secret_key);
        KeyPair { public_key, secret_key }
    }

    /// The signature of `message`: `SHA256(secret || message)`.
    pub fn sign(&self, message: &[u8]) -> (s: [u8; 32])
        ensures
            s@ == signature_of(*self, message@),
    {
        let data = concat_bytes(&self.secret_key, message);
        sha256_digest(data.as_slice())
    }

    /// `signature` is the signature of `message` by the agent holding `public_key` (the
    /// lowest-numbered one, should several hold it); `false` when no agent holds it.
    pub fn verify(keys: &AgentKeys, public_key: &[u8; 32], message: &[u8], signature: &[u8; 32]) -> (r: bool)
        ensures
            r == signature_valid(keys.pairs(), public_key@, message@, signature@),
    {
        broadcast use vstd::std_specs::btree::group_btree_axioms;
        let ghost m = keys.pairs();
        let ids = sorted_keys(&keys.map);
        let mut i: usize = 0;
        while i < ids.len()
            invariant
                i <= ids@.len(),
                m == keys.pairs(),
                ids@.to_set() == m.dom(),
                forall|a: int, b: int| 0 <= a < b < ids@.len() ==> ids@[a] < ids@[b],
                forall|j: int| 0 <= j < i ==> m[#[trigger] ids@[j]].public_key@ != public_key@,
            decreases ids@.len() - i,
        {
            let id = ids[i];
            proof {
                assert(ids@.to_set().contains(id)) by {
                    assert(ids@[i as int] == id);
                }
            }
            let kp = match keys.map.get(&id) {
                Some(kp) => *kp,
                None => {
                    assert(false);
                    return false;
                },
            };
            if constant_time_eq(&kp.public_key, public_key) {
                proof {
                    assert forall|o: AgentId| #[trigger] m.contains_key(o) && m[o].public_key@ == public_key@ implies id <= o by {
                        assert(ids@.to_set().contains(o));
                        let x = choose|x: int| 0 <= x < ids@.len() && ids@[x] == o;
                        if x < i {
                            assert(m[ids@[x]].public_key@ != public_key@);
                        } else if x > i {
                            assert(ids@[i as int] < ids@[x]);
                        }
                    }
                    let w = choose|w: AgentId| {
                        &&& #[trigger] m.contains_key(w)
                        &&& m[w].public() == public_key@
                        &&& forall|o: AgentId| #[trigger] m.contains_key(o) && m[o].public_key@ == public_key@ ==> w <= o
                    };
                    assert(w <= id && id <= w);
                    assert(key_owner(m, public_key@) == Some(id));
                }
                let expected = kp.sign(message);
                let r = constant_time_eq(&expected, signature);
                assert(r == signature_valid(m, public_key@, message@, signature@));
                return r;
            }
            i = i + 1;
        }
        proof {
            assert forall|id: AgentId| #[trigger] m.contains_key(id) implies m[id].public_key@ != public_key@ by {
                assert(ids@.to_set().contains(id));
                let x = choose|x: int| 0 <= x < ids@.len() && ids@[x] == id;
                assert(m[ids@[x]].public_key@ != public_key@);
            }
        }
        false
    }
}

/// The agents' key pairs.
pub struct AgentKeys {
    map: BTreeMap<AgentId, KeyPair>,
}

impl AgentKeys {
    pub closed spec fn pairs(&self) -> Map<AgentId, KeyPair> {
        self.map@
    }

    pub fn new() -> (k: Self)
        ensures
            k.pairs() == Map::<AgentId, KeyPair>::empty(),
    {
        AgentKeys { map: BTreeMap::new() }
    }
}

/// Give `agent_id` a fresh key pair (replacing any it had) and return its public key.
pub fn generate_agent_keypair(keys: &mut AgentKeys, rng: &mut Rng, agent_id: AgentId) -> (public: [u8; 32])
    ensures
        key_generated(old(keys).pairs(), final(keys).pairs(), agent_id, public@),
        public@ == sha256(final(keys).pairs()[agent_id].secret()),
        final(rng).hardware() == old(rng).hardware(),
        !old(rng).hardware() ==> {
            &&& final(keys).pairs()[agent_id].secret() == stream_bytes(old(rng).state(), 32)
            &&& final(rng).state() == stream_state(old(rng).state(), 32)
        },
{
    broadcast use vstd::std_specs::btree::group_btree_axioms;
    let kp = KeyPair::generate(rng);
    let public = kp.public_key;
    keys.map.insert(agent_id, kp);
    assert(keys.pairs().dom() =~= old(keys).pairs().dom().insert(agent_id));
    public
}

/// The signature of `message` by `agent_id`, if the agent has a key pair.
pub fn sign(keys: &AgentKeys, agent_id: AgentId, message: &[u8]) -> (s: Option<[u8; 32]>)
    ensures
        match s {
            Some(sig) => keys.pairs().contains_key(agent_id) && sig@ == signature_of(keys.pairs()[agent_id], message@),
            None => !keys.pairs().contains_key(agent_id),
        },
{
    broadcast use vstd::std_specs::btree::group_btree_axioms;
    match keys.map.get(&agent_id) {
        Some(kp) => Some(kp.sign(message)),
        None => None,
    }
}

/// The public key of `agent_id`, if the agent has a key pair.
pub fn get_public_key(keys: &AgentKeys, agent_id: AgentId) -> (p: Option<[u8; 32]>)
    ensures
        match p {
            Some(pk) => keys.pairs().contains_key(agent_id) && pk@ == keys.pairs()[agent_id].public(),
            None => !keys.pairs().contains_key(agent_id),
        },
{
    broadcast use vstd::std_specs::btree::group_btree_axioms;
    match keys.map.get(&agent_id) {
        Some(kp) => Some(kp.public_key),
        None => None,
    }
}

} // verus!
