//! Deterministic byte images and digests: the framing of a proposal into
//! bytes, the payloads that signers commit to, and the 32-byte digest that
//! names a proposal.

use vstd::prelude::*;
use vstd::bytes::{spec_u128_to_le_bytes, spec_u32_to_le_bytes, spec_u64_to_le_bytes};
use vstd::bytes::{u128_to_le_bytes, u32_to_le_bytes, u64_to_le_bytes};
use crate::types::Transaction;
use crate::HashType;

verus! {

/// The Blake2b 256-bit digest of a byte string. Named, not modelled: the
/// same bytes give the same digest in every call.
pub uninterp spec fn blake2_of(input: Seq<u8>) -> Seq<u8>;

/// Relies on ink's `hash_bytes` with the `Blake2x256` hasher: a 32-byte
/// digest computed from the input bytes alone.
#[verifier::external_body]
fn blake2_256(input: &Vec<u8>) -> (out: HashType)
    ensures
        out@ == blake2_of(input@),
{
    let mut output = [0u8; 32];
    ink::env::hash_bytes::<ink::env::hash::Blake2x256>(input.as_slice(), &mut output);
    output
}

/// Relies on parity-scale-codec's `Encode` for `(u64, u128, u32)`:
/// fixed-width integers encode to their little-endian bytes and a tuple to
/// the concatenation of its fields' encodings.
#[verifier::external_body]
fn scale_encode_delegation(delegatee: u64, nonce: u128, expiry: u32) -> (r: Vec<u8>)
    ensures
        r@ == spec_u64_to_le_bytes(delegatee) + spec_u128_to_le_bytes(nonce)
            + spec_u32_to_le_bytes(expiry),
{
    parity_scale_codec::Encode::encode(&(delegatee, nonce, expiry))
}

/// The payload a delegation-by-signature signer commits to.
pub open spec fn delegation_payload(delegatee: u64, nonce: u128, expiry: u32) -> Seq<u8> {
    spec_u64_to_le_bytes(delegatee) + spec_u128_to_le_bytes(nonce) + spec_u32_to_le_bytes(expiry)
}

/// The digest of the delegation payload, handed to the verification
/// collaborator.
pub open spec fn delegation_digest(delegatee: u64, nonce: u128, expiry: u32) -> Seq<u8> {
    blake2_of(delegation_payload(delegatee, nonce, expiry))
}

/// Computes the delegation digest: SCALE-encodes `(delegatee, nonce,
/// expiry)` and hashes the encoding.
pub fn hash_delegation_payload(delegatee: u64, nonce: u128, expiry: u32) -> (h: HashType)
    ensures
        h@ == delegation_digest(delegatee, nonce, expiry),
{
    let encoded = scale_encode_delegation(delegatee, nonce, expiry);
    blake2_256(&encoded)
}

/// A digest's bytes as a vector, for handing to the verification
/// collaborator.
pub fn hash_to_vec(h: &HashType) -> (r: Vec<u8>)
    ensures
        r@ == h@,
{
    let mut out: Vec<u8> = Vec::new();
    append_hash(&mut out, h);
    out
}

/// The byte image of one transaction: callee, selector, transferred value
/// and gas bound as little-endian words, then the length-prefixed input.
pub open spec fn transaction_bytes(t: Transaction) -> Seq<u8> {
    spec_u64_to_le_bytes(t.callee) + spec_u32_to_le_bytes(t.selector) + spec_u128_to_le_bytes(
        t.transferred_value,
    ) + spec_u64_to_le_bytes(t.gas_limit) + spec_u64_to_le_bytes(t.input@.len() as u64) + t.input@
}

/// The byte images of a batch, in order.
pub open spec fn transactions_bytes(txs: Seq<Transaction>) -> Seq<u8>
    decreases txs.len(),
{
    if txs.len() == 0 {
        Seq::<u8>::empty()
    } else {
        transactions_bytes(txs.drop_last()) + transaction_bytes(txs.last())
    }
}

/// The byte image of a whole proposal: the batch length, the batch, and the
/// description hash.
pub open spec fn proposal_bytes(txs: Seq<Transaction>, description_hash: Seq<u8>) -> Seq<u8> {
    spec_u64_to_le_bytes(txs.len() as u64) + transactions_bytes(txs) + description_hash
}

/// The deterministic id of a proposal: the digest of its byte image.
/// Value-equal proposals collide to the same id by design.
pub open spec fn proposal_digest(txs: Seq<Transaction>, description_hash: Seq<u8>) -> Seq<u8> {
    blake2_of(proposal_bytes(txs, description_hash))
}

/// The payload a vote-by-signature signer commits to: the proposal id, the
/// vote direction, and the length-prefixed reason and parameter bytes.
pub open spec fn vote_payload(id: Seq<u8>, support: u8, reason: Seq<u8>, params: Seq<u8>) -> Seq<
    u8,
> {
    id + seq![support] + spec_u64_to_le_bytes(reason.len() as u64) + reason + spec_u64_to_le_bytes(
        params.len() as u64,
    ) + params
}

/// The digest of the vote payload, handed to the verification collaborator.
pub open spec fn vote_digest(id: Seq<u8>, support: u8, reason: Seq<u8>, params: Seq<u8>) -> Seq<
    u8,
> {
    blake2_of(vote_payload(id, support, reason, params))
}

fn append_u32(out: &mut Vec<u8>, x: u32)
    ensures
        final(out)@ == old(out)@ + spec_u32_to_le_bytes(x),
{
    let mut bytes = u32_to_le_bytes(x);
    out.append(&mut bytes);
}

fn append_u64(out: &mut Vec<u8>, x: u64)
    ensures
        final(out)@ == old(out)@ + spec_u64_to_le_bytes(x),
{
    let mut bytes = u64_to_le_bytes(x);
    out.append(&mut bytes);
}

fn append_u128(out: &mut Vec<u8>, x: u128)
    ensures
        final(out)@ == old(out)@ + spec_u128_to_le_bytes(x),
{
    let mut bytes = u128_to_le_bytes(x);
    out.append(&mut bytes);
}

fn append_bytes(out: &mut Vec<u8>, b: &Vec<u8>)
    ensures
        final(out)@ == old(out)@ + b@,
{
    let mut i: usize = 0;
    while i < b.len()
        invariant
            i <= b@.len(),
            out@ == old(out)@ + b@.take(i as int),
        decreases b@.len() - i,
    {
        out.push(b[i]);
        proof {
            assert(old(out)@ + b@.take(i + 1) =~= (old(out)@ + b@.take(i as int)).push(
                b@[i as int],
            ));
        }
        i += 1;
    }
    proof {
        assert(b@.take(b@.len() as int) =~= b@);
    }
}

fn append_hash(out: &mut Vec<u8>, h: &HashType)
    ensures
        final(out)@ == old(out)@ + h@,
{
    let s = h.as_slice();
    let mut i: usize = 0;
    while i < s.len()
        invariant
            s@ == h@,
            i <= s@.len(),
            out@ == old(out)@ + s@.take(i as int),
        decreases s@.len() - i,
    {
        out.push(s[i]);
        proof {
            assert(old(out)@ + s@.take(i + 1) =~= (old(out)@ + s@.take(i as int)).push(
                s@[i as int],
            ));
        }
        i += 1;
    }
    proof {
        assert(s@.take(s@.len() as int) =~= s@);
    }
}

fn append_transaction(out: &mut Vec<u8>, t: &Transaction)
    ensures
        final(out)@ == old(out)@ + transaction_bytes(*t),
{
    append_u64(out, t.callee);
    append_u32(out, t.selector);
    append_u128(out, t.transferred_value);
    append_u64(out, t.gas_limit);
    append_u64(out, t.input.len() as u64);
    append_bytes(out, &t.input);
    proof {
        assert(final(out)@ =~= old(out)@ + transaction_bytes(*t));
    }
}

/// The whole proposal framed into bytes.
fn encode_proposal(txs: &Vec<Transaction>, description_hash: &HashType) -> (r: Vec<u8>)
    ensures
        r@ == proposal_bytes(txs@, description_hash@),
{
    let mut out: Vec<u8> = Vec::new();
    append_u64(&mut out, txs.len() as u64);
    let mut i: usize = 0;
    while i < txs.len()
        invariant
            i <= txs@.len(),
            out@ == spec_u64_to_le_bytes(txs@.len() as u64) + transactions_bytes(
                txs@.take(i as int),
            ),
        decreases txs@.len() - i,
    {
        append_transaction(&mut out, &txs[i]);
        proof {
            assert(txs@.take(i + 1).drop_last() =~= txs@.take(i as int));
            assert(transactions_bytes(txs@.take(i + 1)) == transactions_bytes(txs@.take(i as int))
                + transaction_bytes(txs@[i as int]));
            assert(spec_u64_to_le_bytes(txs@.len() as u64) + transactions_bytes(txs@.take(i + 1))
                =~= (spec_u64_to_le_bytes(txs@.len() as u64) + transactions_bytes(
                txs@.take(i as int),
            )) + transaction_bytes(txs@[i as int]));
        }
        i += 1;
    }
    proof {
        assert(txs@.take(txs@.len() as int) =~= txs@);
    }
    let mut framed = out;
    append_hash(&mut framed, description_hash);
    proof {
        assert(framed@ =~= proposal_bytes(txs@, description_hash@));
    }
    framed
}

/// Rebuilds a proposal's id from its details: the digest of the framed
/// batch and description hash.
pub fn hash_proposal(txs: &Vec<Transaction>, description_hash: &HashType) -> (id: HashType)
    ensures
        id@ == proposal_digest(txs@, description_hash@),
{
    let framed = encode_proposal(txs, description_hash);
    blake2_256(&framed)
}

/// The digest of a proposal description's bytes.
pub open spec fn description_digest(description: Seq<u8>) -> Seq<u8> {
    blake2_of(description)
}

/// Hashes a proposal description.
pub fn hash_description(description: &Vec<u8>) -> (h: HashType)
    ensures
        h@ == description_digest(description@),
{
    blake2_256(description)
}

/// Computes the vote digest: frames the signed vote payload and hashes it.
pub fn hash_vote_payload(id: &HashType, support: u8, reason: &Vec<u8>, params: &Vec<u8>) -> (h:
    HashType)
    ensures
        h@ == vote_digest(id@, support, reason@, params@),
{
    let mut out: Vec<u8> = Vec::new();
    append_hash(&mut out, id);
    out.push(support);
    proof {
        assert(out@ =~= id@ + seq![support]);
    }
    append_u64(&mut out, reason.len() as u64);
    append_bytes(&mut out, reason);
    append_u64(&mut out, params.len() as u64);
    append_bytes(&mut out, params);
    proof {
        assert(out@ =~= vote_payload(id@, support, reason@, params@));
    }
    blake2_256(&out)
}

} // verus!
