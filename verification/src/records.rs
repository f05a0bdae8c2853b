//! The persisted proof records and their binary codec: fixed 32-byte text
//! slots, a length-prefixed payload, a little-endian timestamp and a validity
//! flag. Encoding truncates over-long text rather than failing; decoding
//! tolerates short input, falling back to empty or zero fields.

use vstd::bytes::*;
use vstd::prelude::*;
use vstd::utf8::*;

use crate::codec::{
    lemma_slot_roundtrip, push_bytes, push_u32_le, push_u64_le, read_slot_text, read_u32_le_at,
    read_u64_le_at, spec_fits_slot, spec_slot_of, spec_slot_text, spec_take_at, spec_u32_le_at,
    spec_u64_le_at, take_at, write_slot,
};

verus! {

/// The outcome of a verification request, as persisted: which proof it is,
/// whether it verified, and when.
#[derive(Debug)]
pub struct VerificationResult {
    pub proof_id: String,
    pub is_valid: bool,
    pub timestamp: u64,
}

/// The mathematical content of a [`VerificationResult`].
#[verifier::ext_equal]
pub struct VerificationView {
    pub proof_id: Seq<char>,
    pub is_valid: bool,
    pub timestamp: u64,
}

impl View for VerificationResult {
    type V = VerificationView;

    open spec fn view(&self) -> VerificationView {
        VerificationView {
            proof_id: self.proof_id@,
            is_valid: self.is_valid,
            timestamp: self.timestamp,
        }
    }
}

/// A stored balance-ownership proof: the proof and asset identifiers, the
/// Merkle root it was issued against, the opaque proof bytes, and the
/// anonymized reference that stands in for the identity.
#[derive(Debug)]
pub struct TokenProofResult {
    pub proof_id: String,
    pub token_id: String,
    pub merkle_root: String,
    pub proof_data: Vec<u8>,
    pub anonymous_reference: String,
    pub timestamp: u64,
    pub is_valid: bool,
}

/// The mathematical content of a [`TokenProofResult`].
#[verifier::ext_equal]
pub struct TokenProofView {
    pub proof_id: Seq<char>,
    pub token_id: Seq<char>,
    pub merkle_root: Seq<char>,
    pub proof_data: Seq<u8>,
    pub anonymous_reference: Seq<char>,
    pub timestamp: u64,
    pub is_valid: bool,
}

impl View for TokenProofResult {
    type V = TokenProofView;

    open spec fn view(&self) -> TokenProofView {
        TokenProofView {
            proof_id: self.proof_id@,
            token_id: self.token_id@,
            merkle_root: self.merkle_root@,
            proof_data: self.proof_data@,
            anonymous_reference: self.anonymous_reference@,
            timestamp: self.timestamp,
            is_valid: self.is_valid,
        }
    }
}

/// Copies a byte vector.
pub fn clone_bytes(v: &Vec<u8>) -> (r: Vec<u8>)
    ensures
        r@ == v@,
{
    vstd::slice::slice_to_vec(v.as_slice())
}

impl Clone for VerificationResult {
    fn clone(&self) -> (r: Self)
        ensures
            r@ == self@,
    {
        VerificationResult {
            proof_id: self.proof_id.clone(),
            is_valid: self.is_valid,
            timestamp: self.timestamp,
        }
    }
}

impl Clone for TokenProofResult {
    fn clone(&self) -> (r: Self)
        ensures
            r@ == self@,
    {
        TokenProofResult {
            proof_id: self.proof_id.clone(),
            token_id: self.token_id.clone(),
            merkle_root: self.merkle_root.clone(),
            proof_data: clone_bytes(&self.proof_data),
            anonymous_reference: self.anonymous_reference.clone(),
            timestamp: self.timestamp,
            is_valid: self.is_valid,
        }
    }
}

/// The encoded form of a verification result: the proof identifier's slot,
/// the validity flag, the timestamp.
pub open spec fn spec_verification_bytes(v: VerificationView) -> Seq<u8> {
    spec_slot_of(v.proof_id) + seq![if v.is_valid {
        1u8
    } else {
        0u8
    }] + spec_u64_to_le_bytes(v.timestamp)
}

/// What any byte string decodes to as a verification result.
pub open spec fn spec_decode_verification(b: Seq<u8>) -> VerificationView {
    VerificationView {
        proof_id: spec_slot_text(spec_take_at(b, 0, 32)),
        is_valid: b.len() > 32 && b[32] != 0,
        timestamp: spec_u64_le_at(b, 33),
    }
}

impl VerificationResult {
    /// Encodes the record: 32-byte identifier slot, one flag byte, eight
    /// little-endian timestamp bytes.
    pub fn to_bytes(&self) -> (b: Vec<u8>)
        ensures
            b@ == spec_verification_bytes(self@),
    {
        let mut b: Vec<u8> = Vec::new();
        write_slot(&mut b, self.proof_id.as_str());
        b.push(if self.is_valid {
            1
        } else {
            0
        });
        push_u64_le(&mut b, self.timestamp);
        proof {
            assert(b@ =~= spec_verification_bytes(self@));
        }
        b
    }

    /// Decodes a record from any byte string: the identifier from the first
    /// slot, the flag and timestamp from what remains, defaulting to false
    /// and zero on short input.
    pub fn from_bytes(bytes: &Vec<u8>) -> (r: Self)
        ensures
            r@ == spec_decode_verification(bytes@),
    {
        let proof_id = read_slot_text(bytes, 0);
        let is_valid = if bytes.len() > 32 {
            bytes[32] != 0
        } else {
            false
        };
        let timestamp = read_u64_le_at(bytes, 33);
        let r = VerificationResult { proof_id, is_valid, timestamp };
        proof {
            assert(r@ =~= spec_decode_verification(bytes@));
        }
        r
    }
}

/// Decoding the encoding of a verification result recovers every field, for
/// records whose identifier fits its slot.
pub proof fn lemma_verification_roundtrip(v: VerificationView)
    requires
        spec_fits_slot(v.proof_id),
    ensures
        spec_decode_verification(spec_verification_bytes(v)) == v,
{
    let b = spec_verification_bytes(v);
    lemma_auto_spec_u64_to_from_le_bytes();
    assert(b.len() == 41);
    assert(spec_take_at(b, 0, 32) =~= spec_slot_of(v.proof_id));
    lemma_slot_roundtrip(v.proof_id);
    assert(b.subrange(33, 41) =~= spec_u64_to_le_bytes(v.timestamp));
    assert(spec_decode_verification(b) =~= v);
}

/// The encoded form of a balance-ownership proof record: three text slots,
/// the length-prefixed proof bytes, the anonymized reference's slot, the
/// timestamp, and the validity flag.
pub open spec fn spec_token_proof_bytes(v: TokenProofView) -> Seq<u8> {
    spec_slot_of(v.proof_id) + spec_slot_of(v.token_id) + spec_slot_of(v.merkle_root)
        + spec_u32_to_le_bytes(v.proof_data.len() as u32) + v.proof_data + spec_slot_of(
        v.anonymous_reference,
    ) + spec_u64_to_le_bytes(v.timestamp) + seq![if v.is_valid {
        1u8
    } else {
        0u8
    }]
}

/// The proof payload that a record's bytes advertise, when its length prefix
/// is honoured by the bytes that remain; empty otherwise.
pub open spec fn spec_tp_data(b: Seq<u8>) -> Seq<u8> {
    if b.len() >= 100 && b.len() >= 100 + spec_u32_le_at(b, 96) as int {
        b.subrange(100, 100 + spec_u32_le_at(b, 96) as int)
    } else {
        Seq::<u8>::empty()
    }
}

/// Where the anonymized reference's slot begins: after the payload when the
/// payload is present, after its length prefix when only that is, after the
/// three leading slots otherwise.
pub open spec fn spec_tp_anon_off(b: Seq<u8>) -> int {
    if b.len() >= 100 {
        if b.len() >= 100 + spec_u32_le_at(b, 96) as int {
            100 + spec_u32_le_at(b, 96) as int
        } else {
            100
        }
    } else {
        96
    }
}

/// Where the timestamp begins: after however much of the anonymized
/// reference's slot the bytes hold.
pub open spec fn spec_tp_ts_off(b: Seq<u8>) -> int {
    let off = spec_tp_anon_off(b);
    if b.len() <= off {
        off
    } else if b.len() - off >= 32 {
        off + 32
    } else {
        b.len() as int
    }
}

/// What any byte string decodes to as a balance-ownership proof record.
pub open spec fn spec_decode_token_proof(b: Seq<u8>) -> TokenProofView {
    TokenProofView {
        proof_id: spec_slot_text(spec_take_at(b, 0, 32)),
        token_id: spec_slot_text(spec_take_at(b, 32, 32)),
        merkle_root: spec_slot_text(spec_take_at(b, 64, 32)),
        proof_data: spec_tp_data(b),
        anonymous_reference: spec_slot_text(spec_take_at(b, spec_tp_anon_off(b), 32)),
        timestamp: spec_u64_le_at(b, spec_tp_ts_off(b)),
        is_valid: b.len() > spec_tp_ts_off(b) + 8 && b[spec_tp_ts_off(b) + 8] != 0,
    }
}

impl TokenProofResult {
    /// Encodes the record. The payload carries a four-byte little-endian
    /// length prefix, so it must fit that prefix.
    pub fn to_bytes(&self) -> (b: Vec<u8>)
        requires
            self.proof_data@.len() <= u32::MAX,
        ensures
            b@ == spec_token_proof_bytes(self@),
    {
        let mut b: Vec<u8> = Vec::new();
        write_slot(&mut b, self.proof_id.as_str());
        write_slot(&mut b, self.token_id.as_str());
        write_slot(&mut b, self.merkle_root.as_str());
        push_u32_le(&mut b, self.proof_data.len() as u32);
        push_bytes(&mut b, &self.proof_data);
        write_slot(&mut b, self.anonymous_reference.as_str());
        push_u64_le(&mut b, self.timestamp);
        b.push(if self.is_valid {
            1
        } else {
            0
        });
        proof {
            assert(b@ =~= spec_token_proof_bytes(self@));
        }
        b
    }

    /// Decodes a record from any byte string, reading the fields in order
    /// and defaulting each to empty, zero or false once the input runs out.
    pub fn from_bytes(bytes: &Vec<u8>) -> (r: Self)
        ensures
            r@ == spec_decode_token_proof(bytes@),
    {
        let proof_id = read_slot_text(bytes, 0);
        let token_id = read_slot_text(bytes, 32);
        let merkle_root = read_slot_text(bytes, 64);

        let mut proof_data: Vec<u8> = Vec::new();
        let mut offset: usize = 96;
        if bytes.len() >= 100 {
            let advertised = read_u32_le_at(bytes, 96) as usize;
            offset = 100;
            if bytes.len() - 100 >= advertised {
                proof_data = take_at(bytes, 100, advertised);
                offset = 100 + advertised;
                proof {
                    assert(proof_data@ =~= spec_tp_data(bytes@));
                }
            }
        }
        assert(offset == spec_tp_anon_off(bytes@));

        let anonymous_reference = read_slot_text(bytes, offset);
        let remaining: usize = if offset < bytes.len() {
            bytes.len() - offset
        } else {
            0
        };
        let anon_len: usize = if remaining >= 32 {
            32
        } else {
            remaining
        };
        let ts_off = offset + anon_len;
        assert(ts_off == spec_tp_ts_off(bytes@));

        let timestamp = read_u64_le_at(bytes, ts_off);
        let is_valid = if ts_off <= bytes.len() && bytes.len() - ts_off > 8 {
            bytes[ts_off + 8] != 0
        } else {
            false
        };

        let r = TokenProofResult {
            proof_id,
            token_id,
            merkle_root,
            proof_data,
            anonymous_reference,
            timestamp,
            is_valid,
        };
        proof {
            assert(r@ =~= spec_decode_token_proof(bytes@));
        }
        r
    }
}

/// Decoding the encoding of a balance-ownership proof record recovers every
/// field, for records whose text fields fit their slots.
pub proof fn lemma_token_proof_roundtrip(v: TokenProofView)
    requires
        spec_fits_slot(v.proof_id),
        spec_fits_slot(v.token_id),
        spec_fits_slot(v.merkle_root),
        spec_fits_slot(v.anonymous_reference),
        v.proof_data.len() <= u32::MAX,
    ensures
        spec_decode_token_proof(spec_token_proof_bytes(v)) == v,
{
    let b = spec_token_proof_bytes(v);
    let dlen = v.proof_data.len() as int;
    lemma_auto_spec_u32_to_from_le_bytes();
    lemma_auto_spec_u64_to_from_le_bytes();
    assert(b.len() == 141 + dlen);

    assert(spec_take_at(b, 0, 32) =~= spec_slot_of(v.proof_id));
    assert(spec_take_at(b, 32, 32) =~= spec_slot_of(v.token_id));
    assert(spec_take_at(b, 64, 32) =~= spec_slot_of(v.merkle_root));
    lemma_slot_roundtrip(v.proof_id);
    lemma_slot_roundtrip(v.token_id);
    lemma_slot_roundtrip(v.merkle_root);

    assert(b.subrange(96, 100) =~= spec_u32_to_le_bytes(v.proof_data.len() as u32));
    assert(spec_u32_le_at(b, 96) == v.proof_data.len() as u32);
    assert(b.subrange(100, 100 + dlen) =~= v.proof_data);
    assert(spec_tp_anon_off(b) == 100 + dlen);

    assert(spec_take_at(b, 100 + dlen, 32) =~= spec_slot_of(v.anonymous_reference));
    lemma_slot_roundtrip(v.anonymous_reference);
    assert(spec_tp_ts_off(b) == 132 + dlen);

    assert(b.subrange(132 + dlen, 140 + dlen) =~= spec_u64_to_le_bytes(v.timestamp));
    assert(b[140 + dlen] == if v.is_valid {
        1u8
    } else {
        0u8
    });
    assert(spec_decode_token_proof(b) =~= v);
}

} // verus!
