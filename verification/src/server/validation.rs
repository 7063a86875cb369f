//! Keys and signatures: ed25519 over single transactions, BLS over epoch roots.

use crate::error::ServerError;
use crate::grpc_handler::outer::{
    PeerTransactionRequest, PeerTransactionRequestView, TransactionRequest,
    TransactionRequestView,
};
use crate::server::{position_of, MerkleVerseServer, MerkleVerseServerView, ServerId};
use bls_signatures::Serialize;
use std::collections::hash_map::DefaultHasher;
use std::hash::Hasher;
use vstd::bytes::{spec_u32_to_le_bytes, spec_u64_to_le_bytes, u32_to_le_bytes, u64_to_le_bytes};
use vstd::std_specs::convert::FromSpecImpl;
use vstd::std_specs::hash::DefaultHasherAdditionalSpecFns;
use ed25519_dalek::Signer;
use ed25519_dalek::Verifier;
use vstd::prelude::*;

verus! {

/// Whether 48 bytes are the compressed form of a BLS public key.
pub uninterp spec fn bls_key_decodes(bytes: Seq<u8>) -> bool;

/// Whether 96 bytes are the compressed form of a BLS signature.
pub uninterp spec fn bls_signature_decodes(bytes: Seq<u8>) -> bool;

/// The compressed BLS public key that belongs to a seed.
pub uninterp spec fn bls_public_key_of(seed: Seq<u8>) -> Seq<u8>;

/// The compressed BLS signature of a message under the key of a seed.
pub uninterp spec fn bls_signature_of(seed: Seq<u8>, message: Seq<u8>) -> Seq<u8>;

/// The compressed sum of two BLS signatures.
pub uninterp spec fn bls_aggregate_of(first: Seq<u8>, second: Seq<u8>) -> Seq<u8>;

/// Whether key and signature decode and the key accepts the signature on the message.
pub uninterp spec fn bls_accepts(key: Seq<u8>, message: Seq<u8>, signature: Seq<u8>) -> bool;

/// Whether bytes are an ed25519 verifying key.
pub uninterp spec fn ed25519_key_decodes(bytes: Seq<u8>) -> bool;

/// The ed25519 verifying key that belongs to a seed.
pub uninterp spec fn ed25519_public_key_of(seed: Seq<u8>) -> Seq<u8>;

/// The ed25519 signature of a message under the key of a seed.
pub uninterp spec fn ed25519_signature_of(seed: Seq<u8>, message: Seq<u8>) -> Seq<u8>;

/// Whether key and signature parse and the key accepts the signature on the message.
pub uninterp spec fn ed25519_accepts(key: Seq<u8>, message: Seq<u8>, signature: Seq<u8>) -> bool;

#[verifier::external_type_specification]
#[verifier::external_body]
pub struct ExBlsError(bls_signatures::Error);

#[verifier::external_type_specification]
#[verifier::external_body]
pub struct ExSignatureError(ed25519_dalek::SignatureError);

/// `bls_signatures::PublicKey::from_bytes`: succeeds on the bytes that are a
/// compressed public key, and on no others.
#[verifier::external_body]
pub(crate) fn bls_check_key(bytes: &[u8]) -> (res: Result<(), bls_signatures::Error>)
    ensures
        res is Ok <==> bls_key_decodes(bytes@),
{
    match bls_signatures::PublicKey::from_bytes(bytes) {
        Ok(_) => Ok(()),
        Err(e) => Err(e),
    }
}

/// `bls_signatures::Signature::from_bytes`: succeeds on the bytes that are a
/// compressed signature, and on no others.
#[verifier::external_body]
pub(crate) fn bls_check_signature(bytes: &[u8]) -> (res: Result<(), bls_signatures::Error>)
    ensures
        res is Ok <==> bls_signature_decodes(bytes@),
{
    match bls_signatures::Signature::from_bytes(bytes) {
        Ok(_) => Ok(()),
        Err(e) => Err(e),
    }
}

/// `bls_signatures::PrivateKey::public_key` on the key that `PrivateKey::new`
/// derives from the seed, serialised: a compressed point of 48 bytes. `new`
/// panics on fewer than 32 bytes.
#[verifier::external_body]
pub(crate) fn bls_public_key(seed: &[u8]) -> (res: Vec<u8>)
    requires
        seed@.len() >= 32,
    ensures
        res@ == bls_public_key_of(seed@),
        res@.len() == 48,
{
    bls_signatures::PrivateKey::new(seed).public_key().as_bytes()
}

/// `bls_signatures::PrivateKey::sign` under the key that `PrivateKey::new` derives
/// from the seed, serialised. What the crate serialises it reads back: the result
/// decodes as a signature.
#[verifier::external_body]
pub(crate) fn bls_sign(seed: &[u8], message: &[u8]) -> (res: Vec<u8>)
    requires
        seed@.len() >= 32,
    ensures
        res@ == bls_signature_of(seed@, message@),
        bls_signature_decodes(res@),
{
    bls_signatures::PrivateKey::new(seed).sign(message).as_bytes()
}

/// `bls_signatures::aggregate` on two signatures. It fails only on an empty list,
/// so with two signatures that decode it succeeds, and its serialised sum decodes.
#[verifier::external_body]
pub(crate) fn bls_aggregate(first: &[u8], second: &[u8]) -> (res: Result<Vec<u8>, bls_signatures::Error>)
    ensures
        res is Ok <==> (bls_signature_decodes(first@) && bls_signature_decodes(second@)),
        res matches Ok(sum) ==> (sum@ == bls_aggregate_of(first@, second@)
            && bls_signature_decodes(sum@)),
{
    let first = bls_signatures::Signature::from_bytes(first)?;
    let second = bls_signatures::Signature::from_bytes(second)?;
    Ok(bls_signatures::aggregate(&[first, second])?.as_bytes())
}

/// `bls_signatures::PublicKey::verify`, on a key and a signature read from bytes.
#[verifier::external_body]
pub(crate) fn bls_verify(key: &[u8], message: &[u8], signature: &[u8]) -> (res: bool)
    ensures
        res == bls_accepts(key@, message@, signature@),
{
    let key = bls_signatures::PublicKey::from_bytes(key);
    let signature = bls_signatures::Signature::from_bytes(signature);
    match (key, signature) {
        (Ok(key), Ok(signature)) => key.verify(signature, message),
        _ => false,
    }
}

/// `ed25519_dalek::VerifyingKey::try_from` on a byte slice: succeeds on the 32
/// bytes that decompress to a curve point, and on no others.
#[verifier::external_body]
pub(crate) fn ed25519_check_key(bytes: &[u8]) -> (res: Result<(), ed25519_dalek::SignatureError>)
    ensures
        res is Ok <==> ed25519_key_decodes(bytes@),
{
    match ed25519_dalek::VerifyingKey::try_from(bytes) {
        Ok(_) => Ok(()),
        Err(e) => Err(e),
    }
}

/// `ed25519_dalek::SigningKey::verifying_key` of the key made from the seed, in
/// its 32 bytes.
#[verifier::external_body]
pub(crate) fn ed25519_public_key(seed: &[u8]) -> (res: Vec<u8>)
    requires
        seed@.len() == 32,
    ensures
        res@ == ed25519_public_key_of(seed@),
        res@.len() == 32,
{
    let mut raw = [0u8; 32];
    raw.copy_from_slice(seed);
    ed25519_dalek::SigningKey::from_bytes(&raw).verifying_key().to_bytes().to_vec()
}

/// `Signer::sign` of `ed25519_dalek::SigningKey`, under the key made from the seed.
#[verifier::external_body]
pub(crate) fn ed25519_sign(seed: &[u8], message: &[u8]) -> (res: Vec<u8>)
    requires
        seed@.len() == 32,
    ensures
        res@ == ed25519_signature_of(seed@, message@),
{
    let mut raw = [0u8; 32];
    raw.copy_from_slice(seed);
    ed25519_dalek::SigningKey::from_bytes(&raw).sign(message).to_bytes().to_vec()
}

/// `Verifier::verify` of `ed25519_dalek::VerifyingKey`, on a key and a signature
/// read from bytes; a key or a signature that does not parse is an error too.
#[verifier::external_body]
pub(crate) fn ed25519_verify(key: &[u8], message: &[u8], signature: &[u8]) -> (res: Result<(), ed25519_dalek::SignatureError>)
    ensures
        res is Ok <==> ed25519_accepts(key@, message@, signature@),
{
    let key = ed25519_dalek::VerifyingKey::try_from(key)?;
    let signature = ed25519_dalek::Signature::try_from(signature)?;
    key.verify(message, &signature)
}

/// A BLS signature in its compressed form. Every value decodes.
pub struct BlsSignature {
    bytes: Vec<u8>,
}

impl View for BlsSignature {
    type V = Seq<u8>;

    closed spec fn view(&self) -> Seq<u8> {
        self.bytes@
    }
}

impl BlsSignature {
    #[verifier::type_invariant]
    closed spec fn decodes(&self) -> bool {
        bls_signature_decodes(self.bytes@)
    }

    /// Reads a signature from its compressed form.
    pub fn from_bytes(raw: &Vec<u8>) -> (res: Result<Self, ServerError>)
        ensures
            res is Ok <==> bls_signature_decodes(raw@),
            res matches Ok(sig) ==> sig@ == raw@,
            res matches Err(e) ==> e == ServerError::SignatureInvalid,
    {
        match bls_check_signature(raw.as_slice()) {
            Ok(_) => Ok(BlsSignature { bytes: raw.clone() }),
            Err(_) => Err(ServerError::SignatureInvalid),
        }
    }

    /// The compressed form. Reading it back gives this signature again.
    pub fn as_bytes(&self) -> (res: Vec<u8>)
        ensures
            res@ == self@,
            bls_signature_decodes(res@),
    {
        proof {
            use_type_invariant(self);
        }
        self.bytes.clone()
    }

    /// The sum of this signature and another.
    pub fn aggregate(&self, other: &BlsSignature) -> (res: BlsSignature)
        ensures
            res@ == bls_aggregate_of(self@, other@),
    {
        proof {
            use_type_invariant(self);
            use_type_invariant(other);
        }
        match bls_aggregate(self.bytes.as_slice(), other.bytes.as_slice()) {
            Ok(sum) => BlsSignature { bytes: sum },
            Err(_) => {
                proof {
                    assert(false);
                }
                BlsSignature { bytes: self.bytes.clone() }
            },
        }
    }
}

impl Clone for BlsSignature {
    fn clone(&self) -> (res: Self)
        ensures
            res@ == self@,
    {
        proof {
            use_type_invariant(self);
        }
        BlsSignature { bytes: self.bytes.clone() }
    }
}

/// The two public keys of a server: the BLS key under which it signs epoch roots
/// and the ed25519 key under which it signs transactions.
#[derive(Debug)]
pub struct PublicKey {
    bls: Vec<u8>,
    dalek: Vec<u8>,
}

pub ghost struct PublicKeyView {
    pub bls: Seq<u8>,
    pub dalek: Seq<u8>,
}

impl View for PublicKey {
    type V = PublicKeyView;

    closed spec fn view(&self) -> PublicKeyView {
        PublicKeyView { bls: self.bls@, dalek: self.dalek@ }
    }
}

impl Clone for PublicKey {
    fn clone(&self) -> (res: Self)
        ensures
            res@ == self@,
    {
        PublicKey { bls: self.bls.clone(), dalek: self.dalek.clone() }
    }
}

impl PublicKey {
    /// Reads both keys. The BLS key is taken whole; of the ed25519 key the first
    /// 32 bytes count.
    pub fn new(bls: &Vec<u8>, dalek: &Vec<u8>) -> (res: Result<Self, ServerError>)
        ensures
            res is Ok <==> bls_key_decodes(bls@) && dalek@.len() >= 32 && ed25519_key_decodes(
                dalek@.take(32),
            ),
            res matches Ok(key) ==> key@.bls == bls@ && key@.dalek == dalek@.take(32),
            res matches Err(e) ==> e == ServerError::ConfigError,
    {
        if bls_check_key(bls.as_slice()).is_err() {
            return Err(ServerError::ConfigError);
        }
        if dalek.len() < 32 {
            return Err(ServerError::ConfigError);
        }
        let mut head: Vec<u8> = Vec::new();
        head.extend_from_slice(&dalek[0..32]);
        assert(head@ == dalek@.take(32));
        if ed25519_check_key(head.as_slice()).is_err() {
            return Err(ServerError::ConfigError);
        }
        Ok(PublicKey { bls: bls.clone(), dalek: head })
    }

    /// The compressed BLS key.
    pub fn bls_bytes(&self) -> (res: &Vec<u8>)
        ensures
            res@ == self@.bls,
    {
        &self.bls
    }

    /// The ed25519 key.
    pub fn dalek_bytes(&self) -> (res: &Vec<u8>)
        ensures
            res@ == self@.dalek,
    {
        &self.dalek
    }

    /// Whether the BLS key accepts a signature on a root.
    pub fn verify_root(&self, root: &Vec<u8>, signature: &BlsSignature) -> (res: bool)
        ensures
            res == bls_accepts(self@.bls, root@, signature@),
    {
        bls_verify(self.bls.as_slice(), root.as_slice(), signature.bytes.as_slice())
    }

    /// Whether the ed25519 key accepts a signature on a message.
    pub fn verify_message(&self, message: &Vec<u8>, signature: &Vec<u8>) -> (res: bool)
        ensures
            res == ed25519_accepts(self@.dalek, message@, signature@),
    {
        ed25519_verify(self.dalek.as_slice(), message.as_slice(), signature.as_slice()).is_ok()
    }
}

/// A private key: a 32-byte seed from which both the BLS and the ed25519 key
/// are derived.
pub struct PrivateKey {
    pub raw: [u8; 32],
}

impl View for PrivateKey {
    type V = Seq<u8>;

    open spec fn view(&self) -> Seq<u8> {
        self.raw@
    }
}

impl Clone for PrivateKey {
    fn clone(&self) -> (res: Self)
        ensures
            res@ == self@,
    {
        PrivateKey { raw: self.raw }
    }
}

impl From<[u8; 32]> for PrivateKey {
    /// The key of a seed.
    fn from(value: [u8; 32]) -> (res: Self) {
        PrivateKey { raw: value }
    }
}

impl FromSpecImpl<[u8; 32]> for PrivateKey {
    open spec fn obeys_from_spec() -> bool {
        true
    }

    open spec fn from_spec(value: [u8; 32]) -> Self {
        PrivateKey { raw: value }
    }
}

impl PrivateKey {
    /// The seed.
    pub fn as_bytes(&self) -> (res: &[u8])
        ensures
            res@ == self@,
            res@.len() == 32,
    {
        self.raw.as_slice()
    }

    /// Takes a seed of exactly 32 bytes.
    pub fn try_from(value: Vec<u8>) -> (res: Result<Self, ServerError>)
        ensures
            res is Ok <==> value@.len() == 32,
            res matches Ok(key) ==> key@ == value@,
            res matches Err(e) ==> e == ServerError::ConfigError,
    {
        if value.len() != 32 {
            return Err(ServerError::ConfigError);
        }
        let mut raw = [0u8; 32];
        let mut i: usize = 0;
        while i < 32
            invariant
                i <= 32,
                value@.len() == 32,
                forall|k: int| 0 <= k < i ==> raw@[k] == value@[k],
            decreases 32 - i,
        {
            raw[i] = value[i];
            i += 1;
        }
        assert(raw@ =~= value@);
        Ok(PrivateKey { raw })
    }

    /// The public keys that belong to this seed.
    pub fn public_key(&self) -> (res: PublicKey)
        ensures
            res@.bls == bls_public_key_of(self@),
            res@.dalek == ed25519_public_key_of(self@),
            res@.bls.len() == 48,
            res@.dalek.len() == 32,
    {
        PublicKey {
            bls: bls_public_key(self.raw.as_slice()),
            dalek: ed25519_public_key(self.raw.as_slice()),
        }
    }

    /// Signs a root under the BLS key.
    pub fn sign_root(&self, root: &Vec<u8>) -> (res: BlsSignature)
        ensures
            res@ == bls_signature_of(self@, root@),
    {
        BlsSignature { bytes: bls_sign(self.raw.as_slice(), root.as_slice()) }
    }

    /// Signs a message under the ed25519 key.
    pub fn sign_message(&self, message: &Vec<u8>) -> (res: Vec<u8>)
        ensures
            res@ == ed25519_signature_of(self@, message@),
    {
        ed25519_sign(self.raw.as_slice(), message.as_slice())
    }
}

/// What a request feeds the hasher, write by write: the key behind its length,
/// a mark that tells whether there is a value, the value behind its length, and
/// the number of the type. Lengths and mark are 8 bytes, the number 4, all
/// little-endian.
pub open spec fn request_writes(request: TransactionRequestView) -> Seq<Seq<u8>> {
    let key = seq![spec_u64_to_le_bytes(request.key.len() as u64), request.key];
    let value = match request.value {
        Some(v) => seq![
            spec_u64_to_le_bytes(1),
            spec_u64_to_le_bytes(v.len() as u64),
            v,
        ],
        None => seq![spec_u64_to_le_bytes(0)],
    };
    key + value + seq![spec_u32_to_le_bytes(request.transaction_type.code_of())]
}

/// The 64-bit hash of a request over key, value and type.
pub open spec fn request_digest(request: TransactionRequestView) -> u64 {
    DefaultHasher::spec_finish(request_writes(request))
}

/// The message that is signed for a request: its hash in 8 bytes, little-endian.
pub open spec fn request_message(request: TransactionRequestView) -> Seq<u8> {
    spec_u64_to_le_bytes(request_digest(request))
}

/// Hashes a request over key, value and type. Source and auxiliary bytes do not
/// enter.
pub fn hash_request(request: &TransactionRequest) -> (res: u64)
    ensures
        res == request_digest(request@),
{
    let mut hasher = DefaultHasher::new();
    hasher.write(u64_to_le_bytes(request.key.len() as u64).as_slice());
    hasher.write(request.key.as_slice());
    match &request.value {
        Some(v) => {
            hasher.write(u64_to_le_bytes(1).as_slice());
            hasher.write(u64_to_le_bytes(v.len() as u64).as_slice());
            hasher.write(v.as_slice());
        },
        None => {
            hasher.write(u64_to_le_bytes(0).as_slice());
        },
    }
    hasher.write(u32_to_le_bytes(request.transaction_type.code()).as_slice());
    assert(hasher@ =~= request_writes(request@));
    hasher.finish()
}

/// What the check of a peer's transaction answers: the peer must be in the
/// parallel cluster, the transaction present, and the signature one that the
/// peer's ed25519 key accepts on the request's message.
pub open spec fn peer_check(
    server: MerkleVerseServerView,
    request: PeerTransactionRequestView,
) -> Result<(), ServerError> {
    match server.parallel {
        None => Err(ServerError::PeerUnknown),
        Some(parallel) => match position_of(parallel, request.server_id) {
            None => Err(ServerError::PeerUnknown),
            Some(i) => match request.transaction {
                None => Err(ServerError::MissingField),
                Some(t) => if ed25519_accepts(
                    parallel[i].public_key.dalek,
                    request_message(t),
                    request.signature,
                ) {
                    Ok(())
                } else {
                    Err(ServerError::SignatureInvalid)
                },
            },
        },
    }
}

impl MerkleVerseServer {
    /// Checks the signature of a transaction that a parallel peer passed on.
    pub fn verify_peer_transaction(&self, transaction: &PeerTransactionRequest) -> (res: Result<
        (),
        ServerError,
    >)
        requires
            self.wf(),
        ensures
            res == peer_check(self@, transaction@),
    {
        let parallel = match &self.parallel {
            None => {
                return Err(ServerError::PeerUnknown);
            },
            Some(p) => p,
        };
        let peer = match parallel.get_server(&ServerId(transaction.server_id.clone())) {
            None => {
                return Err(ServerError::PeerUnknown);
            },
            Some(p) => p,
        };
        let target_transaction = match &transaction.transaction {
            None => {
                return Err(ServerError::MissingField);
            },
            Some(t) => t,
        };
        let msg = u64_to_le_bytes(hash_request(target_transaction));
        if peer.public_key.verify_message(&msg, &transaction.signature) {
            Ok(())
        } else {
            Err(ServerError::SignatureInvalid)
        }
    }

    /// Signs a request's message under this server's ed25519 key.
    pub fn sign_transaction(&self, transaction: &TransactionRequest) -> (res: Result<
        Vec<u8>,
        ServerError,
    >)
        ensures
            res matches Ok(signature) && signature@ == ed25519_signature_of(
                self@.private_key,
                request_message(transaction@),
            ),
    {
        let msg = u64_to_le_bytes(hash_request(transaction));
        Ok(self.private_key.sign_message(&msg))
    }
}

} // verus!
