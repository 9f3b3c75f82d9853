//! Signed operations: hashing, signing and verification.
//!
//! Keys and signatures are held in their standard byte forms, so that every
//! contract can speak of them as byte sequences. The curve arithmetic itself
//! is done by the `libsecp256k1` crate.
use crate::hash::{keccak256, keccak256_digest};
use vstd::prelude::*;

verus! {

/// Length of a secret key: a big-endian scalar.
pub const SECRET_KEY_SIZE: usize = 32;

/// Length of a public key in full form: the tag `0x04`, then `x` and `y`.
pub const PUBLIC_KEY_SIZE: usize = 65;

/// Length of a signature: `r` then `s`, both big-endian.
pub const SIGNATURE_SIZE: usize = 64;

/// The order of the secp256k1 group, big-endian.
pub open spec fn curve_order() -> Seq<u8> {
    seq![
        0xffu8, 0xff, 0xff, 0xff, 0xff, 0xff, 0xff, 0xff,
        0xff, 0xff, 0xff, 0xff, 0xff, 0xff, 0xff, 0xfe,
        0xba, 0xae, 0xdc, 0xe6, 0xaf, 0x48, 0xa0, 0x3b,
        0xbf, 0xd2, 0x5e, 0x8c, 0xd0, 0x36, 0x41, 0x41,
    ]
}

/// `a` is smaller than `b` when both are read as big-endian numbers of one length.
pub open spec fn be_less(a: Seq<u8>, b: Seq<u8>) -> bool {
    &&& a.len() == b.len()
    &&& exists|i: int|
        0 <= i < a.len() && a[i] < b[i] && a.subrange(0, i) == #[trigger] b.subrange(0, i)
}

/// Some byte of `a` is not zero.
pub open spec fn be_nonzero(a: Seq<u8>) -> bool {
    exists|i: int| 0 <= i < a.len() && #[trigger] a[i] != 0
}

/// A scalar that can serve as a secret key: not zero and below the group order.
pub open spec fn is_secret_scalar(bytes: Seq<u8>) -> bool {
    &&& bytes.len() == SECRET_KEY_SIZE
    &&& be_nonzero(bytes)
    &&& be_less(bytes, curve_order())
}

/// A scalar below the group order.
pub open spec fn is_reduced_scalar(bytes: Seq<u8>) -> bool {
    be_less(bytes, curve_order())
}

/// The four big-endian bytes of `n`.
pub open spec fn u32_be(n: u32) -> Seq<u8> {
    seq![
        (n / 0x100_0000) as u8,
        ((n / 0x1_0000) % 0x100) as u8,
        ((n / 0x100) % 0x100) as u8,
        (n % 0x100) as u8,
    ]
}

/// The scalar `n` as 32 big-endian bytes.
pub open spec fn scalar_from_int(n: u32) -> Seq<u8> {
    Seq::new(28, |i: int| 0u8) + u32_be(n)
}

/// The public key that belongs to a secret key, in full form.
pub uninterp spec fn public_key_of(secret: Seq<u8>) -> Seq<u8>;

/// The signature that the deterministic signer gives for a digest under a secret key.
pub uninterp spec fn ecdsa_signature(digest: Seq<u8>, secret: Seq<u8>) -> Seq<u8>;

/// Whether `signature` is accepted for `digest` under the public key `public`.
pub uninterp spec fn ecdsa_verifies(digest: Seq<u8>, signature: Seq<u8>, public: Seq<u8>) -> bool;

/// What a byte string parses to as a public key: the key in full form, if any.
pub uninterp spec fn parsed_public_key(bytes: Seq<u8>) -> Option<Seq<u8>>;

/// A secret key. Always a valid scalar: it can only be made by
/// [`SecretKey::parse`] or [`keypair_from_int`].
#[derive(Clone, Copy, Debug)]
pub struct SecretKey {
    bytes: [u8; 32],
}

/// A public key in full form.
#[derive(Clone, Copy, Debug, PartialEq, Eq)]
pub struct PublicKey {
    pub bytes: [u8; 65],
}

/// A signature in standard form.
#[derive(Clone, Copy, Debug, PartialEq, Eq)]
pub struct Signature {
    pub bytes: [u8; 64],
}

/// Why a key could not be made.
#[derive(Clone, Copy, Debug, PartialEq, Eq, Structural)]
pub enum KeyError {
    /// The scalar is zero or not below the group order.
    InvalidSecretKey,
}

/// Why a signed operation was not authenticated.
#[derive(Clone, Copy, Debug, PartialEq, Eq, Structural)]
pub enum AuthError {
    /// The signature is not in standard form.
    InvalidSignature,
    /// The public key holds no point of the curve.
    InvalidPublicKey,
    /// Key and signature are well formed, but the signature is not one for
    /// the digest of this operation under this key.
    SignatureMismatch,
}

/// A transaction intent in its canonical byte encoding. The execution engine
/// decodes it; this library only hashes and carries it.
#[derive(Debug)]
pub struct Operation(pub Vec<u8>);

/// An operation with the public key and the signature that authorise it.
#[derive(Debug)]
pub struct SignedOperation {
    pub pk: PublicKey,
    pub signature: Signature,
    pub inner: Operation,
}

/// Calls `libsecp256k1::SecretKey::parse`. Trusted: parsing succeeds exactly for
/// a scalar that is not zero and is below the group order.
#[verifier::external_body]
fn secret_scalar_is_valid(bytes: &[u8; 32]) -> (ok: bool)
    ensures
        ok == is_secret_scalar(bytes@),
{
    libsecp256k1::SecretKey::parse(bytes).is_ok()
}

/// Calls `libsecp256k1::PublicKey::from_secret_key` and returns the key in
/// full form. Trusted: the result is a function of the secret key alone, named
/// `public_key_of`.
#[verifier::external_body]
fn derive_public_key(secret: &[u8; 32]) -> (public: [u8; 65])
    requires
        is_secret_scalar(secret@),
    ensures
        public@ == public_key_of(secret@),
{
    let key = libsecp256k1::SecretKey::parse(secret).unwrap();
    libsecp256k1::PublicKey::from_secret_key(&key).serialize()
}

/// Calls `libsecp256k1::sign`, which derives its nonce from the key and the
/// digest alone. Trusted: the signature is a function of digest and key, named
/// `ecdsa_signature`, and `libsecp256k1::verify` accepts it for the same digest
/// under the public key of that secret key.
#[verifier::external_body]
fn ecdsa_sign(digest: &[u8; 32], secret: &[u8; 32]) -> (signature: [u8; 64])
    requires
        is_secret_scalar(secret@),
    ensures
        signature@ == ecdsa_signature(digest@, secret@),
        ecdsa_verifies(digest@, signature@, public_key_of(secret@)),
{
    let key = libsecp256k1::SecretKey::parse(secret).unwrap();
    let message = libsecp256k1::Message::parse(digest);
    libsecp256k1::sign(&message, &key).0.serialize()
}

/// Calls `libsecp256k1::verify` on the parsed signature and key. Trusted: the
/// answer is a function of the three byte strings, named `ecdsa_verifies`; a
/// signature or a key that does not parse is not accepted.
#[verifier::external_body]
fn ecdsa_verify(digest: &[u8; 32], signature: &[u8; 64], public: &[u8; 65]) -> (ok: bool)
    ensures
        ok == ecdsa_verifies(digest@, signature@, public@),
{
    let message = libsecp256k1::Message::parse(digest);
    match (
        libsecp256k1::Signature::parse_standard(signature),
        libsecp256k1::PublicKey::parse(public),
    ) {
        (Ok(s), Ok(p)) => libsecp256k1::verify(&message, &s, &p),
        _ => false,
    }
}

impl SecretKey {
    /// The scalar, big-endian.
    pub closed spec fn view(&self) -> Seq<u8> {
        self.bytes@
    }

    #[verifier::type_invariant]
    spec fn well_formed(&self) -> bool {
        is_secret_scalar(self.bytes@)
    }

    /// Makes a secret key from a big-endian scalar, if the scalar is valid.
    pub fn parse(bytes: &[u8; 32]) -> (res: Result<SecretKey, KeyError>)
        ensures
            is_secret_scalar(bytes@) ==> res is Ok && res->Ok_0@ == bytes@,
            !is_secret_scalar(bytes@) ==> res == Err::<SecretKey, KeyError>(
                KeyError::InvalidSecretKey,
            ),
    {
        if secret_scalar_is_valid(bytes) {
            Ok(SecretKey { bytes: *bytes })
        } else {
            Err(KeyError::InvalidSecretKey)
        }
    }

    /// The scalar as big-endian bytes. Every secret key is a valid scalar.
    pub fn serialize(&self) -> (bytes: [u8; 32])
        ensures
            bytes@ == self@,
            is_secret_scalar(self@),
    {
        proof {
            use_type_invariant(self);
        }
        self.bytes
    }

    /// The public key that belongs to this secret key.
    pub fn public_key(&self) -> (public: PublicKey)
        ensures
            public.bytes@ == public_key_of(self@),
    {
        proof {
            use_type_invariant(self);
        }
        PublicKey { bytes: derive_public_key(&self.bytes) }
    }
}

/// Calls `libsecp256k1::PublicKey::parse_slice` with no fixed format and
/// returns the parsed key in full form. Trusted: whether the bytes parse, and
/// to which key, depends on the bytes alone (named `parsed_public_key`).
#[verifier::external_body]
fn parse_public_key(bytes: &[u8]) -> (public: Option<[u8; 65]>)
    ensures
        public is Some <==> parsed_public_key(bytes@) is Some,
        public is Some ==> public->Some_0@ == parsed_public_key(bytes@)->Some_0,
{
    match libsecp256k1::PublicKey::parse_slice(bytes, None) {
        Ok(key) => Some(key.serialize()),
        Err(_) => None,
    }
}

/// Calls `libsecp256k1::Signature::parse_standard`. Trusted: parsing succeeds
/// exactly when both halves of the signature are below the group order.
#[verifier::external_body]
fn signature_is_standard(bytes: &[u8; 64]) -> (ok: bool)
    ensures
        ok == is_standard_signature(bytes@),
{
    libsecp256k1::Signature::parse_standard(bytes).is_ok()
}

/// A signature whose `r` and `s` are both below the group order.
pub open spec fn is_standard_signature(bytes: Seq<u8>) -> bool {
    &&& bytes.len() == SIGNATURE_SIZE
    &&& is_reduced_scalar(bytes.subrange(0, 32))
    &&& is_reduced_scalar(bytes.subrange(32, 64))
}

impl PublicKey {
    /// Reads a public key in compressed (33 bytes), raw (64) or full (65) form.
    pub fn parse_slice(bytes: &[u8]) -> (res: Option<PublicKey>)
        ensures
            res is Some <==> parsed_public_key(bytes@) is Some,
            res is Some ==> res->Some_0.bytes@ == parsed_public_key(bytes@)->Some_0,
    {
        match parse_public_key(bytes) {
            Some(full) => Some(PublicKey { bytes: full }),
            None => None,
        }
    }
}

impl View for Operation {
    type V = Seq<u8>;

    open spec fn view(&self) -> Seq<u8> {
        self.0@
    }
}

impl Operation {
    /// The digest that is signed: Keccak-256 of the canonical encoding.
    pub open spec fn spec_hash(&self) -> Seq<u8> {
        keccak256(self@)
    }

    /// The digest of the operation.
    pub fn hash(&self) -> (digest: [u8; 32])
        ensures
            digest@ == self.spec_hash(),
    {
        keccak256_digest(self.0.as_slice())
    }
}

impl SignedOperation {
    /// The signature verifies against the digest of the operation under the
    /// public key: the signed operation is valid.
    pub open spec fn is_valid(&self) -> bool {
        ecdsa_verifies(self.inner.spec_hash(), self.signature.bytes@, self.pk.bytes@)
    }

    /// Puts a key, a signature and an operation together, unchecked.
    pub fn new(pk: PublicKey, signature: Signature, inner: Operation) -> (signed: SignedOperation)
        ensures
            signed.pk == pk,
            signed.signature == signature,
            signed.inner == inner,
    {
        SignedOperation { pk, signature, inner }
    }

    /// Signs `inner` with `sk` and attaches `pk`. Where `pk` is the public key
    /// of `sk`, the result is valid, so [`SignedOperation::verify`] gives the
    /// operation back.
    pub fn sign(pk: PublicKey, sk: SecretKey, inner: Operation) -> (signed: SignedOperation)
        ensures
            signed.pk == pk,
            signed.inner == inner,
            signed.signature.bytes@ == ecdsa_signature(inner.spec_hash(), sk@),
            pk.bytes@ == public_key_of(sk@) ==> signed.is_valid(),
    {
        proof {
            use_type_invariant(&sk);
        }
        let digest = Self::message_from_op(&inner);
        let signature = Signature { bytes: ecdsa_sign(&digest, &sk.bytes) };
        SignedOperation { pk, signature, inner }
    }

    fn message_from_op(op: &Operation) -> (digest: [u8; 32])
        ensures
            digest@ == op.spec_hash(),
    {
        op.hash()
    }

    /// Gives the operation back if the signature is valid, and otherwise says
    /// what is wrong: the form of the signature, the key, or their match with
    /// the operation.
    pub fn verify(self) -> (res: Result<Operation, AuthError>)
        ensures
            self.is_valid() ==> res == Ok::<Operation, AuthError>(self.inner),
            !self.is_valid() ==> res == Err::<Operation, AuthError>(
                auth_failure(self.signature.bytes@, self.pk.bytes@),
            ),
    {
        let digest = Self::message_from_op(&self.inner);
        if ecdsa_verify(&digest, &self.signature.bytes, &self.pk.bytes) {
            Ok(self.inner)
        } else if !signature_is_standard(&self.signature.bytes) {
            Err(AuthError::InvalidSignature)
        } else if parse_public_key(self.pk.bytes.as_slice()).is_none() {
            Err(AuthError::InvalidPublicKey)
        } else {
            Err(AuthError::SignatureMismatch)
        }
    }
}

/// What is wrong with a signature that was not accepted under a key.
pub open spec fn auth_failure(signature: Seq<u8>, public: Seq<u8>) -> AuthError {
    if !is_standard_signature(signature) {
        AuthError::InvalidSignature
    } else if parsed_public_key(public) is None {
        AuthError::InvalidPublicKey
    } else {
        AuthError::SignatureMismatch
    }
}

impl AuthError {
    /// What went wrong, for the log.
    pub open spec fn spec_message(&self) -> Seq<char> {
        match *self {
            AuthError::InvalidSignature => "verification failed: signature not in standard form"@,
            AuthError::InvalidPublicKey => "verification failed: public key is no point of the curve"@,
            AuthError::SignatureMismatch => "verification failed: signature does not match"@,
        }
    }

    /// What went wrong, for the log.
    pub fn message(&self) -> (text: String)
        ensures
            text@ == self.spec_message(),
    {
        match self {
            AuthError::InvalidSignature => String::from_str(
                "verification failed: signature not in standard form",
            ),
            AuthError::InvalidPublicKey => String::from_str(
                "verification failed: public key is no point of the curve",
            ),
            AuthError::SignatureMismatch => String::from_str(
                "verification failed: signature does not match",
            ),
        }
    }
}

/// The account address of a public key: the last 20 bytes of the digest of the
/// key without its tag byte.
pub open spec fn spec_address_from_pk(pk: PublicKey) -> Seq<u8> {
    keccak256(pk.bytes@.subrange(1, PUBLIC_KEY_SIZE as int)).subrange(12, 32)
}

/// The account address of a public key.
pub fn address_from_pk(pk: &PublicKey) -> (address: [u8; 20])
    ensures
        address@ == spec_address_from_pk(*pk),
{
    let digest = keccak256_digest(vstd::slice::slice_subrange(pk.bytes.as_slice(), 1, 65));
    let mut address = [0u8; 20];
    let mut i: usize = 0;
    while i < 20
        invariant
            i <= 20,
            forall|j: int| 0 <= j < i ==> address@[j] == digest@[j + 12],
        decreases 20 - i,
    {
        address[i] = digest[i + 12];
        i += 1;
    }
    assert(address@ =~= digest@.subrange(12, 32));
    address
}

/// The key pair whose secret scalar is `n`, which is not zero.
pub(crate) fn keypair_from_nonzero(n: u32) -> (pair: (SecretKey, PublicKey))
    requires
        n != 0,
    ensures
        pair.0@ == scalar_from_int(n),
        pair.1.bytes@ == public_key_of(scalar_from_int(n)),
{
    let mut bytes = [0u8; 32];
    bytes[28] = (n / 0x100_0000) as u8;
    bytes[29] = ((n / 0x1_0000) % 0x100) as u8;
    bytes[30] = ((n / 0x100) % 0x100) as u8;
    bytes[31] = (n % 0x100) as u8;
    proof {
        assert(bytes@ =~= scalar_from_int(n));
        assert(bytes@[28] != 0 || bytes@[29] != 0 || bytes@[30] != 0 || bytes@[31] != 0);
        assert(be_nonzero(bytes@));
        assert(bytes@[0] < curve_order()[0]);
        assert(bytes@.subrange(0, 0) =~= curve_order().subrange(0, 0));
        assert(be_less(bytes@, curve_order()));
    }
    let sk = SecretKey { bytes };
    let pk = sk.public_key();
    (sk, pk)
}

/// The key pair whose secret scalar is `n`. Zero is no secret key.
pub fn keypair_from_int(n: u32) -> (res: Result<(SecretKey, PublicKey), KeyError>)
    ensures
        n == 0 ==> res == Err::<(SecretKey, PublicKey), KeyError>(KeyError::InvalidSecretKey),
        n != 0 ==> res is Ok && res->Ok_0.0@ == scalar_from_int(n) && res->Ok_0.1.bytes@
            == public_key_of(scalar_from_int(n)),
{
    if n == 0 {
        Err(KeyError::InvalidSecretKey)
    } else {
        Ok(keypair_from_nonzero(n))
    }
}

/// Why the bytes of a signed operation were not accepted.
#[derive(Clone, Copy, Debug, PartialEq, Eq, Structural)]
pub enum DecodeError {
    /// The input ends before a field is complete.
    UnexpectedEnd,
    /// The key field is too long or holds no point of the curve.
    InvalidPublicKey,
    /// The signature field is not 64 bytes long or not in standard form.
    InvalidSignature,
    /// The operation is not a transaction encoding.
    InvalidOperation,
}

impl DecodeError {
    /// The name of the error, for the log.
    pub open spec fn spec_message(&self) -> Seq<char> {
        match *self {
            DecodeError::UnexpectedEnd => "UnexpectedEnd"@,
            DecodeError::InvalidPublicKey => "InvalidPublicKey"@,
            DecodeError::InvalidSignature => "InvalidSignature"@,
            DecodeError::InvalidOperation => "InvalidOperation"@,
        }
    }

    /// The name of the error, for the log.
    pub fn message(&self) -> (text: String)
        ensures
            text@ == self.spec_message(),
    {
        match self {
            DecodeError::UnexpectedEnd => String::from_str("UnexpectedEnd"),
            DecodeError::InvalidPublicKey => String::from_str("InvalidPublicKey"),
            DecodeError::InvalidSignature => String::from_str("InvalidSignature"),
            DecodeError::InvalidOperation => String::from_str("InvalidOperation"),
        }
    }
}

/// How many bytes a transaction encoding takes up at the start of `bytes`, or
/// `None` where `bytes` does not start with one that can be decoded without
/// claiming more than `limit` bytes.
pub uninterp spec fn transaction_frame(bytes: Seq<u8>, limit: nat) -> Option<nat>;

/// The most that decoding one operation may claim, in bytes. A length in the
/// input that asks for more is refused before anything is set aside for it.
pub const MAX_OPERATION_SIZE: usize = 0x10_0000;

/// Calls `bincode::serde::decode_from_slice` for the engine's transaction
/// record, in the standard configuration with a limit of
/// [`MAX_OPERATION_SIZE`] bytes. Without a limit the decoder sets aside as
/// many bytes as a length in the input asks for, and does not return where
/// that is more than there is. Trusted: whether the input starts with an
/// encoded transaction, and how many bytes that encoding takes, depend on the
/// input and the limit alone (named `transaction_frame`); the count never
/// exceeds the length of the input.
#[verifier::external_body]
fn transaction_frame_len(bytes: &[u8]) -> (len: Option<usize>)
    ensures
        len matches Some(n) ==> n <= bytes@.len() && transaction_frame(
            bytes@,
            MAX_OPERATION_SIZE as nat,
        ) == Some(n as nat),
        len is None ==> transaction_frame(bytes@, MAX_OPERATION_SIZE as nat) is None,
{
    let config = bincode::config::standard().with_limit::<MAX_OPERATION_SIZE>();
    match bincode::serde::decode_from_slice::<revm::primitives::TxEnv, _>(bytes, config) {
        Ok((_, read)) => Some(read),
        Err(_) => None,
    }
}

/// The largest length that is written as a single byte.
pub const MAX_SHORT_LENGTH: u8 = 250;

/// The signature field at the start of `input`: the length byte 64, then the
/// signature in standard form.
pub open spec fn spec_deserialize(input: Seq<u8>) -> Result<Seq<u8>, DecodeError> {
    if input.len() == 0 {
        Err(DecodeError::UnexpectedEnd)
    } else if input[0] != SIGNATURE_SIZE {
        Err(DecodeError::InvalidSignature)
    } else if input.len() < 1 + SIGNATURE_SIZE {
        Err(DecodeError::UnexpectedEnd)
    } else if !is_standard_signature(input.subrange(1, 1 + SIGNATURE_SIZE as int)) {
        Err(DecodeError::InvalidSignature)
    } else {
        Ok(input.subrange(1, 1 + SIGNATURE_SIZE as int))
    }
}

/// The bytes of the signature field: the length byte, then the signature.
pub open spec fn spec_serialize(signature: Signature) -> Seq<u8> {
    seq![SIGNATURE_SIZE as u8] + signature.bytes@
}

/// Writes the signature field.
pub fn serialize(signature: &Signature) -> (out: Vec<u8>)
    ensures
        out@ == spec_serialize(*signature),
{
    let mut out: Vec<u8> = Vec::new();
    out.push(SIGNATURE_SIZE as u8);
    out.extend_from_slice(signature.bytes.as_slice());
    out
}

/// Reads the signature field at the start of `input`. What follows the field
/// is left alone.
pub fn deserialize(input: &[u8]) -> (res: Result<Signature, DecodeError>)
    ensures
        match res {
            Ok(signature) => spec_deserialize(input@) == Ok::<Seq<u8>, DecodeError>(
                signature.bytes@,
            ),
            Err(e) => spec_deserialize(input@) == Err::<Seq<u8>, DecodeError>(e),
        },
{
    if input.len() == 0 {
        return Err(DecodeError::UnexpectedEnd);
    }
    if input[0] != SIGNATURE_SIZE as u8 {
        return Err(DecodeError::InvalidSignature);
    }
    if input.len() < 1 + SIGNATURE_SIZE {
        return Err(DecodeError::UnexpectedEnd);
    }
    let mut bytes = [0u8; 64];
    let mut i: usize = 0;
    while i < 64
        invariant
            i <= 64,
            input@.len() >= 65,
            forall|j: int| 0 <= j < i ==> bytes@[j] == input@[j + 1],
        decreases 64 - i,
    {
        bytes[i] = input[i + 1];
        i += 1;
    }
    assert(bytes@ =~= input@.subrange(1, 65));
    if signature_is_standard(&bytes) {
        Ok(Signature { bytes })
    } else {
        Err(DecodeError::InvalidSignature)
    }
}

/// What the bytes of a signed operation decode to: the public key in full
/// form, the signature and the encoded operation. The layout is a key field (a
/// length byte of at most 250, then the key in compressed, raw or full form),
/// the signature field, and the transaction encoding, which is decoded under
/// the limit of [`MAX_OPERATION_SIZE`]; what follows the transaction is
/// ignored.
pub open spec fn spec_decode(input: Seq<u8>) -> Result<(Seq<u8>, Seq<u8>, Seq<u8>), DecodeError> {
    if input.len() == 0 {
        Err(DecodeError::UnexpectedEnd)
    } else if input[0] > MAX_SHORT_LENGTH {
        Err(DecodeError::InvalidPublicKey)
    } else if input.len() < 1 + input[0] {
        Err(DecodeError::UnexpectedEnd)
    } else {
        let key = parsed_public_key(input.subrange(1, 1 + input[0]));
        let rest = input.subrange(1 + input[0], input.len() as int);
        if key is None {
            Err(DecodeError::InvalidPublicKey)
        } else {
            match spec_deserialize(rest) {
                Err(e) => Err(e),
                Ok(signature) => {
                    let body = rest.subrange(1 + SIGNATURE_SIZE as int, rest.len() as int);
                    match transaction_frame(body, MAX_OPERATION_SIZE as nat) {
                        None => Err(DecodeError::InvalidOperation),
                        Some(n) => Ok((key->Some_0, signature, body.subrange(0, n as int))),
                    }
                },
            }
        }
    }
}

impl SignedOperation {
    /// The bytes that carry this signed operation: the key field in full form,
    /// the signature field, then the operation.
    pub open spec fn spec_encode(&self) -> Seq<u8> {
        seq![PUBLIC_KEY_SIZE as u8] + self.pk.bytes@ + spec_serialize(self.signature) + self.inner@
    }

    /// Writes the signed operation.
    pub fn encode(&self) -> (out: Vec<u8>)
        ensures
            out@ == self.spec_encode(),
    {
        let mut out: Vec<u8> = Vec::new();
        out.push(PUBLIC_KEY_SIZE as u8);
        out.extend_from_slice(self.pk.bytes.as_slice());
        let mut field = serialize(&self.signature);
        out.append(&mut field);
        out.extend_from_slice(self.inner.0.as_slice());
        out
    }

    /// Reads a signed operation. The signature is not checked here: that is
    /// what [`SignedOperation::verify`] is for.
    pub fn decode(input: &[u8]) -> (res: Result<SignedOperation, DecodeError>)
        ensures
            match res {
                Ok(signed) => spec_decode(input@) == Ok::<
                    (Seq<u8>, Seq<u8>, Seq<u8>),
                    DecodeError,
                >((signed.pk.bytes@, signed.signature.bytes@, signed.inner@)),
                Err(e) => spec_decode(input@) == Err::<(Seq<u8>, Seq<u8>, Seq<u8>), DecodeError>(
                    e,
                ),
            },
    {
        if input.len() == 0 {
            return Err(DecodeError::UnexpectedEnd);
        }
        let key_len: usize = input[0] as usize;
        if input[0] > MAX_SHORT_LENGTH {
            return Err(DecodeError::InvalidPublicKey);
        }
        if input.len() < 1 + key_len {
            return Err(DecodeError::UnexpectedEnd);
        }
        let pk = match PublicKey::parse_slice(vstd::slice::slice_subrange(input, 1, 1 + key_len)) {
            Some(pk) => pk,
            None => {
                return Err(DecodeError::InvalidPublicKey);
            },
        };
        let rest = vstd::slice::slice_subrange(input, 1 + key_len, input.len());
        let signature = match deserialize(rest) {
            Ok(signature) => signature,
            Err(e) => {
                return Err(e);
            },
        };
        let body = vstd::slice::slice_subrange(rest, 1 + SIGNATURE_SIZE, rest.len());
        match transaction_frame_len(body) {
            None => Err(DecodeError::InvalidOperation),
            Some(n) => {
                let payload = vstd::slice::slice_to_vec(vstd::slice::slice_subrange(body, 0, n));
                Ok(SignedOperation { pk, signature, inner: Operation(payload) })
            },
        }
    }
}


/// Encode, then decode: where the key of a signed operation parses to itself,
/// its signature is in standard form and the transaction decoder takes the
/// whole of its operation, decoding its bytes gives back key, signature and
/// operation.
pub proof fn lemma_encode_then_decode(signed: SignedOperation)
    ensures
        parsed_public_key(signed.pk.bytes@) == Some(signed.pk.bytes@) && is_standard_signature(
            signed.signature.bytes@,
        ) && transaction_frame(signed.inner@, MAX_OPERATION_SIZE as nat) == Some(
            signed.inner@.len(),
        ) ==> spec_decode(signed.spec_encode()) == Ok::<(Seq<u8>, Seq<u8>, Seq<u8>), DecodeError>(
            (signed.pk.bytes@, signed.signature.bytes@, signed.inner@),
        ),
{
    let key = signed.pk.bytes@;
    let signature = signed.signature.bytes@;
    let payload = signed.inner@;
    let input = signed.spec_encode();
    assert(key.len() == 65 && signature.len() == 64);
    assert(input[0] == 65);
    assert(input.subrange(1, 66) =~= key);
    let rest = input.subrange(66, input.len() as int);
    assert(rest =~= spec_serialize(signed.signature) + payload);
    assert(rest[0] == 64);
    assert(rest.subrange(1, 65) =~= signature);
    let body = rest.subrange(65, rest.len() as int);
    assert(body =~= payload);
    assert(body.subrange(0, payload.len() as int) =~= payload);
}

} // verus!
