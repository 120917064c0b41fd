//! Ed25519 keys and signatures.
//!
//! A signing key is held as its 32-byte seed, a verifying key as its 32 bytes;
//! the curve itself is the business of an outside crate.

use vstd::prelude::*;

use ed25519_dalek::pkcs8::spki::DecodePublicKey;
use ed25519_dalek::pkcs8::spki::EncodePublicKey;
use ed25519_dalek::pkcs8::DecodePrivateKey;
use ed25519_dalek::pkcs8::EncodePrivateKey;
use ed25519_dalek::Signer;
use ed25519_dalek::Verifier;

verus! {

/// The public key that belongs to a seed.
pub uninterp spec fn ed25519_public(seed: Seq<u8>) -> Seq<u8>;

/// The signature of a message under the key of a seed.
pub uninterp spec fn ed25519_signature(seed: Seq<u8>, message: Seq<u8>) -> Seq<u8>;

/// Whether a signature on a message verifies under a public key.
pub uninterp spec fn ed25519_verifies(
    public: Seq<u8>,
    message: Seq<u8>,
    signature: Seq<u8>,
) -> bool;

/// The PKCS#8 PEM text of the key of a seed.
pub uninterp spec fn pkcs8_pem(seed: Seq<u8>) -> Seq<char>;

/// What reading a PKCS#8 PEM text gives: a seed, or the text of the error.
pub uninterp spec fn pkcs8_pem_read(text: Seq<char>) -> Result<Seq<u8>, Seq<char>>;

/// The SPKI PEM text of a public key.
pub uninterp spec fn spki_pem(public: Seq<u8>) -> Seq<char>;

/// What reading an SPKI PEM text gives: a public key, or the text of the error.
pub uninterp spec fn spki_pem_read(text: Seq<char>) -> Result<Seq<u8>, Seq<char>>;

/// `SigningKey::generate` with `OsRng`: a seed from the system's random number
/// generator. Nothing is claimed of it: it is random.
#[verifier::external_body]
fn random_seed() -> (seed: [u8; 32]) {
    ed25519_dalek::SigningKey::generate(&mut rand_core::OsRng).to_bytes()
}

/// `SigningKey::verifying_key`: the public key depends on the seed alone.
#[verifier::external_body]
fn public_of(seed: &[u8; 32]) -> (public: [u8; 32])
    ensures
        public@ == ed25519_public(seed@),
{
    ed25519_dalek::SigningKey::from_bytes(seed).verifying_key().to_bytes()
}

/// `Signer::sign` of a `SigningKey`. The signature depends on the seed and the
/// message alone, is not empty, and verifies under the public key of the seed.
#[verifier::external_body]
fn sign_with(seed: &[u8; 32], message: &[u8]) -> (signature: Vec<u8>)
    ensures
        signature@ == ed25519_signature(seed@, message@),
        signature@.len() == 64,
        ed25519_verifies(ed25519_public(seed@), message@, signature@),
{
    ed25519_dalek::SigningKey::from_bytes(seed).sign(message).to_vec()
}

/// `Verifier::verify` of a `VerifyingKey`, with the signature read by
/// `Signature::from_slice` and the key by `VerifyingKey::from_bytes`: bytes that
/// are no key or no signature verify nothing. The answer depends on the three
/// arguments alone.
#[verifier::external_body]
fn verify_with(public: &[u8; 32], message: &[u8], signature: &[u8]) -> (verified: bool)
    ensures
        verified == ed25519_verifies(public@, message@, signature@),
{
    match (
        ed25519_dalek::VerifyingKey::from_bytes(public),
        ed25519_dalek::Signature::from_slice(signature),
    ) {
        (Ok(key), Ok(signature)) => key.verify(message, &signature).is_ok(),
        _ => false,
    }
}

/// `DecodePrivateKey::from_pkcs8_pem` of a `SigningKey`. The seed that comes out,
/// or the text of the error, depends on the text alone.
#[verifier::external_body]
fn read_pkcs8_pem(text: &str) -> (seed: Result<[u8; 32], String>)
    ensures
        match seed {
            Ok(seed) => pkcs8_pem_read(text@) == Ok::<_, Seq<char>>(seed@),
            Err(error) => pkcs8_pem_read(text@) == Err::<Seq<u8>, _>(error@),
        },
{
    match ed25519_dalek::SigningKey::from_pkcs8_pem(text) {
        Ok(key) => Ok(key.to_bytes()),
        Err(error) => Err(error.to_string()),
    }
}

/// `EncodePrivateKey::to_pkcs8_pem` of a `SigningKey`, with line feeds. The text
/// depends on the seed alone, and reading it gives the seed back.
#[verifier::external_body]
fn write_pkcs8_pem(seed: &[u8; 32]) -> (text: String)
    ensures
        text@ == pkcs8_pem(seed@),
        pkcs8_pem_read(text@) is Ok,
        pkcs8_pem_read(text@)->Ok_0 == seed@,
{
    ed25519_dalek::SigningKey::from_bytes(seed).to_pkcs8_pem(
        pem_rfc7468::LineEnding::LF,
    ).expect("a 32-byte seed has a PKCS#8 encoding").as_str().to_owned()
}

/// `DecodePublicKey::from_public_key_pem` of a `VerifyingKey`. The key that comes
/// out, or the text of the error, depends on the text alone.
#[verifier::external_body]
fn read_spki_pem(text: &str) -> (public: Result<[u8; 32], String>)
    ensures
        match public {
            Ok(public) => spki_pem_read(text@) == Ok::<_, Seq<char>>(public@),
            Err(error) => spki_pem_read(text@) == Err::<Seq<u8>, _>(error@),
        },
{
    match ed25519_dalek::VerifyingKey::from_public_key_pem(text) {
        Ok(key) => Ok(key.to_bytes()),
        Err(error) => Err(error.to_string()),
    }
}

/// `EncodePublicKey::to_public_key_pem` of the `VerifyingKey` of a seed, with line
/// feeds. The text depends on the public key alone, and reading it gives that
/// key back.
#[verifier::external_body]
fn write_spki_pem(seed: &[u8; 32]) -> (text: String)
    ensures
        text@ == spki_pem(ed25519_public(seed@)),
        spki_pem_read(text@) is Ok,
        spki_pem_read(text@)->Ok_0 == ed25519_public(seed@),
{
    ed25519_dalek::SigningKey::from_bytes(seed).verifying_key().to_public_key_pem(
        pem_rfc7468::LineEnding::LF,
    ).expect("a 32-byte public key has an SPKI encoding")
}

/// An Ed25519 signing key. Its view is the seed.
#[derive(Clone, Copy)]
pub struct SigningKey {
    seed: [u8; 32],
}

impl View for SigningKey {
    type V = Seq<u8>;

    closed spec fn view(&self) -> Seq<u8> {
        self.seed@
    }
}

/// The system's random number generator can give this seed.
pub closed spec fn is_drawn_seed(seed: Seq<u8>) -> bool {
    exists|drawn: [u8; 32]| #[trigger]
        call_ensures(random_seed, (), drawn) && drawn@ == seed
}

impl SigningKey {
    /// A key from the system's random number generator.
    pub fn generate() -> (key: SigningKey)
        ensures
            is_drawn_seed(key@),
    {
        SigningKey { seed: random_seed() }
    }

    /// The key of a seed.
    pub fn from_bytes(seed: &[u8; 32]) -> (key: SigningKey)
        ensures
            key@ == seed@,
    {
        SigningKey { seed: *seed }
    }

    /// The seed of this key.
    pub fn to_bytes(&self) -> (seed: [u8; 32])
        ensures
            seed@ == self@,
    {
        self.seed
    }

    /// The public half of this key.
    pub fn verifying_key(&self) -> (key: VerifyingKey)
        ensures
            key@ == ed25519_public(self@),
    {
        VerifyingKey { bytes: public_of(&self.seed) }
    }

    /// Signs a message. The signature verifies under the public half.
    pub fn sign(&self, message: &[u8]) -> (signature: Vec<u8>)
        ensures
            signature@ == ed25519_signature(self@, message@),
            signature@.len() == 64,
            ed25519_verifies(ed25519_public(self@), message@, signature@),
    {
        sign_with(&self.seed, message)
    }

    /// Reads a key from PKCS#8 PEM, or says why that failed.
    pub fn from_pkcs8_pem(text: &str) -> (key: Result<SigningKey, String>)
        ensures
            match key {
                Ok(key) => pkcs8_pem_read(text@) == Ok::<_, Seq<char>>(key@),
                Err(error) => pkcs8_pem_read(text@) == Err::<Seq<u8>, _>(error@),
            },
    {
        match read_pkcs8_pem(text) {
            Ok(seed) => Ok(SigningKey { seed }),
            Err(error) => Err(error),
        }
    }

    /// This key in PKCS#8 PEM, from which it can be read back.
    pub fn to_pkcs8_pem(&self) -> (text: String)
        ensures
            text@ == pkcs8_pem(self@),
            pkcs8_pem_read(text@) == Ok::<_, Seq<char>>(self@),
    {
        write_pkcs8_pem(&self.seed)
    }

    /// The public half of this key in SPKI PEM, from which it can be read back.
    pub fn public_key_pem(&self) -> (text: String)
        ensures
            text@ == spki_pem(ed25519_public(self@)),
            spki_pem_read(text@) == Ok::<_, Seq<char>>(ed25519_public(self@)),
    {
        write_spki_pem(&self.seed)
    }
}

/// An Ed25519 public key. Its view is its 32 bytes.
#[derive(Debug, Clone, Copy)]
pub struct VerifyingKey {
    bytes: [u8; 32],
}

impl View for VerifyingKey {
    type V = Seq<u8>;

    closed spec fn view(&self) -> Seq<u8> {
        self.bytes@
    }
}

impl VerifyingKey {
    /// The key with these bytes. Bytes that are no point of the curve make a
    /// key under which nothing verifies.
    pub fn from_bytes(bytes: &[u8; 32]) -> (key: VerifyingKey)
        ensures
            key@ == bytes@,
    {
        VerifyingKey { bytes: *bytes }
    }

    /// The bytes of this key.
    pub fn to_bytes(&self) -> (bytes: [u8; 32])
        ensures
            bytes@ == self@,
    {
        self.bytes
    }

    /// Reads a key from SPKI PEM, or says why that failed.
    pub fn from_public_key_pem(text: &str) -> (key: Result<VerifyingKey, String>)
        ensures
            match key {
                Ok(key) => spki_pem_read(text@) == Ok::<_, Seq<char>>(key@),
                Err(error) => spki_pem_read(text@) == Err::<Seq<u8>, _>(error@),
            },
    {
        match read_spki_pem(text) {
            Ok(bytes) => Ok(VerifyingKey { bytes }),
            Err(error) => Err(error),
        }
    }

    /// Whether `signature` is a signature of `message` under this key.
    pub fn verifies(&self, message: &[u8], signature: &[u8]) -> (verified: bool)
        ensures
            verified == ed25519_verifies(self@, message@, signature@),
    {
        verify_with(&self.bytes, message, signature)
    }
}

/// A drawn seed is one that the system's random number generator gave, as it gave it.
proof fn law_drawn_seeds_come_from_the_generator(seed: Seq<u8>, drawn: [u8; 32])
    ensures
        call_ensures(random_seed, (), drawn) ==> is_drawn_seed(drawn@),
        is_drawn_seed(seed) ==> exists|given: [u8; 32]| #[trigger]
            call_ensures(random_seed, (), given) && given@ == seed,
{
}

} // verus!
