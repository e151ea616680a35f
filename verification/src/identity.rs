//! From entropy to an identity: mnemonic, seed, private key, principal.
//!
//! Every step but the drawing of the entropy is a function of its input, so an
//! identity is a function of the entropy it was derived from. [`derivation`]
//! is that function; the executable steps return exactly what it says.

use crate::address::{check_principal_text, is_principal_text};
use crate::backend::{
    bip32_private_key, bip39_entropy, bip39_phrase, bip39_seed, entropy_from_phrase,
    is_secret_scalar, phrase_from_entropy, principal_from_scalar, private_key_from_seed,
    scalar_from_bytes, secp256k1_principal, seed_from_phrase, system_entropy,
};
use vstd::prelude::*;

verus! {

/// The path along which the key of an identity is derived from its seed.
pub const DERIVATION_PATH: &'static str = "m/44'/223'/0'/0/0";

/// The passphrase with which a mnemonic is stretched to a seed.
pub const PASSPHRASE: &'static str = "";

/// Why an attempt to produce an identity failed.
#[derive(Clone, Copy, Debug, PartialEq, Eq, Structural)]
pub enum GenerationError {
    /// The random source gave no bytes. No further attempt can succeed.
    Randomness,
    /// The entropy has no mnemonic, or the mnemonic does not read back.
    Encoding,
    /// The key walk failed or ended on a number that is no secret key.
    Derivation,
    /// No principal could be made of the secret key.
    Identity,
}

impl GenerationError {
    /// Whether the search must end on this error instead of going on with the
    /// next attempt.
    pub open spec fn fatal(self) -> bool {
        self == GenerationError::Randomness
    }

    /// Whether the search must end on this error instead of going on with the
    /// next attempt.
    pub fn is_fatal(&self) -> (r: bool)
        ensures
            r == self.fatal(),
    {
        match self {
            GenerationError::Randomness => true,
            _ => false,
        }
    }

    /// The text that names each error.
    pub open spec fn description(self) -> Seq<char> {
        match self {
            GenerationError::Randomness => "the random source failed"@,
            GenerationError::Encoding => "the mnemonic could not be encoded"@,
            GenerationError::Derivation => "the key could not be derived"@,
            GenerationError::Identity => "the principal could not be built"@,
        }
    }

    /// A one-line text that names the error.
    pub fn describe(&self) -> (r: &'static str)
        ensures
            r@ == self.description(),
    {
        match self {
            GenerationError::Randomness => "the random source failed",
            GenerationError::Encoding => "the mnemonic could not be encoded",
            GenerationError::Derivation => "the key could not be derived",
            GenerationError::Identity => "the principal could not be built",
        }
    }
}

/// A principal with the mnemonic and the secret key it was derived from.
#[derive(Clone, Debug, PartialEq, Eq)]
pub struct Identity {
    /// The text of the principal.
    pub principal: String,
    /// The mnemonic phrase, twelve English words.
    pub mnemonic: String,
    /// The secret key, a big-endian number.
    pub secret_key: [u8; 32],
}

/// What an [`Identity`] holds.
pub struct IdentityView {
    pub principal: Seq<char>,
    pub mnemonic: Seq<char>,
    pub secret_key: Seq<u8>,
}

impl View for Identity {
    type V = IdentityView;

    open spec fn view(&self) -> IdentityView {
        IdentityView {
            principal: self.principal@,
            mnemonic: self.mnemonic@,
            secret_key: self.secret_key@,
        }
    }
}

/// What the result of an attempt holds.
pub open spec fn attempt_view(result: Result<Identity, GenerationError>) -> Result<
    IdentityView,
    GenerationError,
> {
    match result {
        Ok(identity) => Ok(identity@),
        Err(e) => Err(e),
    }
}

/// The mnemonic of `entropy`: the phrase that encodes it, provided that the
/// phrase decodes to `entropy` again.
pub open spec fn mnemonic_of(entropy: Seq<u8>) -> Option<Seq<char>> {
    match bip39_phrase(entropy) {
        Some(phrase) => if bip39_entropy(phrase) == Some(entropy) {
            Some(phrase)
        } else {
            None
        },
        None => None,
    }
}

/// The seed of a mnemonic: the phrase stretched with [`PASSPHRASE`].
pub open spec fn seed_of(phrase: Seq<char>) -> Option<Seq<u8>> {
    bip39_seed(phrase, PASSPHRASE@)
}

/// The private key of a seed: the key reached along [`DERIVATION_PATH`].
pub open spec fn private_key_of(seed: Seq<u8>) -> Option<Seq<u8>> {
    bip32_private_key(seed, DERIVATION_PATH@)
}

/// The text that an attempt to compute a principal's text ended with, if
/// any.
pub open spec fn computed(outcome: Result<String, String>) -> Option<Seq<char>> {
    match outcome {
        Ok(text) => Some(text@),
        Err(_) => None,
    }
}

/// What becomes of the text that was computed for a principal: it is kept
/// where it has the shape of a principal's text; a text of another shape, and
/// the failure to compute one, are a [`GenerationError::Identity`].
pub open spec fn checked(text: Option<Seq<char>>) -> Result<Seq<char>, GenerationError> {
    match text {
        Some(text) => if is_principal_text(text) {
            Ok(text)
        } else {
            Err(GenerationError::Identity)
        },
        None => Err(GenerationError::Identity),
    }
}

/// The principal of a private key: the text of the self-authenticating
/// principal of the key, [`checked`]. A key that is no secret key of the curve
/// is a [`GenerationError::Derivation`].
pub open spec fn principal_of(key: Seq<u8>) -> Result<Seq<char>, GenerationError> {
    if !is_secret_scalar(key) {
        Err(GenerationError::Derivation)
    } else {
        checked(secp256k1_principal(key))
    }
}

/// The identity of `entropy`, or the error on which its derivation stops.
pub open spec fn derivation(entropy: Seq<u8>) -> Result<IdentityView, GenerationError> {
    match mnemonic_of(entropy) {
        None => Err(GenerationError::Encoding),
        Some(phrase) => match seed_of(phrase) {
            None => Err(GenerationError::Encoding),
            Some(seed) => match private_key_of(seed) {
                None => Err(GenerationError::Derivation),
                Some(key) => match principal_of(key) {
                    Err(e) => Err(e),
                    Ok(text) => Ok(
                        IdentityView { principal: text, mnemonic: phrase, secret_key: key },
                    ),
                },
            },
        },
    }
}

/// What an attempt on fresh entropy may come to: a failure of the random
/// source, or the derivation of some 16 bytes.
pub open spec fn is_generated(outcome: Result<IdentityView, GenerationError>) -> bool {
    outcome == Err::<IdentityView, GenerationError>(GenerationError::Randomness) || exists|
        entropy: Seq<u8>,
    |
        entropy.len() == 16 && outcome == #[trigger] derivation(entropy)
}

/// Whether a mnemonic that decodes to `decoded` stands for `entropy`: whether
/// the two hold the same bytes.
pub fn confirms_entropy(decoded: &Vec<u8>, entropy: &[u8; 16]) -> (r: bool)
    ensures
        r == (decoded@ == entropy@),
{
    if decoded.len() != 16 {
        return false;
    }
    let mut i: usize = 0;
    while i < 16
        invariant
            i <= 16,
            decoded@.len() == 16,
            forall|j: int| 0 <= j < i ==> decoded@[j] == entropy@[j],
        decreases 16 - i,
    {
        if decoded[i] != entropy[i] {
            return false;
        }
        i = i + 1;
    }
    assert(decoded@ =~= entropy@);
    true
}

/// Accepts the text that was computed for a principal, or refuses it: see
/// [`checked`].
pub fn checked_principal(outcome: Result<String, String>) -> (r: Result<String, GenerationError>)
    ensures
        match r {
            Ok(text) => checked(computed(outcome)) == Ok::<Seq<char>, GenerationError>(text@),
            Err(e) => checked(computed(outcome)) == Err::<Seq<char>, GenerationError>(e),
        },
{
    match outcome {
        Ok(text) => {
            if check_principal_text(text.as_str()) {
                Ok(text)
            } else {
                Err(GenerationError::Identity)
            }
        },
        Err(_) => Err(GenerationError::Identity),
    }
}

/// Encodes `entropy` as a mnemonic phrase of twelve English words and checks
/// that the phrase, read back with its checksum, gives `entropy` again.
pub fn encode_mnemonic(entropy: &[u8; 16]) -> (r: Result<String, GenerationError>)
    ensures
        match r {
            Ok(phrase) => mnemonic_of(entropy@) == Some(phrase@),
            Err(e) => e == GenerationError::Encoding && mnemonic_of(entropy@) is None,
        },
{
    let phrase = match phrase_from_entropy(entropy) {
        Ok(phrase) => phrase,
        Err(_) => {
            return Err(GenerationError::Encoding);
        },
    };
    match entropy_from_phrase(phrase.as_str()) {
        Ok(decoded) => {
            if confirms_entropy(&decoded, entropy) {
                Ok(phrase)
            } else {
                Err(GenerationError::Encoding)
            }
        },
        Err(_) => Err(GenerationError::Encoding),
    }
}

/// Stretches a mnemonic phrase to its 64-byte seed, with [`PASSPHRASE`].
pub fn stretch_seed(phrase: &str) -> (r: Result<[u8; 64], GenerationError>)
    ensures
        match r {
            Ok(seed) => seed_of(phrase@) == Some(seed@),
            Err(e) => e == GenerationError::Encoding && seed_of(phrase@) is None,
        },
{
    match seed_from_phrase(phrase, PASSPHRASE) {
        Ok(seed) => Ok(seed),
        Err(_) => Err(GenerationError::Encoding),
    }
}

/// Walks [`DERIVATION_PATH`] from `seed` and returns the private key reached.
pub fn derive_private_key(seed: &[u8; 64]) -> (r: Result<[u8; 32], GenerationError>)
    ensures
        match r {
            Ok(key) => private_key_of(seed@) == Some(key@),
            Err(e) => e == GenerationError::Derivation && private_key_of(seed@) is None,
        },
{
    match private_key_from_seed(seed, DERIVATION_PATH) {
        Ok(key) => Ok(key),
        Err(_) => Err(GenerationError::Derivation),
    }
}

/// The text of the principal that belongs to a private key. The key is
/// rejected with [`GenerationError::Derivation`] where it is zero or not below
/// the order of the curve.
pub fn principal_text(key: &[u8; 32]) -> (r: Result<String, GenerationError>)
    ensures
        match r {
            Ok(text) => principal_of(key@) == Ok::<Seq<char>, GenerationError>(text@),
            Err(e) => principal_of(key@) == Err::<Seq<char>, GenerationError>(e),
        },
{
    let scalar = match scalar_from_bytes(key) {
        Ok(scalar) => scalar,
        Err(_) => {
            return Err(GenerationError::Derivation);
        },
    };
    checked_principal(principal_from_scalar(&scalar))
}

/// Derives the identity of `entropy`: mnemonic, seed, private key, principal.
/// The result is a function of the entropy alone.
pub fn derive_identity(entropy: &[u8; 16]) -> (r: Result<Identity, GenerationError>)
    ensures
        attempt_view(r) == derivation(entropy@),
        r matches Ok(identity) ==> {
            &&& bip39_entropy(identity.mnemonic@) == Some(entropy@)
            &&& is_secret_scalar(identity.secret_key@)
            &&& is_principal_text(identity.principal@)
        },
        r matches Err(e) ==> !e.fatal(),
{
    let mnemonic = match encode_mnemonic(entropy) {
        Ok(mnemonic) => mnemonic,
        Err(e) => {
            return Err(e);
        },
    };
    let seed = match stretch_seed(mnemonic.as_str()) {
        Ok(seed) => seed,
        Err(e) => {
            return Err(e);
        },
    };
    let secret_key = match derive_private_key(&seed) {
        Ok(key) => key,
        Err(e) => {
            return Err(e);
        },
    };
    match principal_text(&secret_key) {
        Ok(principal) => Ok(Identity { principal, mnemonic, secret_key }),
        Err(e) => Err(e),
    }
}

/// The identity of the entropy that was drawn, or
/// [`GenerationError::Randomness`] where the random source gave none.
pub fn identity_of_sample(sample: Option<[u8; 16]>) -> (r: Result<Identity, GenerationError>)
    ensures
        match sample {
            Some(entropy) => attempt_view(r) == derivation(entropy@),
            None => r == Err::<Identity, GenerationError>(GenerationError::Randomness),
        },
        r matches Ok(identity) ==> {
            &&& sample matches Some(entropy) && bip39_entropy(identity.mnemonic@) == Some(
                entropy@,
            )
            &&& is_secret_scalar(identity.secret_key@)
            &&& is_principal_text(identity.principal@)
        },
{
    match sample {
        Some(entropy) => derive_identity(&entropy),
        None => Err(GenerationError::Randomness),
    }
}

/// Draws 16 bytes from the system's random source and derives their identity.
/// The outcome is that of [`derive_identity`] on some entropy, unless the
/// random source fails.
pub fn generate_identity() -> (r: Result<Identity, GenerationError>)
    ensures
        is_generated(attempt_view(r)),
        r matches Ok(identity) ==> {
            &&& bip39_entropy(identity.mnemonic@) matches Some(entropy) && entropy.len() == 16
            &&& is_secret_scalar(identity.secret_key@)
            &&& is_principal_text(identity.principal@)
        },
{
    let sample = match system_entropy() {
        Ok(entropy) => Some(entropy),
        Err(_) => None,
    };
    let generated = identity_of_sample(sample);
    assert(sample matches Some(entropy) ==> attempt_view(generated) == derivation(entropy@));
    generated
}

/// Two derivations from the same entropy give the same mnemonic, secret key
/// and principal, or fail with the same error.
pub proof fn lemma_derivation_is_deterministic(
    first_entropy: Seq<u8>,
    second_entropy: Seq<u8>,
    first: Result<Identity, GenerationError>,
    second: Result<Identity, GenerationError>,
)
    requires
        first_entropy == second_entropy,
        attempt_view(first) == derivation(first_entropy),
        attempt_view(second) == derivation(second_entropy),
    ensures
        attempt_view(first) == attempt_view(second),
{
}

/// The mnemonic of a derived identity decodes to the entropy it was derived
/// from.
pub proof fn lemma_mnemonic_round_trip(entropy: Seq<u8>)
    ensures
        mnemonic_of(entropy) matches Some(phrase) ==> bip39_entropy(phrase) == Some(entropy),
        derivation(entropy) matches Ok(identity) ==> bip39_entropy(identity.mnemonic) == Some(
            entropy,
        ),
{
}

/// The principal of a derived identity has the shape of a principal's text:
/// 63 characters, lower-case base32 in groups of five with dashes between.
pub proof fn lemma_derived_principal_is_well_formed(entropy: Seq<u8>)
    ensures
        derivation(entropy) matches Ok(identity) ==> is_principal_text(identity.principal),
{
}

/// Two entropies that are derived to the same identity are the same entropy:
/// the mnemonic alone tells them apart.
pub proof fn lemma_derivation_is_injective(first: Seq<u8>, second: Seq<u8>)
    requires
        derivation(first) matches Ok(identity) && derivation(second) matches Ok(other)
            && identity.mnemonic == other.mnemonic,
    ensures
        first == second,
{
    lemma_mnemonic_round_trip(first);
    lemma_mnemonic_round_trip(second);
}

/// The parts of a derived identity belong together: the seed of its mnemonic
/// leads to its secret key, and the secret key to its principal.
pub proof fn lemma_derived_identity_is_consistent(entropy: Seq<u8>)
    ensures
        derivation(entropy) matches Ok(identity) ==> {
            &&& mnemonic_of(entropy) == Some(identity.mnemonic)
            &&& seed_of(identity.mnemonic) matches Some(seed) && private_key_of(seed) == Some(
                identity.secret_key,
            )
            &&& principal_of(identity.secret_key) == Ok::<Seq<char>, GenerationError>(
                identity.principal,
            )
        },
{
}

} // verus!
