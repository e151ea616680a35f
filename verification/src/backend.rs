//! The cryptographic primitives the library builds on.
//!
//! Every function here hands its arguments to another crate and converts the
//! answer to plain bytes and text. None of their contracts is proved: each is
//! stated from the documentation and source of the crate it calls. What a
//! primitive computes is either stated outright or given a name, an
//! uninterpreted function of the arguments, so that the contracts built on top
//! can say exactly which value they return.

use vstd::prelude::*;

verus! {

/// The error type of the `rand` crate.
#[verifier::external_type_specification]
#[verifier::external_body]
pub struct ExRandError(rand::Error);

/// The error type of the `bip39` crate.
#[verifier::external_type_specification]
#[verifier::external_body]
pub struct ExMnemonicError(bip39::Error);

/// The error type of the `bip32` crate.
#[verifier::external_type_specification]
#[verifier::external_body]
pub struct ExDerivationError(bip32::Error);

/// The error type of the `elliptic-curve` crate, which `k256` re-exports.
#[verifier::external_type_specification]
#[verifier::external_body]
pub struct ExCurveError(k256::elliptic_curve::Error);

/// The phrase that `bip39::Mnemonic::from_entropy_in` gives for `entropy` with
/// the English word list, words separated by single spaces; `None` where it
/// rejects the entropy.
pub uninterp spec fn bip39_phrase(entropy: Seq<u8>) -> Option<Seq<char>>;

/// The entropy that `bip39::Mnemonic::to_entropy` recovers from `phrase` read
/// with the English word list; `None` where `phrase` does not parse.
pub uninterp spec fn bip39_entropy(phrase: Seq<char>) -> Option<Seq<u8>>;

/// The 64-byte seed that `bip39::Mnemonic::to_seed` stretches out of `phrase`
/// and `passphrase`; `None` where `phrase` does not parse as an English
/// mnemonic.
pub uninterp spec fn bip39_seed(phrase: Seq<char>, passphrase: Seq<char>) -> Option<Seq<u8>>;

/// The 32-byte private key that `bip32::XPrv::derive_from_path` reaches from
/// `seed` along `path`; `None` where the path does not parse or a derivation
/// step fails.
pub uninterp spec fn bip32_private_key(seed: Seq<u8>, path: Seq<char>) -> Option<Seq<u8>>;

/// The text of the self-authenticating principal that `ic_agent` assigns to the
/// secp256k1 key `secret_key`; `None` where the identity names no sender.
pub uninterp spec fn secp256k1_principal(secret_key: Seq<u8>) -> Option<Seq<char>>;

/// The number that `bytes` spell as a big-endian integer.
pub open spec fn big_endian(bytes: Seq<u8>) -> nat
    decreases bytes.len(),
{
    if bytes.len() == 0 {
        0
    } else {
        big_endian(bytes.drop_last()) * 256 + bytes.last() as nat
    }
}

/// The order of the secp256k1 group.
pub open spec fn secp256k1_order() -> nat {
    0xFFFFFFFF_FFFFFFFF_FFFFFFFF_FFFFFFFE_BAAEDCE6_AF48A03B_BFD25E8C_D0364141nat
}

/// A secret key of secp256k1: 32 bytes that spell a non-zero number below the
/// group order.
pub open spec fn is_secret_scalar(bytes: Seq<u8>) -> bool {
    bytes.len() == 32 && 0 < big_endian(bytes) < secp256k1_order()
}

/// Fills a 16-byte buffer with `RngCore::try_fill_bytes` of
/// `rand::rngs::OsRng`, the random source of the operating system, which
/// reports a failure of the source as an error. The bytes are random, so
/// nothing is claimed of them.
#[verifier::external_body]
pub(crate) fn system_entropy() -> (r: Result<[u8; 16], rand::Error>) {
    let mut buffer = [0u8; 16];
    match rand::RngCore::try_fill_bytes(&mut rand::rngs::OsRng, &mut buffer) {
        Ok(()) => Ok(buffer),
        Err(e) => Err(e),
    }
}

/// Calls `bip39::Mnemonic::from_entropy_in` with `Language::English` and
/// renders the mnemonic as text. The contract only names the phrase: it is a
/// function of the entropy.
#[verifier::external_body]
pub(crate) fn phrase_from_entropy(entropy: &[u8; 16]) -> (r: Result<String, bip39::Error>)
    ensures
        r is Ok <==> bip39_phrase(entropy@) is Some,
        r matches Ok(phrase) ==> bip39_phrase(entropy@) == Some(phrase@),
{
    match bip39::Mnemonic::from_entropy_in(bip39::Language::English, entropy) {
        Ok(mnemonic) => Ok(mnemonic.to_string()),
        Err(e) => Err(e),
    }
}

/// Parses `phrase` with `bip39::Mnemonic::parse_in_normalized` and
/// `Language::English`, which checks the word count, the words and the
/// checksum, and calls `Mnemonic::to_entropy` on it. The contract only names
/// the entropy: it is a function of the phrase.
#[verifier::external_body]
pub(crate) fn entropy_from_phrase(phrase: &str) -> (r: Result<Vec<u8>, bip39::Error>)
    ensures
        r is Ok <==> bip39_entropy(phrase@) is Some,
        r matches Ok(entropy) ==> bip39_entropy(phrase@) == Some(entropy@),
{
    match bip39::Mnemonic::parse_in_normalized(bip39::Language::English, phrase) {
        Ok(mnemonic) => Ok(mnemonic.to_entropy()),
        Err(e) => Err(e),
    }
}

/// Parses `phrase` with `bip39::Mnemonic::parse_in_normalized` and
/// `Language::English` and calls `Mnemonic::to_seed` on it with `passphrase`.
/// The contract only names the seed: it is a function of the two texts.
#[verifier::external_body]
pub(crate) fn seed_from_phrase(phrase: &str, passphrase: &str) -> (r: Result<
    [u8; 64],
    bip39::Error,
>)
    ensures
        r is Ok <==> bip39_seed(phrase@, passphrase@) is Some,
        r matches Ok(seed) ==> bip39_seed(phrase@, passphrase@) == Some(seed@),
{
    match bip39::Mnemonic::parse_in_normalized(bip39::Language::English, phrase) {
        Ok(mnemonic) => Ok(mnemonic.to_seed(passphrase)),
        Err(e) => Err(e),
    }
}

/// Parses `path` as a `bip32::DerivationPath`, calls
/// `bip32::XPrv::derive_from_path` on `seed` and it, and takes the bytes of the
/// private key reached. The contract only names the key: it is a function of
/// the seed and the path.
#[verifier::external_body]
pub(crate) fn private_key_from_seed(seed: &[u8; 64], path: &str) -> (r: Result<
    [u8; 32],
    bip32::Error,
>)
    ensures
        r is Ok <==> bip32_private_key(seed@, path@) is Some,
        r matches Ok(key) ==> bip32_private_key(seed@, path@) == Some(key@),
{
    let path = match path.parse::<bip32::DerivationPath>() {
        Ok(path) => path,
        Err(e) => return Err(e),
    };
    match bip32::XPrv::derive_from_path(seed, &path) {
        Ok(extended) => Ok(extended.private_key().to_bytes().into()),
        Err(e) => Err(e),
    }
}

/// Calls `k256::SecretKey::from_bytes` and takes the key's bytes back with
/// `to_bytes`. The call reads the bytes as a big-endian number and accepts it
/// when it is not zero and below the group order; the accepted key serialises
/// to the same bytes.
#[verifier::external_body]
pub(crate) fn scalar_from_bytes(bytes: &[u8; 32]) -> (r: Result<
    [u8; 32],
    k256::elliptic_curve::Error,
>)
    ensures
        r is Ok <==> is_secret_scalar(bytes@),
        r matches Ok(key) ==> key@ == bytes@,
{
    match k256::SecretKey::from_bytes(bytes.into()) {
        Ok(key) => Ok(key.to_bytes().into()),
        Err(e) => Err(e),
    }
}

/// Builds `ic_agent::identity::Secp256k1Identity::from_private_key` of the key
/// and renders `Identity::sender` with `Principal::to_text`. The key has to be
/// a secret scalar, since the bytes are first turned into a `k256::SecretKey`.
/// The contract only names the text: it is a function of the key.
#[verifier::external_body]
pub(crate) fn principal_from_scalar(secret_key: &[u8; 32]) -> (r: Result<String, String>)
    requires
        is_secret_scalar(secret_key@),
    ensures
        r is Ok <==> secp256k1_principal(secret_key@) is Some,
        r matches Ok(text) ==> secp256k1_principal(secret_key@) == Some(text@),
{
    let key = k256::SecretKey::from_bytes(secret_key.into()).expect("a secret scalar");
    let identity = ic_agent::identity::Secp256k1Identity::from_private_key(key);
    match ic_agent::Identity::sender(&identity) {
        Ok(principal) => Ok(principal.to_text()),
        Err(e) => Err(e),
    }
}

} // verus!
