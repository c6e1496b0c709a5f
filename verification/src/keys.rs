use crate::name::DnsName;
use crate::types::{Dnskey, DnskeyV};
use crate::wire::name_to_hickory;
use hickory_proto::dnssec::{Algorithm as HickoryAlgorithm, PublicKey, SigSigner, SigningKey};
use vstd::prelude::*;

verus! {

#[verifier::external_type_specification]
#[verifier::external_body]
pub struct ExSigSigner(hickory_proto::dnssec::SigSigner);

/// A DNSSEC signing algorithm the server can use (RFC 8624 numbers).
#[derive(Debug, Clone, Copy, PartialEq, Eq, Structural)]
pub enum Algorithm {
    ECDSAP256SHA256,
    ED25519,
    RSASHA256,
}

impl Algorithm {
    pub open spec fn spec_number(self) -> u8 {
        match self {
            Algorithm::ECDSAP256SHA256 => 13,
            Algorithm::ED25519 => 15,
            Algorithm::RSASHA256 => 8,
        }
    }

    /// The algorithm's number in DNSKEY and RRSIG records.
    pub fn number(&self) -> (r: u8)
        ensures
            r == self.spec_number(),
    {
        match self {
            Algorithm::ECDSAP256SHA256 => 13,
            Algorithm::ED25519 => 15,
            Algorithm::RSASHA256 => 8,
        }
    }
}

/// An error with DNSSEC keys.
#[derive(Debug)]
pub enum KeyError {
    UnsupportedAlgorithm(String),
    Generation(String),
    Loading(String),
    Io(String),
}

impl KeyError {
    pub open spec fn spec_message(&self) -> Seq<char> {
        match self {
            KeyError::UnsupportedAlgorithm(e) => "unsupported algorithm: "@ + e@,
            KeyError::Generation(e) => "key generation failed: "@ + e@,
            KeyError::Loading(e) => "key loading failed: "@ + e@,
            KeyError::Io(e) => "I/O error: "@ + e@,
        }
    }

    /// The message that describes the error.
    pub fn message(&self) -> (r: String)
        ensures
            r@ == self.spec_message(),
    {
        let (mut s, e) = match self {
            KeyError::UnsupportedAlgorithm(e) => ("unsupported algorithm: ".to_owned(), e),
            KeyError::Generation(e) => ("key generation failed: ".to_owned(), e),
            KeyError::Loading(e) => ("key loading failed: ".to_owned(), e),
            KeyError::Io(e) => ("I/O error: ".to_owned(), e),
        };
        s.append(e.as_str());
        s
    }
}

/// `str::to_uppercase`: the text with every character in upper case (Unicode
/// rules).
pub uninterp spec fn unicode_uppercase(s: Seq<char>) -> Seq<char>;

/// `str::to_uppercase`.
#[verifier::external_body]
fn to_uppercase(s: &str) -> (r: String)
    ensures
        r@ == unicode_uppercase(s@),
{
    s.to_uppercase()
}

/// The algorithm a configuration names (mnemonic or number, case ignored).
pub open spec fn spec_parse_algorithm(s: Seq<char>) -> Option<Algorithm> {
    let u = unicode_uppercase(s);
    if u == "ECDSAP256SHA256"@ || u == "13"@ {
        Some(Algorithm::ECDSAP256SHA256)
    } else if u == "ED25519"@ || u == "15"@ {
        Some(Algorithm::ED25519)
    } else if u == "RSASHA256"@ || u == "8"@ {
        Some(Algorithm::RSASHA256)
    } else {
        None
    }
}

/// Read an algorithm name: ECDSAP256SHA256 (13), ED25519 (15) or RSASHA256
/// (8), in any case.
pub fn parse_algorithm(s: &str) -> (r: Result<Algorithm, KeyError>)
    ensures
        match spec_parse_algorithm(s@) {
            Some(a) => r matches Ok(x) && x == a,
            None => r matches Err(KeyError::UnsupportedAlgorithm(t)) && t@ == s@,
        },
{
    let u = to_uppercase(s);
    if u == "ECDSAP256SHA256".to_string() || u == "13".to_string() {
        Ok(Algorithm::ECDSAP256SHA256)
    } else if u == "ED25519".to_string() || u == "15".to_string() {
        Ok(Algorithm::ED25519)
    } else if u == "RSASHA256".to_string() || u == "8".to_string() {
        Ok(Algorithm::RSASHA256)
    } else {
        Err(KeyError::UnsupportedAlgorithm(s.to_string()))
    }
}

/// A DNSSEC key pair: its algorithm, whether it is a key-signing key, its key
/// tag, the signer that holds the private key, its DNSKEY record data, the
/// zone it signs for and how long its signatures are valid, in seconds.
pub struct DnssecKeyPair {
    pub algorithm: Algorithm,
    pub is_ksk: bool,
    pub key_tag: u16,
    pub signer: SigSigner,
    pub dnskey: Dnskey,
    pub zone: DnsName,
    pub sig_secs: u64,
}

/// The key tag hickory-proto computes for the DNSKEY data with the given
/// zone-key, SEP and revoke flags of a key read from a PKCS#8 private key of
/// an algorithm, and the DNSKEY data the `SigSigner::to_dnskey` of a signer
/// for `zone` gives (which sets the SEP flag on every key); `None` if the
/// key cannot be read or `zone` cannot be a hickory-proto name.
pub uninterp spec fn key_material(
    pkcs8: Seq<u8>,
    algorithm: u8,
    zone_key: bool,
    secure_entry_point: bool,
    revoke: bool,
    zone: Seq<Seq<u8>>,
) -> Option<(u16, DnskeyV)>;

pub open spec fn material_view(r: Result<(SigSigner, u16, Dnskey), String>) -> Option<(u16, DnskeyV)> {
    match r {
        Ok((_, t, k)) => Some((t, k@)),
        Err(_) => None,
    }
}

/// The public key of a signing key as DNSKEY data.
#[verifier::external_body]
pub(crate) fn dnskey_from_signer(s: &SigSigner) -> Option<Dnskey> {
    let k = s.to_dnskey().ok()?;
    Some(Dnskey { zone_key: k.zone_key(), secure_entry_point: k.secure_entry_point(), revoke: k.revoke(),
        algorithm: u8::from(k.public_key().algorithm()), public_key: k.public_key().public_bytes().to_vec() })
}

/// Read a PKCS#8 private key (hickory-proto `signing_key_from_der`), make its
/// DNSKEY data with the given flags (`DNSKEY::new`) and a signer for `zone`
/// with signatures valid for `sig_secs` seconds (`SigSigner::dnssec`),
/// compute the key tag and take the signer's DNSKEY data; hickory-proto's
/// error text on failure. `SigSigner::to_dnskey` gives the zone-key flag the
/// signer was made with, the SEP flag, no revoke flag, and the public key of
/// the algorithm the key was read as.
#[verifier::external_body]
fn key_signer(
    pkcs8: &[u8],
    algorithm: u8,
    zone: &DnsName,
    zone_key: bool,
    secure_entry_point: bool,
    revoke: bool,
    sig_secs: u64,
) -> (r: Result<(SigSigner, u16, Dnskey), String>)
    ensures
        material_view(r) == key_material(pkcs8@, algorithm, zone_key, secure_entry_point, revoke, zone@),
        r matches Ok((_, _, k)) ==> k@.zone_key == zone_key && k@.secure_entry_point && !k@.revoke && k@.algorithm == algorithm,
{
    let der = rustls_pki_types::PrivateKeyDer::Pkcs8(rustls_pki_types::PrivatePkcs8KeyDer::from(pkcs8.to_vec()));
    let key = hickory_proto::dnssec::crypto::signing_key_from_der(&der, HickoryAlgorithm::from_u8(algorithm)).map_err(|e| e.to_string())?;
    let rdata = hickory_proto::dnssec::rdata::DNSKEY::new(zone_key, secure_entry_point, revoke, key.to_public_key().map_err(|e| e.to_string())?);
    let signer = SigSigner::dnssec(rdata, key, name_to_hickory(zone).ok_or("bad zone name")?, std::time::Duration::from_secs(sig_secs));
    let tag = signer.calculate_key_tag().map_err(|e| e.to_string())?;
    let dnskey = dnskey_from_signer(&signer).ok_or("no DNSKEY")?;
    Ok((signer, tag, dnskey))
}

/// A new random PKCS#8 key for ECDSA P-256 (ring `EcdsaKeyPair::generate_pkcs8`
/// with `ECDSA_P256_SHA256_FIXED_SIGNING`, from the system random source).
/// Nothing is stated of the key.
#[verifier::external_body]
fn generate_ecdsa_p256_pkcs8() -> Result<Vec<u8>, String> {
    let rng = ring::rand::SystemRandom::new();
    ring::signature::EcdsaKeyPair::generate_pkcs8(&ring::signature::ECDSA_P256_SHA256_FIXED_SIGNING, &rng)
        .map(|d| d.as_ref().to_vec()).map_err(|e| e.to_string())
}

/// A new random PKCS#8 key for Ed25519 (ring `Ed25519KeyPair::generate_pkcs8`,
/// from the system random source). Nothing is stated of the key.
#[verifier::external_body]
fn generate_ed25519_pkcs8() -> Result<Vec<u8>, String> {
    let rng = ring::rand::SystemRandom::new();
    ring::signature::Ed25519KeyPair::generate_pkcs8(&rng).map(|d| d.as_ref().to_vec()).map_err(|e| e.to_string())
}

/// Make a key pair from a PKCS#8 private key: a zone key (zone-key flag set,
/// SEP flag for a key-signing key, not revoked) signing for `zone`.
pub fn build_key_pair(pkcs8_bytes: &[u8], algorithm: Algorithm, zone: &DnsName, is_ksk: bool, sig_secs: u64) -> (r: Result<DnssecKeyPair, KeyError>)
    ensures
        match key_material(pkcs8_bytes@, algorithm.spec_number(), true, is_ksk, false, zone@) {
            Some((tag, key)) => r matches Ok(k) && k.algorithm == algorithm && k.is_ksk == is_ksk && k.key_tag == tag && k.dnskey@ == key
                && k.zone@ == zone@ && k.sig_secs == sig_secs && key.zone_key && key.algorithm == algorithm.spec_number(),
            None => r matches Err(KeyError::Generation(_)),
        },
{
    match key_signer(pkcs8_bytes, algorithm.number(), zone, true, is_ksk, false, sig_secs) {
        Ok((signer, key_tag, dnskey)) => Ok(DnssecKeyPair { algorithm, is_ksk, key_tag, signer, dnskey, zone: zone.clone(), sig_secs }),
        Err(e) => Err(KeyError::Generation(e)),
    }
}

/// Generate a new key pair: ECDSA P-256 or Ed25519; RSA keys are not generated.
pub fn generate_key(algorithm: Algorithm, zone: &DnsName, is_ksk: bool, sig_secs: u64) -> (r: Result<DnssecKeyPair, KeyError>)
    ensures
        algorithm == Algorithm::RSASHA256 ==> r matches Err(KeyError::UnsupportedAlgorithm(_)),
        r matches Ok(k) ==> k.algorithm == algorithm && k.is_ksk == is_ksk && k.zone@ == zone@ && k.sig_secs == sig_secs
            && k.dnskey@.zone_key && k.dnskey@.algorithm == algorithm.spec_number()
            && exists|pkcs8: Seq<u8>| #[trigger] key_material(pkcs8, algorithm.spec_number(), true, is_ksk, false, zone@) == Some((k.key_tag, k.dnskey@)),
        algorithm != Algorithm::RSASHA256 ==> (r is Ok || r matches Err(KeyError::Generation(_))),
{
    let generated = match algorithm {
        Algorithm::ECDSAP256SHA256 => generate_ecdsa_p256_pkcs8(),
        Algorithm::ED25519 => generate_ed25519_pkcs8(),
        Algorithm::RSASHA256 => {
            return Err(KeyError::UnsupportedAlgorithm("RSASHA256".to_string()));
        },
    };
    let pkcs8 = match generated {
        Ok(b) => b,
        Err(e) => {
            return Err(KeyError::Generation(e));
        },
    };
    build_key_pair(pkcs8.as_slice(), algorithm, zone, is_ksk, sig_secs)
}

} // verus!
