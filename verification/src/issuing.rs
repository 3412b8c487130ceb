//! Issuing certificates: the profiles of the local authority and of its leaves,
//! and fresh keys for both.

use crate::certificate;
use crate::certificate::{
    CertificateError, GeneratedLocalCertificateAuthority, LocalCertificateAuthority,
    LocalCertificateAuthorityError, LocalCertificatePin,
};
use crate::crypto;
use crate::host::NormalizedHost;
use crate::instance::{InstanceView, ProxyInstanceId};
use rcgen::ExtendedKeyUsagePurpose::ServerAuth;
use rcgen::KeyUsagePurpose::{CrlSign, DigitalSignature, KeyCertSign};
use rcgen::{
    BasicConstraints, CertificateParams, DistinguishedName, DnType, IsCa, Issuer, KeyPair,
    PKCS_ECDSA_P256_SHA256,
};
use rustls::crypto::ring::sign::any_ecdsa_type;
use rustls::pki_types::{CertificateDer, PrivateKeyDer, PrivatePkcs8KeyDer};
use rustls::sign::CertifiedKey;
use time::OffsetDateTime;
use vstd::prelude::*;

verus! {

pub const LOCAL_LEAF_VALIDITY_DAYS: i64 = 90;

pub const LOCAL_CA_VALIDITY_DAYS: i64 = 3650;

pub const LOCAL_CA_COMMON_NAME: &'static str = "HNS DANE Browser Local CA";

pub const SECONDS_PER_DAY: i64 = 86400;

/// The first second of the year 0, counted from 1970.
pub const FIRST_CERTIFICATE_TIME: i64 = -62_167_219_200;

/// The last second of the year 9999, counted from 1970.
pub const LAST_CERTIFICATE_TIME: i64 = 253_402_300_799;

#[derive(Clone, Copy, Debug, PartialEq, Eq, Structural)]
pub enum KeyUsage {
    DigitalSignature,
    KeyCertSign,
    CrlSign,
}

/// What a certificate may be presented for.
#[derive(Clone, Copy, Debug, PartialEq, Eq, Structural)]
pub enum KeyPurpose {
    ServerAuth,
}

/// When a certificate is valid, in seconds counted from 1970.
#[derive(Clone, Copy, Debug, PartialEq, Eq, Structural)]
pub struct Validity {
    pub not_before: i64,
    pub not_after: i64,
}

/// A validity that a certificate can express, around a moment.
pub open spec fn validity_of(now: i64, before: int, after: int) -> Option<Validity> {
    if FIRST_CERTIFICATE_TIME <= now - before && now + after <= LAST_CERTIFICATE_TIME {
        Some(Validity { not_before: (now - before) as i64, not_after: (now + after) as i64 })
    } else {
        None
    }
}

fn validity(now: i64, before: i64, after: i64) -> (r: Option<Validity>)
    requires
        0 <= before <= 1_000_000_000,
        0 <= after <= 1_000_000_000,
    ensures
        r == validity_of(now, before as int, after as int),
{
    if now < FIRST_CERTIFICATE_TIME + before || now > LAST_CERTIFICATE_TIME - after {
        return None;
    }
    Some(Validity { not_before: now - before, not_after: now + after })
}

pub open spec fn authority_validity_of(now: i64) -> Option<Validity> {
    validity_of(now, SECONDS_PER_DAY as int, LOCAL_CA_VALIDITY_DAYS * SECONDS_PER_DAY)
}

pub open spec fn leaf_validity_of(now: i64) -> Option<Validity> {
    validity_of(now, 300, LOCAL_LEAF_VALIDITY_DAYS * SECONDS_PER_DAY)
}

/// An authority is valid from the day before, for ten years of days.
pub fn authority_validity(now: i64) -> (r: Option<Validity>)
    ensures
        r == authority_validity_of(now),
{
    validity(now, SECONDS_PER_DAY, LOCAL_CA_VALIDITY_DAYS * SECONDS_PER_DAY)
}

/// A leaf is valid from five minutes before, for its days.
pub fn leaf_validity(now: i64) -> (r: Option<Validity>)
    ensures
        r == leaf_validity_of(now),
{
    validity(now, 300, LOCAL_LEAF_VALIDITY_DAYS * SECONDS_PER_DAY)
}

/// An authority signs certificates and revocation lists.
pub open spec fn authority_usages() -> Seq<KeyUsage> {
    seq![KeyUsage::DigitalSignature, KeyUsage::KeyCertSign, KeyUsage::CrlSign]
}

/// A leaf signs handshakes.
pub open spec fn leaf_usages() -> Seq<KeyUsage> {
    seq![KeyUsage::DigitalSignature]
}

/// A leaf is presented by a TLS server.
pub open spec fn leaf_purposes() -> Seq<KeyPurpose> {
    seq![KeyPurpose::ServerAuth]
}

/// Calls `time::OffsetDateTime::now_utc`. Nothing is claimed of the clock.
#[verifier::external_body]
fn unix_now() -> (r: i64) {
    OffsetDateTime::now_utc().unix_timestamp()
}

/// Calls `rcgen::KeyPair::generate_for` for P-256 and gives the private key in
/// PKCS#8 form; `None` where it fails. Nothing is claimed of the key, which is
/// random.
#[verifier::external_body]
fn generate_p256_key() -> (r: Option<Vec<u8>>) {
    match KeyPair::generate_for(&PKCS_ECDSA_P256_SHA256) {
        Ok(key) => Some(key.serialize_der()),
        Err(_) => None,
    }
}

/// Whether a certificate is that of an authority of this key, name, path length,
/// usages and validity, signed with the same key.
pub uninterp spec fn is_authority_certificate(
    certificate: Seq<u8>,
    key: Seq<u8>,
    name: Seq<char>,
    path_length: u8,
    usages: Seq<KeyUsage>,
    validity: Validity,
) -> bool;

/// Calls `rcgen::CertificateParams::self_signed` for an authority with the given
/// key, which `rcgen::KeyPair::try_from` reads, and the given name, path length,
/// usages and validity; `None` where a call fails. What comes back is the
/// certificate of such an authority; its bytes are not said, as its signature is
/// random, and whether the call succeeds is not either.
#[verifier::external_body]
fn sign_authority(
    key_der: &[u8],
    name: &str,
    path_length: u8,
    usages: &[KeyUsage],
    validity: Validity,
) -> (r: Option<Vec<u8>>)
    requires
        FIRST_CERTIFICATE_TIME <= validity.not_before,
        validity.not_before <= validity.not_after <= LAST_CERTIFICATE_TIME,
    ensures
        r matches Some(c) ==> is_authority_certificate(
            c@,
            key_der@,
            name@,
            path_length,
            usages@,
            validity,
        ),
{
    let key = KeyPair::try_from(key_der).ok()?;
    let mut params = CertificateParams::default();
    params.not_before = OffsetDateTime::from_unix_timestamp(validity.not_before).ok()?;
    params.not_after = OffsetDateTime::from_unix_timestamp(validity.not_after).ok()?;
    params.distinguished_name = DistinguishedName::new();
    params.distinguished_name.push(DnType::CommonName, name);
    params.is_ca = IsCa::Ca(BasicConstraints::Constrained(path_length));
    params.key_usages = usages.iter().map(|u| match u {
        KeyUsage::DigitalSignature => DigitalSignature,
        KeyUsage::KeyCertSign => KeyCertSign,
        KeyUsage::CrlSign => CrlSign,
    }).collect();
    Some(params.self_signed(&key).ok()?.der().to_vec())
}

/// Whether a certificate is a leaf of this key, name, usages, purposes and validity,
/// signed with the same key.
pub uninterp spec fn is_self_signed_leaf(
    certificate: Seq<u8>,
    key: Seq<u8>,
    name: Seq<char>,
    usages: Seq<KeyUsage>,
    purposes: Seq<KeyPurpose>,
    validity: Validity,
) -> bool;

/// Calls `rcgen::CertificateParams::self_signed` for the leaf of one name with the
/// given key, which `rcgen::KeyPair::try_from` reads, and the given usages,
/// purposes and validity; `None` where a call fails. What comes back is such a
/// leaf; its bytes are not said, as its signature is random, and whether the call
/// succeeds is not either.
#[verifier::external_body]
fn sign_leaf(
    key_der: &[u8],
    name: &str,
    usages: &[KeyUsage],
    purposes: &[KeyPurpose],
    validity: Validity,
) -> (r: Option<Vec<u8>>)
    requires
        FIRST_CERTIFICATE_TIME <= validity.not_before,
        validity.not_before <= validity.not_after <= LAST_CERTIFICATE_TIME,
    ensures
        r matches Some(c) ==> is_self_signed_leaf(
            c@,
            key_der@,
            name@,
            usages@,
            purposes@,
            validity,
        ),
{
    let key = KeyPair::try_from(key_der).ok()?;
    let mut params = CertificateParams::new([name.to_owned()]).ok()?;
    params.not_before = OffsetDateTime::from_unix_timestamp(validity.not_before).ok()?;
    params.not_after = OffsetDateTime::from_unix_timestamp(validity.not_after).ok()?;
    params.key_usages = usages.iter().map(|u| match u {
        KeyUsage::DigitalSignature => DigitalSignature,
        KeyUsage::KeyCertSign => KeyCertSign,
        KeyUsage::CrlSign => CrlSign,
    }).collect();
    params.extended_key_usages = purposes.iter().map(|p| match p {
        KeyPurpose::ServerAuth => ServerAuth,
    }).collect();
    Some(params.self_signed(&key).ok()?.der().to_vec())
}

/// Whether a certificate is a leaf of this key, name, usages, purposes and validity,
/// issued by the authority of this certificate and signed with the authority's key.
pub uninterp spec fn is_issued_leaf(
    certificate: Seq<u8>,
    authority_certificate: Seq<u8>,
    authority_key: Seq<u8>,
    key: Seq<u8>,
    name: Seq<char>,
    usages: Seq<KeyUsage>,
    purposes: Seq<KeyPurpose>,
    validity: Validity,
) -> bool;

/// Calls `rcgen::CertificateParams::signed_by` for the leaf of one name with the
/// given key, usages, purposes and validity, under the issuer that
/// `rcgen::Issuer::from_ca_cert_der` reads; the keys are read by
/// `rcgen::KeyPair::try_from`; `None` where a call fails. What comes back is such a
/// leaf; its bytes are not said, as its signature is random, and whether the calls
/// succeed is not either.
#[verifier::external_body]
fn sign_leaf_by(
    authority_der: &[u8],
    authority_key_der: &[u8],
    key_der: &[u8],
    name: &str,
    usages: &[KeyUsage],
    purposes: &[KeyPurpose],
    validity: Validity,
) -> (r: Option<Vec<u8>>)
    requires
        FIRST_CERTIFICATE_TIME <= validity.not_before,
        validity.not_before <= validity.not_after <= LAST_CERTIFICATE_TIME,
    ensures
        r matches Some(c) ==> is_issued_leaf(
            c@,
            authority_der@,
            authority_key_der@,
            key_der@,
            name@,
            usages@,
            purposes@,
            validity,
        ),
{
    let issuer = Issuer::from_ca_cert_der(&authority_der.into(), KeyPair::try_from(authority_key_der).ok()?).ok()?;
    let mut params = CertificateParams::new([name.to_owned()]).ok()?;
    params.not_before = OffsetDateTime::from_unix_timestamp(validity.not_before).ok()?;
    params.not_after = OffsetDateTime::from_unix_timestamp(validity.not_after).ok()?;
    params.key_usages = usages.iter().map(|u| match u {
        KeyUsage::DigitalSignature => DigitalSignature,
        KeyUsage::KeyCertSign => KeyCertSign,
        KeyUsage::CrlSign => CrlSign,
    }).collect();
    params.extended_key_usages = purposes.iter().map(|p| match p {
        KeyPurpose::ServerAuth => ServerAuth,
    }).collect();
    Some(params.signed_by(&KeyPair::try_from(key_der).ok()?, &issuer).ok()?.der().to_vec())
}

/// What issuing an authority comes to: its material, or nothing where the clock,
/// the key or the signature failed.
pub open spec fn issued_authority(
    r: Result<GeneratedLocalCertificateAuthority, LocalCertificateAuthorityError>,
    material: Option<(Seq<u8>, Seq<u8>)>,
) -> bool {
    match (r, material) {
        (Err(e), None) => e == LocalCertificateAuthorityError::Generation,
        (_, Some((certificate, key))) => match (
            r,
            certificate::ca_sizes(certificate.len(), key.len()),
        ) {
            (Ok(g), Ok(())) => g.authority_spec() == (certificate::AuthorityMaterial {
                certificate,
                private_key: key,
            }),
            (Err(e), Err(f)) => e == f,
            _ => false,
        },
        _ => false,
    }
}

pub open spec fn material_view(m: Option<(Vec<u8>, Vec<u8>)>) -> Option<(Seq<u8>, Seq<u8>)> {
    match m {
        Some((c, k)) => Some((c@, k@)),
        None => None,
    }
}

/// Takes over the certificate and key of a new authority, where there are some.
pub fn accept_generated(material: Option<(Vec<u8>, Vec<u8>)>) -> (r: Result<
    GeneratedLocalCertificateAuthority,
    LocalCertificateAuthorityError,
>)
    ensures
        issued_authority(r, material_view(material)),
{
    match material {
        None => Err(LocalCertificateAuthorityError::Generation),
        Some((certificate, key)) => match LocalCertificateAuthority::from_issued(
            certificate,
            key,
        ) {
            Err(e) => Err(e),
            Ok(a) => Ok(GeneratedLocalCertificateAuthority::new(a)),
        },
    }
}

/// Whether the material is that of an authority made at a moment: a certificate of
/// the local name that no other authority may stand below, and its key.
pub open spec fn is_authority_of(certificate: Seq<u8>, key: Seq<u8>, now: i64) -> bool {
    authority_validity_of(now) matches Some(validity) && is_authority_certificate(
        certificate,
        key,
        LOCAL_CA_COMMON_NAME@,
        0,
        authority_usages(),
        validity,
    )
}

/// Whether a certificate with its key is a leaf made at a moment for a host, by an
/// authority where there is one.
pub open spec fn is_leaf_of(
    certificate: Seq<u8>,
    key: Seq<u8>,
    host: Seq<char>,
    authority: Option<certificate::AuthorityMaterial>,
    now: i64,
) -> bool {
    leaf_validity_of(now) matches Some(validity) && match authority {
        Some(a) => is_issued_leaf(
            certificate,
            a.certificate,
            a.private_key,
            key,
            host,
            leaf_usages(),
            leaf_purposes(),
            validity,
        ),
        None => is_self_signed_leaf(
            certificate,
            key,
            host,
            leaf_usages(),
            leaf_purposes(),
            validity,
        ),
    }
}

pub open spec fn is_made_authority(certificate: Seq<u8>, key: Seq<u8>) -> bool {
    exists|now: i64| #[trigger] is_authority_of(certificate, key, now)
}

pub open spec fn is_made_leaf(
    certificate: Seq<u8>,
    key: Seq<u8>,
    host: Seq<char>,
    authority: Option<certificate::AuthorityMaterial>,
) -> bool {
    exists|now: i64| #[trigger] is_leaf_of(certificate, key, host, authority, now)
}

/// The material that a generated key and the certificate that was signed over it
/// make, where there are both.
pub fn signed_material(key: Option<Vec<u8>>, certificate: Option<Vec<u8>>) -> (r: Option<
    (Vec<u8>, Vec<u8>),
>)
    ensures
        r == (match (key, certificate) {
            (Some(k), Some(c)) => Some((c, k)),
            _ => None,
        }),
{
    match (key, certificate) {
        (Some(k), Some(c)) => Some((c, k)),
        _ => None,
    }
}

/// The material of an authority with a key, made at a moment. There is none without a
/// key, or where no certificate can express the validity; whether the certificate can
/// be signed rests on the random numbers of the system.
pub fn authority_at(key: Option<Vec<u8>>, now: i64) -> (r: Option<(Vec<u8>, Vec<u8>)>)
    ensures
        r matches Some((c, k)) ==> key is Some && k@ == key->0@ && is_authority_of(c@, k@, now),
        key is None || authority_validity_of(now) is None ==> r is None,
{
    let certificate = match (&key, authority_validity(now)) {
        (Some(k), Some(validity)) => {
            let usages: Vec<KeyUsage> = vec![
                KeyUsage::DigitalSignature,
                KeyUsage::KeyCertSign,
                KeyUsage::CrlSign,
            ];
            assert(usages@ == authority_usages());
            sign_authority(k.as_slice(), LOCAL_CA_COMMON_NAME, 0, usages.as_slice(), validity)
        },
        _ => None,
    };
    signed_material(key, certificate)
}

/// The material of a new authority. Whether there is some rests on the random
/// numbers and the clock of the system.
fn generate_material() -> (r: Option<(Vec<u8>, Vec<u8>)>)
    ensures
        r matches Some((c, k)) ==> is_made_authority(c@, k@),
{
    let key = generate_p256_key();
    let now: i64 = unix_now();
    let r = authority_at(key, now);
    proof {
        if r is Some {
            let (c, k) = r->0;
            assert(is_authority_of(c@, k@, now));
        }
    }
    r
}

impl LocalCertificateAuthority {
    /// A new authority with a fresh key. Whether the system can make one rests on
    /// its random numbers and its clock; what is made is an authority of the local
    /// name, valid around some moment, within the size bounds.
    pub fn generate() -> (r: Result<
        GeneratedLocalCertificateAuthority,
        LocalCertificateAuthorityError,
    >)
        ensures
            exists|material: Option<(Seq<u8>, Seq<u8>)>| #[trigger] issued_authority(r, material),
            r matches Ok(g) ==> {
                let made = g.authority_spec();
                &&& certificate::ca_sizes(made.certificate.len(), made.private_key.len()) is Ok
                &&& is_made_authority(made.certificate, made.private_key)
            },
    {
        let material = generate_material();
        let ghost m = material_view(material);
        let r = accept_generated(material);
        assert(issued_authority(r, m));
        r
    }
}

/// A fresh identity for one host: its certificate, its key and its pin.
pub struct IssuedIdentity {
    pub certificate_der: Vec<u8>,
    pub private_key_der: Vec<u8>,
    pub pin: LocalCertificatePin,
}

/// Whether a private key is an ECDSA key, and its public part is the one that a
/// certificate holds.
pub uninterp spec fn is_certificate_key(certificate: Seq<u8>, private_key: Seq<u8>) -> bool;

/// Calls `rustls::crypto::ring::sign::any_ecdsa_type` on the private key, and
/// `rustls::sign::CertifiedKey::keys_match` on that key and the certificate. Where the
/// key can be loaded, the result is whether it is the certificate's, a function of the
/// two. Why it cannot be loaded is not said: it may be malformed, or the system's
/// random number generator, which the call reads, may have failed.
#[verifier::external_body]
fn signs_for(certificate_der: &[u8], private_key_der: &[u8]) -> (r: Option<bool>)
    ensures
        r matches Some(b) ==> b == is_certificate_key(certificate_der@, private_key_der@),
{
    let der = PrivateKeyDer::Pkcs8(PrivatePkcs8KeyDer::from(private_key_der));
    let certificate = CertificateDer::from(certificate_der.to_vec());
    match any_ecdsa_type(&der) {
        Ok(key) => Some(CertifiedKey::new(vec![certificate], key).keys_match().is_ok()),
        Err(_) => None,
    }
}

/// What issuing an identity comes to, given its certificate and key, where there are
/// some, and whether the key signs for the certificate, where it could be loaded.
pub open spec fn issued_identity(
    r: Result<IssuedIdentity, CertificateError>,
    instance: InstanceView,
    host: Seq<char>,
    material: Option<(Seq<u8>, Seq<u8>)>,
    signs: Option<bool>,
) -> bool {
    match material {
        None => r matches Err(e) && e == CertificateError::CertificateGeneration,
        Some((certificate, key)) => if certificate.len()
            > certificate::MAX_PRESENTED_CERTIFICATE_DER_BYTES {
            r matches Err(e) && e == CertificateError::CertificateGeneration
        } else if signs != Some(true) {
            r matches Err(e) && e == CertificateError::SigningKey
        } else {
            &&& r matches Ok(i)
            &&& i.certificate_der@ == certificate
            &&& i.private_key_der@ == key
            &&& i.pin@ == (certificate::PinView {
                instance,
                host,
                digest: crypto::sha256_of(certificate),
            })
        },
    }
}

/// The identity that a certificate and a key make, unless there is none, it is too
/// large to be presented, or the key does not sign for the certificate.
pub fn accept_identity(
    instance: ProxyInstanceId,
    host: NormalizedHost,
    material: Option<(Vec<u8>, Vec<u8>)>,
    signs: Option<bool>,
) -> (r: Result<IssuedIdentity, CertificateError>)
    ensures
        issued_identity(r, instance@, host@, material_view(material), signs),
{
    match material {
        None => Err(CertificateError::CertificateGeneration),
        Some((certificate_der, private_key_der)) => match LocalCertificatePin::for_certificate(
            instance,
            host,
            certificate_der.as_slice(),
        ) {
            Err(e) => Err(e),
            Ok(pin) => match signs {
                Some(true) => Ok(IssuedIdentity { certificate_der, private_key_der, pin }),
                _ => Err(CertificateError::SigningKey),
            },
        },
    }
}

pub open spec fn authority_material(authority: Option<&LocalCertificateAuthority>) -> Option<
    certificate::AuthorityMaterial,
> {
    match authority {
        Some(a) => Some(a@),
        None => None,
    }
}

/// The material of a leaf of a host with a key, made at a moment, by an authority where
/// there is one. There is none without a key, or where no certificate can express the
/// validity; whether the certificate can be signed rests on the random numbers of the
/// system.
pub fn leaf_at(
    host: &NormalizedHost,
    authority: Option<&LocalCertificateAuthority>,
    key: Option<Vec<u8>>,
    now: i64,
) -> (r: Option<(Vec<u8>, Vec<u8>)>)
    ensures
        r matches Some((c, k)) ==> key is Some && k@ == key->0@ && is_leaf_of(
            c@,
            k@,
            host@,
            authority_material(authority),
            now,
        ),
        key is None || leaf_validity_of(now) is None ==> r is None,
{
    let usages: Vec<KeyUsage> = vec![KeyUsage::DigitalSignature];
    let purposes: Vec<KeyPurpose> = vec![KeyPurpose::ServerAuth];
    assert(usages@ == leaf_usages());
    assert(purposes@ == leaf_purposes());
    let certificate = match (&key, leaf_validity(now), authority) {
        (Some(k), Some(validity), Some(a)) => sign_leaf_by(
            a.certificate_der(),
            a.private_key_der(),
            k.as_slice(),
            host.as_str(),
            usages.as_slice(),
            purposes.as_slice(),
            validity,
        ),
        (Some(k), Some(validity), None) => sign_leaf(
            k.as_slice(),
            host.as_str(),
            usages.as_slice(),
            purposes.as_slice(),
            validity,
        ),
        _ => None,
    };
    signed_material(key, certificate)
}

/// The material of a new leaf. Whether there is some rests on the random numbers
/// and the clock of the system.
fn leaf_material(host: &NormalizedHost, authority: Option<&LocalCertificateAuthority>) -> (r:
    Option<(Vec<u8>, Vec<u8>)>)
    ensures
        r matches Some((c, k)) ==> is_made_leaf(c@, k@, host@, authority_material(authority)),
{
    let now: i64 = unix_now();
    let key = match leaf_validity(now) {
        Some(_) => generate_p256_key(),
        None => None,
    };
    let r = leaf_at(host, authority, key, now);
    proof {
        if r is Some {
            let (c, k) = r->0;
            assert(is_leaf_of(c@, k@, host@, authority_material(authority), now));
        }
    }
    r
}

/// Issues a fresh identity for a host, signed by an authority or by itself.
/// Whether the system can issue one rests on its random numbers and its clock;
/// what is issued is a leaf of the host around some moment, its key signs for it, and
/// the pin is that of its certificate, for this host and this generation.
pub fn generate_identity(
    instance: ProxyInstanceId,
    host: NormalizedHost,
    authority: Option<&LocalCertificateAuthority>,
) -> (r: Result<IssuedIdentity, CertificateError>)
    ensures
        exists|material: Option<(Seq<u8>, Seq<u8>)>, signs: Option<bool>| #[trigger]
            issued_identity(r, instance@, host@, material, signs),
        r matches Ok(i) ==> {
            &&& i.certificate_der@.len() <= certificate::MAX_PRESENTED_CERTIFICATE_DER_BYTES
            &&& i.pin@ == (certificate::PinView {
                instance: instance@,
                host: host@,
                digest: crypto::sha256_of(i.certificate_der@),
            })
            &&& is_certificate_key(i.certificate_der@, i.private_key_der@)
            &&& is_made_leaf(
                i.certificate_der@,
                i.private_key_der@,
                host@,
                authority_material(authority),
            )
        },
{
    let material = leaf_material(&host, authority);
    let signs = match &material {
        Some((certificate, key)) => signs_for(certificate.as_slice(), key.as_slice()),
        None => None,
    };
    let ghost view = material_view(material);
    let ghost (bound, name) = (instance@, host@);
    let r = accept_identity(instance, host, material, signs);
    assert(issued_identity(r, bound, name, view, signs));
    r
}

/// An authority is valid from a day before it is made, for ten years of three hundred and
/// sixty-five days; a leaf from five minutes before, for ninety days. Neither is made where a
/// certificate cannot hold these times.
pub proof fn certificates_are_valid_for_their_time(now: i64)
    ensures
        authority_validity_of(now) is Some <==> -62_167_219_200 <= now - 86_400 && now
            + 315_360_000 <= 253_402_300_799,
        authority_validity_of(now) matches Some(v) ==> v.not_before == now - 86_400 && v.not_after
            == now + 315_360_000,
        leaf_validity_of(now) is Some <==> -62_167_219_200 <= now - 300 && now + 7_776_000
            <= 253_402_300_799,
        leaf_validity_of(now) matches Some(v) ==> v.not_before == now - 300 && v.not_after == now
            + 7_776_000,
{
}

/// An authority signs certificates and revocations under its one name and issues no other
/// authority; a leaf is for servers, and has the host as its one name.
pub proof fn certificates_are_made_for_their_use(
    certificate: Seq<u8>,
    key: Seq<u8>,
    host: Seq<char>,
    authority: certificate::AuthorityMaterial,
    now: i64,
)
    ensures
        is_authority_of(certificate, key, now) <==> authority_validity_of(now) is Some
            && is_authority_certificate(
            certificate,
            key,
            "HNS DANE Browser Local CA"@,
            0,
            seq![KeyUsage::DigitalSignature, KeyUsage::KeyCertSign, KeyUsage::CrlSign],
            authority_validity_of(now)->Some_0,
        ),
        is_leaf_of(certificate, key, host, Some(authority), now) <==> leaf_validity_of(now) is Some
            && is_issued_leaf(
            certificate,
            authority.certificate,
            authority.private_key,
            key,
            host,
            seq![KeyUsage::DigitalSignature],
            seq![KeyPurpose::ServerAuth],
            leaf_validity_of(now)->Some_0,
        ),
        is_leaf_of(certificate, key, host, None, now) <==> leaf_validity_of(now) is Some
            && is_self_signed_leaf(
            certificate,
            key,
            host,
            seq![KeyUsage::DigitalSignature],
            seq![KeyPurpose::ServerAuth],
            leaf_validity_of(now)->Some_0,
        ),
{
}

/// An identity is issued exactly where a certificate was made, is no larger than one may be,
/// and has a key that signs for it. It is pinned by its digest to the host and the instance.
pub proof fn identities_are_issued_exactly(
    r: Result<IssuedIdentity, CertificateError>,
    instance: InstanceView,
    host: Seq<char>,
    material: Option<(Seq<u8>, Seq<u8>)>,
    signs: Option<bool>,
)
    requires
        issued_identity(r, instance, host, material, signs),
    ensures
        ({
            let sized = material is Some && material->Some_0.0.len() <= 65536;
            &&& r is Ok <==> sized && signs == Some(true)
            &&& !sized ==> r->Err_0 == CertificateError::CertificateGeneration
            &&& sized && signs != Some(true) ==> r->Err_0 == CertificateError::SigningKey
            &&& r matches Ok(i) ==> {
                &&& i.certificate_der@ == material->Some_0.0
                &&& i.private_key_der@ == material->Some_0.1
                &&& i.pin@.instance == instance && i.pin@.host == host
                &&& i.pin@.digest == crypto::sha256_of(i.certificate_der@)
            }
        }),
{
}

/// An authority is issued exactly where its certificate and its key were made and have the
/// sizes that they may have. It is what was made.
pub proof fn authorities_are_issued_exactly(
    r: Result<GeneratedLocalCertificateAuthority, LocalCertificateAuthorityError>,
    material: Option<(Seq<u8>, Seq<u8>)>,
)
    requires
        issued_authority(r, material),
    ensures
        ({
            let c = material->Some_0.0;
            let k = material->Some_0.1;
            let sized = material is Some && 1 <= c.len() <= 65536;
            &&& r is Ok <==> sized && 1 <= k.len() <= 16384
            &&& r matches Ok(a) ==> a.authority_spec().certificate == c
                && a.authority_spec().private_key == k
            &&& material is None ==> r->Err_0 == LocalCertificateAuthorityError::Generation
            &&& material is Some && !sized ==> r->Err_0
                == LocalCertificateAuthorityError::InvalidCertificateSize
            &&& sized && r is Err ==> r->Err_0
                == LocalCertificateAuthorityError::InvalidPrivateKeySize
        }),
{
}

} // verus!
