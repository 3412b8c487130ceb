//! Local certificate authorities, certificate pins and the cache of local TLS
//! identities.

use crate::backend;
use crate::crypto;
use crate::host;
use crate::host::NormalizedHost;
use crate::instance::{InstanceView, ProxyInstanceId};
use crate::text;
use vstd::prelude::*;

verus! {

pub const MAX_CACHED_IDENTITIES: usize = 128;

pub const MAX_PRESENTED_CERTIFICATE_DER_BYTES: usize = 65536;

pub const MAX_LOCAL_CA_PRIVATE_KEY_DER_BYTES: usize = 16384;

// ---------------------------------------------------------------------
// Certificate authorities
// ---------------------------------------------------------------------

#[derive(Clone, Copy, Debug, PartialEq, Eq, Structural)]
pub enum LocalCertificateAuthorityError {
    InvalidCertificateSize,
    InvalidPrivateKeySize,
    Generation,
    InvalidPrivateKey,
    InvalidCertificate,
    KeyMismatch,
}

pub open spec fn ca_error_text(e: LocalCertificateAuthorityError) -> Seq<char> {
    match e {
        LocalCertificateAuthorityError::InvalidCertificateSize =>
            "local CA certificate is empty or exceeds the size bound"@,
        LocalCertificateAuthorityError::InvalidPrivateKeySize =>
            "local CA private key is empty or exceeds the size bound"@,
        LocalCertificateAuthorityError::Generation => "unable to generate the local CA"@,
        LocalCertificateAuthorityError::InvalidPrivateKey =>
            "unable to parse the local CA private key"@,
        LocalCertificateAuthorityError::InvalidCertificate =>
            "unable to parse the local CA certificate"@,
        LocalCertificateAuthorityError::KeyMismatch =>
            "the local CA certificate does not match its private key"@,
    }
}

impl LocalCertificateAuthorityError {
    /// What went wrong, in words.
    pub fn message(&self) -> (r: &'static str)
        ensures
            r@ == ca_error_text(*self),
    {
        match self {
            LocalCertificateAuthorityError::InvalidCertificateSize =>
                "local CA certificate is empty or exceeds the size bound",
            LocalCertificateAuthorityError::InvalidPrivateKeySize =>
                "local CA private key is empty or exceeds the size bound",
            LocalCertificateAuthorityError::Generation => "unable to generate the local CA",
            LocalCertificateAuthorityError::InvalidPrivateKey =>
                "unable to parse the local CA private key",
            LocalCertificateAuthorityError::InvalidCertificate =>
                "unable to parse the local CA certificate",
            LocalCertificateAuthorityError::KeyMismatch =>
                "the local CA certificate does not match its private key",
        }
    }
}

pub open spec fn ca_sizes(certificate: nat, private_key: nat) -> Result<
    (),
    LocalCertificateAuthorityError,
> {
    if certificate == 0 || certificate > MAX_PRESENTED_CERTIFICATE_DER_BYTES {
        Err(LocalCertificateAuthorityError::InvalidCertificateSize)
    } else if private_key == 0 || private_key > MAX_LOCAL_CA_PRIVATE_KEY_DER_BYTES {
        Err(LocalCertificateAuthorityError::InvalidPrivateKeySize)
    } else {
        Ok(())
    }
}

/// Checks that certificate and key are neither empty nor oversized.
pub fn validate_ca_material_sizes(certificate_der: &[u8], private_key_der: &[u8]) -> (r: Result<
    (),
    LocalCertificateAuthorityError,
>)
    ensures
        r == ca_sizes(certificate_der@.len(), private_key_der@.len()),
{
    if certificate_der.len() == 0 || certificate_der.len() > MAX_PRESENTED_CERTIFICATE_DER_BYTES {
        return Err(LocalCertificateAuthorityError::InvalidCertificateSize);
    }
    if private_key_der.len() == 0 || private_key_der.len() > MAX_LOCAL_CA_PRIVATE_KEY_DER_BYTES {
        return Err(LocalCertificateAuthorityError::InvalidPrivateKeySize);
    }
    Ok(())
}

/// The public key information that belongs to a P-256 private key.
pub uninterp spec fn p256_public_key(private_key_der: Seq<u8>) -> Seq<u8>;

/// Whether `rcgen` can read the bytes as the certificate of an issuer.
pub uninterp spec fn is_issuer_certificate(certificate_der: Seq<u8>) -> bool;

/// Calls `rcgen::KeyPair::from_pkcs8_der_and_sign_algo` for P-256, and
/// `rcgen::Issuer::from_ca_cert_der` with the key that comes back. Where the key can be
/// read, the result is its public key information, a function of the key bytes, and
/// whether the certificate can be read as an issuer's, which the certificate alone
/// decides. Why the key cannot be read is not said: it may be malformed, or the
/// system's random number generator, which the call reads, may have failed.
#[verifier::external_body]
fn read_authority(certificate_der: &[u8], private_key_der: &[u8]) -> (r: Option<(Vec<u8>, bool)>)
    ensures
        r matches Some((k, b)) ==> k@ == p256_public_key(private_key_der@) && b
            == is_issuer_certificate(certificate_der@),
{
    let der = rustls::pki_types::PrivatePkcs8KeyDer::from(private_key_der);
    let certificate = rustls::pki_types::CertificateDer::from(certificate_der);
    match rcgen::KeyPair::from_pkcs8_der_and_sign_algo(&der, &rcgen::PKCS_ECDSA_P256_SHA256) {
        Ok(key) => {
            let spki = rcgen::PublicKeyData::subject_public_key_info(&key);
            Some((spki, rcgen::Issuer::from_ca_cert_der(&certificate, key).is_ok()))
        },
        Err(_) => None,
    }
}

/// A local certificate authority: its certificate and the key that signs for
/// it.
pub struct LocalCertificateAuthority {
    certificate_der: Vec<u8>,
    private_key_der: Vec<u8>,
    certificate_sha1: Vec<u8>,
    certificate_sha256: Vec<u8>,
}

#[verifier::ext_equal]
pub struct AuthorityMaterial {
    pub certificate: Seq<u8>,
    pub private_key: Seq<u8>,
}

impl View for LocalCertificateAuthority {
    type V = AuthorityMaterial;

    closed spec fn view(&self) -> AuthorityMaterial {
        AuthorityMaterial {
            certificate: self.certificate_der@,
            private_key: self.private_key_der@,
        }
    }
}

/// Whether stored material is accepted, given what the key and the certificate
/// turned out to hold.
pub open spec fn ca_decision(
    certificate: Seq<u8>,
    private_key: Seq<u8>,
    key_spki: Option<Seq<u8>>,
    certificate_spki: Option<Seq<u8>>,
    issuer: bool,
) -> Result<AuthorityMaterial, LocalCertificateAuthorityError> {
    match ca_sizes(certificate.len(), private_key.len()) {
        Err(e) => Err(e),
        Ok(()) => match (key_spki, certificate_spki) {
            (None, _) => Err(LocalCertificateAuthorityError::InvalidPrivateKey),
            (Some(_), None) => Err(LocalCertificateAuthorityError::InvalidCertificate),
            (Some(k), Some(c)) => if k != c {
                Err(LocalCertificateAuthorityError::KeyMismatch)
            } else if !issuer {
                Err(LocalCertificateAuthorityError::InvalidCertificate)
            } else {
                Ok(AuthorityMaterial { certificate, private_key })
            },
        },
    }
}

pub open spec fn same_authority_material(
    r: Result<LocalCertificateAuthority, LocalCertificateAuthorityError>,
    v: Result<AuthorityMaterial, LocalCertificateAuthorityError>,
) -> bool {
    match (r, v) {
        (Ok(a), Ok(w)) => a@ == w,
        (Err(e), Err(f)) => e == f,
        _ => false,
    }
}

pub open spec fn bytes_view(b: Option<Vec<u8>>) -> Option<Seq<u8>> {
    match b {
        Some(v) => Some(v@),
        None => None,
    }
}

/// What loading stored material comes to, given whether its key could be read.
pub open spec fn loaded_authority(
    r: Result<LocalCertificateAuthority, LocalCertificateAuthorityError>,
    certificate: Seq<u8>,
    private_key: Seq<u8>,
    certificate_spki: Option<Seq<u8>>,
    readable: bool,
) -> bool {
    let key_spki = if readable {
        Some(p256_public_key(private_key))
    } else {
        None
    };
    same_authority_material(
        r,
        ca_decision(
            certificate,
            private_key,
            key_spki,
            certificate_spki,
            is_issuer_certificate(certificate),
        ),
    )
}

/// Decides on stored material, given what the key and the certificate turned
/// out to hold.
pub fn accept_ca_material(
    certificate_der: Vec<u8>,
    private_key_der: &[u8],
    key_spki: Option<Vec<u8>>,
    certificate_spki: Option<Vec<u8>>,
    issuer: bool,
) -> (r: Result<LocalCertificateAuthority, LocalCertificateAuthorityError>)
    ensures
        same_authority_material(
            r,
            ca_decision(
                certificate_der@,
                private_key_der@,
                bytes_view(key_spki),
                bytes_view(certificate_spki),
                issuer,
            ),
        ),
{
    match validate_ca_material_sizes(certificate_der.as_slice(), private_key_der) {
        Err(e) => {
            return Err(e);
        },
        Ok(()) => {},
    }
    match (key_spki, certificate_spki) {
        (None, _) => Err(LocalCertificateAuthorityError::InvalidPrivateKey),
        (Some(_), None) => Err(LocalCertificateAuthorityError::InvalidCertificate),
        (Some(k), Some(c)) => if !crypto::constant_time_eq(k.as_slice(), c.as_slice()) {
            Err(LocalCertificateAuthorityError::KeyMismatch)
        } else if !issuer {
            Err(LocalCertificateAuthorityError::InvalidCertificate)
        } else {
            let key = text::bytes_between(private_key_der, 0, private_key_der.len());
            assert(key@ == private_key_der@);
            Ok(LocalCertificateAuthority::with_digests(certificate_der, key))
        },
    }
}

/// The PEM body: lines of 64 characters, the last one possibly shorter.
pub open spec fn wrapped(encoded: Seq<char>) -> Seq<char>
    decreases encoded.len(),
{
    if encoded.len() == 0 {
        Seq::empty()
    } else if encoded.len() <= 64 {
        encoded.push('\n')
    } else {
        encoded.take(64).push('\n') + wrapped(encoded.skip(64))
    }
}

pub open spec fn pem_text(encoded: Seq<char>) -> Seq<char> {
    "-----BEGIN CERTIFICATE-----\n"@ + wrapped(encoded) + "-----END CERTIFICATE-----\n"@
}

/// Two lower-case hexadecimal digits for each byte.
pub open spec fn hex_text(bytes: Seq<u8>) -> Seq<char>
    decreases bytes.len(),
{
    if bytes.len() == 0 {
        Seq::empty()
    } else {
        hex_text(bytes.drop_last()).push(text::digit_char((bytes.last() / 16) as int)).push(
            text::digit_char((bytes.last() % 16) as int),
        )
    }
}

fn to_hex(bytes: &[u8]) -> (r: String)
    ensures
        r@ == hex_text(bytes@),
{
    let mut v: Vec<char> = Vec::new();
    let mut i: usize = 0;
    assert(bytes@.take(0) == Seq::<u8>::empty());
    while i < bytes.len()
        invariant
            i <= bytes@.len(),
            v@ == hex_text(bytes@.take(i as int)),
        decreases bytes.len() - i,
    {
        proof {
            assert(bytes@.take(i as int + 1).drop_last() == bytes@.take(i as int));
        }
        v.push(text::char_of_digit((bytes[i] / 16) as u64));
        v.push(text::char_of_digit((bytes[i] % 16) as u64));
        i += 1;
    }
    assert(bytes@.take(i as int) == bytes@);
    text::from_chars(v.as_slice())
}

fn wrap_lines(encoded: &[char]) -> (r: Vec<char>)
    ensures
        r@ == wrapped(encoded@),
{
    let mut v: Vec<char> = Vec::new();
    let mut i: usize = 0;
    assert(encoded@.skip(0) == encoded@);
    while encoded.len() - i > 64
        invariant
            i <= encoded@.len(),
            v@ + wrapped(encoded@.skip(i as int)) == wrapped(encoded@),
        decreases encoded.len() - i,
    {
        let line = text::chars_between(encoded, i, i + 64);
        let ghost before = v@;
        text::push_chars(&mut v, line.as_slice());
        v.push('\n');
        proof {
            let rest = encoded@.skip(i as int);
            assert(line@ == rest.take(64));
            assert(rest.skip(64) == encoded@.skip(i as int + 64));
            assert(v@ == before + rest.take(64).push('\n'));
            assert(before + (rest.take(64).push('\n') + wrapped(rest.skip(64))) == v@ + wrapped(
                rest.skip(64),
            ));
        }
        i += 64;
    }
    if i < encoded.len() {
        let line = text::chars_between(encoded, i, encoded.len());
        let ghost before = v@;
        text::push_chars(&mut v, line.as_slice());
        v.push('\n');
        proof {
            let rest = encoded@.skip(i as int);
            assert(line@ == rest);
            assert(v@ == before + rest.push('\n'));
        }
    } else {
        assert(v@ + Seq::<char>::empty() == v@);
    }
    v
}

impl LocalCertificateAuthority {
    #[verifier::type_invariant]
    spec fn consistent(self) -> bool {
        &&& ca_sizes(self.certificate_der@.len(), self.private_key_der@.len()) is Ok
        &&& self.certificate_sha1@ == crypto::sha1_of(self.certificate_der@)
        &&& self.certificate_sha256@ == crypto::sha256_of(self.certificate_der@)
    }

    fn with_digests(certificate_der: Vec<u8>, private_key_der: Vec<u8>) -> (r: Self)
        requires
            ca_sizes(certificate_der@.len(), private_key_der@.len()) is Ok,
        ensures
            r@ == (AuthorityMaterial {
                certificate: certificate_der@,
                private_key: private_key_der@,
            }),
    {
        let sha1 = crypto::sha1(certificate_der.as_slice());
        let sha256 = crypto::sha256(certificate_der.as_slice());
        LocalCertificateAuthority {
            certificate_der,
            private_key_der,
            certificate_sha1: sha1,
            certificate_sha256: sha256,
        }
    }

    /// Loads stored material. `certificate_spki` is the public key information
    /// of the certificate, where it could be read. Everything is decided by the
    /// material but whether its key can be read: that also rests on the system's
    /// random number generator.
    pub fn from_der(
        certificate_der: Vec<u8>,
        private_key_der: &[u8],
        certificate_spki: Option<Vec<u8>>,
    ) -> (r: Result<Self, LocalCertificateAuthorityError>)
        ensures
            exists|readable: bool| #[trigger]
                loaded_authority(
                    r,
                    certificate_der@,
                    private_key_der@,
                    bytes_view(certificate_spki),
                    readable,
                ),
    {
        match validate_ca_material_sizes(certificate_der.as_slice(), private_key_der) {
            Err(e) => {
                let r = Err(e);
                assert(loaded_authority(
                    r,
                    certificate_der@,
                    private_key_der@,
                    bytes_view(certificate_spki),
                    false,
                ));
                return r;
            },
            Ok(()) => {},
        }
        let (key_spki, issuer) = match read_authority(certificate_der.as_slice(), private_key_der) {
            Some((k, b)) => (Some(k), b),
            None => (None, false),
        };
        let ghost certificate = certificate_der@;
        let ghost spki = bytes_view(certificate_spki);
        let ghost readable = key_spki is Some;
        let r = accept_ca_material(
            certificate_der,
            private_key_der,
            key_spki,
            certificate_spki,
            issuer,
        );
        assert(loaded_authority(r, certificate, private_key_der@, spki, readable));
        r
    }

    /// Takes over freshly issued material.
    pub fn from_issued(certificate_der: Vec<u8>, private_key_der: Vec<u8>) -> (r: Result<
        Self,
        LocalCertificateAuthorityError,
    >)
        ensures
            match (r, ca_sizes(certificate_der@.len(), private_key_der@.len())) {
                (Ok(a), Ok(())) => a@ == (AuthorityMaterial {
                    certificate: certificate_der@,
                    private_key: private_key_der@,
                }),
                (Err(e), Err(f)) => e == f,
                _ => false,
            },
    {
        match validate_ca_material_sizes(certificate_der.as_slice(), private_key_der.as_slice()) {
            Err(e) => Err(e),
            Ok(()) => Ok(LocalCertificateAuthority::with_digests(certificate_der, private_key_der)),
        }
    }

    pub fn certificate_der(&self) -> (r: &[u8])
        ensures
            r@ == self@.certificate,
    {
        self.certificate_der.as_slice()
    }

    /// Exports the secret key for the host's protected store.
    pub fn private_key_der(&self) -> (r: &[u8])
        ensures
            r@ == self@.private_key,
    {
        self.private_key_der.as_slice()
    }

    pub fn certificate_pem(&self) -> (r: String)
        ensures
            r@ == pem_text(crypto::base64_text(self@.certificate)),
    {
        proof {
            use_type_invariant(self);
        }
        let encoded = crypto::base64_encode(self.certificate_der.as_slice());
        pem_of(encoded.as_str())
    }

    pub fn certificate_sha256_hex(&self) -> (r: String)
        ensures
            r@ == hex_text(crypto::sha256_of(self@.certificate)),
    {
        proof {
            use_type_invariant(self);
        }
        to_hex(self.certificate_sha256.as_slice())
    }

    /// The identifier that system certificate stores use; never trusted.
    pub fn certificate_sha1_hex(&self) -> (r: String)
        ensures
            r@ == hex_text(crypto::sha1_of(self@.certificate)),
    {
        proof {
            use_type_invariant(self);
        }
        to_hex(self.certificate_sha1.as_slice())
    }

    /// Whether two authorities have certificates of the same digest.
    pub fn same(&self, other: &LocalCertificateAuthority) -> (r: bool)
        ensures
            r == (crypto::sha256_of(self@.certificate) == crypto::sha256_of(other@.certificate)),
    {
        proof {
            use_type_invariant(self);
            use_type_invariant(other);
        }
        crypto::constant_time_eq(
            self.certificate_sha256.as_slice(),
            other.certificate_sha256.as_slice(),
        )
    }

    /// A diagnostic description that withholds the digest.
    pub fn describe(&self) -> (r: &'static str)
        ensures
            r@ == "LocalCertificateAuthority { certificate_sha256: \"[REDACTED]\" }"@,
    {
        "LocalCertificateAuthority { certificate_sha256: \"[REDACTED]\" }"
    }
}

/// The PEM text of an encoded certificate.
pub fn pem_of(encoded: &str) -> (r: String)
    ensures
        r@ == pem_text(encoded@),
{
    let chars = text::to_chars(encoded);
    let mut v = text::to_chars("-----BEGIN CERTIFICATE-----\n");
    let body = wrap_lines(chars.as_slice());
    text::push_chars(&mut v, body.as_slice());
    text::push_str(&mut v, "-----END CERTIFICATE-----\n");
    text::from_chars(v.as_slice())
}

/// A new authority and the secret key to store for it.
pub struct GeneratedLocalCertificateAuthority {
    authority: LocalCertificateAuthority,
}

impl GeneratedLocalCertificateAuthority {
    pub closed spec fn authority_spec(self) -> AuthorityMaterial {
        self.authority@
    }

    /// Takes over a freshly issued authority.
    pub fn new(authority: LocalCertificateAuthority) -> (r: Self)
        ensures
            r.authority_spec() == authority@,
    {
        GeneratedLocalCertificateAuthority { authority }
    }

    pub fn authority(&self) -> (r: &LocalCertificateAuthority)
        ensures
            r@ == self.authority_spec(),
    {
        &self.authority
    }

    /// Exports the secret key for the host's protected store.
    pub fn private_key_der(&self) -> (r: &[u8])
        ensures
            r@ == self.authority_spec().private_key,
    {
        self.authority.private_key_der()
    }

    /// A diagnostic description that withholds the key.
    pub fn describe(&self) -> (r: &'static str)
        ensures
            r@ == "GeneratedLocalCertificateAuthority { authority: LocalCertificateAuthority { certificate_sha256: \"[REDACTED]\" }, private_key_der: \"[REDACTED]\" }"@,
    {
        "GeneratedLocalCertificateAuthority { authority: LocalCertificateAuthority { certificate_sha256: \"[REDACTED]\" }, private_key_der: \"[REDACTED]\" }"
    }
}

// ---------------------------------------------------------------------
// Pins
// ---------------------------------------------------------------------

/// An equality token for one certificate.
#[derive(Clone)]
pub struct CertificateSha256 {
    digest: Vec<u8>,
}

impl View for CertificateSha256 {
    type V = Seq<u8>;

    closed spec fn view(&self) -> Seq<u8> {
        self.digest@
    }
}

/// Whether a presented certificate has the digest; an oversized one never has.
pub open spec fn der_matches(digest: Seq<u8>, certificate: Seq<u8>) -> bool {
    certificate.len() <= MAX_PRESENTED_CERTIFICATE_DER_BYTES && digest == crypto::sha256_of(
        certificate,
    )
}

impl CertificateSha256 {
    /// The token of a certificate.
    pub fn from_der(certificate_der: &[u8]) -> (r: Self)
        requires
            certificate_der@.len() <= MAX_PRESENTED_CERTIFICATE_DER_BYTES,
        ensures
            r@ == crypto::sha256_of(certificate_der@),
    {
        CertificateSha256 { digest: crypto::sha256(certificate_der) }
    }

    pub fn matches_der(&self, certificate_der: &[u8]) -> (r: bool)
        ensures
            r == der_matches(self@, certificate_der@),
    {
        if certificate_der.len() > MAX_PRESENTED_CERTIFICATE_DER_BYTES {
            return false;
        }
        let candidate = crypto::sha256(certificate_der);
        crypto::constant_time_eq(self.digest.as_slice(), candidate.as_slice())
    }

    pub fn same(&self, other: &CertificateSha256) -> (r: bool)
        ensures
            r == (self@ == other@),
    {
        crypto::constant_time_eq(self.digest.as_slice(), other.digest.as_slice())
    }

    /// A diagnostic description that withholds the digest.
    pub fn describe(&self) -> (r: &'static str)
        ensures
            r@ == "CertificateSha256([REDACTED])"@,
    {
        "CertificateSha256([REDACTED])"
    }
}

/// A pin that is bound to one proxy generation and one exact host.
#[derive(Clone)]
pub struct LocalCertificatePin {
    instance: ProxyInstanceId,
    host: NormalizedHost,
    certificate_sha256: CertificateSha256,
}

#[verifier::ext_equal]
pub struct PinView {
    pub instance: InstanceView,
    pub host: Seq<char>,
    pub digest: Seq<u8>,
}

impl View for LocalCertificatePin {
    type V = PinView;

    closed spec fn view(&self) -> PinView {
        PinView {
            instance: self.instance@,
            host: self.host@,
            digest: self.certificate_sha256@,
        }
    }
}

impl LocalCertificatePin {
    /// The pin for a freshly issued certificate, unless it is too large to ever
    /// be presented.
    pub fn for_certificate(
        instance: ProxyInstanceId,
        host: NormalizedHost,
        certificate_der: &[u8],
    ) -> (r: Result<Self, CertificateError>)
        ensures
            match r {
                Ok(pin) => certificate_der@.len() <= MAX_PRESENTED_CERTIFICATE_DER_BYTES && pin@
                    == (PinView {
                    instance: instance@,
                    host: host@,
                    digest: crypto::sha256_of(certificate_der@),
                }),
                Err(e) => certificate_der@.len() > MAX_PRESENTED_CERTIFICATE_DER_BYTES && e
                    == CertificateError::CertificateGeneration,
            },
    {
        if certificate_der.len() > MAX_PRESENTED_CERTIFICATE_DER_BYTES {
            return Err(CertificateError::CertificateGeneration);
        }
        Ok(
            LocalCertificatePin {
                instance,
                host,
                certificate_sha256: CertificateSha256::from_der(certificate_der),
            },
        )
    }

    pub fn instance(&self) -> (r: &ProxyInstanceId)
        ensures
            r@ == self@.instance,
    {
        &self.instance
    }

    pub fn host(&self) -> (r: &NormalizedHost)
        ensures
            r@ == self@.host,
    {
        &self.host
    }

    pub fn certificate_sha256(&self) -> (r: &CertificateSha256)
        ensures
            r@ == self@.digest,
    {
        &self.certificate_sha256
    }

    pub fn matches_der(&self, certificate_der: &[u8]) -> (r: bool)
        ensures
            r == der_matches(self@.digest, certificate_der@),
    {
        self.certificate_sha256.matches_der(certificate_der)
    }

    pub fn same(&self, other: &LocalCertificatePin) -> (r: bool)
        ensures
            r == (self@ == other@),
    {
        self.instance.same(&other.instance) && self.host.same(&other.host)
            && self.certificate_sha256.same(&other.certificate_sha256)
    }

    pub fn copy(&self) -> (r: Self)
        ensures
            r@ == self@,
    {
        let digest = self.certificate_sha256.digest.as_slice();
        let bytes = text::bytes_between(digest, 0, digest.len());
        assert(bytes@ == digest@);
        LocalCertificatePin {
            instance: self.instance.copy(),
            host: self.host.copy(),
            certificate_sha256: CertificateSha256 { digest: bytes },
        }
    }

    /// A diagnostic description that withholds every component.
    pub fn describe(&self) -> (r: &'static str)
        ensures
            r@ == "LocalCertificatePin { instance: \"[REDACTED]\", host: \"[REDACTED]\", certificate_sha256: \"[REDACTED]\" }"@,
    {
        "LocalCertificatePin { instance: \"[REDACTED]\", host: \"[REDACTED]\", certificate_sha256: \"[REDACTED]\" }"
    }
}

#[derive(Clone, Copy, Debug, PartialEq, Eq, Structural)]
pub enum CertificateError {
    Inactive,
    CapacityExhausted,
    StoreUnavailable,
    CertificateGeneration,
    SigningKey,
    ServerConfiguration,
}

pub open spec fn certificate_error_text(e: CertificateError) -> Seq<char> {
    match e {
        CertificateError::Inactive => "the local TLS identity store is inactive"@,
        CertificateError::CapacityExhausted =>
            "the local TLS identity cache is full of active leases"@,
        CertificateError::StoreUnavailable => "the local TLS identity store is unavailable"@,
        CertificateError::CertificateGeneration => "unable to generate a local TLS certificate"@,
        CertificateError::SigningKey => "unable to load the generated local TLS signing key"@,
        CertificateError::ServerConfiguration => "unable to configure the local TLS server"@,
    }
}

impl CertificateError {
    /// What went wrong, in words.
    pub fn message(&self) -> (r: &'static str)
        ensures
            r@ == certificate_error_text(*self),
    {
        match self {
            CertificateError::Inactive => "the local TLS identity store is inactive",
            CertificateError::CapacityExhausted =>
                "the local TLS identity cache is full of active leases",
            CertificateError::StoreUnavailable => "the local TLS identity store is unavailable",
            CertificateError::CertificateGeneration => "unable to generate a local TLS certificate",
            CertificateError::SigningKey => "unable to load the generated local TLS signing key",
            CertificateError::ServerConfiguration => "unable to configure the local TLS server",
        }
    }
}

/// Whether a local identity answers a presented server name: while it is
/// active, and for the canonical form of its exact host only.
pub open spec fn sni_allowed(active: bool, presented: Option<Seq<char>>, expected: Seq<char>) -> bool {
    active && match presented {
        Some(name) => host::normalized(name) == Ok::<Seq<char>, host::HostNormalizationError>(
            expected,
        ),
        None => false,
    }
}

/// Whether a local identity answers a presented server name.
pub fn allows_sni(active: bool, presented: Option<&str>, expected: &NormalizedHost) -> (r: bool)
    ensures
        r == sni_allowed(
            active,
            match presented {
                Some(s) => Some(s@),
                None => None,
            },
            expected@,
        ),
{
    if !active {
        return false;
    }
    match presented {
        None => false,
        Some(name) => match NormalizedHost::parse(name) {
            Ok(h) => h.same(expected),
            Err(_) => false,
        },
    }
}


// ---------------------------------------------------------------------
// The identity cache
// ---------------------------------------------------------------------

/// One cached identity; `I` is the handle that serves TLS with it.
struct CacheEntry<I> {
    host: NormalizedHost,
    pin: LocalCertificatePin,
    identity: I,
    last_access: u128,
    leases: usize,
}

pub struct EntryView<I> {
    pub host: Seq<char>,
    pub pin: PinView,
    pub identity: I,
    pub last_access: int,
    pub leases: int,
}

/// Exact-host identities of one proxy generation. An identity is leased while
/// connections use it, and only idle identities make room for others.
pub struct LocalTlsIdentityStore<I> {
    instance: ProxyInstanceId,
    active: bool,
    entries: Vec<CacheEntry<I>>,
    access_counter: u128,
}

pub struct StoreView<I> {
    pub instance: InstanceView,
    pub active: bool,
    pub entries: Seq<EntryView<I>>,
    pub counter: int,
}

/// What preparing an identity came to.
#[derive(Clone, Copy, Debug, PartialEq, Eq, Structural)]
pub enum PrepareStep {
    /// The identity is cached at this place, and leased.
    Cached { index: usize },
    /// The identity has to be generated, and there will be room for it.
    Generate,
}

spec fn entry_view<I>(e: CacheEntry<I>) -> EntryView<I> {
    EntryView {
        host: e.host@,
        pin: e.pin@,
        identity: e.identity,
        last_access: e.last_access as int,
        leases: e.leases as int,
    }
}

spec fn entry_views<I>(entries: Seq<CacheEntry<I>>) -> Seq<EntryView<I>> {
    entries.map_values(|e: CacheEntry<I>| entry_view(e))
}

impl<I> View for LocalTlsIdentityStore<I> {
    type V = StoreView<I>;

    closed spec fn view(&self) -> StoreView<I> {
        StoreView {
            instance: self.instance@,
            active: self.active,
            entries: entry_views(self.entries@),
            counter: self.access_counter as int,
        }
    }
}

/// Where the identity of a host stands, or the length where there is none.
pub open spec fn position<I>(entries: Seq<EntryView<I>>, host: Seq<char>) -> int
    decreases entries.len(),
{
    if entries.len() == 0 || entries[0].host == host {
        0
    } else {
        1 + position(entries.drop_first(), host)
    }
}

/// How many entries were used before the given access.
pub open spec fn older<I>(entries: Seq<EntryView<I>>, access: int) -> int
    decreases entries.len(),
{
    if entries.len() == 0 {
        0
    } else {
        older(entries.drop_last(), access) + (if entries.last().last_access < access {
            1int
        } else {
            0
        })
    }
}

/// The entries with their accesses replaced by their ranks.
pub open spec fn renumbered<I>(entries: Seq<EntryView<I>>) -> Seq<EntryView<I>> {
    entries.map_values(
        |e: EntryView<I>| EntryView { last_access: older(entries, e.last_access), ..e },
    )
}

/// Entries and counter when the next access is counted; a counter at its end
/// starts over behind the ranks.
pub open spec fn counted<I>(entries: Seq<EntryView<I>>, counter: int) -> (
    Seq<EntryView<I>>,
    int,
) {
    if counter == u128::MAX {
        (renumbered(entries), entries.len() as int + 1)
    } else {
        (entries, counter + 1)
    }
}

pub open spec fn touched<I>(e: EntryView<I>, access: int) -> EntryView<I> {
    EntryView { last_access: access, ..e }
}

pub open spec fn leased<I>(e: EntryView<I>) -> EntryView<I> {
    EntryView {
        leases: if e.leases < usize::MAX {
            e.leases + 1
        } else {
            e.leases
        },
        ..e
    }
}

/// Whether the entry is idle, and no idle entry was used before it.
pub open spec fn is_least_recent_idle<I>(entries: Seq<EntryView<I>>, i: int) -> bool {
    &&& 0 <= i < entries.len()
    &&& entries[i].leases == 0
    &&& forall|j: int|
        0 <= j < entries.len() && (#[trigger] entries[j]).leases == 0 ==> entries[i].last_access
            <= entries[j].last_access
}

pub open spec fn has_idle<I>(entries: Seq<EntryView<I>>) -> bool {
    exists|i: int| 0 <= i < entries.len() && (#[trigger] entries[i]).leases == 0
}

impl<I> StoreView<I> {
    /// Hosts and accesses are distinct, the cache is bounded, and an inactive
    /// store is empty.
    pub open spec fn wf(self) -> bool {
        &&& self.entries.len() <= MAX_CACHED_IDENTITIES
        &&& 0 <= self.counter <= u128::MAX
        &&& !self.active ==> self.entries.len() == 0
        &&& forall|i: int|
            0 <= i < self.entries.len() ==> 0 <= (#[trigger] self.entries[i]).last_access
                <= self.counter && 0 <= self.entries[i].leases <= usize::MAX
        &&& forall|i: int, j: int|
            0 <= i < j < self.entries.len() ==> (#[trigger] self.entries[i]).host != (
            #[trigger] self.entries[j]).host && self.entries[i].last_access
                != self.entries[j].last_access
    }

    /// The store when the next access is counted.
    pub open spec fn next(self) -> StoreView<I> {
        let (entries, counter) = counted(self.entries, self.counter);
        StoreView { entries, counter, ..self }
    }

    pub open spec fn at(self, host: Seq<char>) -> int {
        position(self.entries, host)
    }

    pub open spec fn holds(self, host: Seq<char>) -> bool {
        self.at(host) < self.entries.len()
    }

    /// What preparing an identity comes to, and the store after it.
    pub open spec fn prepared(self, host: Seq<char>) -> (
        Result<PrepareStep, CertificateError>,
        StoreView<I>,
    ) {
        let now = self.next();
        let i = now.at(host);
        if !self.active {
            (Err(CertificateError::Inactive), self)
        } else if now.holds(host) {
            (
                Ok(PrepareStep::Cached { index: i as usize }),
                StoreView {
                    entries: now.entries.update(
                        i,
                        leased(touched(now.entries[i], now.counter)),
                    ),
                    ..now
                },
            )
        } else if now.entries.len() < MAX_CACHED_IDENTITIES || has_idle(now.entries) {
            (Ok(PrepareStep::Generate), now)
        } else {
            (Err(CertificateError::CapacityExhausted), now)
        }
    }

    /// Whether caching a new identity comes to a result and a store.
    pub open spec fn committed(
        self,
        host: Seq<char>,
        pin: PinView,
        identity: I,
        r: Result<usize, CertificateError>,
        after: StoreView<I>,
    ) -> bool {
        let now = self.next();
        let i = now.at(host);
        let new = EntryView { host, pin, identity, last_access: now.counter, leases: 1 };
        if !self.active {
            &&& r == Err::<usize, CertificateError>(CertificateError::Inactive)
            &&& after == self
        } else if now.holds(host) {
            &&& r == Ok::<usize, CertificateError>(i as usize)
            &&& after == (StoreView {
                entries: now.entries.update(i, leased(touched(now.entries[i], now.counter))),
                ..now
            })
        } else if now.entries.len() < MAX_CACHED_IDENTITIES {
            &&& r == Ok::<usize, CertificateError>(now.entries.len() as usize)
            &&& after == (StoreView { entries: now.entries.push(new), ..now })
        } else if has_idle(now.entries) {
            &&& r == Ok::<usize, CertificateError>((now.entries.len() - 1) as usize)
            &&& exists|k: int| #[trigger]
                is_least_recent_idle(now.entries, k) && after == (StoreView {
                    entries: now.entries.remove(k).push(new),
                    ..now
                })
        } else {
            &&& r == Err::<usize, CertificateError>(CertificateError::CapacityExhausted)
            &&& after == now
        }
    }

    /// The store after one lease of a host's identity ended.
    pub open spec fn released(self, host: Seq<char>) -> StoreView<I> {
        let i = self.at(host);
        if self.holds(host) && self.entries[i].leases > 0 {
            StoreView {
                entries: self.entries.update(
                    i,
                    EntryView { leases: self.entries[i].leases - 1, ..self.entries[i] },
                ),
                ..self
            }
        } else {
            self
        }
    }

    /// The pin of a host.
    pub open spec fn pin_of(self, host: Seq<char>) -> Option<PinView> {
        if self.active && self.next().holds(host) {
            Some(self.next().entries[self.next().at(host)].pin)
        } else {
            None
        }
    }

    /// The store with every identity revoked.
    pub open spec fn revoked(self) -> StoreView<I> {
        StoreView { active: false, entries: Seq::empty(), ..self }
    }

    /// The store after someone asked for the pin of a host.
    pub open spec fn asked(self, host: Seq<char>) -> StoreView<I> {
        let now = self.next();
        if !self.active {
            self
        } else if now.holds(host) {
            StoreView {
                entries: now.entries.update(
                    now.at(host),
                    touched(now.entries[now.at(host)], now.counter),
                ),
                ..now
            }
        } else {
            now
        }
    }
}

proof fn lemma_position<I>(entries: Seq<EntryView<I>>, host: Seq<char>, i: int)
    requires
        0 <= i <= entries.len(),
        forall|j: int| 0 <= j < i ==> (#[trigger] entries[j]).host != host,
        i < entries.len() ==> entries[i].host == host,
    ensures
        position(entries, host) == i,
    decreases entries.len(),
{
    if entries.len() > 0 && i > 0 {
        assert(entries[0].host != host);
        let rest = entries.drop_first();
        assert forall|j: int| 0 <= j < i - 1 implies (#[trigger] rest[j]).host != host by {
            assert(rest[j] == entries[j + 1]);
        }
        lemma_position(rest, host, i - 1);
    }
}

pub proof fn lemma_position_bounds<I>(entries: Seq<EntryView<I>>, host: Seq<char>)
    ensures
        0 <= position(entries, host) <= entries.len(),
        position(entries, host) < entries.len() ==> entries[position(entries, host)].host == host,
        forall|j: int|
            0 <= j < position(entries, host) ==> (#[trigger] entries[j]).host != host,
    decreases entries.len(),
{
    if entries.len() > 0 && entries[0].host != host {
        let rest = entries.drop_first();
        lemma_position_bounds(rest, host);
        assert forall|j: int| 0 <= j < position(entries, host) implies (#[trigger] entries[j]).host
            != host by {
            if j > 0 {
                assert(rest[j - 1] == entries[j]);
            }
        }
    }
}

proof fn lemma_older_bounds<I>(entries: Seq<EntryView<I>>, access: int)
    ensures
        0 <= older(entries, access) <= entries.len(),
    decreases entries.len(),
{
    if entries.len() > 0 {
        lemma_older_bounds(entries.drop_last(), access);
    }
}

proof fn lemma_older_monotone<I>(entries: Seq<EntryView<I>>, a: int, b: int)
    requires
        a <= b,
    ensures
        older(entries, a) <= older(entries, b),
    decreases entries.len(),
{
    if entries.len() > 0 {
        lemma_older_monotone(entries.drop_last(), a, b);
    }
}

proof fn lemma_older_strict<I>(entries: Seq<EntryView<I>>, k: int, b: int)
    requires
        0 <= k < entries.len(),
        entries[k].last_access < b,
    ensures
        older(entries, entries[k].last_access) < older(entries, b),
    decreases entries.len(),
{
    let a = entries[k].last_access;
    let rest = entries.drop_last();
    if k == entries.len() - 1 {
        lemma_older_monotone(rest, a, b);
    } else {
        assert(rest[k] == entries[k]);
        lemma_older_strict(rest, k, b);
    }
}

proof fn lemma_older_below_length<I>(entries: Seq<EntryView<I>>, k: int)
    requires
        0 <= k < entries.len(),
    ensures
        older(entries, entries[k].last_access) < entries.len(),
    decreases entries.len(),
{
    let a = entries[k].last_access;
    let rest = entries.drop_last();
    if k == entries.len() - 1 {
        lemma_older_bounds(rest, a);
    } else {
        assert(rest[k] == entries[k]);
        lemma_older_below_length(rest, k);
    }
}

/// Counting an access keeps the entries, the order in which they were used, and
/// the store's validity; the new access is later than all of them.
pub proof fn counting_keeps_the_order<I>(store: StoreView<I>)
    requires
        store.wf(),
    ensures
        store.next().wf(),
        store.next().entries.len() == store.entries.len(),
        forall|i: int|
            0 <= i < store.entries.len() ==> {
                let e = #[trigger] store.next().entries[i];
                &&& e.host == store.entries[i].host
                &&& e.pin == store.entries[i].pin
                &&& e.identity == store.entries[i].identity
                &&& e.leases == store.entries[i].leases
                &&& e.last_access < store.next().counter
            },
        forall|i: int, j: int|
            0 <= i < store.entries.len() && 0 <= j < store.entries.len() ==> ((
            #[trigger] store.next().entries[i]).last_access < (
            #[trigger] store.next().entries[j]).last_access <==> store.entries[i].last_access
                < store.entries[j].last_access),
{
    let es = store.entries;
    let now = store.next();
    if store.counter == u128::MAX {
        assert forall|i: int| 0 <= i < es.len() implies (#[trigger] now.entries[i]).last_access
            == older(es, es[i].last_access) && 0 <= now.entries[i].last_access < es.len() by {
            lemma_older_bounds(es, es[i].last_access);
            lemma_older_below_length(es, i);
        }
        assert forall|i: int, j: int| 0 <= i < es.len() && 0 <= j < es.len() implies ((
        #[trigger] now.entries[i]).last_access < (#[trigger] now.entries[j]).last_access
            <==> es[i].last_access < es[j].last_access) by {
            if es[i].last_access < es[j].last_access {
                lemma_older_strict(es, i, es[j].last_access);
            } else {
                lemma_older_monotone(es, es[j].last_access, es[i].last_access);
            }
        }
        assert forall|i: int, j: int| 0 <= i < j < now.entries.len() implies (
        #[trigger] now.entries[i]).host != (#[trigger] now.entries[j]).host
            && now.entries[i].last_access != now.entries[j].last_access by {
            assert(es[i].host != es[j].host);
            if es[i].last_access < es[j].last_access {
                lemma_older_strict(es, i, es[j].last_access);
            } else {
                lemma_older_strict(es, j, es[i].last_access);
            }
        }
    }
}

proof fn lemma_entry_index<I>(entries: Seq<CacheEntry<I>>, i: int)
    requires
        0 <= i < entries.len(),
    ensures
        entry_views(entries)[i] == entry_view(entries[i]),
        entry_views(entries).len() == entries.len(),
{
}

proof fn lemma_entry_update<I>(entries: Seq<CacheEntry<I>>, i: int, e: CacheEntry<I>)
    requires
        0 <= i < entries.len(),
    ensures
        entry_views(entries.update(i, e)) == entry_views(entries).update(i, entry_view(e)),
{
    assert(entry_views(entries.update(i, e)) =~= entry_views(entries).update(i, entry_view(e)));
}

pub open spec fn authority_note(has_authority: bool) -> Seq<char> {
    if has_authority {
        "Some(\"[REDACTED]\")"@
    } else {
        "None"@
    }
}

impl<I> LocalTlsIdentityStore<I> {
    pub fn new(instance: ProxyInstanceId) -> (r: Self)
        ensures
            r@.wf(),
            r@.instance == instance@,
            r@.active,
            r@.entries.len() == 0,
            r@.counter == 0,
    {
        LocalTlsIdentityStore { instance, active: true, entries: Vec::new(), access_counter: 0 }
    }

    pub fn is_active(&self) -> (r: bool)
        ensures
            r == self@.active,
    {
        self.active
    }

    pub fn entry_count(&self) -> (r: usize)
        ensures
            r == self@.entries.len(),
    {
        self.entries.len()
    }

    pub fn instance(&self) -> (r: &ProxyInstanceId)
        ensures
            r@ == self@.instance,
    {
        &self.instance
    }

    /// The identity at a place of the cache.
    pub fn identity(&self, index: usize) -> (r: &I)
        requires
            index < self@.entries.len(),
        ensures
            *r == self@.entries[index as int].identity,
    {
        proof {
            lemma_entry_index(self.entries@, index as int);
        }
        &self.entries[index].identity
    }

    fn rank(&self, access: u128) -> (r: u128)
        requires
            self@.entries.len() <= MAX_CACHED_IDENTITIES,
        ensures
            r == older(self@.entries, access as int),
    {
        let ghost es = self@.entries;
        let mut n: u128 = 0;
        let mut i: usize = 0;
        assert(es.take(0) == Seq::<EntryView<I>>::empty());
        while i < self.entries.len()
            invariant
                i <= self.entries@.len(),
                es == self@.entries,
                es == entry_views(self.entries@),
                es.len() == self.entries@.len(),
                es.len() <= MAX_CACHED_IDENTITIES,
                n == older(es.take(i as int), access as int),
                n <= i,
            decreases self.entries.len() - i,
        {
            proof {
                lemma_entry_index(self.entries@, i as int);
                assert(es.take(i as int + 1).drop_last() == es.take(i as int));
            }
            if self.entries[i].last_access < access {
                n += 1;
            }
            i += 1;
        }
        assert(es.take(i as int) == es);
        n
    }

    fn renumber(&mut self)
        requires
            old(self)@.entries.len() <= MAX_CACHED_IDENTITIES,
        ensures
            final(self)@ == (StoreView { entries: renumbered(old(self)@.entries), ..old(self)@ }),
    {
        let ghost before = self@.entries;
        let ghost want = renumbered(before);
        let n: usize = self.entries.len();
        let mut ranks: Vec<u128> = Vec::new();
        let mut i: usize = 0;
        while i < n
            invariant
                i <= n,
                n == self.entries@.len(),
                *self == *old(self),
                before == self@.entries,
                before == entry_views(self.entries@),
                before.len() <= MAX_CACHED_IDENTITIES,
                ranks@.len() == i,
                forall|j: int|
                    0 <= j < i ==> #[trigger] ranks@[j] == older(before, before[j].last_access),
            decreases n - i,
        {
            proof {
                lemma_entry_index(self.entries@, i as int);
            }
            ranks.push(self.rank(self.entries[i].last_access));
            i += 1;
        }
        let mut k: usize = 0;
        assert(want.len() == n);
        while k < n
            invariant
                k <= n,
                n == self.entries@.len(),
                n == ranks@.len(),
                before.len() == n,
                want == renumbered(before),
                want.len() == n,
                self.instance == old(self).instance,
                self.active == old(self).active,
                self.access_counter == old(self).access_counter,
                forall|j: int|
                    0 <= j < n ==> #[trigger] ranks@[j] == older(before, before[j].last_access),
                forall|j: int|
                    0 <= j < k ==> #[trigger] entry_views(self.entries@)[j] == want[j],
                forall|j: int|
                    k <= j < n ==> #[trigger] entry_views(self.entries@)[j] == before[j],
            decreases n - k,
        {
            let ghost es = self.entries@;
            let r: u128 = ranks[k];
            self.entries[k].last_access = r;
            proof {
                let e = self.entries@[k as int];
                assert(self.entries@ =~= es.update(k as int, e));
                lemma_entry_update(es, k as int, e);
                lemma_entry_index(es, k as int);
                assert(entry_view(es[k as int]) == before[k as int]);
                assert(want[k as int] == (EntryView {
                    last_access: older(before, before[k as int].last_access),
                    ..before[k as int]
                }));
                assert(entry_view(e) == want[k as int]);
            }
            k += 1;
        }
        assert(entry_views(self.entries@) =~= want);
    }

    fn next_access(&mut self) -> (r: u128)
        requires
            old(self)@.wf(),
        ensures
            final(self)@ == old(self)@.next(),
            r == old(self)@.next().counter,
    {
        if self.access_counter == u128::MAX {
            self.renumber();
            let n: usize = self.entries.len();
            assert(self@.entries.len() == n);
            self.access_counter = n as u128;
        }
        self.access_counter = self.access_counter + 1;
        self.access_counter
    }

    fn find(&self, host: &NormalizedHost) -> (r: usize)
        ensures
            r == self@.at(host@),
            r <= self@.entries.len(),
    {
        let ghost es = self@.entries;
        let mut i: usize = 0;
        while i < self.entries.len()
            invariant
                i <= self.entries@.len(),
                es == self@.entries,
                es == entry_views(self.entries@),
                es.len() == self.entries@.len(),
                forall|j: int| 0 <= j < i ==> (#[trigger] es[j]).host != host@,
            decreases self.entries.len() - i,
        {
            proof {
                lemma_entry_index(self.entries@, i as int);
            }
            if self.entries[i].host.same(host) {
                proof {
                    lemma_position(es, host@, i as int);
                }
                return i;
            }
            i += 1;
        }
        proof {
            lemma_position(es, host@, i as int);
        }
        i
    }

    /// The idle identity that was used least recently.
    fn eviction(&self) -> (r: Option<usize>)
        ensures
            match r {
                Some(i) => is_least_recent_idle(self@.entries, i as int),
                None => !has_idle(self@.entries),
            },
    {
        let ghost es = self@.entries;
        let mut best: Option<usize> = None;
        let mut i: usize = 0;
        while i < self.entries.len()
            invariant
                i <= self.entries@.len(),
                es == self@.entries,
                es == entry_views(self.entries@),
                es.len() == self.entries@.len(),
                match best {
                    Some(b) => b < i && es[b as int].leases == 0 && forall|j: int|
                        0 <= j < i && (#[trigger] es[j]).leases == 0 ==> es[b as int].last_access
                            <= es[j].last_access,
                    None => forall|j: int| 0 <= j < i ==> (#[trigger] es[j]).leases != 0,
                },
            decreases self.entries.len() - i,
        {
            proof {
                lemma_entry_index(self.entries@, i as int);
            }
            if self.entries[i].leases == 0 {
                match best {
                    None => {
                        best = Some(i);
                    },
                    Some(b) => {
                        proof {
                            lemma_entry_index(self.entries@, b as int);
                        }
                        if self.entries[i].last_access < self.entries[b].last_access {
                            best = Some(i);
                        }
                    },
                }
            }
            i += 1;
        }
        best
    }

    fn touch(&mut self, index: usize, access: u128)
        requires
            index < old(self)@.entries.len(),
        ensures
            final(self)@ == (StoreView {
                entries: old(self)@.entries.update(
                    index as int,
                    touched(old(self)@.entries[index as int], access as int),
                ),
                ..old(self)@
            }),
    {
        let ghost es = self.entries@;
        proof {
            lemma_entry_index(es, index as int);
        }
        self.entries[index].last_access = access;
        proof {
            let e = self.entries@[index as int];
            assert(self.entries@ =~= es.update(index as int, e));
            lemma_entry_update(es, index as int, e);
        }
    }

    fn lease(&mut self, index: usize)
        requires
            index < old(self)@.entries.len(),
        ensures
            final(self)@ == (StoreView {
                entries: old(self)@.entries.update(
                    index as int,
                    leased(old(self)@.entries[index as int]),
                ),
                ..old(self)@
            }),
    {
        let ghost es = self.entries@;
        proof {
            lemma_entry_index(es, index as int);
        }
        let n: usize = self.entries[index].leases;
        if n < usize::MAX {
            self.entries[index].leases = n + 1;
        }
        proof {
            let e = self.entries@[index as int];
            assert(self.entries@ =~= es.update(index as int, e));
            lemma_entry_update(es, index as int, e);
        }
    }

    /// Looks for the identity of a host, or for room to generate it. Nothing is
    /// evicted before an identity takes its place.
    pub fn prepare(&mut self, host: &NormalizedHost) -> (r: Result<PrepareStep, CertificateError>)
        requires
            old(self)@.wf(),
        ensures
            final(self)@.wf(),
            (r, final(self)@) == old(self)@.prepared(host@),
    {
        if !self.active {
            return Err(CertificateError::Inactive);
        }
        proof {
            counting_keeps_the_order(self@);
        }
        let access: u128 = self.next_access();
        let ghost now = self@;
        let i: usize = self.find(host);
        proof {
            lemma_position_bounds(now.entries, host@);
        }
        if i < self.entries.len() {
            self.touch(i, access);
            self.lease(i);
            proof {
                let e = now.entries[i as int];
                assert(self@.entries =~= now.entries.update(
                    i as int,
                    leased(touched(e, access as int)),
                ));
                lemma_touched_is_valid(now, i as int, leased(touched(e, access as int)));
            }
            return Ok(PrepareStep::Cached { index: i });
        }
        if self.entries.len() < MAX_CACHED_IDENTITIES {
            return Ok(PrepareStep::Generate);
        }
        match self.eviction() {
            Some(_) => Ok(PrepareStep::Generate),
            None => Err(CertificateError::CapacityExhausted),
        }
    }

    /// Caches a generated identity and leases it. A full cache drops its least
    /// recently used idle identity for it; where the host got an identity in the
    /// meantime, that one is leased and the new one dropped.
    pub fn commit(&mut self, host: NormalizedHost, pin: LocalCertificatePin, identity: I) -> (r:
        Result<usize, CertificateError>)
        requires
            old(self)@.wf(),
        ensures
            final(self)@.wf(),
            old(self)@.committed(host@, pin@, identity, r, final(self)@),
    {
        if !self.active {
            return Err(CertificateError::Inactive);
        }
        proof {
            counting_keeps_the_order(self@);
        }
        let access: u128 = self.next_access();
        let ghost now = self@;
        let i: usize = self.find(&host);
        proof {
            lemma_position_bounds(now.entries, host@);
        }
        if i < self.entries.len() {
            self.touch(i, access);
            self.lease(i);
            proof {
                let e = now.entries[i as int];
                assert(self@.entries =~= now.entries.update(
                    i as int,
                    leased(touched(e, access as int)),
                ));
                lemma_touched_is_valid(now, i as int, leased(touched(e, access as int)));
            }
            return Ok(i);
        }
        let entry = CacheEntry { host, pin, identity, last_access: access, leases: 1 };
        if self.entries.len() < MAX_CACHED_IDENTITIES {
            let ghost es = self.entries@;
            self.entries.push(entry);
            proof {
                assert(entry_views(self.entries@) =~= entry_views(es).push(entry_view(entry)));
                lemma_push_is_valid(now, entry_view(entry));
            }
            return Ok(self.entries.len() - 1);
        }
        match self.eviction() {
            None => Err(CertificateError::CapacityExhausted),
            Some(k) => {
                let ghost es = self.entries@;
                let _ = self.entries.remove(k);
                proof {
                    assert(entry_views(self.entries@) =~= entry_views(es).remove(k as int));
                    lemma_remove_is_valid(now, k as int);
                }
                let ghost smaller = self@;
                let ghost es = self.entries@;
                proof {
                    assert forall|j: int| 0 <= j < smaller.entries.len() implies (
                    #[trigger] smaller.entries[j]).host != host@ by {
                        if j < k {
                            assert(smaller.entries[j] == now.entries[j]);
                        } else {
                            assert(smaller.entries[j] == now.entries[j + 1]);
                        }
                    }
                    assert forall|j: int| 0 <= j < smaller.entries.len() implies (
                    #[trigger] smaller.entries[j]).last_access < now.counter by {
                        if j < k {
                            assert(smaller.entries[j] == now.entries[j]);
                        } else {
                            assert(smaller.entries[j] == now.entries[j + 1]);
                        }
                    }
                    lemma_position(smaller.entries, host@, smaller.entries.len() as int);
                }
                self.entries.push(entry);
                proof {
                    assert(entry_views(self.entries@) =~= entry_views(es).push(entry_view(entry)));
                    lemma_push_is_valid(smaller, entry_view(entry));
                    assert(is_least_recent_idle(now.entries, k as int));
                }
                Ok(self.entries.len() - 1)
            },
        }
    }

    /// Ends one lease of a host's identity.
    pub fn release(&mut self, host: &NormalizedHost)
        requires
            old(self)@.wf(),
        ensures
            final(self)@.wf(),
            final(self)@ == old(self)@.released(host@),
    {
        let ghost before = self@;
        let i: usize = self.find(host);
        proof {
            lemma_position_bounds(before.entries, host@);
        }
        if i < self.entries.len() {
            let ghost es = self.entries@;
            proof {
                lemma_entry_index(es, i as int);
            }
            let n: usize = self.entries[i].leases;
            if n > 0 {
                self.entries[i].leases = n - 1;
                proof {
                    let e = self.entries@[i as int];
                    assert(self.entries@ =~= es.update(i as int, e));
                    lemma_entry_update(es, i as int, e);
                    assert forall|a: int, b: int| 0 <= a < b < self@.entries.len() implies (
                    #[trigger] self@.entries[a]).host != (#[trigger] self@.entries[b]).host
                        && self@.entries[a].last_access != self@.entries[b].last_access by {
                        assert(before.entries[a].host != before.entries[b].host);
                    }
                }
            }
        }
    }

    /// The pin of a host, while the store is active and has its identity. Asking
    /// counts as a use.
    pub fn pin(&mut self, host: &NormalizedHost) -> (r: Option<LocalCertificatePin>)
        requires
            old(self)@.wf(),
        ensures
            final(self)@.wf(),
            final(self)@ == old(self)@.asked(host@),
            match r {
                Some(p) => old(self)@.pin_of(host@) == Some(p@),
                None => old(self)@.pin_of(host@) is None,
            },
    {
        if !self.active {
            return None;
        }
        proof {
            counting_keeps_the_order(self@);
        }
        let access: u128 = self.next_access();
        let ghost now = self@;
        let i: usize = self.find(host);
        proof {
            lemma_position_bounds(now.entries, host@);
        }
        if i >= self.entries.len() {
            return None;
        }
        self.touch(i, access);
        proof {
            lemma_touched_is_valid(
                now,
                i as int,
                touched(now.entries[i as int], access as int),
            );
            lemma_entry_index(self.entries@, i as int);
        }
        Some(self.entries[i].pin.copy())
    }

    /// Whether a presented certificate is the one of the host's identity. One
    /// that is too large is not looked up.
    pub fn matches_der(&mut self, host: &NormalizedHost, certificate_der: &[u8]) -> (r: bool)
        requires
            old(self)@.wf(),
        ensures
            final(self)@.wf(),
            final(self)@ == (if certificate_der@.len() > MAX_PRESENTED_CERTIFICATE_DER_BYTES {
                old(self)@
            } else {
                old(self)@.asked(host@)
            }),
            r == (match old(self)@.pin_of(host@) {
                Some(p) => der_matches(p.digest, certificate_der@),
                None => false,
            }),
    {
        if certificate_der.len() > MAX_PRESENTED_CERTIFICATE_DER_BYTES {
            return false;
        }
        match self.pin(host) {
            None => false,
            Some(pin) => pin.matches_der(certificate_der),
        }
    }

    /// A diagnostic description that withholds the instance and the hosts.
    pub fn describe(&self, has_authority: bool) -> (r: String)
        ensures
            r@ == "LocalTlsIdentityStore { instance: \"[REDACTED]\", certificate_authority: "@
                + authority_note(has_authority) + ", active: "@ + backend::bool_text(
                self@.active,
            ) + ", entry_count: "@ + text::decimal(self@.entries.len()) + " }"@,
    {
        let mut v = text::to_chars(
            "LocalTlsIdentityStore { instance: \"[REDACTED]\", certificate_authority: ",
        );
        if has_authority {
            text::push_str(&mut v, "Some(\"[REDACTED]\")");
        } else {
            text::push_str(&mut v, "None");
        }
        text::push_str(&mut v, ", active: ");
        backend::push_bool(&mut v, self.active);
        text::push_str(&mut v, ", entry_count: ");
        let n: usize = self.entries.len();
        let d = text::digits_of(n as u64, 10);
        text::push_chars(&mut v, d.as_slice());
        text::push_str(&mut v, " }");
        text::from_chars(v.as_slice())
    }

    /// Revokes every identity for good.
    pub fn deactivate(&mut self)
        ensures
            final(self)@.wf(),
            final(self)@ == old(self)@.revoked(),
    {
        self.active = false;
        self.entries.clear();
        assert(self@.entries =~= Seq::empty());
    }
}

proof fn lemma_touched_is_valid<I>(store: StoreView<I>, i: int, e: EntryView<I>)
    requires
        store.wf(),
        0 <= i < store.entries.len(),
        e.host == store.entries[i].host,
        e.last_access == store.counter,
        0 <= e.leases <= usize::MAX,
        forall|j: int|
            0 <= j < store.entries.len() ==> (#[trigger] store.entries[j]).last_access
                < store.counter,
    ensures
        (StoreView { entries: store.entries.update(i, e), ..store }).wf(),
{
    let now = StoreView { entries: store.entries.update(i, e), ..store };
    assert forall|a: int, b: int| 0 <= a < b < now.entries.len() implies (
    #[trigger] now.entries[a]).host != (#[trigger] now.entries[b]).host
        && now.entries[a].last_access != now.entries[b].last_access by {
        assert(store.entries[a].host != store.entries[b].host);
        assert(store.entries[a].last_access < store.counter);
        assert(store.entries[b].last_access < store.counter);
    }
}

proof fn lemma_push_is_valid<I>(store: StoreView<I>, e: EntryView<I>)
    requires
        store.wf(),
        store.active,
        store.entries.len() < MAX_CACHED_IDENTITIES,
        !store.holds(e.host),
        e.last_access == store.counter,
        0 <= e.leases <= usize::MAX,
        forall|j: int|
            0 <= j < store.entries.len() ==> (#[trigger] store.entries[j]).last_access
                < store.counter,
    ensures
        (StoreView { entries: store.entries.push(e), ..store }).wf(),
{
    lemma_position_bounds(store.entries, e.host);
    let now = StoreView { entries: store.entries.push(e), ..store };
    assert forall|a: int, b: int| 0 <= a < b < now.entries.len() implies (
    #[trigger] now.entries[a]).host != (#[trigger] now.entries[b]).host
        && now.entries[a].last_access != now.entries[b].last_access by {
        assert(store.entries[a].last_access < store.counter);
    }
}

proof fn lemma_remove_is_valid<I>(store: StoreView<I>, k: int)
    requires
        store.wf(),
        store.active,
        0 <= k < store.entries.len(),
    ensures
        (StoreView { entries: store.entries.remove(k), ..store }).wf(),
{
    let now = StoreView { entries: store.entries.remove(k), ..store };
    assert forall|a: int, b: int| 0 <= a < b < now.entries.len() implies (
    #[trigger] now.entries[a]).host != (#[trigger] now.entries[b]).host
        && now.entries[a].last_access != now.entries[b].last_access by {
        let x = if a < k {
            a
        } else {
            a + 1
        };
        let y = if b < k {
            b
        } else {
            b + 1
        };
        assert(now.entries[a] == store.entries[x]);
        assert(now.entries[b] == store.entries[y]);
    }
    assert forall|a: int| 0 <= a < now.entries.len() implies 0 <= (
    #[trigger] now.entries[a]).last_access <= now.counter && 0 <= now.entries[a].leases
        <= usize::MAX by {
        let x = if a < k {
            a
        } else {
            a + 1
        };
        assert(now.entries[a] == store.entries[x]);
    }
}

/// Leased identities survive whatever takes the place of others: an identity that
/// leaves the cache was idle, and every idle one that stays was used after it.
pub proof fn leased_identities_survive<I>(
    store: StoreView<I>,
    host: Seq<char>,
    pin: PinView,
    identity: I,
    r: Result<usize, CertificateError>,
    after: StoreView<I>,
    i: int,
)
    requires
        store.wf(),
        store.active,
        store.committed(host, pin, identity, r, after),
        0 <= i < store.entries.len(),
    ensures
        position(after.entries, store.entries[i].host) < after.entries.len() || (
        store.entries[i].leases == 0 && forall|j: int|
            0 <= j < store.entries.len() && (#[trigger] store.entries[j]).leases == 0 ==>
                store.entries[i].last_access <= store.entries[j].last_access),
{
    counting_keeps_the_order(store);
    let now = store.next();
    let name = store.entries[i].host;
    assert(now.entries[i].host == name);
    lemma_position_bounds(now.entries, host);
    if now.holds(host) {
        lemma_present(after.entries, i, name);
    } else if now.entries.len() < MAX_CACHED_IDENTITIES {
        lemma_present(after.entries, i, name);
    } else if has_idle(now.entries) {
        let new = EntryView { host, pin, identity, last_access: now.counter, leases: 1 };
        let k = choose|k: int| #[trigger]
            is_least_recent_idle(now.entries, k) && after.entries == now.entries.remove(k).push(
                new,
            );
        if i < k {
            assert(after.entries[i] == now.entries[i]);
            lemma_present(after.entries, i, name);
        } else if i > k {
            assert(after.entries[i - 1] == now.entries[i]);
            lemma_present(after.entries, i - 1, name);
        } else {
            assert forall|j: int|
                0 <= j < store.entries.len() && (#[trigger] store.entries[j]).leases == 0 implies
                store.entries[i].last_access <= store.entries[j].last_access by {
                assert(now.entries[j].leases == 0);
                assert(now.entries[j].last_access >= now.entries[i].last_access);
            }
        }
    } else {
        lemma_present(after.entries, i, name);
    }
}

proof fn lemma_present<I>(entries: Seq<EntryView<I>>, i: int, host: Seq<char>)
    requires
        0 <= i < entries.len(),
        entries[i].host == host,
    ensures
        position(entries, host) < entries.len(),
{
    lemma_position_bounds(entries, host);
}

/// An authority is taken exactly where its certificate has one to sixty-five thousand five
/// hundred and thirty-six bytes, its key one to sixteen thousand three hundred and
/// eighty-four, both can be read and have the same public key, and it may issue. It is taken
/// as it is.
pub proof fn authorities_are_taken_exactly(
    certificate: Seq<u8>,
    private_key: Seq<u8>,
    key_spki: Option<Seq<u8>>,
    certificate_spki: Option<Seq<u8>>,
    issuer: bool,
)
    ensures
        ({
            let sized = 1 <= certificate.len() <= 65536;
            let key_sized = sized && 1 <= private_key.len() <= 16384;
            let r = ca_decision(certificate, private_key, key_spki, certificate_spki, issuer);
            let is = |e: LocalCertificateAuthorityError|
                r == Err::<AuthorityMaterial, LocalCertificateAuthorityError>(e);
            &&& r is Ok <==> key_sized && key_spki is Some && key_spki == certificate_spki && issuer
            &&& r is Ok ==> r->Ok_0 == (AuthorityMaterial { certificate, private_key })
            &&& !sized ==> is(LocalCertificateAuthorityError::InvalidCertificateSize)
            &&& sized && !key_sized ==> is(LocalCertificateAuthorityError::InvalidPrivateKeySize)
            &&& key_sized && key_spki is None ==> is(
                LocalCertificateAuthorityError::InvalidPrivateKey,
            )
            &&& key_sized && key_spki is Some && certificate_spki is None ==> is(
                LocalCertificateAuthorityError::InvalidCertificate,
            )
            &&& key_sized && key_spki is Some && certificate_spki is Some && key_spki
                != certificate_spki ==> is(LocalCertificateAuthorityError::KeyMismatch)
            &&& key_sized && key_spki is Some && key_spki == certificate_spki && !issuer ==> is(
                LocalCertificateAuthorityError::InvalidCertificate,
            )
        }),
{
}

/// A digest stands for one certificate, which is no larger than one may be.
pub proof fn digests_stand_for_their_certificates(digest: Seq<u8>, certificate: Seq<u8>)
    ensures
        der_matches(digest, certificate) <==> certificate.len() <= 65536 && digest
            == crypto::sha256_of(certificate),
        certificate.len() <= 65536 ==> der_matches(crypto::sha256_of(certificate), certificate),
{
}

/// A server name is allowed exactly where the store is active and the name comes to the
/// host that is expected.
pub proof fn expected_names_are_allowed(active: bool, presented: Option<Seq<char>>, expected: Seq<char>)
    ensures
        sni_allowed(active, presented, expected) <==> active && presented is Some
            && host::normalized(presented->Some_0) == Ok::<Seq<char>, host::HostNormalizationError>(
            expected,
        ),
{
}

/// Each byte is written as two digits of base sixteen, in small letters, in order.
pub proof fn bytes_are_written_in_pairs(bytes: Seq<u8>, i: int)
    requires
        0 <= i < bytes.len(),
    ensures
        hex_text(bytes).len() == 2 * bytes.len(),
        text::digit_value(hex_text(bytes)[2 * i]) * 16 + text::digit_value(
            hex_text(bytes)[2 * i + 1],
        ) == bytes[i],
        '0' <= hex_text(bytes)[2 * i] <= '9' || 'a' <= hex_text(bytes)[2 * i] <= 'f',
        '0' <= hex_text(bytes)[2 * i + 1] <= '9' || 'a' <= hex_text(bytes)[2 * i + 1] <= 'f',
    decreases bytes.len(),
{
    let front = bytes.drop_last();
    if front.len() == 0 {
        assert(hex_text(front).len() == 0);
    } else if i < front.len() {
        bytes_are_written_in_pairs(front, i);
    } else {
        bytes_are_written_in_pairs(front, i - 1);
    }
    let b = bytes.last();
    assert(0 <= b / 16 < 16 && 0 <= b % 16 < 16 && b == (b / 16) * 16 + b % 16);
}

/// A certificate in text is wrapped at sixty-four characters, without a blank line.
pub proof fn texts_are_wrapped(encoded: Seq<char>)
    ensures
        wrapped(encoded) == (if encoded.len() == 0 {
            encoded
        } else if encoded.len() <= 64 {
            encoded.push('\n')
        } else {
            encoded.subrange(0, 64).push('\n') + wrapped(
                encoded.subrange(64, encoded.len() as int),
            )
        }),
        pem_text(encoded) == "-----BEGIN CERTIFICATE-----\n"@ + wrapped(encoded)
            + "-----END CERTIFICATE-----\n"@,
{
    if encoded.len() == 0 {
        assert(encoded =~= Seq::empty());
    }
    if encoded.len() > 64 {
        assert(encoded.take(64) =~= encoded.subrange(0, 64));
        assert(encoded.skip(64) =~= encoded.subrange(64, encoded.len() as int));
    }
}

/// An identity is found exactly where the store is active and holds one for the host. One
/// is made where none is held and there is room: an empty place among one hundred and
/// twenty-eight, or one that no one uses.
pub proof fn identities_are_found_or_made<I>(store: StoreView<I>, host: Seq<char>)
    requires
        store.wf(),
    ensures
        ({
            let (r, after) = store.prepared(host);
            let held = exists|i: int|
                0 <= i < store.entries.len() && (#[trigger] store.entries[i]).host == host;
            let room = store.entries.len() < 128 || exists|i: int|
                0 <= i < store.entries.len() && (#[trigger] store.entries[i]).leases == 0;
            &&& r is Ok && r->Ok_0 is Cached <==> store.active && held
            &&& r == Ok::<PrepareStep, CertificateError>(PrepareStep::Generate) <==> store.active
                && !held && room
            &&& !store.active ==> r == Err::<PrepareStep, CertificateError>(
                CertificateError::Inactive,
            )
            &&& store.active && !held && !room ==> r == Err::<PrepareStep, CertificateError>(
                CertificateError::CapacityExhausted,
            )
            &&& r matches Ok(PrepareStep::Cached { index }) ==> {
                let e = store.entries[index as int];
                let f = after.entries[index as int];
                &&& index < store.entries.len() && e.host == host
                &&& f.host == host && f.pin == e.pin && f.identity == e.identity
                &&& e.leases < usize::MAX ==> f.leases == e.leases + 1
                &&& f.last_access == after.counter
            }
            &&& after.entries.len() == store.entries.len() && after.active == store.active
            &&& forall|i: int|
                0 <= i < store.entries.len() && (#[trigger] store.entries[i]).host != host ==> {
                    let f = after.entries[i];
                    &&& f.host == store.entries[i].host && f.pin == store.entries[i].pin
                    &&& f.identity == store.entries[i].identity
                    &&& f.leases == store.entries[i].leases
                }
        }),
{
    counting_keeps_the_order(store);
    let now = store.next();
    lemma_position_bounds(now.entries, host);
    assert forall|i: int| 0 <= i < store.entries.len() implies (#[trigger] store.entries[i]).host
        == now.entries[i].host && store.entries[i].leases == now.entries[i].leases by {
        assert(now.entries[i].host == store.entries[i].host);
    }
    let at = now.at(host);
    if now.holds(host) {
        assert(store.entries[at].host == host);
    }
    if has_idle(now.entries) {
        let k = choose|k: int| 0 <= k < now.entries.len() && (#[trigger] now.entries[k]).leases == 0;
        assert(store.entries[k].leases == 0);
    }
    if exists|i: int| 0 <= i < store.entries.len() && (#[trigger] store.entries[i]).leases == 0 {
        let k = choose|k: int|
            0 <= k < store.entries.len() && (#[trigger] store.entries[k]).leases == 0;
        assert(now.entries[k].leases == 0);
    }
    if exists|i: int| 0 <= i < store.entries.len() && (#[trigger] store.entries[i]).host == host {
        let k = choose|k: int|
            0 <= k < store.entries.len() && (#[trigger] store.entries[k]).host == host;
        assert(now.entries[k].host == host);
    }
}

/// What is committed to an active store is found in it again, with its pin, its identity
/// and one lease, unless the host had an identity, which then stays.
pub proof fn committed_identities_are_found<I>(
    store: StoreView<I>,
    host: Seq<char>,
    pin: PinView,
    identity: I,
    r: Result<usize, CertificateError>,
    after: StoreView<I>,
)
    requires
        store.wf(),
        store.active,
        store.committed(host, pin, identity, r, after),
        r is Ok,
    ensures
        ({
            let i = r->Ok_0 as int;
            let held = exists|j: int|
                0 <= j < store.entries.len() && (#[trigger] store.entries[j]).host == host;
            &&& 0 <= i < after.entries.len() && after.entries[i].host == host
            &&& after.entries[i].last_access == after.counter
            &&& !held ==> after.entries[i].pin == pin && after.entries[i].identity == identity
                && after.entries[i].leases == 1
            &&& held ==> after.entries.len() == store.entries.len() && after.entries[i].pin
                == store.entries[i].pin && after.entries[i].identity == store.entries[i].identity
            &&& !held && store.entries.len() < 128 ==> after.entries.len() == store.entries.len()
                + 1
            &&& !held && store.entries.len() == 128 ==> after.entries.len() == 128
        }),
{
    counting_keeps_the_order(store);
    let now = store.next();
    lemma_position_bounds(now.entries, host);
    if now.holds(host) {
        assert(store.entries[now.at(host)].host == host);
        assert(now.entries[now.at(host)].pin == store.entries[now.at(host)].pin);
    }
    if exists|j: int| 0 <= j < store.entries.len() && (#[trigger] store.entries[j]).host == host {
        let k = choose|k: int|
            0 <= k < store.entries.len() && (#[trigger] store.entries[k]).host == host;
        assert(now.entries[k].host == host);
    }
}

/// A pin is told exactly where the store is active and holds the host; it is the one that
/// was committed. A lease that is given back counts one less, and nothing else changes.
pub proof fn pins_and_leases_are_kept<I>(store: StoreView<I>, i: int)
    requires
        store.wf(),
        0 <= i < store.entries.len(),
    ensures
        ({
            let e = store.entries[i];
            let after = store.released(e.host);
            &&& store.pin_of(e.host) == if store.active {
                Some(e.pin)
            } else {
                None
            }
            &&& after.entries.len() == store.entries.len()
            &&& after.entries[i] == (EntryView {
                leases: if e.leases > 0 {
                    e.leases - 1
                } else {
                    0
                },
                ..e
            })
            &&& forall|j: int|
                0 <= j < store.entries.len() && j != i ==> #[trigger] after.entries[j]
                    == store.entries[j]
            &&& after.active == store.active && after.counter == store.counter
        }),
{
    let host = store.entries[i].host;
    lemma_position_bounds(store.entries, host);
    let at = store.at(host);
    if at < i {
        assert(store.entries[at].host != store.entries[i].host);
    }
    assert(at == i);
    counting_keeps_the_order(store);
    let now = store.next();
    lemma_position_bounds(now.entries, host);
    let there = now.at(host);
    assert(now.entries[i].host == host);
    if there < i {
        assert(now.entries[there].host == store.entries[there].host);
        assert(store.entries[there].host != store.entries[i].host);
    }
    assert(there == i);
}

/// A host that no entry is for has no pin, and what it gives back changes nothing. A store
/// that is revoked holds nothing.
pub proof fn other_hosts_have_no_pin<I>(store: StoreView<I>, host: Seq<char>)
    requires
        store.wf(),
        forall|i: int| 0 <= i < store.entries.len() ==> (#[trigger] store.entries[i]).host != host,
    ensures
        store.pin_of(host) is None,
        store.released(host) == store,
        store.revoked().entries.len() == 0,
        !store.revoked().active,
        store.revoked().pin_of(host) is None,
{
    counting_keeps_the_order(store);
    lemma_position_bounds(store.entries, host);
    let now = store.next();
    lemma_position_bounds(now.entries, host);
    if now.holds(host) {
        assert(now.entries[now.at(host)].host == store.entries[now.at(host)].host);
    }
}

/// An authority that is taken is the one that is meant, and so is a fault.
pub proof fn taken_authorities_agree(
    r: Result<LocalCertificateAuthority, LocalCertificateAuthorityError>,
    v: Result<AuthorityMaterial, LocalCertificateAuthorityError>,
)
    ensures
        same_authority_material(r, v) <==> {
            &&& r is Ok <==> v is Ok
            &&& r is Ok ==> r->Ok_0@ == v->Ok_0
            &&& r is Err ==> r->Err_0 == v->Err_0
        },
{
}

/// An authority is loaded where it is taken with the public key of its private one, where
/// that can be read.
pub proof fn loaded_authorities_have_their_key(
    r: Result<LocalCertificateAuthority, LocalCertificateAuthorityError>,
    certificate: Seq<u8>,
    private_key: Seq<u8>,
    certificate_spki: Option<Seq<u8>>,
    readable: bool,
)
    requires
        loaded_authority(r, certificate, private_key, certificate_spki, readable),
    ensures
        r is Ok <==> 1 <= certificate.len() <= 65536 && 1 <= private_key.len() <= 16384 && readable
            && certificate_spki == Some(p256_public_key(private_key)) && is_issuer_certificate(
            certificate,
        ),
        r matches Ok(a) ==> a@.certificate == certificate && a@.private_key == private_key,
{
}

/// Each use of a store is counted; only where the count is at its end is it begun anew,
/// with the entries in their order.
pub proof fn uses_are_counted<I>(store: StoreView<I>)
    requires
        store.wf(),
    ensures
        store.counter < u128::MAX ==> store.next().counter == store.counter + 1
            && store.next().entries == store.entries,
        store.counter == u128::MAX ==> store.next().counter == store.entries.len() + 1,
        store.next().active == store.active && store.next().instance == store.instance,
{
}

/// What is asked of a store moves the host's entry to the front of use, and changes nothing
/// else.
pub proof fn asking_is_a_use<I>(store: StoreView<I>, i: int)
    requires
        store.wf(),
        store.active,
        0 <= i < store.entries.len(),
    ensures
        ({
            let after = store.asked(store.entries[i].host);
            &&& after.entries.len() == store.entries.len()
            &&& after.counter == store.next().counter
            &&& after.entries[i].last_access == after.counter
            &&& after.entries[i].pin == store.entries[i].pin && after.entries[i].leases
                == store.entries[i].leases
            &&& forall|j: int|
                0 <= j < store.entries.len() && j != i ==> #[trigger] after.entries[j]
                    == store.next().entries[j]
        }),
{
    let host = store.entries[i].host;
    counting_keeps_the_order(store);
    let now = store.next();
    lemma_position_bounds(now.entries, host);
    let there = now.at(host);
    assert(now.entries[i].host == host);
    if there < i {
        assert(now.entries[there].host == store.entries[there].host);
        assert(store.entries[there].host != store.entries[i].host);
    }
    assert(there == i);
}

/// Each fault is told in its own words.
pub proof fn faults_of_authorities_have_their_words(e: LocalCertificateAuthorityError)
    ensures
        ca_error_text(e) == (match e {
            LocalCertificateAuthorityError::InvalidCertificateSize =>
                "local CA certificate is empty or exceeds the size bound"@,
            LocalCertificateAuthorityError::InvalidPrivateKeySize =>
                "local CA private key is empty or exceeds the size bound"@,
            LocalCertificateAuthorityError::Generation => "unable to generate the local CA"@,
            LocalCertificateAuthorityError::InvalidPrivateKey =>
                "unable to parse the local CA private key"@,
            LocalCertificateAuthorityError::InvalidCertificate =>
                "unable to parse the local CA certificate"@,
            LocalCertificateAuthorityError::KeyMismatch =>
                "the local CA certificate does not match its private key"@,
        }),
{
}

/// Each fault is told in its own words.
pub proof fn faults_of_identities_have_their_words(e: CertificateError)
    ensures
        certificate_error_text(e) == (match e {
            CertificateError::Inactive => "the local TLS identity store is inactive"@,
            CertificateError::CapacityExhausted =>
                "the local TLS identity cache is full of active leases"@,
            CertificateError::StoreUnavailable => "the local TLS identity store is unavailable"@,
            CertificateError::CertificateGeneration => "unable to generate a local TLS certificate"@,
            CertificateError::SigningKey => "unable to load the generated local TLS signing key"@,
            CertificateError::ServerConfiguration => "unable to configure the local TLS server"@,
        }),
{
}

} // verus!
