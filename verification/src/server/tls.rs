//! The server's certificate: where it comes from and what is shown of it.

use quinn::ServerConfig as QuicConfig;
use rustls::ServerConfig as CryptoConfig;
use vstd::prelude::*;
use vstd::string::*;
use vstd::utf8::encode_utf8;

use crate::common::hex::{fingerprint, hex_of, is_fingerprint, sha256_of, MAX_DIGEST_INPUT};

verus! {

// ---------------------------------------------------------------------------
// Where the certificate comes from
// ---------------------------------------------------------------------------

/// Where to get the certificate from.
#[derive(Debug, Clone, Copy, PartialEq, Eq, Structural)]
pub enum CertPlan {
    /// Read both files.
    Load,
    /// Generate a certificate and write both files.
    GenerateAndSave,
    /// Generate a certificate that lasts until the server stops.
    Ephemeral,
}

/// Two files that are configured and exist are read, two that are configured are
/// written otherwise, and one alone counts for nothing.
pub open spec fn plan_of(
    cert_set: bool,
    key_set: bool,
    cert_exists: bool,
    key_exists: bool,
) -> CertPlan {
    if !(cert_set && key_set) {
        CertPlan::Ephemeral
    } else if cert_exists && key_exists {
        CertPlan::Load
    } else {
        CertPlan::GenerateAndSave
    }
}

/// Decides where the certificate comes from. The flags tell whether each file is
/// configured and whether it exists.
pub fn cert_plan(
    cert_set: bool,
    key_set: bool,
    cert_exists: bool,
    key_exists: bool,
) -> (r: CertPlan)
    ensures
        r == plan_of(cert_set, key_set, cert_exists, key_exists),
{
    if cert_set && key_set {
        if cert_exists && key_exists {
            CertPlan::Load
        } else {
            CertPlan::GenerateAndSave
        }
    } else {
        CertPlan::Ephemeral
    }
}

/// A saved pair is kept: files are written only where one is missing, and once
/// both are there they are read.
pub proof fn lemma_saved_files_are_loaded(
    cert_set: bool,
    key_set: bool,
    cert_exists: bool,
    key_exists: bool,
)
    ensures
        plan_of(cert_set, key_set, cert_exists, key_exists) is GenerateAndSave ==> {
            &&& !(cert_exists && key_exists)
            &&& plan_of(cert_set, key_set, true, true) is Load
        },
{
}

// ---------------------------------------------------------------------------
// Reading PEM files
// ---------------------------------------------------------------------------

/// A private key in DER form, by the format it is in.
#[derive(Debug, Clone, PartialEq)]
pub enum PrivateKey {
    Pkcs1(Vec<u8>),
    Sec1(Vec<u8>),
    Pkcs8(Vec<u8>),
}

pub enum PrivateKeyView {
    Pkcs1 { der: Seq<u8> },
    Sec1 { der: Seq<u8> },
    Pkcs8 { der: Seq<u8> },
}

impl View for PrivateKey {
    type V = PrivateKeyView;

    open spec fn view(&self) -> PrivateKeyView {
        match *self {
            PrivateKey::Pkcs1(der) => PrivateKeyView::Pkcs1 { der: der@ },
            PrivateKey::Sec1(der) => PrivateKeyView::Sec1 { der: der@ },
            PrivateKey::Pkcs8(der) => PrivateKeyView::Pkcs8 { der: der@ },
        }
    }
}

/// The first certificate in a PEM file, in DER form; none if there is none; or
/// what is wrong with the file.
pub uninterp spec fn pem_cert(pem: Seq<u8>) -> Result<Option<Seq<u8>>, Seq<char>>;

/// The first private key in a PEM file; none if there is none; or what is wrong
/// with the file.
pub uninterp spec fn pem_key(pem: Seq<u8>) -> Result<Option<PrivateKeyView>, Seq<char>>;

/// What was read from a file says what the name says.
pub open spec fn reads_cert(
    r: Result<Option<Vec<u8>>, String>,
    named: Result<Option<Seq<u8>>, Seq<char>>,
) -> bool {
    match (r, named) {
        (Ok(Some(der)), Ok(Some(d))) => der@ == d,
        (Ok(None), Ok(None)) => true,
        (Err(why), Err(w)) => why@ == w,
        _ => false,
    }
}

pub open spec fn reads_key(
    r: Result<Option<PrivateKey>, String>,
    named: Result<Option<PrivateKeyView>, Seq<char>>,
) -> bool {
    match (r, named) {
        (Ok(Some(key)), Ok(Some(k))) => key@ == k,
        (Ok(None), Ok(None)) => true,
        (Err(why), Err(w)) => why@ == w,
        _ => false,
    }
}

/// Calls `rustls_pemfile::certs` and takes the first item. The result is a
/// function of the bytes; an error is given by its text.
#[verifier::external_body]
fn read_pem_cert(pem: &[u8]) -> (r: Result<Option<Vec<u8>>, String>)
    ensures
        reads_cert(r, pem_cert(pem@)),
{
    let mut rest = pem;
    let first = rustls_pemfile::certs(&mut rest).next();
    match first {
        Some(Ok(cert)) => Ok(Some(cert.as_ref().to_vec())),
        Some(Err(e)) => Err(format!("{e}")),
        None => Ok(None),
    }
}

/// Calls `rustls_pemfile::private_key`. The result is a function of the bytes;
/// an error is given by its text. The three formats are all that it yields.
#[verifier::external_body]
fn read_pem_key(pem: &[u8]) -> (r: Result<Option<PrivateKey>, String>)
    ensures
        reads_key(r, pem_key(pem@)),
{
    let mut rest = pem;
    match rustls_pemfile::private_key(&mut rest) {
        Ok(Some(rustls::pki_types::PrivateKeyDer::Pkcs1(k))) => {
            Ok(Some(PrivateKey::Pkcs1(k.secret_pkcs1_der().to_vec())))
        }
        Ok(Some(rustls::pki_types::PrivateKeyDer::Sec1(k))) => {
            Ok(Some(PrivateKey::Sec1(k.secret_sec1_der().to_vec())))
        }
        Ok(Some(k)) => Ok(Some(PrivateKey::Pkcs8(k.secret_der().to_vec()))),
        Ok(None) => Ok(None),
        Err(e) => Err(format!("{e}")),
    }
}

/// Why there is no certificate to serve with.
#[derive(Debug, Clone, PartialEq)]
pub enum TlsError {
    NoCertificate,
    NoPrivateKey,
    /// A PEM file cannot be read.
    BadPem(String),
    /// A certificate cannot be generated.
    Generation(String),
    /// A certificate that has no fingerprint: it is too long for the digest.
    TooLong,
    /// The certificate cannot be served with.
    Setup(String),
}

impl TlsError {
    pub fn message(&self) -> (r: String)
        ensures
            r@ == (match *self {
                TlsError::NoCertificate => "no certificate found in cert file"@,
                TlsError::NoPrivateKey => "no private key found in key file"@,
                TlsError::TooLong => "certificate too long"@,
                TlsError::BadPem(why) => why@,
                TlsError::Generation(why) => why@,
                TlsError::Setup(why) => why@,
            }),
    {
        match self {
            TlsError::NoCertificate => "no certificate found in cert file".to_owned(),
            TlsError::NoPrivateKey => "no private key found in key file".to_owned(),
            TlsError::TooLong => "certificate too long".to_owned(),
            TlsError::BadPem(why) => why.clone(),
            TlsError::Generation(why) => why.clone(),
            TlsError::Setup(why) => why.clone(),
        }
    }
}

/// A certificate in DER form and its private key.
#[derive(Debug, Clone, PartialEq)]
pub struct Identity {
    pub cert_der: Vec<u8>,
    pub key: PrivateKey,
}

/// What the two files hold together: the certificate and the key, or the first
/// thing that is wrong, the certificate's before the key's.
pub open spec fn identity_in(
    cert: Result<Option<Seq<u8>>, Seq<char>>,
    key: Result<Option<PrivateKeyView>, Seq<char>>,
    r: Result<Identity, TlsError>,
) -> bool {
    match cert {
        Err(why) => r is Err && r->Err_0 is BadPem && r->Err_0->BadPem_0@ == why,
        Ok(None) => r is Err && r->Err_0 is NoCertificate,
        Ok(Some(der)) => match key {
            Err(why) => r is Err && r->Err_0 is BadPem && r->Err_0->BadPem_0@ == why,
            Ok(None) => r is Err && r->Err_0 is NoPrivateKey,
            Ok(Some(k)) => r is Ok && r->Ok_0.cert_der@ == der && r->Ok_0.key@ == k,
        },
    }
}

pub open spec fn cert_reading(r: Result<Option<Vec<u8>>, String>) -> Result<
    Option<Seq<u8>>,
    Seq<char>,
> {
    match r {
        Ok(Some(der)) => Ok(Some(der@)),
        Ok(None) => Ok(None),
        Err(why) => Err(why@),
    }
}

pub open spec fn key_reading(r: Result<Option<PrivateKey>, String>) -> Result<
    Option<PrivateKeyView>,
    Seq<char>,
> {
    match r {
        Ok(Some(key)) => Ok(Some(key@)),
        Ok(None) => Ok(None),
        Err(why) => Err(why@),
    }
}

/// Puts together what was read from the two files.
pub fn combine(
    cert: Result<Option<Vec<u8>>, String>,
    key: Result<Option<PrivateKey>, String>,
) -> (r: Result<Identity, TlsError>)
    ensures
        identity_in(cert_reading(cert), key_reading(key), r),
{
    let cert_der = match cert {
        Ok(Some(der)) => der,
        Ok(None) => {
            return Err(TlsError::NoCertificate);
        },
        Err(why) => {
            return Err(TlsError::BadPem(why));
        },
    };
    match key {
        Ok(Some(key)) => Ok(Identity { cert_der, key }),
        Ok(None) => Err(TlsError::NoPrivateKey),
        Err(why) => Err(TlsError::BadPem(why)),
    }
}

/// Reads the certificate and the key from the contents of their files.
pub fn load_identity(cert_pem: &[u8], key_pem: &[u8]) -> (r: Result<Identity, TlsError>)
    ensures
        identity_in(pem_cert(cert_pem@), pem_key(key_pem@), r),
{
    combine(read_pem_cert(cert_pem), read_pem_key(key_pem))
}

// ---------------------------------------------------------------------------
// Generating a certificate
// ---------------------------------------------------------------------------

/// A new self-signed certificate, its key, and the PEM form of both.
pub struct Generated {
    pub identity: Identity,
    pub cert_pem: String,
    pub key_pem: String,
}

/// `g` is a pair whose PEM texts hold what its DER forms hold.
pub open spec fn reloads(g: Generated) -> bool {
    &&& pem_cert(encode_utf8(g.cert_pem@)) == Ok::<Option<Seq<u8>>, Seq<char>>(
        Some(g.identity.cert_der@),
    )
    &&& pem_key(encode_utf8(g.key_pem@)) == Ok::<Option<PrivateKeyView>, Seq<char>>(
        Some(g.identity.key@),
    )
}

/// The DNS names that a certificate is for.
pub uninterp spec fn cert_names(cert_der: Seq<u8>) -> Seq<Seq<char>>;

/// Whether a name holds a letter that no IP address has in it.
pub open spec fn is_no_address(name: Seq<char>) -> bool {
    exists|i: int| 0 <= i < name.len() && 'g' <= #[trigger] name[i] <= 'z'
}

/// Calls `rcgen`: `KeyPair::generate`, `CertificateParams::new` and
/// `CertificateParams::self_signed` for the given name, then `Certificate::der`,
/// `Certificate::pem`, `KeyPair::serialize_der` and `KeyPair::serialize_pem`.
/// The certificate is for that name, as it is given, and for no other; `rcgen`
/// would read an IP address as one, and reads anything else as a DNS name. The
/// key is in PKCS #8 form, and each PEM text holds one section with the DER bytes
/// of the same thing, which is what the PEM reader finds in it. The key is random,
/// and whether there is one is for the system's random source to say, so no more
/// is said of either.
#[verifier::external_body]
fn self_signed(name: String) -> (r: Result<Generated, String>)
    requires
        is_no_address(name@),
    ensures
        match r {
            Ok(g) => {
                &&& reloads(g)
                &&& g.identity.key is Pkcs8
                &&& cert_names(g.identity.cert_der@) == seq![name@]
            },
            Err(_) => true,
        },
{
    let key_pair = rcgen::KeyPair::generate().map_err(|e| format!("{e}"))?;
    let params = rcgen::CertificateParams::new(vec![name]).map_err(|e| format!("{e}"))?;
    let cert = params.self_signed(&key_pair).map_err(|e| format!("{e}"))?;
    let cert_der = cert.der().as_ref().to_vec();
    let key = PrivateKey::Pkcs8(key_pair.serialize_der());
    let identity = Identity { cert_der, key };
    Ok(Generated { identity, cert_pem: cert.pem(), key_pem: key_pair.serialize_pem() })
}

/// `g` is a certificate for `localhost` with its key, and can be saved.
pub open spec fn is_for_localhost(g: Generated) -> bool {
    &&& reloads(g)
    &&& g.identity.key is Pkcs8
    &&& cert_names(g.identity.cert_der@) == seq!["localhost"@]
}

/// Generates a certificate for `localhost`.
pub fn generate_identity() -> (r: Result<Generated, TlsError>)
    ensures
        r is Ok ==> is_for_localhost(r->Ok_0),
        r is Err ==> r->Err_0 is Generation,
{
    let name = "localhost".to_owned();
    proof {
        reveal_strlit("localhost");
        assert(name@[0] == 'l');
    }
    match self_signed(name) {
        Ok(g) => Ok(g),
        Err(why) => Err(TlsError::Generation(why)),
    }
}

/// What was saved is what is loaded: reading a generated pair's PEM texts gives
/// its certificate and key back, and so the same fingerprint.
pub proof fn lemma_saved_certificate_reloads(g: Generated, r: Result<Identity, TlsError>)
    ensures
        reloads(g) && identity_in(
            pem_cert(encode_utf8(g.cert_pem@)),
            pem_key(encode_utf8(g.key_pem@)),
            r,
        ) ==> {
            &&& r is Ok
            &&& r->Ok_0.cert_der@ == g.identity.cert_der@
            &&& r->Ok_0.key@ == g.identity.key@
            &&& hex_of(sha256_of(r->Ok_0.cert_der@)) == hex_of(sha256_of(g.identity.cert_der@))
        },
{
}

// ---------------------------------------------------------------------------
// Serving with it
// ---------------------------------------------------------------------------

/// `rustls::ServerConfig`, carried through unopened.
#[verifier::external_type_specification]
#[verifier::external_body]
pub struct ExCryptoConfig(CryptoConfig);

/// `quinn::ServerConfig`, carried through unopened.
#[verifier::external_type_specification]
#[verifier::external_body]
pub struct ExQuicConfig(QuicConfig);

/// The certificate in DER form, and its key, that a TLS configuration shows to
/// every client.
pub uninterp spec fn crypto_serves(config: CryptoConfig) -> (Seq<u8>, PrivateKeyView);

/// The certificate in DER form, and its key, that a QUIC configuration shows to
/// every client.
pub uninterp spec fn quic_serves(config: QuicConfig) -> (Seq<u8>, PrivateKeyView);

/// How many bytes of datagrams a QUIC configuration lets a connection hold until
/// they are read.
pub uninterp spec fn quic_buffer(config: QuicConfig) -> usize;

/// Calls `rustls::ServerConfig::builder`, `with_no_client_auth` and
/// `with_single_cert`. A configuration that comes out serves the given
/// certificate with the given key. Whether one does is for `rustls`, the
/// process's crypto provider and the system's random source to say, so nothing
/// is claimed of that.
#[verifier::external_body]
fn rustls_config(identity: Identity) -> (r: Result<CryptoConfig, String>)
    ensures
        r is Ok ==> crypto_serves(r->Ok_0) == (identity.cert_der@, identity.key@),
{
    let key = match identity.key {
        PrivateKey::Pkcs1(der) => rustls::pki_types::PrivateKeyDer::Pkcs1(der.into()),
        PrivateKey::Sec1(der) => rustls::pki_types::PrivateKeyDer::Sec1(der.into()),
        PrivateKey::Pkcs8(der) => rustls::pki_types::PrivateKeyDer::Pkcs8(der.into()),
    };
    CryptoConfig::builder()
        .with_no_client_auth()
        .with_single_cert(vec![identity.cert_der.into()], key)
        .map_err(|e| format!("{e}"))
}

/// Calls `QuicServerConfig::try_from`, `quinn::ServerConfig::with_crypto` and
/// `transport_config`, with `datagram_receive_buffer_size` as given. A
/// configuration that comes out serves what the TLS configuration serves, and
/// has that buffer. Whether one does turns on the cipher suites of the process's
/// crypto provider, so nothing is claimed of that.
#[verifier::external_body]
fn quic_config(crypto: CryptoConfig, datagram_buffer: usize) -> (r: Result<QuicConfig, String>)
    ensures
        r is Ok ==> quic_serves(r->Ok_0) == crypto_serves(crypto),
        r is Ok ==> quic_buffer(r->Ok_0) == datagram_buffer,
{
    let quic = quinn::crypto::rustls::QuicServerConfig::try_from(crypto)
        .map_err(|e| format!("{e}"))?;
    let mut config = QuicConfig::with_crypto(std::sync::Arc::new(quic));
    let mut transport = quinn::TransportConfig::default();
    transport.datagram_receive_buffer_size(Some(datagram_buffer));
    config.transport_config(std::sync::Arc::new(transport));
    Ok(config)
}

/// What the endpoint is opened with, and what is shown to people.
pub struct TlsSetup {
    pub server_config: QuicConfig,
    pub cert_fingerprint: String,
}

/// `setup` serves a certificate with its key, gives each connection the buffer,
/// and shows the certificate's fingerprint.
pub open spec fn serves(
    setup: TlsSetup,
    cert_der: Seq<u8>,
    key: PrivateKeyView,
    datagram_buffer: usize,
) -> bool {
    &&& cert_der.len() <= MAX_DIGEST_INPUT
    &&& quic_serves(setup.server_config) == (cert_der, key)
    &&& quic_buffer(setup.server_config) == datagram_buffer
    &&& setup.cert_fingerprint@ == hex_of(sha256_of(cert_der))
    &&& is_fingerprint(setup.cert_fingerprint@)
}

/// What comes of setting the server up with a certificate: one that is too long
/// is refused, and any other is served, unless the configuration fails.
pub open spec fn set_up(
    cert_der: Seq<u8>,
    key: PrivateKeyView,
    datagram_buffer: usize,
    r: Result<TlsSetup, TlsError>,
) -> bool {
    if cert_der.len() > MAX_DIGEST_INPUT {
        r is Err && r->Err_0 is TooLong
    } else {
        match r {
            Ok(setup) => serves(setup, cert_der, key, datagram_buffer),
            Err(e) => e is Setup,
        }
    }
}

/// The configuration for a certificate, or why there is none.
fn configure(identity: Identity, datagram_buffer: usize) -> (r: Result<QuicConfig, String>)
    ensures
        r is Ok ==> quic_serves(r->Ok_0) == (identity.cert_der@, identity.key@),
        r is Ok ==> quic_buffer(r->Ok_0) == datagram_buffer,
{
    match rustls_config(identity) {
        Ok(crypto) => quic_config(crypto, datagram_buffer),
        Err(why) => Err(why),
    }
}

/// Puts the configuration and the fingerprint together.
pub fn finish_setup(cert_fingerprint: String, configured: Result<QuicConfig, String>) -> (r: Result<
    TlsSetup,
    TlsError,
>)
    ensures
        match configured {
            Ok(server_config) => r == Ok::<TlsSetup, TlsError>(
                TlsSetup { server_config, cert_fingerprint },
            ),
            Err(why) => r == Err::<TlsSetup, TlsError>(TlsError::Setup(why)),
        },
{
    match configured {
        Ok(server_config) => Ok(TlsSetup { server_config, cert_fingerprint }),
        Err(why) => Err(TlsError::Setup(why)),
    }
}

/// Sets the server up with a certificate.
pub fn setup_with(identity: Identity, datagram_buffer: usize) -> (r: Result<TlsSetup, TlsError>)
    ensures
        set_up(identity.cert_der@, identity.key@, datagram_buffer, r),
{
    if identity.cert_der.len() as u64 > MAX_DIGEST_INPUT {
        return Err(TlsError::TooLong);
    }
    let cert_fingerprint = fingerprint(identity.cert_der.as_slice());
    finish_setup(cert_fingerprint, configure(identity, datagram_buffer))
}

/// The contents of the certificate's and the key's files.
pub struct PemFiles {
    pub cert: Vec<u8>,
    pub key: Vec<u8>,
}

/// What comes of setting the server up with two files: what is wrong with them,
/// or what comes of the certificate and the key in them.
pub open spec fn set_up_loaded(
    cert_pem: Seq<u8>,
    key_pem: Seq<u8>,
    datagram_buffer: usize,
    r: Result<TlsSetup, TlsError>,
) -> bool {
    match (pem_cert(cert_pem), pem_key(key_pem)) {
        (Ok(Some(der)), Ok(Some(key))) => set_up(der, key, datagram_buffer, r),
        (cert, key) => r is Err && identity_in(cert, key, Err::<Identity, TlsError>(r->Err_0)),
    }
}

/// Sets the server up with the certificate in two files.
fn setup_loaded(files: &PemFiles, datagram_buffer: usize) -> (r: Result<TlsSetup, TlsError>)
    ensures
        set_up_loaded(files.cert@, files.key@, datagram_buffer, r),
{
    match load_identity(files.cert.as_slice(), files.key.as_slice()) {
        Ok(identity) => setup_with(identity, datagram_buffer),
        Err(e) => Err(e),
    }
}

/// What comes of setting the server up with a new certificate: it is for
/// `localhost`, is served, and is handed out to be saved.
pub open spec fn set_up_generated(
    datagram_buffer: usize,
    r: Result<(TlsSetup, Generated), TlsError>,
) -> bool {
    match r {
        Ok((setup, g)) => {
            &&& is_for_localhost(g)
            &&& serves(setup, g.identity.cert_der@, g.identity.key@, datagram_buffer)
        },
        Err(e) => e is Generation || e is Setup || e is TooLong,
    }
}

/// Sets the server up with a new certificate, and hands out the PEM texts to
/// save it with.
fn setup_generated(datagram_buffer: usize) -> (r: Result<(TlsSetup, Generated), TlsError>)
    ensures
        set_up_generated(datagram_buffer, r),
{
    let g = match generate_identity() {
        Ok(g) => g,
        Err(e) => {
            return Err(e);
        },
    };
    let identity = copy_identity(&g.identity);
    match setup_with(identity, datagram_buffer) {
        Ok(setup) => Ok((setup, g)),
        Err(e) => Err(e),
    }
}

/// Sets the server up: with the certificate in the given files, or without files
/// with a new one, which is handed out to be saved.
pub fn setup_tls(files: Option<&PemFiles>, datagram_buffer: usize) -> (r: Result<
    (TlsSetup, Option<Generated>),
    TlsError,
>)
    ensures
        match (files, r) {
            (Some(f), Ok((setup, saved))) => saved is None && set_up_loaded(
                f.cert@,
                f.key@,
                datagram_buffer,
                Ok(setup),
            ),
            (Some(f), Err(e)) => set_up_loaded(f.cert@, f.key@, datagram_buffer, Err(e)),
            (None, Ok((setup, saved))) => saved is Some && set_up_generated(
                datagram_buffer,
                Ok((setup, saved->Some_0)),
            ),
            (None, Err(e)) => set_up_generated(datagram_buffer, Err(e)),
        },
{
    match files {
        Some(f) => match setup_loaded(f, datagram_buffer) {
            Ok(setup) => Ok((setup, None)),
            Err(e) => Err(e),
        },
        None => match setup_generated(datagram_buffer) {
            Ok((setup, g)) => Ok((setup, Some(g))),
            Err(e) => Err(e),
        },
    }
}

/// A restart shows the same certificate: setting the server up again with what
/// was saved the first time serves the same certificate with the same key, under
/// the same fingerprint. Nothing but the configuration itself can fail there.
pub proof fn lemma_restart_keeps_the_certificate(
    setup: TlsSetup,
    saved: Generated,
    first_buffer: usize,
    next_buffer: usize,
    again: Result<TlsSetup, TlsError>,
)
    ensures
        set_up_generated(first_buffer, Ok((setup, saved))) && set_up_loaded(
            encode_utf8(saved.cert_pem@),
            encode_utf8(saved.key_pem@),
            next_buffer,
            again,
        ) ==> match again {
            Ok(next) => {
                &&& next.cert_fingerprint@ == setup.cert_fingerprint@
                &&& quic_serves(next.server_config) == quic_serves(setup.server_config)
                &&& quic_buffer(next.server_config) == next_buffer
            },
            Err(e) => e is Setup,
        },
{
}

fn copy_bytes(bytes: &Vec<u8>) -> (r: Vec<u8>)
    ensures
        r@ == bytes@,
{
    let mut out: Vec<u8> = Vec::new();
    out.extend_from_slice(bytes.as_slice());
    assert(out@ =~= bytes@);
    out
}

fn copy_identity(identity: &Identity) -> (r: Identity)
    ensures
        r.cert_der@ == identity.cert_der@,
        r.key@ == identity.key@,
{
    Identity {
        cert_der: copy_bytes(&identity.cert_der),
        key: match &identity.key {
            PrivateKey::Pkcs1(der) => PrivateKey::Pkcs1(copy_bytes(der)),
            PrivateKey::Sec1(der) => PrivateKey::Sec1(copy_bytes(der)),
            PrivateKey::Pkcs8(der) => PrivateKey::Pkcs8(copy_bytes(der)),
        },
    }
}

// ---------------------------------------------------------------------------
// Laws, said of the calls
// ---------------------------------------------------------------------------

/// The certificate is read where both files are configured and there, written
/// where both are configured and one is missing, and kept in memory otherwise.
pub proof fn lemma_certificate_source(
    cert_set: bool,
    key_set: bool,
    cert_exists: bool,
    key_exists: bool,
    r: CertPlan,
)
    requires
        call_ensures(cert_plan, (cert_set, key_set, cert_exists, key_exists), r),
    ensures
        r is Load <==> cert_set && key_set && cert_exists && key_exists,
        r is GenerateAndSave <==> cert_set && key_set && !(cert_exists && key_exists),
        r is Ephemeral <==> !(cert_set && key_set),
{
}

/// A certificate and a key that were read make an identity as they are; otherwise
/// the first thing that is wrong is told, the certificate's before the key's.
pub proof fn lemma_identity_is_what_was_read(
    cert: Result<Option<Vec<u8>>, String>,
    key: Result<Option<PrivateKey>, String>,
    r: Result<Identity, TlsError>,
)
    requires
        call_ensures(combine, (cert, key), r),
    ensures
        ({
            let cert_there = cert is Ok && cert->Ok_0 is Some;
            let key_there = key is Ok && key->Ok_0 is Some;
            &&& r is Ok <==> cert_there && key_there
            &&& r is Ok ==> {
                &&& r->Ok_0.cert_der@ == (cert->Ok_0)->Some_0@
                &&& r->Ok_0.key@ == (key->Ok_0)->Some_0@
            }
            &&& cert is Err ==> r->Err_0 is BadPem && r->Err_0->BadPem_0@ == cert->Err_0@
            &&& cert is Ok && cert->Ok_0 is None ==> r->Err_0 is NoCertificate
            &&& cert_there && key is Err ==> r->Err_0 is BadPem && r->Err_0->BadPem_0@
                == key->Err_0@
            &&& cert_there && key is Ok && key->Ok_0 is None ==> r->Err_0 is NoPrivateKey
        }),
{
}

/// A server that is set up with a certificate serves that certificate with its key,
/// gives connections the buffer that was asked for, and shows the fingerprint of
/// that same certificate.
pub proof fn lemma_server_shows_what_it_serves(
    identity: Identity,
    datagram_buffer: usize,
    r: Result<TlsSetup, TlsError>,
)
    requires
        call_ensures(setup_with, (identity, datagram_buffer), r),
    ensures
        identity.cert_der@.len() > MAX_DIGEST_INPUT <==> r is Err && r->Err_0 is TooLong,
        r is Err ==> r->Err_0 is TooLong || r->Err_0 is Setup,
        r is Ok ==> {
            &&& quic_serves(r->Ok_0.server_config) == (identity.cert_der@, identity.key@)
            &&& quic_buffer(r->Ok_0.server_config) == datagram_buffer
            &&& r->Ok_0.cert_fingerprint@ == hex_of(sha256_of(identity.cert_der@))
        },
{
}

/// A server set up from files serves what the files hold and saves nothing; one
/// set up without files serves a new certificate for `localhost`, and hands out
/// that very certificate to be saved.
pub proof fn lemma_setup_serves_files_or_new(
    files: Option<&PemFiles>,
    datagram_buffer: usize,
    r: Result<(TlsSetup, Option<Generated>), TlsError>,
)
    requires
        call_ensures(setup_tls, (files, datagram_buffer), r),
        r is Ok,
    ensures
        quic_buffer(r->Ok_0.0.server_config) == datagram_buffer,
        r->Ok_0.0.cert_fingerprint@ == hex_of(
            sha256_of(quic_serves(r->Ok_0.0.server_config).0),
        ),
        files is Some ==> {
            let f = files->Some_0;
            &&& r->Ok_0.1 is None
            &&& pem_cert(f.cert@) == Ok::<Option<Seq<u8>>, Seq<char>>(
                Some(quic_serves(r->Ok_0.0.server_config).0),
            )
            &&& pem_key(f.key@) == Ok::<Option<PrivateKeyView>, Seq<char>>(
                Some(quic_serves(r->Ok_0.0.server_config).1),
            )
        },
        files is None ==> {
            &&& r->Ok_0.1 is Some
            &&& ({
                let g = (r->Ok_0.1)->Some_0;
                &&& quic_serves(r->Ok_0.0.server_config) == (
                    g.identity.cert_der@,
                    g.identity.key@,
                )
                &&& cert_names(g.identity.cert_der@) == seq!["localhost"@]
                &&& pem_cert(encode_utf8(g.cert_pem@)) == Ok::<Option<Seq<u8>>, Seq<char>>(
                    Some(g.identity.cert_der@),
                )
                &&& pem_key(encode_utf8(g.key_pem@)) == Ok::<Option<PrivateKeyView>, Seq<char>>(
                    Some(g.identity.key@),
                )
            })
        },
{
    if files is Some {
        let f = files->Some_0;
        assert(set_up_loaded(f.cert@, f.key@, datagram_buffer, Ok(r->Ok_0.0)));
    }
}

/// An identity is loaded exactly if both files hold what they should; it is the
/// certificate and the key that they hold.
pub proof fn lemma_files_make_an_identity(
    cert_pem: &[u8],
    key_pem: &[u8],
    r: Result<Identity, TlsError>,
)
    requires
        call_ensures(load_identity, (cert_pem, key_pem), r),
    ensures
        ({
            let cert = pem_cert(cert_pem@);
            let key = pem_key(key_pem@);
            let cert_there = cert is Ok && cert->Ok_0 is Some;
            let key_there = key is Ok && key->Ok_0 is Some;
            &&& r is Ok <==> cert_there && key_there
            &&& r is Ok ==> {
                &&& r->Ok_0.cert_der@ == (cert->Ok_0)->Some_0
                &&& r->Ok_0.key@ == (key->Ok_0)->Some_0
            }
            &&& cert is Err ==> r->Err_0 is BadPem && r->Err_0->BadPem_0@ == cert->Err_0
            &&& cert is Ok && cert->Ok_0 is None ==> r->Err_0 is NoCertificate
            &&& cert_there && key is Err ==> r->Err_0 is BadPem && r->Err_0->BadPem_0@
                == key->Err_0
            &&& cert_there && key is Ok && key->Ok_0 is None ==> r->Err_0 is NoPrivateKey
        }),
{
}

/// A generated certificate is for `localhost`, and its files load as it.
pub proof fn lemma_new_certificate(
    r: Result<Generated, TlsError>,
    cert_pem: &[u8],
    key_pem: &[u8],
    loaded: Result<Identity, TlsError>,
)
    requires
        call_ensures(generate_identity, (), r),
        r is Ok,
        cert_pem@ == encode_utf8(r->Ok_0.cert_pem@),
        key_pem@ == encode_utf8(r->Ok_0.key_pem@),
        call_ensures(load_identity, (cert_pem, key_pem), loaded),
    ensures
        cert_names(r->Ok_0.identity.cert_der@) == seq!["localhost"@],
        loaded is Ok,
        loaded->Ok_0.cert_der@ == r->Ok_0.identity.cert_der@,
        loaded->Ok_0.key@ == r->Ok_0.identity.key@,
{
}

/// A set-up that was built is handed on with its fingerprint; a refusal is told.
pub proof fn lemma_setup_is_handed_on(
    cert_fingerprint: String,
    configured: Result<QuicConfig, String>,
    r: Result<TlsSetup, TlsError>,
)
    requires
        call_ensures(finish_setup, (cert_fingerprint, configured), r),
    ensures
        r is Ok <==> configured is Ok,
        r is Ok ==> r->Ok_0.server_config == configured->Ok_0 && r->Ok_0.cert_fingerprint
            == cert_fingerprint,
        r is Err ==> r->Err_0 is Setup && r->Err_0->Setup_0 == configured->Err_0,
{
}

/// What is told of a failure: which file lacks what it should hold, or the reason
/// that was given.
pub proof fn lemma_failures_are_told(e: &TlsError, r: String)
    requires
        call_ensures(TlsError::message, (e,), r),
    ensures
        e is NoCertificate ==> r@ == "no certificate found in cert file"@,
        e is NoPrivateKey ==> r@ == "no private key found in key file"@,
        e is TooLong ==> r@ == "certificate too long"@,
        e is BadPem ==> r@ == e->BadPem_0@,
        e is Generation ==> r@ == e->Generation_0@,
        e is Setup ==> r@ == e->Setup_0@,
{
}

} // verus!
