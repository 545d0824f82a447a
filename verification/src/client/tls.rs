//! How a client decides whether to trust a server's certificate.

use vstd::prelude::*;
use vstd::utf8::encode_utf8;

use crate::common::hex::{
    decode_hex, hex_of, lemma_hex_round_trip, pairs_up, scan_hex, sha256, sha256_of,
    HexScan, MAX_DIGEST_INPUT,
};

verus! {

/// How certificates are verified.
#[derive(Debug, Clone, PartialEq)]
pub enum CertMode {
    /// Only a certificate with this SHA-256 digest is accepted.
    PinHash(Vec<u8>),
    SkipVerify,
}

/// What a certificate mode says.
pub enum CertModeView {
    PinHash { hash: Seq<u8> },
    SkipVerify,
}

impl View for CertMode {
    type V = CertModeView;

    open spec fn view(&self) -> CertModeView {
        match *self {
            CertMode::PinHash(hash) => CertModeView::PinHash { hash: hash@ },
            CertMode::SkipVerify => CertModeView::SkipVerify,
        }
    }
}

/// The mode that the options ask for, or the complaint. A pinned hash wins over
/// skipping; without either there is no default.
pub open spec fn mode_of(cert_hash: Option<Seq<char>>, skip: bool) -> Result<
    CertModeView,
    Seq<char>,
> {
    match cert_hash {
        Some(hex) => {
            let text = encode_utf8(hex);
            if text.len() % 2 != 0 {
                Err("hex string must have even length"@)
            } else {
                match scan_hex(text) {
                    HexScan::Bytes { bytes } => if bytes.len() == 32 {
                        Ok(CertModeView::PinHash { hash: bytes })
                    } else {
                        Err("--cert-hash must be 64 hex characters (SHA-256)"@)
                    },
                    _ => Err("invalid digit found in string"@),
                }
            }
        },
        None => if skip {
            Ok(CertModeView::SkipVerify)
        } else {
            Err(
                "no certificate verification mode specified; use:\n  --cert-hash <hex>        (recommended) pin server cert by SHA-256 fingerprint\n  --danger-skip-verify     skip verification entirely (insecure)"@,
            )
        },
    }
}

/// Chooses how certificates are verified.
pub fn cert_mode(cert_hash: Option<&str>, skip: bool) -> (r: Result<CertMode, &'static str>)
    requires
        cert_hash is Some ==> pairs_up(cert_hash->Some_0@),
    ensures
        match (
            r,
            mode_of(
                match cert_hash {
                    Some(hex) => Some(hex@),
                    None => None,
                },
                skip,
            ),
        ) {
            (Ok(mode), Ok(m)) => mode@ == m,
            (Err(why), Err(w)) => why@ == w,
            _ => false,
        },
{
    match cert_hash {
        Some(hex) => match decode_hex(hex) {
            Ok(hash) => {
                if hash.len() != 32 {
                    Err("--cert-hash must be 64 hex characters (SHA-256)")
                } else {
                    Ok(CertMode::PinHash(hash))
                }
            },
            Err(why) => Err(why),
        },
        None => {
            if skip {
                Ok(CertMode::SkipVerify)
            } else {
                Err(
                    "no certificate verification mode specified; use:\n  --cert-hash <hex>        (recommended) pin server cert by SHA-256 fingerprint\n  --danger-skip-verify     skip verification entirely (insecure)",
                )
            }
        },
    }
}

fn same_bytes(a: &Vec<u8>, b: &Vec<u8>) -> (r: bool)
    ensures
        r == (a@ == b@),
{
    if a.len() != b.len() {
        return false;
    }
    let mut i: usize = 0;
    while i < a.len()
        invariant
            i <= a@.len() == b@.len(),
            a@.take(i as int) == b@.take(i as int),
        decreases a@.len() - i,
    {
        if a[i] != b[i] {
            assert(a@[i as int] != b@[i as int]);
            return false;
        }
        i = i + 1;
        assert(a@.take(i as int) =~= a@.take(i - 1).push(a@[i - 1]));
        assert(b@.take(i as int) =~= b@.take(i - 1).push(b@[i - 1]));
    }
    assert(a@.take(a@.len() as int) =~= a@);
    assert(b@.take(b@.len() as int) =~= b@);
    true
}

/// Whether a mode accepts a certificate in DER form.
pub open spec fn accepts(mode: CertModeView, cert_der: Seq<u8>) -> bool {
    match mode {
        CertModeView::PinHash { hash } => sha256_of(cert_der) == hash,
        CertModeView::SkipVerify => true,
    }
}

/// Whether a digest is the one that a mode wants.
pub fn digest_accepted(mode: &CertMode, digest: &Vec<u8>) -> (r: Result<(), &'static str>)
    ensures
        match mode@ {
            CertModeView::PinHash { hash } => (r is Ok) == (digest@ == hash),
            CertModeView::SkipVerify => r is Ok,
        },
        r is Err ==> r->Err_0@ == "certificate fingerprint does not match pinned hash"@,
{
    match mode {
        CertMode::PinHash(hash) => {
            if same_bytes(digest, hash) {
                Ok(())
            } else {
                Err("certificate fingerprint does not match pinned hash")
            }
        },
        CertMode::SkipVerify => Ok(()),
    }
}

/// Verifies a server's certificate.
pub fn verify_cert(mode: &CertMode, cert_der: &[u8]) -> (r: Result<(), &'static str>)
    requires
        cert_der@.len() <= MAX_DIGEST_INPUT,
    ensures
        (r is Ok) == accepts(mode@, cert_der@),
        r is Err ==> r->Err_0@ == "certificate fingerprint does not match pinned hash"@,
{
    digest_accepted(mode, &sha256(cert_der))
}

/// A client that pins the fingerprint which a server shows of its certificate's
/// `digest` accepts a certificate exactly if that is its digest.
pub proof fn lemma_pin_accepts_exactly(digest: Seq<u8>, cert_der: Seq<u8>)
    requires
        digest.len() == 32,
    ensures
        ({
            let shown = hex_of(digest);
            let mode = CertModeView::PinHash { hash: digest };
            &&& pairs_up(shown)
            &&& mode_of(Some(shown), false) == Ok::<CertModeView, Seq<char>>(mode)
            &&& mode_of(Some(shown), true) == Ok::<CertModeView, Seq<char>>(mode)
            &&& accepts(mode, cert_der) == (sha256_of(cert_der) == digest)
        }),
{
    lemma_hex_round_trip(digest);
}

/// How certificates are verified: by the pinned digest where one is given, which
/// has to be 32 bytes; not at all where that is asked for; and there is no other
/// way to connect.
pub proof fn lemma_modes(
    cert_hash: Option<&str>,
    skip: bool,
    r: Result<CertMode, &'static str>,
    hex: &str,
    read: Result<Vec<u8>, &'static str>,
)
    requires
        call_ensures(cert_mode, (cert_hash, skip), r),
        call_ensures(decode_hex, (hex,), read),
        pairs_up(hex@),
        cert_hash is Some ==> cert_hash->Some_0@ == hex@,
    ensures
        cert_hash is Some ==> {
            &&& r is Ok <==> read is Ok && read->Ok_0@.len() == 32
            &&& r is Ok ==> r->Ok_0@ == (CertModeView::PinHash { hash: read->Ok_0@ })
            &&& r is Err && read is Err ==> r->Err_0@ == read->Err_0@
            &&& r is Err && read is Ok ==> r->Err_0@
                == "--cert-hash must be 64 hex characters (SHA-256)"@
        },
        cert_hash is None ==> {
            &&& r is Ok <==> skip
            &&& r is Ok ==> r->Ok_0@ is SkipVerify
            &&& r is Err ==> r->Err_0@
                == "no certificate verification mode specified; use:\n  --cert-hash <hex>        (recommended) pin server cert by SHA-256 fingerprint\n  --danger-skip-verify     skip verification entirely (insecure)"@
        },
{
}

/// A pinned client accepts exactly the certificates with the pinned digest; a
/// client that skips verification accepts any.
pub proof fn lemma_only_the_pinned_certificate_is_accepted(
    mode: &CertMode,
    cert_der: &[u8],
    r: Result<(), &'static str>,
)
    requires
        call_ensures(verify_cert, (mode, cert_der), r),
        cert_der@.len() <= MAX_DIGEST_INPUT,
    ensures
        mode@ is SkipVerify ==> r is Ok,
        mode@ is PinHash ==> (r is Ok <==> sha256_of(cert_der@) == mode@->hash),
        r is Err ==> r->Err_0@ == "certificate fingerprint does not match pinned hash"@,
{
}

/// So is a digest on its own.
pub proof fn lemma_only_the_pinned_digest_is_accepted(
    mode: &CertMode,
    digest: &Vec<u8>,
    r: Result<(), &'static str>,
)
    requires
        call_ensures(digest_accepted, (mode, digest), r),
    ensures
        mode@ is SkipVerify ==> r is Ok,
        mode@ is PinHash ==> (r is Ok <==> digest@ == mode@->hash),
{
}

} // verus!
