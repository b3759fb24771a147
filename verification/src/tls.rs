//! The server's TLS identity, read from PEM: its certificate chain and the
//! first PKCS#8 private key.
use vstd::prelude::*;

verus! {

/// The DER certificates that `rustls_pemfile::certs` reads from PEM bytes, or
/// `None` when it fails on them.
pub uninterp spec fn pem_certificates(pem: Seq<u8>) -> Option<Seq<Seq<u8>>>;

/// The DER keys that `rustls_pemfile::pkcs8_private_keys` reads from PEM bytes,
/// or `None` when it fails on them.
pub uninterp spec fn pem_pkcs8_keys(pem: Seq<u8>) -> Option<Seq<Seq<u8>>>;

/// Calls `rustls_pemfile::certs` on a reader over `pem`.
/// Claimed: its outcome, with the error dropped, is `pem_certificates(pem)`;
/// a reader over bytes in memory fails only on what the bytes hold.
#[verifier::external_body]
fn read_pem_certificates(pem: &[u8]) -> (r: Option<Vec<Vec<u8>>>)
    ensures
        r is Some <==> pem_certificates(pem@) is Some,
        r matches Some(v) ==> pem_certificates(pem@) == Some(v.deep_view()),
{
    let mut reader: &[u8] = pem;
    rustls_pemfile::certs(&mut reader).ok()
}

/// Calls `rustls_pemfile::pkcs8_private_keys` on a reader over `pem`.
/// Claimed: its outcome, with the error dropped, is `pem_pkcs8_keys(pem)`.
#[verifier::external_body]
fn read_pem_pkcs8_keys(pem: &[u8]) -> (r: Option<Vec<Vec<u8>>>)
    ensures
        r is Some <==> pem_pkcs8_keys(pem@) is Some,
        r matches Some(v) ==> pem_pkcs8_keys(pem@) == Some(v.deep_view()),
{
    let mut reader: &[u8] = pem;
    rustls_pemfile::pkcs8_private_keys(&mut reader).ok()
}

/// The certificate chain and private key a TLS server presents.
pub struct TlsIdentity {
    pub cert_chain: Vec<Vec<u8>>,
    pub private_key: Vec<u8>,
}

/// Why no TLS identity could be read.
#[derive(Debug, Clone, Copy, PartialEq, Eq, Structural)]
pub enum TlsSetupError {
    /// The certificate file is not readable PEM.
    CertParse,
    /// The key file is not readable PEM.
    KeyParse,
    /// The key file holds no PKCS#8 key.
    EmptyKey,
}

impl TlsSetupError {
    /// The text the error is reported with.
    pub fn message(&self) -> (r: &'static str)
        ensures
            r@ == (match *self {
                TlsSetupError::CertParse => "cert parse error"@,
                TlsSetupError::KeyParse => "ssl key parse error"@,
                TlsSetupError::EmptyKey => "SSL key (PKCS) is emtpy"@,
            }),
    {
        match self {
            TlsSetupError::CertParse => "cert parse error",
            TlsSetupError::KeyParse => "ssl key parse error",
            TlsSetupError::EmptyKey => "SSL key (PKCS) is emtpy",
        }
    }
}

/// The identity read from the parsed certificates and keys: a failure to parse
/// the certificates, then the keys, then an empty key list, is reported in
/// that order; otherwise every certificate and the first key.
pub open spec fn tls_outcome(certs: Option<Seq<Seq<u8>>>, keys: Option<Seq<Seq<u8>>>) -> Result<
    (Seq<Seq<u8>>, Seq<u8>),
    TlsSetupError,
> {
    match certs {
        None => Err(TlsSetupError::CertParse),
        Some(cs) => match keys {
            None => Err(TlsSetupError::KeyParse),
            Some(ks) => if ks.len() == 0 {
                Err(TlsSetupError::EmptyKey)
            } else {
                Ok((cs, ks[0]))
            },
        },
    }
}

/// The optional view of a parse result.
pub open spec fn parsed_view(p: Option<Vec<Vec<u8>>>) -> Option<Seq<Seq<u8>>> {
    match p {
        Some(v) => Some(v.deep_view()),
        None => None,
    }
}

/// Build the identity from parsed certificates and keys (`None` where parsing
/// failed): every certificate and the first key.
pub fn identity_of(certs: Option<Vec<Vec<u8>>>, keys: Option<Vec<Vec<u8>>>) -> (r: Result<
    TlsIdentity,
    TlsSetupError,
>)
    ensures
        match r {
            Ok(id) => tls_outcome(parsed_view(certs), parsed_view(keys)) == Ok::<
                (Seq<Seq<u8>>, Seq<u8>),
                TlsSetupError,
            >((id.cert_chain.deep_view(), id.private_key@)),
            Err(e) => tls_outcome(parsed_view(certs), parsed_view(keys)) == Err::<
                (Seq<Seq<u8>>, Seq<u8>),
                TlsSetupError,
            >(e),
        },
{
    let certs = match certs {
        Some(c) => c,
        None => {
            return Err(TlsSetupError::CertParse);
        },
    };
    let mut keys = match keys {
        Some(k) => k,
        None => {
            return Err(TlsSetupError::KeyParse);
        },
    };
    if keys.len() == 0 {
        return Err(TlsSetupError::EmptyKey);
    }
    let ghost kv = keys.deep_view();
    let key = keys.remove(0);
    assert(key@ == kv[0]);
    Ok(TlsIdentity { cert_chain: certs, private_key: key })
}

/// Read the server's identity: every certificate of the certificate PEM, and
/// the first PKCS#8 key of the key PEM.
pub fn tls_identity(cert_pem: &[u8], key_pem: &[u8]) -> (r: Result<TlsIdentity, TlsSetupError>)
    ensures
        match r {
            Ok(id) => tls_outcome(pem_certificates(cert_pem@), pem_pkcs8_keys(key_pem@)) == Ok::<
                (Seq<Seq<u8>>, Seq<u8>),
                TlsSetupError,
            >((id.cert_chain.deep_view(), id.private_key@)),
            Err(e) => tls_outcome(pem_certificates(cert_pem@), pem_pkcs8_keys(key_pem@)) == Err::<
                (Seq<Seq<u8>>, Seq<u8>),
                TlsSetupError,
            >(e),
        },
{
    let certs = read_pem_certificates(cert_pem);
    let keys = read_pem_pkcs8_keys(key_pem);
    identity_of(certs, keys)
}

} // verus!
