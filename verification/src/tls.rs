//! Certificates and keys for the connections between gateway and nodes.
use vstd::prelude::*;
use vstd::string::StringExecFns;

use std::sync::Arc;

use rustls::pki_types::pem::PemObject;
use rustls::pki_types::{CertificateDer, PrivateKeyDer, ServerName};
use rustls::server::WebPkiClientVerifier;
use rustls::ServerConfig;

use crate::text::{chars_of, quoted, quoted_text, rfind, rfind_char, string_of, take_chars};

verus! {

/// A certificate authority: certificate and private key in PEM.
#[derive(Debug, Clone)]
pub struct CaPair {
    pub ca_cert_pem: String,
    pub ca_key_pem: String,
}

/// A leaf certificate and its private key in PEM.
#[derive(Debug, Clone)]
pub struct NodeIdentityCert {
    pub cert_pem: String,
    pub key_pem: String,
}

/// What one end of a connection has: the authority that it trusts, and the leaf that it
/// shows.
#[derive(Debug, Clone)]
pub struct TlsMaterial {
    pub ca: CaPair,
    pub leaf: NodeIdentityCert,
}

/// Why no TLS configuration could be made.
#[derive(Debug, Clone)]
pub enum TlsBuildError {
    Pem(String),
    Other(String),
}

impl TlsBuildError {
    /// The error in words.
    pub open spec fn text(self) -> Seq<char> {
        match self {
            TlsBuildError::Pem(s) => "pem parse: "@ + s@,
            TlsBuildError::Other(s) => "tls config: "@ + s@,
        }
    }

    /// The error in words.
    pub fn message(&self) -> (r: String)
        ensures
            r@ == self.text(),
    {
        match self {
            TlsBuildError::Pem(s) => String::from_str("pem parse: ").concat(s.as_str()),
            TlsBuildError::Other(s) => String::from_str("tls config: ").concat(s.as_str()),
        }
    }
}

/// What a server name is.
#[derive(Debug, Clone, Copy, PartialEq, Eq, Structural)]
pub enum SniKind {
    IpAddress,
    DnsName,
}

/// A server name, ready for the TLS handshake.
#[derive(Debug, Clone)]
pub struct Sni {
    pub kind: SniKind,
    pub host: String,
}

/// How a private key is encoded.
#[derive(Debug, Clone, Copy, PartialEq, Eq, Structural)]
pub enum KeyFormat {
    Pkcs1,
    Sec1,
    Pkcs8,
}

/// A private key.
#[derive(Debug, Clone)]
pub struct KeyDer {
    pub format: KeyFormat,
    pub der: Vec<u8>,
}

/// What `ServerName::try_from` makes of a host: the kind of name, or nothing.
pub uninterp spec fn server_name_kind(host: Seq<char>) -> Option<SniKind>;

/// `rustls-pki-types`' `ServerName::try_from`: whether a host is a DNS name or an IP
/// address depends on its text alone; a text that is neither is refused.
#[verifier::external_body]
pub(crate) fn classify_host(host: &str) -> (r: Option<SniKind>)
    ensures
        r == server_name_kind(host@),
{
    match ServerName::try_from(host) {
        Ok(ServerName::DnsName(_)) => Some(SniKind::DnsName),
        Ok(_) => Some(SniKind::IpAddress),
        Err(_) => None,
    }
}

/// What `CertificateDer::pem_slice_iter` finds in a PEM text, up to the first section
/// that cannot be read: the certificates, or that section's error in words.
pub uninterp spec fn pem_certificates(pem: Seq<u8>) -> Result<Seq<Seq<u8>>, Seq<char>>;

/// `rustls-pki-types`' `CertificateDer::pem_slice_iter`, collected.
#[verifier::external_body]
pub(crate) fn pem_certs(pem: &[u8]) -> (r: Result<Vec<Vec<u8>>, String>)
    ensures
        match r {
            Ok(v) => pem_certificates(pem@) == Ok::<Seq<Seq<u8>>, Seq<char>>(der_views(v@)),
            Err(e) => pem_certificates(pem@) == Err::<Seq<Seq<u8>>, Seq<char>>(e@),
        },
{
    CertificateDer::pem_slice_iter(pem)
        .map(|c| c.map(|d| d.as_ref().to_vec()))
        .collect::<Result<Vec<Vec<u8>>, _>>()
        .map_err(|e| e.to_string())
}

/// What `PrivateKeyDer::from_pem_slice` finds in a PEM text: the first private key, or
/// the error in words.
pub uninterp spec fn pem_private_key(pem: Seq<u8>) -> Result<(KeyFormat, Seq<u8>), Seq<char>>;

/// `rustls-pki-types`' `PrivateKeyDer::from_pem_slice`.
#[verifier::external_body]
pub(crate) fn pem_key(pem: &[u8]) -> (r: Result<KeyDer, String>)
    ensures
        match r {
            Ok(k) => pem_private_key(pem@) == Ok::<(KeyFormat, Seq<u8>), Seq<char>>(
                (k.format, k.der@),
            ),
            Err(e) => pem_private_key(pem@) == Err::<(KeyFormat, Seq<u8>), Seq<char>>(e@),
        },
{
    match PrivateKeyDer::from_pem_slice(pem) {
        Ok(PrivateKeyDer::Pkcs1(k)) => Ok(KeyDer { format: KeyFormat::Pkcs1, der: k.secret_pkcs1_der().to_vec() }),
        Ok(PrivateKeyDer::Sec1(k)) => Ok(KeyDer { format: KeyFormat::Sec1, der: k.secret_sec1_der().to_vec() }),
        Ok(k) => Ok(KeyDer { format: KeyFormat::Pkcs8, der: k.secret_der().to_vec() }),
        Err(e) => Err(e.to_string()),
    }
}

/// The certificates in `v`, as sequences.
pub open spec fn der_views(v: Seq<Vec<u8>>) -> Seq<Seq<u8>> {
    v.map_values(|c: Vec<u8>| c@)
}

/// The host in `host:port`: what stands before the last colon, or all of it.
pub open spec fn host_part(host_port: Seq<char>) -> Seq<char> {
    if rfind(host_port, ':') < 0 {
        host_port
    } else {
        host_port.take(rfind(host_port, ':'))
    }
}

/// The host in `host:port`.
pub fn host_of(host_port: &str) -> (r: String)
    ensures
        r@ == host_part(host_port@),
{
    let v = chars_of(host_port);
    match rfind_char(v.as_slice(), ':') {
        Some(i) => string_of(take_chars(v.as_slice(), i)),
        None => string_of(v.as_slice()),
    }
}

/// The server name for the host in `host:port`.
pub fn server_name_for(host_port: &str) -> (r: Result<Sni, TlsBuildError>)
    ensures
        match server_name_kind(host_part(host_port@)) {
            Some(kind) => r matches Ok(s) && s.kind == kind && s.host@ == host_part(host_port@),
            None => r matches Err(TlsBuildError::Other(t)) && t@ == "bad SNI host "@ + quoted_text(
                host_part(host_port@),
            ) + ": invalid dns name"@,
        },
{
    let host = host_of(host_port);
    name_from(host_port, classify_host(host.as_str()))
}

/// The server name for the host in `host:port`, given what the host is.
pub fn name_from(host_port: &str, kind: Option<SniKind>) -> (r: Result<Sni, TlsBuildError>)
    ensures
        match kind {
            Some(kind) => r matches Ok(s) && s.kind == kind && s.host@ == host_part(host_port@),
            None => r matches Err(TlsBuildError::Other(t)) && t@ == "bad SNI host "@ + quoted_text(
                host_part(host_port@),
            ) + ": invalid dns name"@,
        },
{
    let host = host_of(host_port);
    match kind {
        Some(kind) => Ok(Sni { kind, host }),
        None => Err(
            TlsBuildError::Other(
                String::from_str("bad SNI host ").concat(quoted(host.as_str()).as_str()).concat(
                    ": invalid dns name",
                ),
            ),
        ),
    }
}

/// The certificates in a PEM text. A text without sections has none.
pub fn parse_certs(pem: &str) -> (r: Result<Vec<Vec<u8>>, TlsBuildError>)
    ensures
        match pem_certificates(vstd::utf8::encode_utf8(pem@)) {
            Ok(v) => r matches Ok(w) && der_views(w@) == v,
            Err(e) => r matches Err(TlsBuildError::Pem(t)) && t@ == e,
        },
{
    match pem_certs(pem.as_bytes()) {
        Ok(v) => Ok(v),
        Err(e) => Err(TlsBuildError::Pem(e)),
    }
}

/// The first private key in a PEM text.
pub fn parse_private_key(pem: &str) -> (r: Result<KeyDer, TlsBuildError>)
    ensures
        match pem_private_key(vstd::utf8::encode_utf8(pem@)) {
            Ok((f, d)) => r matches Ok(k) && k.format == f && k.der@ == d,
            Err(e) => r matches Err(TlsBuildError::Pem(t)) && t@ == e,
        },
{
    match pem_key(pem.as_bytes()) {
        Ok(k) => Ok(k),
        Err(e) => Err(TlsBuildError::Pem(e)),
    }
}

/// What a trust anchor is taken from a certificate as: its subject, its public key, and the
/// names to which it is limited.
pub type Anchor = (Seq<u8>, Seq<u8>, Option<Seq<u8>>);

/// `rustls`' store of trusted authorities.
#[verifier::external_type_specification]
#[verifier::external_body]
pub struct ExRootCertStore(rustls::RootCertStore);

/// `rustls`' configuration of a server.
#[verifier::external_type_specification]
#[verifier::external_body]
pub struct ExServerConfig(rustls::ServerConfig);

/// `rustls`' configuration of a client.
#[verifier::external_type_specification]
#[verifier::external_body]
pub struct ExClientConfig(rustls::ClientConfig);

/// The trust anchor that `RootCertStore::add` takes from a certificate, or the error in words.
pub uninterp spec fn trust_anchor(der: Seq<u8>) -> Result<
    (Seq<u8>, Seq<u8>, Option<Seq<u8>>),
    Seq<char>,
>;

/// The trust anchors in a store, in the order in which they were added.
pub uninterp spec fn trusted(store: rustls::RootCertStore) -> Seq<
    (Seq<u8>, Seq<u8>, Option<Seq<u8>>),
>;

/// `RootCertStore::empty`: a store that trusts nobody.
#[verifier::external_body]
fn no_roots() -> (r: rustls::RootCertStore)
    ensures
        trusted(r).len() == 0,
{
    rustls::RootCertStore::empty()
}

/// `RootCertStore::add`: the anchor of a certificate comes behind the others; a certificate that
/// has none leaves the store as it was, and is told in words.
#[verifier::external_body]
fn add_root(store: &mut rustls::RootCertStore, der: &[u8]) -> (r: Result<(), String>)
    ensures
        match trust_anchor(der@) {
            Ok(a) => r is Ok && trusted(*final(store)) == trusted(*old(store)).push(a),
            Err(t) => r matches Err(e) && e@ == t && trusted(*final(store)) == trusted(*old(store)),
        },
{
    store.add(CertificateDer::from(der)).map_err(|e| e.to_string())
}

/// The anchors of the first `n` certificates; the first certificate that has none is the error.
pub open spec fn anchors(v: Seq<Seq<u8>>, n: nat) -> Result<Seq<Anchor>, Seq<char>>
    decreases n,
{
    if n == 0 {
        Ok(Seq::empty())
    } else {
        match (anchors(v, (n - 1) as nat), trust_anchor(v[n - 1])) {
            (Err(t), _) => Err(t),
            (Ok(_), Err(t)) => Err(t),
            (Ok(s), Ok(a)) => Ok(s.push(a)),
        }
    }
}

proof fn lemma_anchors_stop(v: Seq<Seq<u8>>, a: nat, b: nat)
    requires
        a <= b,
        anchors(v, a) is Err,
    ensures
        anchors(v, b) == anchors(v, a),
    decreases b,
{
    if a < b {
        lemma_anchors_stop(v, a, (b - 1) as nat);
    }
}

/// The store that trusts the authorities with these certificates.
pub fn root_store(certs: &Vec<Vec<u8>>) -> (r: Result<rustls::RootCertStore, TlsBuildError>)
    ensures
        match anchors(der_views(certs@), certs@.len()) {
            Ok(s) => r matches Ok(store) && trusted(store) == s,
            Err(t) => r matches Err(TlsBuildError::Other(e)) && e@ == t,
        },
{
    let mut store = no_roots();
    let ghost all = der_views(certs@);
    let mut i: usize = 0;
    assert(trusted(store) =~= Seq::empty());
    while i < certs.len()
        invariant
            0 <= i <= certs@.len(),
            all == der_views(certs@),
            anchors(all, i as nat) == Ok::<Seq<Anchor>, Seq<char>>(trusted(store)),
        decreases certs@.len() - i,
    {
        match add_root(&mut store, certs[i].as_slice()) {
            Ok(()) => {},
            Err(e) => {
                proof {
                    lemma_anchors_stop(all, (i + 1) as nat, certs@.len());
                }
                return Err(TlsBuildError::Other(e));
            },
        }
        i += 1;
    }
    Ok(store)
}

/// What a server's configuration is made of: the chain and the key that it shows, and, where
/// clients must show a certificate, the authorities that it trusts.
#[derive(Debug)]
pub struct ServerParts {
    pub chain: Vec<Vec<u8>>,
    pub key: KeyDer,
    pub roots: Option<rustls::RootCertStore>,
}

/// What a client's configuration is made of: the authorities that it trusts, and, where clients
/// must show a certificate, the chain and the key that it shows.
#[derive(Debug)]
pub struct ClientParts {
    pub roots: rustls::RootCertStore,
    pub identity: Option<(Vec<Vec<u8>>, KeyDer)>,
}

/// A server's configuration, and what it was made of.
#[derive(Debug)]
pub struct ServerSide {
    parts: ServerParts,
    config: Arc<rustls::ServerConfig>,
}

impl ServerSide {
    /// What the configuration was made of.
    pub closed spec fn made_of(self) -> ServerParts {
        self.parts
    }

    /// What the configuration was made of.
    pub fn parts(&self) -> (r: &ServerParts)
        ensures
            *r == self.made_of(),
    {
        &self.parts
    }

    /// The configuration.
    pub closed spec fn spec_config(self) -> Arc<rustls::ServerConfig> {
        self.config
    }

    /// The configuration.
    pub fn config(&self) -> (r: &Arc<rustls::ServerConfig>)
        ensures
            *r == self.spec_config(),
    {
        &self.config
    }
}

/// A client's configuration, and what it was made of.
#[derive(Debug)]
pub struct ClientSide {
    parts: ClientParts,
    config: Arc<rustls::ClientConfig>,
}

impl ClientSide {
    /// What the configuration was made of.
    pub closed spec fn made_of(self) -> ClientParts {
        self.parts
    }

    /// What the configuration was made of.
    pub fn parts(&self) -> (r: &ClientParts)
        ensures
            *r == self.made_of(),
    {
        &self.parts
    }

    /// The configuration.
    pub closed spec fn spec_config(self) -> Arc<rustls::ClientConfig> {
        self.config
    }

    /// The configuration.
    pub fn config(&self) -> (r: &Arc<rustls::ClientConfig>)
        ensures
            *r == self.spec_config(),
    {
        &self.config
    }
}

/// `rustls`' `ServerConfig::builder`, `with_no_client_auth` and `with_single_cert`. Which pairs
/// of chain and key are refused depends on the cryptographic provider of the process, so that
/// nothing is claimed but what the configuration was made of.
#[verifier::external_body]
fn serve_anyone(chain: Vec<Vec<u8>>, key: KeyDer) -> (r: Result<ServerSide, String>)
    ensures
        r matches Ok(s) ==> s.parts == (ServerParts { chain, key, roots: None }),
{
    let c = chain.iter().map(|d| CertificateDer::from(d.clone())).collect();
    let d = key.der.clone();
    let k = match key.format {
        KeyFormat::Pkcs1 => PrivateKeyDer::Pkcs1(d.into()),
        KeyFormat::Sec1 => PrivateKeyDer::Sec1(d.into()),
        KeyFormat::Pkcs8 => PrivateKeyDer::Pkcs8(d.into()),
    };
    let builder = rustls::ServerConfig::builder().with_no_client_auth();
    let config = builder.with_single_cert(c, k).map(Arc::new).map_err(|e| e.to_string())?;
    Ok(ServerSide { parts: ServerParts { chain, key, roots: None }, config })
}

/// `rustls`' `ServerConfig::builder`, `with_client_cert_verifier` with a `WebPkiClientVerifier`
/// over the trusted authorities, and `with_single_cert`. Which of these are refused depends on the
/// cryptographic provider of the process, so that nothing is claimed but what the configuration
/// was made of.
#[verifier::external_body]
fn serve_known(chain: Vec<Vec<u8>>, key: KeyDer, roots: rustls::RootCertStore) -> (r: Result<
    ServerSide,
    String,
>)
    ensures
        r matches Ok(s) ==> s.parts == (ServerParts { chain, key, roots: Some(roots) }),
{
    let c = chain.iter().map(|d| CertificateDer::from(d.clone())).collect();
    let d = key.der.clone();
    let k = match key.format {
        KeyFormat::Pkcs1 => PrivateKeyDer::Pkcs1(d.into()),
        KeyFormat::Sec1 => PrivateKeyDer::Sec1(d.into()),
        KeyFormat::Pkcs8 => PrivateKeyDer::Pkcs8(d.into()),
    };
    let v = WebPkiClientVerifier::builder(Arc::new(roots.clone())).build().map_err(|e| e.to_string())?;
    let config = ServerConfig::builder().with_client_cert_verifier(v).with_single_cert(c, k);
    let config = Arc::new(config.map_err(|e| e.to_string())?);
    Ok(ServerSide { parts: ServerParts { chain, key, roots: Some(roots) }, config })
}

/// `rustls`' `ClientConfig::builder`, `with_root_certificates` and `with_no_client_auth`, which
/// never fail.
#[verifier::external_body]
fn connect_unnamed(roots: rustls::RootCertStore) -> (r: ClientSide)
    ensures
        r.parts == (ClientParts { roots, identity: None }),
{
    let builder = rustls::ClientConfig::builder().with_root_certificates(roots.clone());
    let config = Arc::new(builder.with_no_client_auth());
    ClientSide { parts: ClientParts { roots, identity: None }, config }
}

/// `rustls`' `ClientConfig::builder`, `with_root_certificates` and `with_client_auth_cert`. Which
/// pairs of chain and key are refused depends on the cryptographic provider of the process, so
/// that nothing is claimed but what the configuration was made of.
#[verifier::external_body]
fn connect_named(roots: rustls::RootCertStore, chain: Vec<Vec<u8>>, key: KeyDer) -> (r: Result<
    ClientSide,
    String,
>)
    ensures
        r matches Ok(s) ==> s.parts == (ClientParts { roots, identity: Some((chain, key)) }),
{
    let c = chain.iter().map(|d| CertificateDer::from(d.clone())).collect();
    let d = key.der.clone();
    let k = match key.format {
        KeyFormat::Pkcs1 => PrivateKeyDer::Pkcs1(d.into()),
        KeyFormat::Sec1 => PrivateKeyDer::Sec1(d.into()),
        KeyFormat::Pkcs8 => PrivateKeyDer::Pkcs8(d.into()),
    };
    let builder = rustls::ClientConfig::builder().with_root_certificates(roots.clone());
    let config = builder.with_client_auth_cert(c, k).map(Arc::new).map_err(|e| e.to_string())?;
    Ok(ClientSide { parts: ClientParts { roots, identity: Some((chain, key)) }, config })
}

/// What the TLS library made, or what it said.
pub fn told<T>(made: Result<T, String>) -> (r: Result<T, TlsBuildError>)
    ensures
        match made {
            Ok(c) => r == Ok::<T, TlsBuildError>(c),
            Err(e) => r == Err::<T, TlsBuildError>(TlsBuildError::Other(e)),
        },
{
    match made {
        Ok(c) => Ok(c),
        Err(e) => Err(TlsBuildError::Other(e)),
    }
}

/// The bytes of a PEM text.
pub open spec fn pem_bytes(pem: String) -> Seq<u8> {
    vstd::utf8::encode_utf8(pem@)
}

impl TlsMaterial {
    /// The material in PEM texts; without the authority's key it serves to verify only.
    pub fn load(cert_pem: String, key_pem: String, ca_cert_pem: String, ca_key_pem: Option<String>) -> (r:
        TlsMaterial)
        ensures
            r.leaf.cert_pem == cert_pem,
            r.leaf.key_pem == key_pem,
            r.ca.ca_cert_pem == ca_cert_pem,
            match ca_key_pem {
                Some(k) => r.ca.ca_key_pem == k,
                None => r.ca.ca_key_pem@ == Seq::<char>::empty(),
            },
    {
        let ca_key_pem = match ca_key_pem {
            Some(k) => k,
            None => String::new(),
        };
        TlsMaterial {
            ca: CaPair { ca_cert_pem, ca_key_pem },
            leaf: NodeIdentityCert { cert_pem, key_pem },
        }
    }

    /// The files to be written for the material: names and contents.
    pub fn write_to_dir(&self, leaf_name: &str) -> (r: Vec<(String, String)>)
        ensures
            r@.len() == 4,
            r@[0].0@ == "ca.crt"@ && r@[0].1@ == self.ca.ca_cert_pem@,
            r@[1].0@ == "ca.key"@ && r@[1].1@ == self.ca.ca_key_pem@,
            r@[2].0@ == leaf_name@ + ".crt"@ && r@[2].1@ == self.leaf.cert_pem@,
            r@[3].0@ == leaf_name@ + ".key"@ && r@[3].1@ == self.leaf.key_pem@,
    {
        let mut out: Vec<(String, String)> = Vec::new();
        out.push((String::from_str("ca.crt"), self.ca.ca_cert_pem.clone()));
        out.push((String::from_str("ca.key"), self.ca.ca_key_pem.clone()));
        out.push((String::from_str(leaf_name).concat(".crt"), self.leaf.cert_pem.clone()));
        out.push((String::from_str(leaf_name).concat(".key"), self.leaf.key_pem.clone()));
        out
    }

    /// The parts of a server's configuration: its leaf, and, where clients must show a
    /// certificate, the authority that has to have signed it. The first part that cannot
    /// be read is the error.
    pub fn server_parts(&self, mtls: bool) -> (r: Result<ServerParts, TlsBuildError>)
        ensures
            match server_input(*self, mtls) {
                Err(e) => r matches Err(x) && x.text() == e,
                Ok(i) => r matches Ok(p) && server_parts_are(p, i),
            },
    {
        let chain = match parse_certs(self.leaf.cert_pem.as_str()) {
            Ok(c) => c,
            Err(e) => {
                return Err(e);
            },
        };
        let key = match parse_private_key(self.leaf.key_pem.as_str()) {
            Ok(k) => k,
            Err(e) => {
                return Err(e);
            },
        };
        if !mtls {
            return Ok(ServerParts { chain, key, roots: None });
        }
        match self.authorities() {
            Ok(s) => Ok(ServerParts { chain, key, roots: Some(s) }),
            Err(e) => Err(e),
        }
    }

    /// The authorities that are trusted.
    fn authorities(&self) -> (r: Result<rustls::RootCertStore, TlsBuildError>)
        ensures
            match authorities_in(*self) {
                Err(e) => r matches Err(x) && x.text() == e,
                Ok(a) => r matches Ok(s) && trusted(s) == a,
            },
    {
        match parse_certs(self.ca.ca_cert_pem.as_str()) {
            Ok(c) => root_store(&c),
            Err(e) => Err(e),
        }
    }

    /// The configuration of a server. Where its parts can be read, only the TLS library can
    /// still refuse it.
    pub fn server_config(&self, mtls: bool) -> (r: Result<ServerSide, TlsBuildError>)
        ensures
            match server_input(*self, mtls) {
                Err(e) => r matches Err(x) && x.text() == e,
                Ok(i) => match r {
                    Ok(s) => server_parts_are(s.made_of(), i),
                    Err(x) => x is Other,
                },
            },
    {
        match self.server_parts(mtls) {
            Ok(ServerParts { chain, key, roots: None }) => told(serve_anyone(chain, key)),
            Ok(ServerParts { chain, key, roots: Some(roots) }) => told(
                serve_known(chain, key, roots),
            ),
            Err(e) => Err(e),
        }
    }

    /// The parts of a client's configuration: the authority that it trusts, and, where
    /// clients must show a certificate, its leaf. The first part that cannot be read is
    /// the error.
    pub fn client_parts(&self, mtls: bool) -> (r: Result<ClientParts, TlsBuildError>)
        ensures
            match client_input(*self, mtls) {
                Err(e) => r matches Err(x) && x.text() == e,
                Ok(i) => r matches Ok(p) && client_parts_are(p, i),
            },
    {
        let roots = match self.authorities() {
            Ok(c) => c,
            Err(e) => {
                return Err(e);
            },
        };
        if !mtls {
            return Ok(ClientParts { identity: None, roots });
        }
        let certs = match parse_certs(self.leaf.cert_pem.as_str()) {
            Ok(c) => c,
            Err(e) => {
                return Err(e);
            },
        };
        let key = match parse_private_key(self.leaf.key_pem.as_str()) {
            Ok(k) => k,
            Err(e) => {
                return Err(e);
            },
        };
        Ok(ClientParts { identity: Some((certs, key)), roots })
    }

    /// The configuration of a client. Where its parts can be read, only the TLS library can
    /// still refuse it, and only where there is a certificate to be shown.
    pub fn client_config(&self, mtls: bool) -> (r: Result<ClientSide, TlsBuildError>)
        ensures
            match client_input(*self, mtls) {
                Err(e) => r matches Err(x) && x.text() == e,
                Ok(i) => match r {
                    Ok(s) => client_parts_are(s.made_of(), i),
                    Err(x) => mtls && x is Other,
                },
            },
    {
        match self.client_parts(mtls) {
            Ok(ClientParts { roots, identity: None }) => Ok(connect_unnamed(roots)),
            Ok(ClientParts { roots, identity: Some((chain, key)) }) => told(
                connect_named(roots, chain, key),
            ),
            Err(e) => Err(e),
        }
    }
}

/// A private key, with the way in which it is encoded.
pub type FormattedKey = (KeyFormat, Seq<u8>);

/// The trust anchors of the authority, or what is wrong with its certificates.
pub open spec fn authorities_in(m: TlsMaterial) -> Result<Seq<Anchor>, Seq<char>> {
    match pem_certificates(pem_bytes(m.ca.ca_cert_pem)) {
        Err(e) => Err("pem parse: "@ + e),
        Ok(v) => match anchors(v, v.len()) {
            Ok(a) => Ok(a),
            Err(e) => Err("tls config: "@ + e),
        },
    }
}

/// What a server's configuration is made from: the chain and the key that it shows, and, where
/// clients must show a certificate, the authorities that it trusts.
pub type ServerInput = (Seq<Seq<u8>>, FormattedKey, Option<Seq<Anchor>>);

/// What a client's configuration is made from: the authorities that it trusts, and, where clients
/// must show a certificate, the chain and the key that it shows.
pub type ClientInput = (Seq<Anchor>, Option<(Seq<Seq<u8>>, FormattedKey)>);

/// Whether these are the parts of a server's configuration.
pub open spec fn server_parts_are(p: ServerParts, i: ServerInput) -> bool {
    &&& der_views(p.chain@) == i.0
    &&& p.key.format == i.1.0 && p.key.der@ == i.1.1
    &&& match i.2 {
        Some(a) => p.roots matches Some(s) && trusted(s) == a,
        None => p.roots is None,
    }
}

/// Whether these are the parts of a client's configuration.
pub open spec fn client_parts_are(p: ClientParts, i: ClientInput) -> bool {
    &&& trusted(p.roots) == i.0
    &&& match i.1 {
        Some((c, (f, d))) => p.identity matches Some((x, k)) && der_views(x@) == c && k.format == f
            && k.der@ == d,
        None => p.identity is None,
    }
}

/// What a server's configuration is made from, or the first thing that is wrong with it.
pub open spec fn server_input(m: TlsMaterial, mtls: bool) -> Result<ServerInput, Seq<char>> {
    match (pem_certificates(pem_bytes(m.leaf.cert_pem)), pem_private_key(pem_bytes(m.leaf.key_pem))) {
        (Err(e), _) => Err("pem parse: "@ + e),
        (Ok(_), Err(e)) => Err("pem parse: "@ + e),
        (Ok(c), Ok(k)) => if mtls {
            match authorities_in(m) {
                Ok(a) => Ok((c, k, Some(a))),
                Err(e) => Err(e),
            }
        } else {
            Ok((c, k, None))
        },
    }
}

/// What a client's configuration is made from, or the first thing that is wrong with it.
pub open spec fn client_input(m: TlsMaterial, mtls: bool) -> Result<ClientInput, Seq<char>> {
    match (
        authorities_in(m),
        pem_certificates(pem_bytes(m.leaf.cert_pem)),
        pem_private_key(pem_bytes(m.leaf.key_pem)),
    ) {
        (Err(e), _, _) => Err(e),
        (Ok(a), c, k) => if !mtls {
            Ok((a, None))
        } else {
            match (c, k) {
                (Err(e), _) => Err("pem parse: "@ + e),
                (Ok(_), Err(e)) => Err("pem parse: "@ + e),
                (Ok(c), Ok(k)) => Ok((a, Some((c, k)))),
            }
        },
    }
}

} // verus!
