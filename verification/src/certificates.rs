//! An authority of one's own, and the certificates that it issues.
use vstd::prelude::*;
use vstd::string::StringExecFns;
use vstd::utf8::{encode_utf8, is_ascii_chars};

use rcgen::{BasicConstraints, ExtendedKeyUsagePurpose, IsCa, KeyUsagePurpose};

use crate::tls::{
    anchors, authorities_in, client_input, pem_certificates, pem_private_key, server_input,
    trust_anchor, CaPair, KeyFormat, NodeIdentityCert, TlsBuildError, TlsMaterial,
};

verus! {

/// `rcgen`'s description of a certificate to be made.
#[verifier::external_type_specification]
#[verifier::external_body]
pub struct ExCertificateParams(rcgen::CertificateParams);

/// `rcgen`'s certificate.
#[verifier::external_type_specification]
#[verifier::external_body]
pub struct ExCertificate(rcgen::Certificate);

/// `rcgen`'s pair of keys.
#[verifier::external_type_specification]
#[verifier::external_body]
pub struct ExKeyPair(rcgen::KeyPair);

/// What a key may be used for.
#[derive(Debug, Clone, Copy, PartialEq, Eq, Structural)]
pub enum KeyUsage {
    DigitalSignature,
    KeyCertSign,
    CrlSign,
}

/// At which end of a connection a certificate may be shown.
#[derive(Debug, Clone, Copy, PartialEq, Eq, Structural)]
pub enum ShownBy {
    Server,
    Client,
}

/// A certificate to be made.
#[derive(Debug)]
pub struct CertPlan {
    pub common_name: String,
    /// The names and addresses of those who may show it.
    pub hosts: Vec<String>,
    /// Whether further certificates may be issued under it.
    pub authority: bool,
    /// Whether it tells by which key it was signed.
    pub names_issuer_key: bool,
    pub usages: Vec<KeyUsage>,
    pub shown_by: Vec<ShownBy>,
}

/// Some texts.
pub open spec fn all_texts(v: Seq<String>) -> Seq<Seq<char>> {
    v.map_values(|s: String| s@)
}

/// The first name that cannot stand in a certificate, which takes ASCII only.
pub open spec fn foreign_name(v: Seq<Seq<char>>) -> Option<Seq<char>>
    decreases v.len(),
{
    if v.len() == 0 {
        None
    } else if !is_ascii_chars(v[0]) {
        Some(v[0])
    } else {
        foreign_name(v.drop_first())
    }
}

/// What is said of a name that cannot stand in a certificate.
pub open spec fn foreign_text(name: Seq<char>) -> Seq<char> {
    "Invalid IA5String: '"@ + name + "'"@
}

/// A certificate that can be signed: the plan, and what `rcgen` made of it.
pub struct CertDraft {
    plan: CertPlan,
    params: rcgen::CertificateParams,
}

/// A certificate with its keys: the plan that it was made from, what `rcgen` made of it, and
/// the same in DER, with the certificate of whoever signed it.
pub struct Issued {
    plan: CertPlan,
    cert: rcgen::Certificate,
    keys: rcgen::KeyPair,
    der: Vec<u8>,
    key_der: Vec<u8>,
    issuer_der: Vec<u8>,
}

impl Issued {
    /// What the certificate was made from.
    pub closed spec fn plan(self) -> CertPlan {
        self.plan
    }

    /// The certificate.
    pub closed spec fn certificate(self) -> Seq<u8> {
        self.der@
    }

    /// The private key.
    pub closed spec fn key(self) -> Seq<u8> {
        self.key_der@
    }

    /// The certificate of whoever signed it.
    pub closed spec fn issuer(self) -> Seq<u8> {
        self.issuer_der@
    }

    /// The certificate in DER.
    pub fn der(&self) -> (r: &[u8])
        ensures
            r@ == self.certificate(),
    {
        self.der.as_slice()
    }

    /// The certificate, in DER, of whoever signed it.
    pub fn issuer_der(&self) -> (r: &[u8])
        ensures
            r@ == self.issuer(),
    {
        self.issuer_der.as_slice()
    }
}

/// `rcgen`'s `CertificateParams::new`, with the fields that a plan gives. Claims that it fails on
/// the first name that is not ASCII, with this text, and never otherwise; the plan is kept beside
/// the parameters that were made from it.
#[verifier::external_body]
fn params_of(p: CertPlan) -> (r: Result<CertDraft, String>)
    ensures
        match foreign_name(all_texts(p.hosts@)) {
            Some(n) => r matches Err(e) && e@ == foreign_text(n),
            None => r matches Ok(d) && d.plan == p,
        },
{
    let mut c = rcgen::CertificateParams::new(p.hosts.clone()).map_err(|e| e.to_string())?;
    c.distinguished_name.push(rcgen::DnType::CommonName, p.common_name.clone());
    c.is_ca = if p.authority { IsCa::Ca(BasicConstraints::Unconstrained) } else { IsCa::NoCa };
    c.use_authority_key_identifier_extension = p.names_issuer_key;
    c.key_usages = p.usages.iter().map(|u| match u {
        KeyUsage::DigitalSignature => KeyUsagePurpose::DigitalSignature,
        KeyUsage::KeyCertSign => KeyUsagePurpose::KeyCertSign,
        KeyUsage::CrlSign => KeyUsagePurpose::CrlSign,
    }).collect();
    c.extended_key_usages = p.shown_by.iter().map(|u| match u {
        ShownBy::Server => ExtendedKeyUsagePurpose::ServerAuth,
        ShownBy::Client => ExtendedKeyUsagePurpose::ClientAuth,
    }).collect();
    Ok(CertDraft { plan: p, params: c })
}

/// `rcgen`'s `KeyPair::generate`: a pair of keys made from random numbers, of which nothing is
/// claimed.
#[verifier::external_body]
fn fresh_keys() -> (r: Result<rcgen::KeyPair, String>) {
    rcgen::KeyPair::generate().map_err(|e| e.to_string())
}

/// `rcgen`'s `CertificateParams::self_signed`. Signatures are made with random numbers, so that
/// neither success is claimed nor anything of the certificate, but that it is the one that was
/// planned, and its own issuer.
#[verifier::external_body]
fn sign_self(c: CertDraft, keys: rcgen::KeyPair) -> (r: Result<Issued, String>)
    ensures
        r matches Ok(i) ==> i.plan == c.plan && i.issuer_der@ == i.der@,
{
    let cert = c.params.self_signed(&keys).map_err(|e| e.to_string())?;
    let (der, key_der) = (cert.der().to_vec(), keys.serialize_der());
    Ok(Issued { plan: c.plan, cert, keys, issuer_der: der.clone(), der, key_der })
}

/// `rcgen`'s `CertificateParams::signed_by`. Signatures are made with random numbers, so that
/// neither success is claimed nor anything of the certificate, but that it is the one that was
/// planned, and by whom it was issued.
#[verifier::external_body]
fn sign_with(c: CertDraft, keys: rcgen::KeyPair, issuer: &CaSigner) -> (r: Result<Issued, String>)
    ensures
        r matches Ok(i) ==> i.plan == c.plan && i.issuer_der@ == issuer.issued.der@,
{
    let by = &issuer.issued;
    let cert = c.params.signed_by(&keys, &by.cert, &by.keys).map_err(|e| e.to_string())?;
    let (der, key_der) = (cert.der().to_vec(), keys.serialize_der());
    Ok(Issued { plan: c.plan, cert, keys, der, key_der, issuer_der: by.der.clone() })
}

/// Whether this certificate is read in a text, and no other.
pub open spec fn reads_as_certificate(text: Seq<char>, der: Seq<u8>) -> bool {
    pem_certificates(encode_utf8(text)) == Ok::<Seq<Seq<u8>>, Seq<char>>(seq![der])
}

/// Whether this private key is read in a text.
pub open spec fn reads_as_key(text: Seq<char>, der: Seq<u8>) -> bool {
    pem_private_key(encode_utf8(text)) == Ok::<(KeyFormat, Seq<u8>), Seq<char>>(
        (KeyFormat::Pkcs8, der),
    )
}

/// The longest certificate that the reader of PEM takes: in base64 it fills 256 MiB.
pub const MAX_PEM_DER: usize = 201_326_592;

/// Whether this certificate is read in a text, and no other; or, where it is too long for the
/// reader, nothing.
pub open spec fn spells_certificate(text: Seq<char>, der: Seq<u8>) -> bool {
    if der.len() <= MAX_PEM_DER {
        reads_as_certificate(text, der)
    } else {
        pem_certificates(encode_utf8(text)) is Err
    }
}

/// `rcgen`'s `Certificate::pem`: a text in which `rustls-pki-types`' reader finds that certificate,
/// and no other. The reader refuses a section over its limit.
#[verifier::external_body]
fn certificate_text(c: &Issued) -> (r: String)
    ensures
        spells_certificate(r@, c.der@),
{
    c.cert.pem()
}

/// `rcgen`'s `KeyPair::serialize_pem`: a text in which that private key is read.
#[verifier::external_body]
fn key_text(c: &Issued) -> (r: String)
    ensures
        reads_as_key(r@, c.key_der@),
{
    c.keys.serialize_pem()
}

/// An authority that can still issue certificates.
pub struct CaSigner {
    issued: Issued,
}

impl CaSigner {
    /// The authority's own certificate.
    pub closed spec fn issued(self) -> Issued {
        self.issued
    }
}

/// Whether a plan is that of an authority.
pub open spec fn is_authority_plan(p: CertPlan) -> bool {
    &&& p.common_name@ == "holofs embedded CA"@
    &&& p.hosts@.len() == 0
    &&& p.authority
    &&& !p.names_issuer_key
    &&& p.usages@ == seq![KeyUsage::KeyCertSign, KeyUsage::CrlSign]
    &&& p.shown_by@.len() == 0
}

/// Whether a certificate is that of an authority, signed by itself.
pub open spec fn is_authority(i: Issued) -> bool {
    is_authority_plan(i.plan()) && i.issuer() == i.certificate()
}

/// Whether a certificate is that of a node or a gateway with this name and these hosts, signed
/// by the authority.
pub open spec fn is_leaf_of(i: Issued, authority: Issued, subject_name: Seq<char>, hosts: Seq<Seq<char>>) -> bool {
    is_leaf_plan(i.plan(), subject_name, hosts) && i.issuer() == authority.certificate()
}

/// Whether a plan is that of a node or a gateway with this name and these hosts.
pub open spec fn is_leaf_plan(p: CertPlan, subject_name: Seq<char>, hosts: Seq<Seq<char>>) -> bool {
    &&& p.common_name@ == subject_name
    &&& all_texts(p.hosts@) == hosts
    &&& !p.authority
    &&& p.names_issuer_key
    &&& p.usages@ == seq![KeyUsage::DigitalSignature]
    &&& p.shown_by@ == seq![ShownBy::Server, ShownBy::Client]
}

/// The certificate of the authority.
pub fn authority_plan() -> (r: CertPlan)
    ensures
        is_authority_plan(r),
{
    let mut usages: Vec<KeyUsage> = Vec::new();
    usages.push(KeyUsage::KeyCertSign);
    usages.push(KeyUsage::CrlSign);
    assert(usages@ =~= seq![KeyUsage::KeyCertSign, KeyUsage::CrlSign]);
    CertPlan {
        common_name: String::from_str("holofs embedded CA"),
        hosts: Vec::new(),
        authority: true,
        names_issuer_key: false,
        usages,
        shown_by: Vec::new(),
    }
}

/// The certificate of a node or a gateway: it may be shown at either end of a connection.
pub fn leaf_plan(subject_name: &str, sans: &Vec<String>) -> (r: CertPlan)
    ensures
        is_leaf_plan(r, subject_name@, all_texts(sans@)),
{
    let mut hosts: Vec<String> = Vec::new();
    let mut i: usize = 0;
    while i < sans.len()
        invariant
            0 <= i <= sans@.len(),
            hosts@.len() == i,
            forall|j: int| 0 <= j < i ==> (#[trigger] hosts@[j])@ == sans@[j]@,
        decreases sans@.len() - i,
    {
        hosts.push(String::from_str(sans[i].as_str()));
        i += 1;
    }
    assert(all_texts(hosts@) =~= all_texts(sans@));
    let mut usages: Vec<KeyUsage> = Vec::new();
    usages.push(KeyUsage::DigitalSignature);
    assert(usages@ =~= seq![KeyUsage::DigitalSignature]);
    let mut shown_by: Vec<ShownBy> = Vec::new();
    shown_by.push(ShownBy::Server);
    shown_by.push(ShownBy::Client);
    assert(shown_by@ =~= seq![ShownBy::Server, ShownBy::Client]);
    CertPlan {
        common_name: String::from_str(subject_name),
        hosts,
        authority: false,
        names_issuer_key: true,
        usages,
        shown_by,
    }
}

/// Whether these texts are the certificate and the key that were issued.
pub open spec fn spells(cert_pem: String, key_pem: String, i: Issued) -> bool {
    &&& spells_certificate(cert_pem@, i.certificate())
    &&& reads_as_key(key_pem@, i.key())
}

/// Whether a leaf is the one that was issued.
pub open spec fn leaf_is(l: NodeIdentityCert, i: Issued) -> bool {
    spells(l.cert_pem, l.key_pem, i)
}

/// Whether an authority is the one that was issued.
pub open spec fn authority_is(p: CaPair, i: Issued) -> bool {
    spells(p.ca_cert_pem, p.ca_key_pem, i)
}

/// The leaf that was issued, in PEM, or why there is none.
pub fn leaf_of(made: Result<Issued, String>) -> (r: Result<(NodeIdentityCert, Issued), TlsBuildError>)
    ensures
        match made {
            Ok(i) => r matches Ok((l, j)) && leaf_is(l, i) && j == i,
            Err(e) => r == Err::<(NodeIdentityCert, Issued), TlsBuildError>(TlsBuildError::Other(e)),
        },
{
    match made {
        Ok(i) => Ok(
            (NodeIdentityCert { cert_pem: certificate_text(&i), key_pem: key_text(&i) }, i),
        ),
        Err(e) => Err(TlsBuildError::Other(e)),
    }
}

/// The authority that was made, in PEM and ready to issue certificates, or why there is none.
pub fn authority_of(made: Result<Issued, String>) -> (r: Result<(CaPair, CaSigner), TlsBuildError>)
    ensures
        match made {
            Ok(i) => r matches Ok((p, s)) && authority_is(p, i) && s.issued() == i,
            Err(e) => r == Err::<(CaPair, CaSigner), TlsBuildError>(TlsBuildError::Other(e)),
        },
{
    match made {
        Ok(i) => Ok(
            (
                CaPair { ca_cert_pem: certificate_text(&i), ca_key_pem: key_text(&i) },
                CaSigner { issued: i },
            ),
        ),
        Err(e) => Err(TlsBuildError::Other(e)),
    }
}

/// The certificate of a new authority, signed by itself. Only the making of keys and of the
/// signature can fail.
fn signed_authority() -> (r: Result<Issued, String>)
    ensures
        r matches Ok(i) ==> is_authority(i),
{
    let draft = match params_of(authority_plan()) {
        Ok(d) => d,
        Err(e) => {
            return Err(e);
        },
    };
    match fresh_keys() {
        Ok(keys) => sign_self(draft, keys),
        Err(e) => Err(e),
    }
}

impl CaSigner {
    /// A certificate with keys of its own, signed by the authority. A host that is not ASCII is
    /// refused; else only the making of keys and of the signature can fail.
    fn signed_leaf(&self, subject_name: &str, sans: &Vec<String>) -> (r: Result<Issued, String>)
        ensures
            foreign_name(all_texts(sans@)) matches Some(n) ==> r matches Err(e) && e@
                == foreign_text(n),
            r matches Ok(i) ==> is_leaf_of(i, self.issued(), subject_name@, all_texts(sans@)),
    {
        let draft = match params_of(leaf_plan(subject_name, sans)) {
            Ok(d) => d,
            Err(e) => {
                return Err(e);
            },
        };
        match fresh_keys() {
            Ok(keys) => sign_with(draft, keys, self),
            Err(e) => Err(e),
        }
    }

    /// A certificate with keys of its own, issued by the authority. A host that is not ASCII is
    /// refused; else only the making of keys and signatures, which rests on random numbers, can
    /// fail.
    pub fn issue_leaf(&self, subject_name: &str, sans: &Vec<String>) -> (r: Result<
        (NodeIdentityCert, Issued),
        TlsBuildError,
    >)
        ensures
            foreign_name(all_texts(sans@)) matches Some(n) ==> r matches Err(TlsBuildError::Other(e))
                && e@ == foreign_text(n),
            match r {
                Ok((l, i)) => leaf_is(l, i) && is_leaf_of(
                    i,
                    self.issued(),
                    subject_name@,
                    all_texts(sans@),
                ),
                Err(e) => e is Other,
            },
    {
        leaf_of(self.signed_leaf(subject_name, sans))
    }
}

/// A new authority. Only the making of keys and of the signature, which rests on random numbers,
/// can fail.
pub fn generate_ca() -> (r: Result<(CaPair, CaSigner), TlsBuildError>)
    ensures
        match r {
            Ok((p, s)) => authority_is(p, s.issued()) && is_authority(s.issued()),
            Err(e) => e is Other,
        },
{
    authority_of(signed_authority())
}

/// The material of an authority with its first leaf, or why there is no leaf.
pub fn material_of(
    ca: CaPair,
    signer: CaSigner,
    leaf: Result<(NodeIdentityCert, Issued), TlsBuildError>,
) -> (r: Result<(TlsMaterial, CaSigner, Issued), TlsBuildError>)
    ensures
        match leaf {
            Ok((l, i)) => r matches Ok((m, s, j)) && m.ca == ca && m.leaf == l && s == signer && j
                == i,
            Err(e) => r == Err::<(TlsMaterial, CaSigner, Issued), TlsBuildError>(e),
        },
{
    match leaf {
        Ok((leaf, i)) => Ok((TlsMaterial { ca, leaf }, signer, i)),
        Err(e) => Err(e),
    }
}

impl TlsMaterial {
    /// The material of an authority of one's own, with one leaf, and what is needed to issue
    /// further ones. A host that is not ASCII is refused; else only the making of keys and
    /// signatures, which rests on random numbers, can fail.
    pub fn self_signed(subject_name: &str, sans: &Vec<String>) -> (r: Result<
        (TlsMaterial, CaSigner, Issued),
        TlsBuildError,
    >)
        ensures
            foreign_name(all_texts(sans@)) is Some ==> r is Err,
            match r {
                Ok((m, s, i)) => {
                    &&& authority_is(m.ca, s.issued())
                    &&& is_authority(s.issued())
                    &&& leaf_is(m.leaf, i)
                    &&& is_leaf_of(i, s.issued(), subject_name@, all_texts(sans@))
                },
                Err(e) => e is Other,
            },
    {
        match generate_ca() {
            Ok((ca, signer)) => {
                let leaf = signer.issue_leaf(subject_name, sans);
                material_of(ca, signer, leaf)
            },
            Err(e) => Err(e),
        }
    }
}

/// From material that was just made, a server that asks clients for no certificate can always be
/// set up, as far as the reading of its parts goes; and any end, once the certificate of the
/// authority holds a trust anchor. A server then shows the leaf, and nothing else.
pub proof fn fresh_material_has_parts(m: TlsMaterial, mtls: bool, authority: Issued, leaf: Issued)
    requires
        authority_is(m.ca, authority),
        leaf_is(m.leaf, leaf),
        authority.certificate().len() <= MAX_PEM_DER,
        leaf.certificate().len() <= MAX_PEM_DER,
    ensures
        server_input(m, false) matches Ok(p) && p.0 == seq![leaf.certificate()],
        trust_anchor(authority.certificate()) is Ok ==> server_input(m, mtls) is Ok && client_input(
            m,
            mtls,
        ) is Ok,
{
    let v = seq![authority.certificate()];
    assert(anchors(v, 0) is Ok);
    assert(v[0] == authority.certificate());
    if trust_anchor(authority.certificate()) is Ok {
        assert(anchors(v, 1) is Ok);
        assert(authorities_in(m) is Ok);
    }
}

} // verus!
