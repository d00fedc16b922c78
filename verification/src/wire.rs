//! Both ends of the connections between gateway and nodes.
use vstd::prelude::*;
use vstd::string::StringExecFns;

use crate::bootstrap::{hosts, LeafPlan, TlsPlan};
use crate::certificates::{
    all_texts, authority_is, foreign_name, is_authority, is_leaf_of, leaf_is, CaSigner, Issued,
};
use crate::tls::{
    anchors, client_input, client_parts_are, der_views, server_input, server_parts_are, trusted,
    CaPair, ClientParts, ClientSide, KeyFormat, NodeIdentityCert, ServerParts, ServerSide,
    TlsBuildError, TlsMaterial,
};

verus! {

/// Both ends of the connections between gateway and nodes, where they are encrypted.
pub struct TlsEnds {
    /// For the nodes that the gateway starts itself. Nodes that run by themselves have their own.
    pub server: Option<ServerSide>,
    /// For the gateway.
    pub client: Option<ClientSide>,
    /// The authority that can issue certificates for further nodes, where it is the gateway's own,
    /// and the certificates that it has issued: for the nodes, and for the gateway where clients
    /// must show one.
    pub signer: Option<CaSigner>,
    pub node_leaf: Option<Issued>,
    pub gateway_leaf: Option<Issued>,
}

/// A certificate, its key and the certificate of the authority, in PEM.
pub type PemFiles = (String, String, String);

/// The material in some files. (The key of the authority is not looked at.)
pub open spec fn material_in(f: PemFiles) -> TlsMaterial {
    TlsMaterial {
        ca: CaPair { ca_cert_pem: f.2, ca_key_pem: f.1 },
        leaf: NodeIdentityCert { cert_pem: f.0, key_pem: f.1 },
    }
}

/// Whether the authority, and nobody else, is trusted.
pub open spec fn trusts_only(roots: rustls::RootCertStore, authority: Issued) -> bool {
    anchors(seq![authority.certificate()], 1) == Ok::<Seq<crate::tls::Anchor>, Seq<char>>(
        trusted(roots),
    )
}

/// Whether a certificate that was issued is shown, and nothing else.
pub open spec fn shows(chain: Seq<Vec<u8>>, key: crate::tls::KeyDer, leaf: Issued) -> bool {
    &&& der_views(chain) == seq![leaf.certificate()]
    &&& key.format == KeyFormat::Pkcs8
    &&& key.der@ == leaf.key()
}

/// Whether the nodes show the leaf, and ask clients for a certificate of the authority where they
/// must.
pub open spec fn node_end(p: ServerParts, leaf: Issued, authority: Issued, mtls: bool) -> bool {
    &&& shows(p.chain@, p.key, leaf)
    &&& if mtls {
        p.roots matches Some(r) && trusts_only(r, authority)
    } else {
        p.roots is None
    }
}

/// Whether the gateway trusts the authority, and shows its own leaf where it has one.
pub open spec fn gateway_end(p: ClientParts, leaf: Option<Issued>, authority: Issued) -> bool {
    &&& trusts_only(p.roots, authority)
    &&& match leaf {
        Some(i) => p.identity matches Some((c, k)) && shows(c@, k, i),
        None => p.identity is None,
    }
}

/// Whether the gateway trusts a new authority, which issued what the nodes show as planned, and,
/// where clients must show a certificate, one for the gateway; and whether the end of the nodes is
/// set up where the gateway starts them.
pub open spec fn fresh_ends(node: LeafPlan, gateway: Option<LeafPlan>, embedded: bool, e: TlsEnds) -> bool {
    let by = e.signer->0.issued();
    &&& e.signer is Some
    &&& is_authority(by)
    &&& e.node_leaf matches Some(i) && is_leaf_of(i, by, node.name@, hosts(node))
    &&& match gateway {
        Some(g) => e.gateway_leaf matches Some(j) && is_leaf_of(j, by, g.name@, hosts(g)),
        None => e.gateway_leaf is None,
    }
    &&& if embedded {
        e.server matches Some(s) && node_end(s.made_of(), e.node_leaf->0, by, gateway is Some)
    } else {
        e.server is None
    }
    &&& e.client matches Some(c) && gateway_end(c.made_of(), e.gateway_leaf, by)
}

/// What is told of the first end that could not be set up.
pub open spec fn ends_error(
    server: Option<Result<ServerSide, TlsBuildError>>,
    client: Result<ClientSide, TlsBuildError>,
) -> Option<Seq<char>> {
    match (server, client) {
        (Some(Err(e)), _) => Some("server config: "@ + e.text()),
        (_, Err(e)) => Some("client config: "@ + e.text()),
        _ => None,
    }
}

/// Both ends, or what is told of the first that could not be set up.
pub fn join_ends(
    server: Option<Result<ServerSide, TlsBuildError>>,
    client: Result<ClientSide, TlsBuildError>,
) -> (r: Result<(Option<ServerSide>, ClientSide), String>)
    ensures
        match ends_error(server, client) {
            Some(t) => r matches Err(e) && e@ == t,
            None => {
                &&& r matches Ok((s, c)) && client == Ok::<ClientSide, TlsBuildError>(c)
                &&& match server {
                    Some(Ok(x)) => r->Ok_0.0 == Some(x),
                    _ => r->Ok_0.0 is None,
                }
            },
        },
{
    let s = match server {
        Some(Ok(s)) => Some(s),
        Some(Err(e)) => {
            return Err(String::from_str("server config: ").concat(e.message().as_str()));
        },
        None => None,
    };
    match client {
        Ok(c) => Ok((s, c)),
        Err(e) => Err(String::from_str("client config: ").concat(e.message().as_str())),
    }
}

/// The hosts of a certificate.
fn host_list(l: &LeafPlan) -> (r: Vec<String>)
    ensures
        all_texts(r@) == hosts(*l),
{
    let mut out: Vec<String> = Vec::new();
    let mut i: usize = 0;
    while i < l.hosts.len()
        invariant
            0 <= i <= l.hosts@.len(),
            out@.len() == i,
            forall|j: int| 0 <= j < i ==> (#[trigger] out@[j])@ == l.hosts@[j]@,
        decreases l.hosts@.len() - i,
    {
        out.push(String::from_str(l.hosts[i]));
        i += 1;
    }
    assert(all_texts(out@) =~= hosts(*l));
    out
}

/// What went wrong with a certificate, as it was told.
pub fn plain_error(e: TlsBuildError) -> (r: String)
    ensures
        match e {
            TlsBuildError::Pem(t) => r == t,
            TlsBuildError::Other(t) => r == t,
        },
{
    match e {
        TlsBuildError::Pem(t) => t,
        TlsBuildError::Other(t) => t,
    }
}

/// What the gateway shows: a leaf of its own where one is planned, else that of the nodes.
fn gateway_material(m: &TlsMaterial, leaf: Option<NodeIdentityCert>) -> (r: TlsMaterial)
    ensures
        r.ca.ca_cert_pem@ == m.ca.ca_cert_pem@,
        r.ca.ca_key_pem@ == m.ca.ca_key_pem@,
        match leaf {
            Some(l) => r.leaf == l,
            None => r.leaf.cert_pem@ == m.leaf.cert_pem@ && r.leaf.key_pem@ == m.leaf.key_pem@,
        },
{
    let leaf = match leaf {
        Some(l) => l,
        None => NodeIdentityCert {
            cert_pem: m.leaf.cert_pem.clone(),
            key_pem: m.leaf.key_pem.clone(),
        },
    };
    TlsMaterial {
        ca: CaPair {
            ca_cert_pem: m.ca.ca_cert_pem.clone(),
            ca_key_pem: m.ca.ca_key_pem.clone(),
        },
        leaf,
    }
}

/// What the parts of a server's configuration are where its leaf was issued.
proof fn lemma_node_end(m: TlsMaterial, mtls: bool, p: ServerParts, leaf: Issued, authority: Issued)
    requires
        server_input(m, mtls) is Ok,
        server_parts_are(p, server_input(m, mtls)->Ok_0),
        authority_is(m.ca, authority),
        leaf_is(m.leaf, leaf),
    ensures
        node_end(p, leaf, authority, mtls),
{
}

/// What the parts of a client's configuration are where its leaf was issued.
proof fn lemma_gateway_end(m: TlsMaterial, mtls: bool, p: ClientParts, leaf: Issued, authority: Issued)
    requires
        client_input(m, mtls) is Ok,
        client_parts_are(p, client_input(m, mtls)->Ok_0),
        authority_is(m.ca, authority),
        leaf_is(m.leaf, leaf),
    ensures
        gateway_end(
            p,
            if mtls {
                Some(leaf)
            } else {
                None
            },
            authority,
        ),
{
}

/// The ends where the certificates come from an authority of the gateway's own.
fn self_signed_ends(node: &LeafPlan, gateway: &Option<LeafPlan>, embedded: bool) -> (r: Result<
    TlsEnds,
    String,
>)
    ensures
        foreign_name(hosts(*node)) is Some ==> r is Err,
        *gateway matches Some(g) ==> foreign_name(hosts(g)) is Some ==> r is Err,
        r matches Ok(e) ==> fresh_ends(*node, *gateway, embedded, e),
{
    let mtls: bool = gateway.is_some();
    let (m, signer, node_leaf) = match TlsMaterial::self_signed(node.name, &host_list(node)) {
        Ok(x) => x,
        Err(e) => {
            return Err(plain_error(e));
        },
    };
    let (own, gateway_leaf): (Option<NodeIdentityCert>, Option<Issued>) = match gateway {
        Some(g) => match signer.issue_leaf(g.name, &host_list(g)) {
            Ok((l, made)) => (Some(l), Some(made)),
            Err(e) => {
                return Err(plain_error(e));
            },
        },
        None => (None, None),
    };
    let n = gateway_material(&m, own);
    let server = if embedded {
        Some(m.server_config(mtls))
    } else {
        None
    };
    let (server, client) = match join_ends(server, n.client_config(mtls)) {
        Ok(x) => x,
        Err(e) => {
            return Err(e);
        },
    };
    proof {
        let by = signer.issued();
        if embedded {
            lemma_node_end(m, mtls, server->0.made_of(), node_leaf, by);
        }
        let shown = if mtls {
            gateway_leaf->0
        } else {
            node_leaf
        };
        lemma_gateway_end(n, mtls, client.made_of(), shown, by);
    }
    Ok(
        TlsEnds {
            server,
            client: Some(client),
            signer: Some(signer),
            node_leaf: Some(node_leaf),
            gateway_leaf,
        },
    )
}

/// Whether the ends that were set up from files are made of what is in the files: that of the
/// gateway, and that of the nodes where the gateway starts them.
pub open spec fn file_ends(f: PemFiles, mtls: bool, embedded: bool, e: TlsEnds) -> bool {
    let m = material_in(f);
    &&& e.signer is None
    &&& e.node_leaf is None
    &&& e.gateway_leaf is None
    &&& if embedded {
        e.server matches Some(s) && server_parts_are(s.made_of(), server_input(m, mtls)->Ok_0)
    } else {
        e.server is None
    }
    &&& e.client matches Some(c) && client_parts_are(c.made_of(), client_input(m, mtls)->Ok_0)
}

/// What is wrong with what is in the files; nothing where both ends can be made of it, so that only
/// the TLS library can still refuse them.
pub open spec fn files_error(f: PemFiles, mtls: bool, embedded: bool) -> Option<Seq<char>> {
    let m = material_in(f);
    match (server_input(m, mtls), client_input(m, mtls)) {
        (Err(t), _) if embedded => Some("server config: "@ + t),
        (_, Err(t)) => Some("client config: "@ + t),
        _ => None,
    }
}

/// What is told where the TLS library refuses one end.
pub open spec fn refusal(end: Seq<char>, words: Seq<char>) -> Seq<char> {
    end + ("tls config: "@ + words)
}

/// Whether a text tells that the TLS library refuses one end.
pub open spec fn is_refusal(e: Seq<char>) -> bool {
    ||| exists|t: Seq<char>| e == #[trigger] refusal("server config: "@, t)
    ||| exists|t: Seq<char>| e == #[trigger] refusal("client config: "@, t)
}

/// Sets up both ends as planned. Where the certificates come from files, these are their contents.
/// The end of nodes that run by themselves is theirs to set up.
pub fn tls_configs(plan: &TlsPlan, files: Option<PemFiles>) -> (r: Result<TlsEnds, String>)
    requires
        plan is Files ==> files is Some,
    ensures
        match *plan {
            TlsPlan::Off => {
                &&& r matches Ok(e) && e.server is None && e.client is None && e.signer is None
                    && e.node_leaf is None && e.gateway_leaf is None
            },
            TlsPlan::Files { mtls, embedded, .. } => match r {
                Ok(e) => files_error(files->0, mtls, embedded) is None && file_ends(
                    files->0,
                    mtls,
                    embedded,
                    e,
                ),
                Err(e) => match files_error(files->0, mtls, embedded) {
                    Some(t) => e@ == t || (embedded && server_input(
                        material_in(files->0),
                        mtls,
                    ) is Ok && is_refusal(e@)),
                    None => (embedded || mtls) && is_refusal(e@),
                },
            },
            TlsPlan::SelfSigned { node, gateway, embedded } => {
                &&& foreign_name(hosts(node)) is Some ==> r is Err
                &&& gateway matches Some(g) ==> foreign_name(hosts(g)) is Some ==> r is Err
                &&& r matches Ok(e) ==> fresh_ends(node, gateway, embedded, e)
            },
        },
{
    match plan {
        TlsPlan::Off => Ok(
            TlsEnds {
                server: None,
                client: None,
                signer: None,
                node_leaf: None,
                gateway_leaf: None,
            },
        ),
        TlsPlan::Files { mtls, embedded, .. } => {
            let (cert, key, ca) = match files {
                Some(f) => f,
                None => (String::new(), String::new(), String::new()),
            };
            let m = TlsMaterial::load(cert, key, ca, None);
            let server = if *embedded {
                Some(m.server_config(*mtls))
            } else {
                None
            };
            let client = m.client_config(*mtls);
            proof {
                let a = server->0->Err_0->Other_0@;
                let b = client->Err_0->Other_0@;
                assert(refusal("server config: "@, a) == "server config: "@ + ("tls config: "@ + a));
                assert(refusal("client config: "@, b) == "client config: "@ + ("tls config: "@ + b));
            }
            match join_ends(server, client) {
                Ok((server, client)) => Ok(
                    TlsEnds {
                        server,
                        client: Some(client),
                        signer: None,
                        node_leaf: None,
                        gateway_leaf: None,
                    },
                ),
                Err(e) => Err(e),
            }
        },
        TlsPlan::SelfSigned { node, gateway, embedded } => self_signed_ends(
            node,
            gateway,
            *embedded,
        ),
    }
}

} // verus!
