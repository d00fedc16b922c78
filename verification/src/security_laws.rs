//! What holds of keys and certificates: who may show what, who is trusted, and who is let in.
use vstd::prelude::*;
use vstd::utf8::encode_utf8;

use crate::bootstrap::{hosts, LeafPlan};
use crate::bytes::be32;
use crate::certificates::{
    all_texts, foreign_name, foreign_text, is_authority, is_authority_plan, is_leaf_of, is_leaf_plan,
    reads_as_certificate, reads_as_key, spells, spells_certificate, CertPlan, Issued, KeyUsage, ShownBy,
    MAX_PEM_DER,
};
use crate::crypto::{gcm_open, hkdf_sha256, shard_key, unseal, OpenError, MAX_PLAINTEXT};
use crate::handshake::{
    admitted, completes_handshake, next_session, verdict, Refusal, Session, Verdict,
};
use crate::identity::{auth_domain, ed_verify, in_domain, whitelist_domain, Nonce};
use crate::keyring::{max_id, oldest, place_of, unseal_any, wrap_aad, wrapped_under, Dek, Ring};
use crate::node::Request;
use crate::tls::{
    anchors, authorities_in, client_input, client_parts_are, der_views, host_part, pem_bytes,
    pem_certificates, pem_private_key, server_input, server_parts_are, trust_anchor, trusted, Anchor,
    ClientParts, KeyFormat, ServerParts, TlsMaterial,
};
use crate::text_laws::lacks;
use crate::whitelist::{lists, SignedList};
use crate::wire::{
    ends_error, file_ends, files_error, fresh_ends, gateway_end, is_refusal, material_in, node_end,
    refusal, shows, trusts_only, PemFiles, TlsEnds,
};

verus! {

/// What is signed begins with what it is signed for.
pub proof fn signatures_are_for_one_purpose(blob: Seq<u8>)
    ensures
        auth_domain() == encode_utf8("holofs-auth-v1"@),
        whitelist_domain() == encode_utf8("holofs-whitelist-v1"@),
        in_domain(auth_domain(), blob) == encode_utf8("holofs-auth-v1"@) + blob,
        in_domain(whitelist_domain(), blob) == encode_utf8("holofs-whitelist-v1"@) + blob,
{
}

/// The key for the shards comes from the identity of the node, under a salt and a purpose of its own.
pub proof fn shard_keys_come_from_the_identity(identity: Seq<u8>)
    ensures
        shard_key(identity) == hkdf_sha256(
            encode_utf8("holofs-shard-salt-v1"@),
            identity,
            encode_utf8("holofs-shard-key-v1"@),
        )@,
{
}

/// A sealed text is its nonce and what the cipher made of it; it opens under the key, the nonce and the
/// associated data that it was sealed with, and nothing that is too short opens at all.
pub proof fn sealed_texts_open_under_their_key(key: Seq<u8>, nonce: Seq<u8>, aad: Seq<u8>, sealed: Seq<u8>)
    requires
        nonce.len() == 12,
        16 <= sealed.len() <= MAX_PLAINTEXT + 16,
    ensures
        gcm_open(key, nonce, aad, sealed) matches Some(p) ==> unseal(key, aad, nonce + sealed) == Ok::<
            Seq<u8>,
            OpenError,
        >(p),
        gcm_open(key, nonce, aad, sealed) is None ==> unseal(key, aad, nonce + sealed) == Err::<
            Seq<u8>,
            OpenError,
        >(OpenError::Rejected),
{
    let b = nonce + sealed;
    assert(b.subrange(0, 12) =~= nonce);
    assert(b.skip(12) =~= sealed);
}

/// What is shorter than a nonce and a tag is told to be cut off.
pub proof fn short_texts_are_told_to_be_cut_off(key: Seq<u8>, aad: Seq<u8>, blob: Seq<u8>)
    ensures
        blob.len() < 28 ==> unseal(key, aad, blob) == Err::<Seq<u8>, OpenError>(
            OpenError::Truncated(blob.len() as usize),
        ),
        blob.len() > MAX_PLAINTEXT + 28 ==> unseal(key, aad, blob) == Err::<Seq<u8>, OpenError>(
            OpenError::Rejected,
        ),
{
}

/// The newest key that opens a text is the one that counts; a key that does not open it changes
/// nothing.
pub proof fn newest_key_that_opens_counts(deks: Seq<Dek>, d: Dek, aad: Seq<u8>, blob: Seq<u8>)
    ensures
        unseal_any(Seq::empty(), aad, blob) is None,
        unseal(d.key, aad, blob) matches Ok(p) ==> unseal_any(deks.push(d), aad, blob) == Some(p),
        unseal(d.key, aad, blob) is Err ==> unseal_any(deks.push(d), aad, blob) == unseal_any(deks, aad, blob),
{
    assert(deks.push(d).drop_last() =~= deks);
    assert(deks.push(d).last() == d);
}

/// The greatest number is that of a key, and no key has a greater; the oldest key is one of them, and
/// none is older.
pub proof fn rings_know_their_newest_and_oldest(deks: Seq<Dek>)
    requires
        deks.len() > 0,
    ensures
        exists|i: int| 0 <= i < deks.len() && (#[trigger] deks[i]).id == max_id(deks),
        forall|i: int| 0 <= i < deks.len() ==> (#[trigger] deks[i]).id <= max_id(deks),
        exists|i: int| 0 <= i < deks.len() && (#[trigger] deks[i]).created == oldest(deks),
        forall|i: int| 0 <= i < deks.len() ==> (#[trigger] deks[i]).created >= oldest(deks),
        max_id(Seq::empty()) == 0,
        oldest(Seq::empty()) == 0,
    decreases deks.len(),
{
    let t = deks.drop_last();
    let n = deks.len() - 1;
    assert(deks[n] == deks.last());
    if t.len() > 0 {
        rings_know_their_newest_and_oldest(t);
        let a = choose|i: int| 0 <= i < t.len() && (#[trigger] t[i]).id == max_id(t);
        let b = choose|i: int| 0 <= i < t.len() && (#[trigger] t[i]).created == oldest(t);
        assert(deks[a] == t[a] && deks[b] == t[b]);
        assert forall|i: int| 0 <= i < deks.len() implies (#[trigger] deks[i]).id <= max_id(deks) && deks[i].created
            >= oldest(deks) by {
            if i < n {
                assert(deks[i] == t[i]);
            }
        }
    } else {
        assert(max_id(t) == 0);
        assert(deks[0] == deks.last());
    }
}

/// The current key is the first with the current number, and a key that was added is the current one
/// where its number is new; the others stay.
pub proof fn rotation_adds_the_current_key(r: Ring, d: Dek, i: int)
    requires
        forall|j: int| 0 <= j < r.deks.len() ==> (#[trigger] r.deks[j]).id != d.id,
    ensures
        r.rotated(d).current == d.id,
        r.rotated(d).current_dek() == d,
        r.rotated(d).wf(),
        r.rotated(d).deks.len() == r.deks.len() + 1,
        0 <= i < r.deks.len() ==> r.rotated(d).deks[i] == r.deks[i],
        r.rotated(d).deks.last() == d,
{
    let s = r.rotated(d);
    crate::keyring::lemma_place_of(s.deks, d.id);
    let p = place_of(s.deks, d.id);
    assert(s.deks[r.deks.len() as int] == d);
    assert forall|j: int| 0 <= j < r.deks.len() implies s.deks[j].id != d.id by {
        assert(s.deks[j] == r.deks[j]);
    }
    assert(p == r.deks.len());
}

/// A wrapped key is bound to its number, and opens to the key that it wraps.
pub proof fn wrapped_keys_open_to_themselves(r: Ring, kek: Seq<u8>, i: int)
    requires
        wrapped_under(r, kek),
        0 <= i < r.deks.len(),
    ensures
        unseal(kek, encode_utf8("holofs-dek-v1"@) + be32(r.deks[i].id), r.deks[i].wrapped) == Ok::<
            Seq<u8>,
            OpenError,
        >(r.deks[i].key),
        r.deks[i].key.len() == 32,
        wrap_aad(r.deks[i].id) == encode_utf8("holofs-dek-v1"@) + be32(r.deks[i].id),
{
    assert(r.deks[i].key.len() == 32);
}

/// Without a list anybody is admitted; with one, just those whose key stands in it.
pub proof fn listed_keys_are_admitted(w: SignedList, pk: Seq<u8>)
    ensures
        admitted(None, pk),
        admitted(Some(w), pk) <==> exists|i: int|
            0 <= i < w.members.len() && (#[trigger] w.members[i]).pubkey == pk,
        lists(w, pk) <==> admitted(Some(w), pk),
{
}

/// A frame is answered by where the handshake stands: an admitted key gets a challenge, another is
/// refused; a challenge is answered by a signature over it alone; and without a handshake nothing is
/// served where there is a list.
pub proof fn frames_are_answered_by_where_the_handshake_stands(
    s: Session,
    req: Request,
    list: Option<SignedList>,
)
    ensures
        s.awaiting is None && req is Handshake ==> verdict(s, req, list) == if admitted(
            list,
            req->client_pubkey@,
        ) {
            Verdict::Challenge
        } else {
            Verdict::Refuse(Refusal::NotWhitelisted)
        },
        s.awaiting is None && req is HandshakeComplete ==> verdict(s, req, list) == Verdict::Refuse(
            Refusal::UnexpectedComplete,
        ),
        s.awaiting is None && !(req is Handshake) && !(req is HandshakeComplete) ==> verdict(s, req, list)
            == if list is None || s.authenticated {
            Verdict::Serve
        } else {
            Verdict::Refuse(Refusal::HandshakeRequired)
        },
        s.awaiting matches Some((pk, nonce)) ==> {
            &&& !(req is HandshakeComplete) ==> verdict(s, req, list) == Verdict::Refuse(Refusal::NotComplete)
            &&& req is HandshakeComplete ==> verdict(s, req, list) == if ed_verify(
                pk@,
                encode_utf8("holofs-auth-v1"@) + nonce@,
                req->client_signature@,
            ) {
                Verdict::Acknowledge
            } else {
                Verdict::Refuse(Refusal::BadClientSignature)
            }
        },
{
    if let Some((pk, nonce)) = s.awaiting {
        assert(in_domain(auth_domain(), nonce@) == encode_utf8("holofs-auth-v1"@) + nonce@);
    }
}

/// A challenge is kept with the key that it is for; one who answers it is known from then on; any
/// other frame changes nothing.
pub proof fn sessions_change_by_the_handshake_alone(
    s: Session,
    req: Request,
    list: Option<SignedList>,
    nonce: Nonce,
)
    ensures
        verdict(s, req, list) is Challenge ==> {
            &&& next_session(s, req, list, nonce).awaiting == Some((req->client_pubkey, nonce))
            &&& next_session(s, req, list, nonce).authenticated == s.authenticated
        },
        verdict(s, req, list) is Acknowledge ==> next_session(s, req, list, nonce).authenticated
            && next_session(s, req, list, nonce).awaiting is None,
        !(verdict(s, req, list) is Challenge) && !(verdict(s, req, list) is Acknowledge) ==> next_session(
            s,
            req,
            list,
            nonce,
        ) == s,
{
}

/// A handshake is completed by the answer to a challenge that was given before, under the key that
/// asked for it.
pub proof fn handshakes_are_completed_by_their_answers(
    frames: Seq<(Request, Nonce)>,
    list: Option<SignedList>,
    i: int,
    j: int,
)
    requires
        completes_handshake(frames, list, i, j),
    ensures
        i < j,
        admitted(list, frames[i].0->client_pubkey@),
        ed_verify(
            frames[i].0->client_pubkey@,
            encode_utf8("holofs-auth-v1"@) + frames[i].1@,
            frames[j].0->client_signature@,
        ),
{
    assert(in_domain(auth_domain(), frames[i].1@) == encode_utf8("holofs-auth-v1"@) + frames[i].1@);
}

/// The host is what stands before the port, or all of it.
pub proof fn hosts_stand_before_ports(host: Seq<char>, port: Seq<char>)
    requires
        lacks(port, ':'),
    ensures
        host_part(host + seq![':'] + port) == host,
        lacks(host, ':') ==> host_part(host) == host,
{
    let s = host + seq![':'] + port;
    assert(s[host.len() as int] == ':');
    assert forall|j: int| host.len() < j < s.len() implies s[j] != ':' by {
        assert(s[j] == port[j - host.len() - 1]);
    }
    crate::text::lemma_rfind_is(s, ':', host.len() as int);
    assert(s.take(host.len() as int) =~= host);
    crate::text::lemma_rfind(host, ':');
}

/// An authority signs and is never shown; a node or a gateway is shown at either end and signs no
/// certificate.
pub proof fn authorities_sign_and_leaves_are_shown(p: CertPlan, name: Seq<char>, names: Seq<Seq<char>>)
    ensures
        is_authority_plan(p) ==> p.authority && p.usages@.contains(KeyUsage::KeyCertSign)
            && p.usages@.contains(KeyUsage::CrlSign) && p.usages@.len() == 2 && p.shown_by@.len() == 0
            && p.hosts@.len() == 0 && p.common_name@ == "holofs embedded CA"@ && !p.names_issuer_key,
        is_leaf_plan(p, name, names) ==> !p.authority && p.usages@ == seq![KeyUsage::DigitalSignature]
            && p.shown_by@.contains(ShownBy::Server) && p.shown_by@.contains(ShownBy::Client)
            && p.shown_by@.len() == 2 && p.common_name@ == name && all_texts(p.hosts@) == names
            && p.names_issuer_key,
        !(is_authority_plan(p) && is_leaf_plan(p, name, names)),
{
    if is_authority_plan(p) {
        assert(p.usages@[0] == KeyUsage::KeyCertSign && p.usages@[1] == KeyUsage::CrlSign);
    }
    if is_leaf_plan(p, name, names) {
        assert(p.shown_by@[0] == ShownBy::Server && p.shown_by@[1] == ShownBy::Client);
    }
}

/// An authority is signed by itself, a leaf by its authority.
pub proof fn certificates_are_signed_by_their_issuers(
    i: Issued,
    by: Issued,
    name: Seq<char>,
    names: Seq<Seq<char>>,
)
    ensures
        is_authority(i) ==> i.issuer() == i.certificate() && i.plan().authority,
        is_leaf_of(i, by, name, names) ==> i.issuer() == by.certificate() && !i.plan().authority
            && i.plan().common_name@ == name,
{
}

/// Certificates take names in ASCII; the first that is not is told.
pub proof fn foreign_names_are_told(v: Seq<Seq<char>>, name: Seq<char>, rest: Seq<Seq<char>>)
    requires
        forall|i: int| 0 <= i < v.len() ==> vstd::utf8::is_ascii_chars(#[trigger] v[i]),
        !vstd::utf8::is_ascii_chars(name),
    ensures
        foreign_name(v) is None,
        foreign_name(v + seq![name] + rest) == Some(name),
        foreign_text(name) == "Invalid IA5String: '"@ + name + "'"@,
    decreases v.len(),
{
    let all = v + seq![name] + rest;
    if v.len() == 0 {
        assert(all[0] == name);
    } else {
        let t = v.drop_first();
        assert(vstd::utf8::is_ascii_chars(v[0]));
        assert forall|i: int| 0 <= i < t.len() implies vstd::utf8::is_ascii_chars(#[trigger] t[i]) by {
            assert(t[i] == v[i + 1]);
        }
        foreign_names_are_told(t, name, rest);
        assert(all[0] == v[0]);
        assert(all.drop_first() =~= t + seq![name] + rest);
    }
}

/// What was issued is read in its texts as itself.
pub proof fn texts_of_certificates_are_read_as_themselves(cert: String, key: String, i: Issued)
    requires
        spells(cert, key, i),
        i.certificate().len() <= MAX_PEM_DER,
    ensures
        pem_certificates(encode_utf8(cert@)) matches Ok(v) && v == seq![i.certificate()],
        pem_private_key(encode_utf8(key@)) matches Ok(k) && k.0 == KeyFormat::Pkcs8 && k.1 == i.key(),
        reads_as_certificate(cert@, i.certificate()),
        reads_as_key(key@, i.key()),
        spells_certificate(cert@, i.certificate()),
{
}

/// Every certificate in a list is trusted by its anchor, in their order; one that has none stops the
/// rest.
pub proof fn authorities_are_trusted_in_order(v: Seq<Seq<u8>>, c: Seq<u8>)
    ensures
        anchors(Seq::empty(), 0) == Ok::<Seq<Anchor>, Seq<char>>(Seq::empty()),
        anchors(v, v.len()) matches Ok(s) ==> match trust_anchor(c) {
            Ok(a) => anchors(v.push(c), v.len() + 1) == Ok::<Seq<Anchor>, Seq<char>>(s.push(a)),
            Err(t) => anchors(v.push(c), v.len() + 1) == Err::<Seq<Anchor>, Seq<char>>(t),
        },
        anchors(v, v.len()) matches Err(t) ==> anchors(v.push(c), v.len() + 1) == Err::<Seq<Anchor>, Seq<char>>(t),
{
    lemma_same_anchors(v, v.push(c), v.len());
    assert(v.push(c)[v.len() as int] == c);
}

proof fn lemma_same_anchors(v: Seq<Seq<u8>>, w: Seq<Seq<u8>>, n: nat)
    requires
        n <= v.len(),
        n <= w.len(),
        forall|i: int| 0 <= i < n ==> v[i] == w[i],
    ensures
        anchors(v, n) == anchors(w, n),
    decreases n,
{
    if n > 0 {
        lemma_same_anchors(v, w, (n - 1) as nat);
    }
}

/// A server shows its own certificates and its own key, and asks for the authorities of the material
/// just where clients must show a certificate; a client always trusts these authorities, and shows its
/// own just there.
pub proof fn both_ends_are_made_of_the_material(m: TlsMaterial, mtls: bool)
    ensures
        server_input(m, mtls) matches Ok(i) ==> {
            &&& pem_certificates(pem_bytes(m.leaf.cert_pem)) matches Ok(c) && c == i.0
            &&& pem_private_key(pem_bytes(m.leaf.key_pem)) matches Ok(k) && k == i.1
            &&& i.2 is Some <==> mtls
            &&& i.2 matches Some(a) ==> authorities_in(m) == Ok::<Seq<Anchor>, Seq<char>>(a)
        },
        client_input(m, mtls) matches Ok(i) ==> {
            &&& authorities_in(m) == Ok::<Seq<Anchor>, Seq<char>>(i.0)
            &&& i.1 is Some <==> mtls
            &&& i.1 matches Some((c, k)) ==> pem_certificates(pem_bytes(m.leaf.cert_pem)) == Ok::<
                Seq<Seq<u8>>,
                Seq<char>,
            >(c) && pem_private_key(pem_bytes(m.leaf.key_pem)) == Ok::<(KeyFormat, Seq<u8>), Seq<char>>(k)
        },
        authorities_in(m) matches Ok(a) ==> pem_certificates(pem_bytes(m.ca.ca_cert_pem)) is Ok && anchors(
            pem_certificates(pem_bytes(m.ca.ca_cert_pem))->Ok_0,
            pem_certificates(pem_bytes(m.ca.ca_cert_pem))->Ok_0.len(),
        ) == Ok::<Seq<Anchor>, Seq<char>>(a),
        pem_bytes(m.leaf.cert_pem) == encode_utf8(m.leaf.cert_pem@),
{
}

/// Material in which everything can be read gives both ends.
pub proof fn sound_material_gives_both_ends(m: TlsMaterial, mtls: bool)
    requires
        pem_certificates(pem_bytes(m.leaf.cert_pem)) is Ok,
        pem_private_key(pem_bytes(m.leaf.key_pem)) is Ok,
        authorities_in(m) is Ok,
    ensures
        server_input(m, mtls) is Ok,
        client_input(m, mtls) is Ok,
{
}

/// The parts of a configuration are what it was made from.
pub proof fn parts_are_what_they_were_made_from(s: ServerParts, c: ClientParts, m: TlsMaterial, mtls: bool)
    ensures
        server_input(m, mtls) is Ok && server_parts_are(s, server_input(m, mtls)->Ok_0) ==> {
            &&& s.roots is Some <==> mtls
            &&& pem_certificates(pem_bytes(m.leaf.cert_pem)) == Ok::<Seq<Seq<u8>>, Seq<char>>(
                der_views(s.chain@),
            )
            &&& pem_private_key(pem_bytes(m.leaf.key_pem)) == Ok::<(KeyFormat, Seq<u8>), Seq<char>>(
                (s.key.format, s.key.der@),
            )
            &&& s.roots matches Some(r) ==> authorities_in(m) == Ok::<Seq<Anchor>, Seq<char>>(trusted(r))
        },
        client_input(m, mtls) is Ok && client_parts_are(c, client_input(m, mtls)->Ok_0) ==> {
            &&& authorities_in(m) == Ok::<Seq<Anchor>, Seq<char>>(trusted(c.roots))
            &&& c.identity is Some <==> mtls
        },
{
}

/// The authority, and nobody else, is trusted where a new one was made; the nodes show their leaf and
/// ask for one of the gateway just where the gateway has one.
pub proof fn fresh_ends_trust_their_authority(
    node: LeafPlan,
    gateway: Option<LeafPlan>,
    embedded: bool,
    e: TlsEnds,
)
    requires
        fresh_ends(node, gateway, embedded, e),
    ensures
        e.signer is Some,
        e.server is Some <==> embedded,
        e.client is Some,
        e.gateway_leaf is Some <==> gateway is Some,
        ({
            let by = e.signer->0.issued();
            &&& is_authority(by)
            &&& e.node_leaf matches Some(i) && i.issuer() == by.certificate() && all_texts(i.plan().hosts@)
                == hosts(node) && i.plan().common_name@ == node.name@
            &&& gateway matches Some(g) ==> e.gateway_leaf matches Some(j) && j.issuer() == by.certificate()
                && j.plan().common_name@ == g.name@
            &&& trusted(e.client->0.made_of().roots).len() == 1
            &&& trust_anchor(by.certificate()) == Ok::<Anchor, Seq<char>>(
                trusted(e.client->0.made_of().roots)[0],
            )
            &&& embedded ==> der_views(e.server->0.made_of().chain@) == seq![e.node_leaf->0.certificate()]
            &&& embedded ==> (e.server->0.made_of().roots is Some <==> gateway is Some)
            &&& e.client->0.made_of().identity is Some <==> gateway is Some
        }),
{
    reveal_with_fuel(anchors, 2);
    let by = e.signer->0.issued();
    let v = seq![by.certificate()];
    let c = e.client->0.made_of();
    assert(gateway_end(c, e.gateway_leaf, by));
    assert(trusts_only(c.roots, by));
    assert(v[0] == by.certificate());
    if embedded {
        assert(node_end(e.server->0.made_of(), e.node_leaf->0, by, gateway is Some));
        assert(shows(e.server->0.made_of().chain@, e.server->0.made_of().key, e.node_leaf->0));
    }
}

/// Ends made from files issue nothing; the certificates, the key and the authorities come from the
/// three files in their order.
pub proof fn ends_of_files_are_those_of_the_files(f: PemFiles, mtls: bool, embedded: bool, e: TlsEnds)
    ensures
        material_in(f).leaf.cert_pem == f.0,
        material_in(f).leaf.key_pem == f.1,
        material_in(f).ca.ca_cert_pem == f.2,
        file_ends(f, mtls, embedded, e) ==> e.signer is None && e.node_leaf is None && e.gateway_leaf is None
            && (e.server is Some <==> embedded) && e.client is Some,
        files_error(f, mtls, embedded) is None ==> client_input(material_in(f), mtls) is Ok,
        files_error(f, mtls, embedded) is None && embedded ==> server_input(material_in(f), mtls) is Ok,
        server_input(material_in(f), mtls) is Ok && client_input(material_in(f), mtls) is Ok ==> files_error(
            f,
            mtls,
            embedded,
        ) is None,
        !embedded && client_input(material_in(f), mtls) is Ok ==> files_error(f, mtls, embedded) is None,
{
}

/// The end that could not be set up is named, the server's first; where both could, there is no error.
pub proof fn ends_that_fail_are_named(
    server: Option<Result<crate::tls::ServerSide, crate::tls::TlsBuildError>>,
    client: Result<crate::tls::ClientSide, crate::tls::TlsBuildError>,
    words: Seq<char>,
)
    ensures
        server matches Some(Err(e)) ==> ends_error(server, client) == Some("server config: "@ + e.text()),
        !(server matches Some(Err(_))) && client is Err ==> ends_error(server, client) == Some(
            "client config: "@ + client->Err_0.text(),
        ),
        !(server matches Some(Err(_))) && client is Ok ==> ends_error(server, client) is None,
        is_refusal("server config: tls config: "@ + words),
        is_refusal("client config: tls config: "@ + words),
{
    reveal_strlit("server config: ");
    reveal_strlit("client config: ");
    reveal_strlit("tls config: ");
    reveal_strlit("server config: tls config: ");
    reveal_strlit("client config: tls config: ");
    assert("server config: tls config: "@ =~= "server config: "@ + "tls config: "@);
    assert("client config: tls config: "@ =~= "client config: "@ + "tls config: "@);
    assert("server config: tls config: "@ + words =~= refusal("server config: "@, words));
    assert("client config: tls config: "@ + words =~= refusal("client config: "@, words));
}

/// Where a new authority was made, each end shows the leaf that was issued to it with its own key, and
/// the nodes trust the authority where they ask for a certificate.
pub proof fn fresh_ends_show_their_own_leaves(
    node: LeafPlan,
    gateway: Option<LeafPlan>,
    embedded: bool,
    e: TlsEnds,
)
    requires
        fresh_ends(node, gateway, embedded, e),
    ensures
        ({
            let by = e.signer->0.issued();
            let server = e.server->0.made_of();
            let client = e.client->0.made_of();
            &&& embedded ==> server.key.format == KeyFormat::Pkcs8 && server.key.der@ == e.node_leaf->0.key()
            &&& embedded ==> (server.roots matches Some(r) ==> trusted(r).len() == 1 && trust_anchor(
                by.certificate(),
            ) == Ok::<Anchor, Seq<char>>(trusted(r)[0]))
            &&& client.identity matches Some((c, k)) ==> e.gateway_leaf matches Some(j) && der_views(c@) == seq![
                j.certificate(),
            ] && k.format == KeyFormat::Pkcs8 && k.der@ == j.key()
        }),
{
    reveal_with_fuel(anchors, 2);
    let by = e.signer->0.issued();
    assert(seq![by.certificate()][0] == by.certificate());
    assert(gateway_end(e.client->0.made_of(), e.gateway_leaf, by));
    if embedded {
        let server = e.server->0.made_of();
        assert(node_end(server, e.node_leaf->0, by, gateway is Some));
        assert(shows(server.chain@, server.key, e.node_leaf->0));
        if let Some(r) = server.roots {
            assert(trusts_only(r, by));
        }
    }
    if let Some((c, k)) = e.client->0.made_of().identity {
        assert(shows(c@, k, e.gateway_leaf->0));
    }
}

/// Ends made from files show what stands in the files and trust whom the files name.
pub proof fn ends_of_files_show_what_is_in_them(f: PemFiles, mtls: bool, embedded: bool, e: TlsEnds)
    requires
        file_ends(f, mtls, embedded, e),
        files_error(f, mtls, embedded) is None,
    ensures
        ({
            let m = material_in(f);
            let client = e.client->0.made_of();
            let server = e.server->0.made_of();
            &&& authorities_in(m) == Ok::<Seq<Anchor>, Seq<char>>(trusted(client.roots))
            &&& client.identity is Some <==> mtls
            &&& client.identity matches Some((c, k)) ==> pem_certificates(encode_utf8(f.0@)) == Ok::<
                Seq<Seq<u8>>,
                Seq<char>,
            >(der_views(c@)) && pem_private_key(encode_utf8(f.1@)) == Ok::<(KeyFormat, Seq<u8>), Seq<char>>(
                (k.format, k.der@),
            )
            &&& embedded ==> pem_certificates(encode_utf8(f.0@)) == Ok::<Seq<Seq<u8>>, Seq<char>>(
                der_views(server.chain@),
            )
            &&& embedded ==> pem_private_key(encode_utf8(f.1@)) == Ok::<(KeyFormat, Seq<u8>), Seq<char>>(
                (server.key.format, server.key.der@),
            )
            &&& embedded ==> (server.roots is Some <==> mtls)
            &&& embedded ==> (server.roots matches Some(r) ==> authorities_in(m) == Ok::<
                Seq<Anchor>,
                Seq<char>,
            >(trusted(r)))
        }),
{
    let m = material_in(f);
    assert(client_parts_are(e.client->0.made_of(), client_input(m, mtls)->Ok_0));
    if embedded {
        assert(server_parts_are(e.server->0.made_of(), server_input(m, mtls)->Ok_0));
    }
}

} // verus!
