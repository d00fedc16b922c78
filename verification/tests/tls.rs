use holofs::bootstrap::{build_tls, TlsOptions, TlsPlan};
use holofs::certificates::{
    authority_of, authority_plan, generate_ca, leaf_of, leaf_plan, material_of, KeyUsage, ShownBy,
};
use holofs::wire::tls_configs;
use holofs::tls::{
    parse_certs, parse_private_key, server_name_for, told, KeyFormat, SniKind, TlsBuildError,
    TlsMaterial,
};

#[test]
fn self_signed_roundtrip() {
    let (mat, _signer, _leaf) =
        TlsMaterial::self_signed("node-0", &vec!["node-0".into(), "127.0.0.1".into()])
            .ok()
            .expect("self signed");
    assert!(mat.ca.ca_cert_pem.contains("BEGIN CERTIFICATE"));
    assert!(mat.leaf.cert_pem.contains("BEGIN CERTIFICATE"));
    let _server_plain = mat.server_config(false).unwrap();
    let _server_mtls = mat.server_config(true).unwrap();
    let _client_plain = mat.client_config(false).unwrap();
    let _client_mtls = mat.client_config(true).unwrap();
}

#[test]
fn issue_extra_leaf() {
    let (mat, signer, _leaf) =
        TlsMaterial::self_signed("ca-root", &vec!["127.0.0.1".into()]).ok().expect("self signed");
    let (leaf2, _) =
        signer.issue_leaf("node-7", &vec!["node-7".into(), "127.0.0.1".into()]).ok().unwrap();
    assert!(leaf2.cert_pem.contains("BEGIN CERTIFICATE"));
    assert_ne!(leaf2.cert_pem, mat.leaf.cert_pem);
}

#[test]
fn server_name_for_ipv4_yields_ip_address_sni() {
    let n = server_name_for("127.0.0.1:9000").unwrap();
    assert!(format!("{n:?}").contains("IpAddress"), "expected IpAddress SNI, got {n:?}");
}

#[test]
fn server_name_for_dns_name_yields_dns_sni() {
    let n = server_name_for("node-7.holofs.test:9000").unwrap();
    assert!(format!("{n:?}").contains("DnsName"), "expected DnsName SNI, got {n:?}");
}

#[test]
fn server_name_for_handles_missing_port() {
    let n = server_name_for("localhost").unwrap();
    assert!(format!("{n:?}").contains("DnsName"));
}

#[test]
fn server_name_for_rejects_invalid_dns_label() {
    assert!(server_name_for("not a host:9000").is_err());
}

#[test]
fn write_to_dir_then_load_roundtrip() {
    let (mat, _signer, _leaf) =
        TlsMaterial::self_signed("rt-node", &vec!["127.0.0.1".into()]).ok().expect("self signed");
    let files = mat.write_to_dir("rt-node");
    let find = |name: &str| files.iter().find(|f| f.0 == name).map(|f| f.1.clone());
    for f in ["ca.crt", "ca.key", "rt-node.crt", "rt-node.key"] {
        assert!(find(f).is_some(), "missing {f}");
    }
    let loaded = TlsMaterial::load(
        find("rt-node.crt").unwrap(),
        find("rt-node.key").unwrap(),
        find("ca.crt").unwrap(),
        find("ca.key"),
    );
    assert_eq!(loaded.leaf.cert_pem, mat.leaf.cert_pem);
    assert_eq!(loaded.ca.ca_cert_pem, mat.ca.ca_cert_pem);
    assert_eq!(loaded.ca.ca_key_pem, mat.ca.ca_key_pem);
}

#[test]
fn load_without_ca_key_succeeds_for_verifier_only_use() {
    let (mat, _signer, _leaf) =
        TlsMaterial::self_signed("vonly", &vec!["127.0.0.1".into()]).ok().expect("self signed");
    let files = mat.write_to_dir("vonly");
    let loaded =
        TlsMaterial::load(files[2].1.clone(), files[3].1.clone(), files[0].1.clone(), None);
    assert!(loaded.ca.ca_key_pem.is_empty());
}

#[test]
fn parse_certs_on_input_without_pem_markers_returns_empty_vec() {
    let res = parse_certs("not a certificate at all").unwrap();
    assert!(res.is_empty(), "expected no certs, got {} block(s)", res.len());
}

#[test]
fn parse_certs_rejects_malformed_pem_block() {
    let bad = "-----BEGIN CERTIFICATE-----\n\
               not base64 at all!@#$%\n\
               -----END CERTIFICATE-----\n";
    let res = parse_certs(bad);
    assert!(matches!(res, Err(TlsBuildError::Pem(_))), "got {res:?}");
}

#[test]
fn parse_private_key_rejects_garbage_pem() {
    let res = parse_private_key("definitely not a private key");
    assert!(matches!(res, Err(TlsBuildError::Pem(_))));
}

#[test]
fn tls_build_error_display_includes_message() {
    let pem = TlsBuildError::Pem("bad header".into());
    let other = TlsBuildError::Other("rustls said no".into());
    assert!(pem.message().contains("bad header"));
    assert!(other.message().contains("rustls said no"));
    let _ = format!("{pem:?}");
}

#[test]
fn generated_texts_hold_one_certificate_and_one_key() {
    let (mat, _signer, _leaf) =
        TlsMaterial::self_signed("n", &vec!["127.0.0.1".into()]).ok().expect("self signed");
    assert_eq!(parse_certs(&mat.leaf.cert_pem).unwrap().len(), 1);
    assert_eq!(parse_certs(&mat.ca.ca_cert_pem).unwrap().len(), 1);
    assert_eq!(parse_private_key(&mat.leaf.key_pem).unwrap().format, KeyFormat::Pkcs8);
    let both = format!("{}{}", mat.ca.ca_cert_pem, mat.leaf.cert_pem);
    assert_eq!(parse_certs(&both).unwrap().len(), 2);
}

#[test]
fn host_that_is_not_ascii_gets_no_certificate() {
    let (_, signer, _) =
        TlsMaterial::self_signed("n", &vec!["127.0.0.1".into()]).ok().expect("self signed");
    let e = signer.issue_leaf("x", &vec!["a".into(), "é".into()]).err().unwrap();
    assert_eq!(e.message(), "tls config: Invalid IA5String: 'é'");
}

#[test]
fn failure_to_make_a_certificate_is_told() {
    let text = |e: Option<TlsBuildError>| e.map(|e| e.message());
    let said = Some("tls config: no entropy".to_string());
    assert_eq!(text(authority_of(Err("no entropy".into())).err()), said);
    assert_eq!(text(leaf_of(Err("no entropy".into())).err()), said);
    assert_eq!(text(told::<u8>(Err("no entropy".into())).err()), said);
    assert_eq!(told(Ok(7u8)).ok(), Some(7));

    let (ca, signer) = generate_ca().ok().expect("authority");
    assert_eq!(parse_certs(&ca.ca_cert_pem).unwrap().len(), 1);
    assert!(parse_private_key(&ca.ca_key_pem).is_ok());
    let (leaf, made) = signer.issue_leaf("n", &vec!["127.0.0.1".into()]).ok().unwrap();
    assert_eq!(parse_certs(&leaf.cert_pem).unwrap(), vec![made.der().to_vec()]);
    assert_eq!(parse_certs(&ca.ca_cert_pem).unwrap(), vec![made.issuer_der().to_vec()]);
    let (m, signer, _) =
        material_of(ca.clone(), signer, Ok((leaf.clone(), made))).ok().expect("material");
    assert_eq!((&m.ca.ca_cert_pem, &m.ca.ca_key_pem), (&ca.ca_cert_pem, &ca.ca_key_pem));
    assert_eq!((&m.leaf.cert_pem, &m.leaf.key_pem), (&leaf.cert_pem, &leaf.key_pem));
    let refused = material_of(ca, signer, Err(TlsBuildError::Other("no entropy".into())));
    assert_eq!(text(refused.err()), said);

    let e = TlsMaterial::self_signed("x", &vec!["é".into()]).err();
    assert_eq!(text(e), Some("tls config: Invalid IA5String: 'é'".to_string()));
}

#[test]
fn unreadable_parts_are_told_in_order() {
    let (mat, _signer, _leaf) =
        TlsMaterial::self_signed("n", &vec!["127.0.0.1".into()]).ok().expect("self signed");
    let no_key = TlsMaterial::load(
        mat.leaf.cert_pem.clone(),
        "none".into(),
        mat.ca.ca_cert_pem.clone(),
        None,
    );
    assert!(matches!(no_key.server_config(false), Err(TlsBuildError::Pem(_))));
    assert!(no_key.client_config(false).is_ok());
    assert!(matches!(no_key.client_config(true), Err(TlsBuildError::Pem(_))));
    let bad_root = "-----BEGIN CERTIFICATE-----\nAAAA\n-----END CERTIFICATE-----\n";
    let no_root =
        TlsMaterial::load(mat.leaf.cert_pem.clone(), mat.leaf.key_pem.clone(), bad_root.into(), None);
    assert!(matches!(no_root.client_parts(true), Err(TlsBuildError::Other(_))));
    assert!(matches!(no_root.server_parts(true), Err(TlsBuildError::Other(_))));
    let parts = mat.server_parts(true).unwrap();
    assert_eq!(parts.roots.unwrap().roots.len(), 1);
    assert_eq!(parts.chain, parse_certs(&mat.leaf.cert_pem).unwrap());
}

#[test]
fn server_names_keep_the_host() {
    let n = server_name_for("10.0.0.7:1").unwrap();
    assert_eq!((n.kind, n.host.as_str()), (SniKind::IpAddress, "10.0.0.7"));
    let e = server_name_for("a b:1").unwrap_err();
    assert_eq!(e.message(), "tls config: bad SNI host \"a b\": invalid dns name");
}

#[test]
fn plans_of_certificates() {
    let a = authority_plan();
    assert_eq!(a.common_name, "holofs embedded CA");
    assert_eq!(a.usages, vec![KeyUsage::KeyCertSign, KeyUsage::CrlSign]);
    assert!(a.authority);
    let l = leaf_plan("node", &vec!["h".into()]);
    assert_eq!(l.shown_by, vec![ShownBy::Server, ShownBy::Client]);
    assert_eq!(l.hosts, vec!["h".to_string()]);
    assert!(!l.authority);
}

#[test]
fn all_certificate_files_must_be_named_or_none() {
    let mut o = TlsOptions::off();
    assert!(matches!(build_tls(&o, true), Ok(TlsPlan::Off)));
    o.enabled = true;
    match build_tls(&o, true) {
        Ok(TlsPlan::SelfSigned { node, gateway, embedded: true }) => {
            assert_eq!(node.name, "holofs-node");
            assert_eq!(node.hosts, vec!["127.0.0.1", "localhost"]);
            assert!(gateway.is_none());
        }
        _ => panic!("self-signed expected"),
    }
    o.mtls = true;
    match build_tls(&o, true) {
        Ok(TlsPlan::SelfSigned { gateway: Some(g), .. }) => assert_eq!(g.name, "holofs-gateway"),
        _ => panic!("self-signed expected"),
    }
    o.cert_path = Some("c".into());
    assert_eq!(
        build_tls(&o, true).unwrap_err(),
        "partial TLS config: provide all of --tls-cert, --tls-key, --tls-ca-cert"
    );
    o.key_path = Some("k".into());
    o.ca_path = Some("a".into());
    assert!(matches!(build_tls(&o, true), Ok(TlsPlan::Files { .. })));
}

#[test]
fn ends_are_set_up_as_planned() {
    let off = tls_configs(&TlsPlan::Off, None).ok().unwrap();
    assert!(off.server.is_none() && off.client.is_none() && off.signer.is_none());

    let mut o = TlsOptions::off();
    o.enabled = true;
    for mtls in [false, true] {
        o.mtls = mtls;
        let e = tls_configs(&build_tls(&o, true).unwrap(), None).ok().unwrap();
        let (server, client) = (e.server.unwrap(), e.client.unwrap());
        let (node, by) = (e.node_leaf.unwrap(), e.signer.unwrap());
        assert_eq!(server.parts().chain, vec![node.der().to_vec()]);
        assert_eq!(server.parts().roots.is_some(), mtls);
        assert_eq!(client.parts().roots.roots.len(), 1);
        match &client.parts().identity {
            Some((chain, _)) => {
                let own = e.gateway_leaf.unwrap();
                assert!(mtls);
                assert_eq!(*chain, vec![own.der().to_vec()]);
                assert_eq!(own.issuer_der(), node.issuer_der());
            }
            None => assert!(!mtls && e.gateway_leaf.is_none()),
        }
        let (_, more) = by.issue_leaf("more", &vec!["localhost".into()]).ok().unwrap();
        assert_eq!(more.issuer_der(), node.issuer_der());
        // Both ends can talk to each other.
        let name = rustls::pki_types::ServerName::try_from("localhost").unwrap();
        let mut c = rustls::ClientConnection::new(client.config().clone(), name).unwrap();
        let mut s = rustls::ServerConnection::new(server.config().clone()).unwrap();
        shake_hands(&mut c, &mut s).unwrap();
        assert!(!c.is_handshaking() && !s.is_handshaking());
        // Nodes that run by themselves have an end of their own.
        let e = tls_configs(&build_tls(&o, false).unwrap(), None).ok().unwrap();
        assert!(e.server.is_none() && e.client.is_some());
    }

    let (m, _, _) = TlsMaterial::self_signed("n", &vec!["127.0.0.1".into()]).ok().unwrap();
    let plan = |embedded: bool| TlsPlan::Files {
        cert: "c".into(),
        key: "k".into(),
        ca: "a".into(),
        mtls: true,
        embedded,
    };
    let files = || (m.leaf.cert_pem.clone(), m.leaf.key_pem.clone(), m.ca.ca_cert_pem.clone());
    let e = tls_configs(&plan(false), Some(files())).ok().unwrap();
    assert!(e.server.is_none(), "the nodes run by themselves");
    let shown = parse_certs(&m.leaf.cert_pem).unwrap();
    assert_eq!(e.client.unwrap().parts().identity.as_ref().unwrap().0, shown);
    let e = tls_configs(&plan(true), Some(files())).ok().unwrap();
    assert_eq!(e.server.unwrap().parts().chain, shown);
    let broken = || (m.leaf.cert_pem.clone(), "none".to_string(), m.ca.ca_cert_pem.clone());
    let e = tls_configs(&plan(false), Some(broken())).err().unwrap();
    assert!(e.starts_with("client config: pem parse: "), "{e}");
    let e = tls_configs(&plan(true), Some(broken())).err().unwrap();
    assert!(e.starts_with("server config: pem parse: "), "{e}");
}

/// Carries what one end has to say to the other, until both have nothing more to say.
fn shake_hands(
    client: &mut rustls::ClientConnection,
    server: &mut rustls::ServerConnection,
) -> Result<(), rustls::Error> {
    for _ in 0..10 {
        let mut to_server = Vec::new();
        while client.wants_write() {
            client.write_tls(&mut to_server).unwrap();
        }
        let mut rest = to_server.as_slice();
        while !rest.is_empty() {
            server.read_tls(&mut rest).unwrap();
            server.process_new_packets()?;
        }
        let mut to_client = Vec::new();
        while server.wants_write() {
            server.write_tls(&mut to_client).unwrap();
        }
        let mut rest = to_client.as_slice();
        while !rest.is_empty() {
            client.read_tls(&mut rest).unwrap();
            client.process_new_packets()?;
        }
    }
    Ok(())
}

#[test]
fn mtls_node_accepts_client_with_valid_cert() {
    let made = |name: &str| TlsMaterial::self_signed(name, &vec!["127.0.0.1".into()]).ok().unwrap().0;
    let material = made("test-node");
    let server_cfg = material.server_config(true).unwrap();
    let client_cfg = material.client_config(true).unwrap();
    let client_cfg_bad = made("intruder").client_config(true).unwrap();
    let name = server_name_for("127.0.0.1:9000").unwrap();
    assert_eq!(name.kind, SniKind::IpAddress);
    let sni = || rustls::pki_types::ServerName::try_from(name.host.clone()).unwrap();

    let mut client = rustls::ClientConnection::new(client_cfg.config().clone(), sni()).unwrap();
    let mut server = rustls::ServerConnection::new(server_cfg.config().clone()).unwrap();
    shake_hands(&mut client, &mut server).unwrap();
    assert!(!client.is_handshaking() && !server.is_handshaking());

    let mut client = rustls::ClientConnection::new(client_cfg_bad.config().clone(), sni()).unwrap();
    let mut server = rustls::ServerConnection::new(server_cfg.config().clone()).unwrap();
    assert!(
        shake_hands(&mut client, &mut server).is_err(),
        "mtls node must reject client cert signed by a different CA"
    );
}
