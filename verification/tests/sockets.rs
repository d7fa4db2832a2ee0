use std::io::{Read, Write};
use std::sync::Arc;

use otk::frame::stream::{encode_stream, StreamFrameDecoder};
use otk::ingest::config::{ConfigError, TlsConfig, UnixSocketIngestConfig};
use otk::ingest::handshake::AllowAll;
use otk::ingest::session::{ConnectPhase, ConnectStep};
use otk::ingest::socket::{
    begin_bind, resume_bind, unix_peer_name, BindAction, BindEvent, BindRefusal, PathEntry,
};
use otk::ingest::tls::{
    build_server_config, load_certs, load_material, load_private_key, take_certs, take_key,
    KeyKind, PemKey, TlsAcceptError,
};
use otk::model::ids::ProducerId;
use otk::protocol::envelope::{MessageType, OtkEnvelope};
use otk::protocol::messages::{Connect, ConnectAck};
use otk::protocol::PROTOCOL_VERSION;
use otk::wire::{decode, to_vec};

const SOCKET: PathEntry = PathEntry { is_socket: true, device: 1, inode: 2 };

fn run(config: &UnixSocketIngestConfig, events: &[BindEvent]) -> BindAction {
    let mut state = begin_bind(config);
    for event in events {
        state = resume_bind(config, state.phase.expect("the attempt is not over"), *event);
    }
    state.action
}

fn takeover() -> UnixSocketIngestConfig {
    UnixSocketIngestConfig { force_rebind: true, ..Default::default() }
}

#[test]
fn fresh_path_is_bound() {
    let config = UnixSocketIngestConfig::default();
    assert_eq!(run(&config, &[]), BindAction::Stat);
    assert_eq!(run(&config, &[BindEvent::Missing]), BindAction::Bind);
    assert_eq!(run(&config, &[BindEvent::Missing, BindEvent::Done]), BindAction::Finish);
}

#[test]
fn stale_socket_is_removed() {
    let config = UnixSocketIngestConfig::default();
    let entry = BindEvent::Entry(SOCKET);
    assert_eq!(run(&config, &[entry]), BindAction::Probe);
    assert_eq!(run(&config, &[entry, BindEvent::Refused]), BindAction::Stat);
    assert_eq!(run(&config, &[entry, BindEvent::Refused, entry]), BindAction::Remove);
    assert_eq!(
        run(&config, &[entry, BindEvent::Refused, entry, BindEvent::Done]),
        BindAction::Bind
    );
    assert_eq!(
        run(&config, &[entry, BindEvent::Refused, entry, BindEvent::Missing]),
        BindAction::Bind
    );
}

#[test]
fn other_files_are_never_removed() {
    let file = PathEntry { is_socket: false, device: 1, inode: 2 };
    for config in [UnixSocketIngestConfig::default(), takeover()] {
        assert_eq!(
            run(&config, &[BindEvent::Entry(file)]),
            BindAction::Refuse(BindRefusal::NotASocket)
        );
    }
}

#[test]
fn live_socket_is_left_alone() {
    let config = UnixSocketIngestConfig::default();
    assert_eq!(
        run(&config, &[BindEvent::Entry(SOCKET), BindEvent::Done]),
        BindAction::Refuse(BindRefusal::InUse)
    );
    // Unless a takeover was asked for: then nobody is asked.
    assert_eq!(run(&takeover(), &[BindEvent::Entry(SOCKET)]), BindAction::Stat);
    assert_eq!(
        run(&takeover(), &[BindEvent::Entry(SOCKET), BindEvent::Entry(SOCKET)]),
        BindAction::Remove
    );
}

#[test]
fn replaced_entry_is_not_removed() {
    let config = UnixSocketIngestConfig::default();
    let first = BindEvent::Entry(SOCKET);
    for other in [
        PathEntry { inode: 3, ..SOCKET },
        PathEntry { device: 9, ..SOCKET },
        PathEntry { is_socket: false, ..SOCKET },
    ] {
        assert_eq!(
            run(&config, &[first, BindEvent::Refused, BindEvent::Entry(other)]),
            BindAction::Refuse(BindRefusal::Replaced)
        );
    }
}

#[test]
fn socket_that_disappears_is_no_trouble() {
    let config = UnixSocketIngestConfig::default();
    let entry = BindEvent::Entry(SOCKET);
    assert_eq!(run(&config, &[entry, BindEvent::Missing]), BindAction::Bind);
    assert_eq!(
        run(&config, &[entry, BindEvent::Refused, BindEvent::Missing]),
        BindAction::Bind
    );
}

#[test]
fn failures_end_the_attempt() {
    let config = UnixSocketIngestConfig::default();
    let entry = BindEvent::Entry(SOCKET);
    assert_eq!(run(&config, &[BindEvent::Failed]), BindAction::Fail);
    assert_eq!(run(&config, &[entry, BindEvent::Failed]), BindAction::FailProbe);
    assert_eq!(
        run(&config, &[entry, BindEvent::Refused, BindEvent::Failed]),
        BindAction::Fail
    );
    assert_eq!(run(&config, &[BindEvent::Missing, BindEvent::Failed]), BindAction::Fail);
}

#[test]
fn permissions_are_set_when_asked_for() {
    let config = UnixSocketIngestConfig {
        socket_permissions: Some(0o660),
        ..Default::default()
    };
    assert_eq!(
        run(&config, &[BindEvent::Missing, BindEvent::Done]),
        BindAction::SetPermissions { mode: 0o660 }
    );
    assert_eq!(
        run(&config, &[BindEvent::Missing, BindEvent::Done, BindEvent::Done]),
        BindAction::Finish
    );
}

#[test]
fn impossible_configuration_is_refused_first() {
    let config = UnixSocketIngestConfig { max_frame_bytes: 0, ..Default::default() };
    assert_eq!(
        begin_bind(&config).action,
        BindAction::Refuse(BindRefusal::Config(ConfigError::ZeroMaxFrameBytes))
    );
    let config = UnixSocketIngestConfig { handshake_timeout_ns: 0, ..Default::default() };
    assert_eq!(
        begin_bind(&config).action,
        BindAction::Refuse(BindRefusal::Config(ConfigError::ZeroHandshakeTimeout))
    );
}

#[test]
fn refusals_name_the_path() {
    assert_eq!(
        BindRefusal::InUse.message("/run/x.sock", ""),
        "refusing to bind: /run/x.sock is already owned by an active listener; set force_rebind = true to take over intentionally"
    );
    assert_eq!(
        BindRefusal::NotASocket.message("/run/x", "FileType { is_file: true }"),
        "refusing to bind: /run/x exists and is not a Unix domain socket (file type: FileType { is_file: true }); aborting rather than risk deleting the wrong file"
    );
    assert!(BindRefusal::Replaced.message("/run/x", "").contains("/run/x was replaced"));
    assert_eq!(
        BindRefusal::Config(ConfigError::ZeroMaxFrameBytes).message("/run/x", ""),
        "max_frame_bytes must be > 0"
    );
}

#[test]
fn peers_have_names() {
    assert_eq!(unix_peer_name(None), "unix:anonymous");
    assert_eq!(unix_peer_name(Some("/run/p.sock")), "unix:/run/p.sock");
}

// TLS, with the bytes of both sides handed over in memory

struct TlsFixture {
    server_chain_pem: String,
    server_key_pem: String,
    server_ca_pem: String,
    client_ca_pem: Option<String>,
    client_cert_pem: Option<String>,
    client_key_pem: Option<String>,
}

fn gen_server_cert(with_client_ca: bool) -> TlsFixture {
    let ca = rcgen::generate_simple_self_signed(vec!["otk-test-ca".to_string()]).unwrap();
    let server_params = rcgen::CertificateParams::new(vec!["localhost".to_string()]).unwrap();
    let server_cert = server_params
        .signed_by(&ca.key_pair, &ca.cert, &ca.key_pair)
        .unwrap();
    let mut fixture = TlsFixture {
        server_chain_pem: format!("{}{}", server_cert.pem(), ca.cert.pem()),
        server_key_pem: ca.key_pair.serialize_pem(),
        server_ca_pem: ca.cert.pem(),
        client_ca_pem: None,
        client_cert_pem: None,
        client_key_pem: None,
    };
    if with_client_ca {
        let client_ca =
            rcgen::generate_simple_self_signed(vec!["otk-client-ca".to_string()]).unwrap();
        let client_params = rcgen::CertificateParams::new(vec!["test-client".to_string()]).unwrap();
        let client_cert = client_params
            .signed_by(&client_ca.key_pair, &client_ca.cert, &client_ca.key_pair)
            .unwrap();
        fixture.client_ca_pem = Some(client_ca.cert.pem());
        fixture.client_cert_pem = Some(format!("{}{}", client_cert.pem(), client_ca.cert.pem()));
        fixture.client_key_pem = Some(client_ca.key_pair.serialize_pem());
    }
    fixture
}

fn tls_config(with_client_ca: bool) -> TlsConfig {
    TlsConfig {
        cert_chain: "server-chain.pem".to_string(),
        private_key: "server-key.pem".to_string(),
        client_ca: if with_client_ca { Some("client-ca.pem".to_string()) } else { None },
    }
}

fn server_config(fixture: &TlsFixture) -> rustls::ServerConfig {
    let client_ca = fixture.client_ca_pem.as_ref().map(|pem| Ok(pem.clone().into_bytes()));
    let material = load_material(
        &tls_config(client_ca.is_some()),
        Ok(fixture.server_chain_pem.clone().into_bytes()),
        Ok(fixture.server_key_pem.clone().into_bytes()),
        client_ca,
    )
    .unwrap();
    build_server_config(material).unwrap()
}

fn client_rustls_config(fixture: &TlsFixture, client_cert: bool) -> rustls::ClientConfig {
    let mut roots = rustls::RootCertStore::empty();
    for der in load_certs("ca", Ok(fixture.server_ca_pem.clone().into_bytes())).unwrap() {
        roots.add(der.into()).unwrap();
    }
    let provider = Arc::new(rustls::crypto::aws_lc_rs::default_provider());
    let builder = rustls::ClientConfig::builder_with_provider(provider)
        .with_safe_default_protocol_versions()
        .unwrap()
        .with_root_certificates(roots);
    if client_cert {
        let chain = load_certs("client", Ok(fixture.client_cert_pem.clone().unwrap().into_bytes()))
            .unwrap()
            .into_iter()
            .map(rustls::pki_types::CertificateDer::from)
            .collect();
        let key = load_private_key("key", Ok(fixture.client_key_pem.clone().unwrap().into_bytes()))
            .unwrap();
        assert_eq!(key.kind, KeyKind::Pkcs8);
        let key = rustls::pki_types::PrivateKeyDer::Pkcs8(key.der.into());
        builder.with_client_auth_cert(chain, key).unwrap()
    } else {
        builder.with_no_client_auth()
    }
}

fn make_connect_envelope() -> OtkEnvelope {
    OtkEnvelope {
        protocol_version: PROTOCOL_VERSION,
        message_type: MessageType::Connect,
        source_id: ProducerId::from("tls-test-producer"),
        stream_id: None,
        sequence_number: None,
        correlation_id: None,
        payload: Some(to_vec(&Connect {
            protocol_version_min: PROTOCOL_VERSION,
            protocol_version_max: PROTOCOL_VERSION,
            streams: vec![],
            auth_token: None,
        })),
        traceparent: None,
    }
}

/// Lets a producer connect through TLS: both sides hand their bytes over until nobody has any
/// left. Gives what the producer is answered, or why the server gives up.
fn tls_exchange(
    server: rustls::ServerConfig,
    client: rustls::ClientConfig,
) -> Result<OtkEnvelope, rustls::Error> {
    let name = rustls::pki_types::ServerName::try_from("localhost").unwrap();
    let mut client = rustls::ClientConnection::new(Arc::new(client), name).unwrap();
    let mut server = rustls::ServerConnection::new(Arc::new(server)).unwrap();
    let frame = encode_stream(&make_connect_envelope(), 65_535).unwrap();
    client.writer().write_all(&frame).unwrap();
    let mut phase = Some(ConnectPhase::new(65_535));
    let mut answers = StreamFrameDecoder::new(65_535);
    for _ in 0..20 {
        let mut wire = Vec::new();
        while client.wants_write() {
            client.write_tls(&mut wire).unwrap();
        }
        let mut rest = &wire[..];
        while !rest.is_empty() {
            server.read_tls(&mut rest).unwrap();
            let state = server.process_new_packets()?;
            let mut plain = vec![0u8; state.plaintext_bytes_to_read()];
            if !plain.is_empty() {
                server.reader().read_exact(&mut plain).unwrap();
                match phase.take().unwrap().feed(&plain, &AllowAll) {
                    ConnectStep::ReadMore(next) => phase = Some(next),
                    ConnectStep::Accepted { frame, .. } => {
                        server.writer().write_all(&frame).unwrap();
                    }
                    _ => panic!("expected to be accepted"),
                }
            }
        }
        let mut wire = Vec::new();
        while server.wants_write() {
            server.write_tls(&mut wire).unwrap();
        }
        let mut rest = &wire[..];
        while !rest.is_empty() {
            client.read_tls(&mut rest).unwrap();
            let state = client.process_new_packets()?;
            let mut plain = vec![0u8; state.plaintext_bytes_to_read()];
            if !plain.is_empty() {
                client.reader().read_exact(&mut plain).unwrap();
                if let Some(answer) = answers.push(&plain).into_iter().next() {
                    return Ok(answer.unwrap());
                }
            }
        }
    }
    panic!("nobody has anything to say any more");
}

#[test]
fn server_tls_handshake_completes() {
    let fixture = gen_server_cert(false);
    let reply = tls_exchange(server_config(&fixture), client_rustls_config(&fixture, false))
        .expect("server should accept after TLS handshake");
    assert_eq!(reply.message_type, MessageType::ConnectAck);
    let ack: ConnectAck = decode(reply.payload.as_deref().unwrap()).unwrap();
    assert_eq!(ack.negotiated_version, PROTOCOL_VERSION);
}

#[test]
fn mutual_tls_with_client_cert_completes() {
    let fixture = gen_server_cert(true);
    let reply = tls_exchange(server_config(&fixture), client_rustls_config(&fixture, true))
        .expect("server should accept mutual TLS with a valid client cert");
    assert_eq!(reply.message_type, MessageType::ConnectAck);
}

#[test]
fn mutual_tls_without_client_cert_is_rejected() {
    let fixture = gen_server_cert(true);
    assert!(
        tls_exchange(server_config(&fixture), client_rustls_config(&fixture, false)).is_err(),
        "server must reject mTLS handshake without a client cert"
    );
}

#[test]
fn certificates_are_found_in_their_order() {
    let fixture = gen_server_cert(false);
    let mut pem = b"some words before\n".to_vec();
    pem.extend_from_slice(fixture.server_key_pem.as_bytes());
    pem.extend_from_slice(fixture.server_chain_pem.as_bytes());
    let certs = load_certs("chain", Ok(pem.clone())).unwrap();
    assert_eq!(certs.len(), 2);
    let ca = load_certs("ca", Ok(fixture.server_ca_pem.clone().into_bytes())).unwrap();
    assert_eq!(ca.len(), 1);
    assert_eq!(certs[1], ca[0]);
    let key = load_private_key("key", Ok(pem)).unwrap();
    assert_eq!(key.kind, KeyKind::Pkcs8);
    assert!(!key.der.is_empty());
}

#[test]
fn key_kinds_are_told_apart() {
    for (label, kind) in [
        ("RSA PRIVATE KEY", KeyKind::Pkcs1),
        ("EC PRIVATE KEY", KeyKind::Sec1),
        ("PRIVATE KEY", KeyKind::Pkcs8),
    ] {
        let pem = format!("-----BEGIN {label}-----\nAQID\n-----END {label}-----\n");
        let key = load_private_key("key", Ok(pem.into_bytes())).unwrap();
        assert_eq!(key.kind, kind);
        assert_eq!(key.der, vec![1, 2, 3]);
    }
}

#[test]
fn missing_material_is_reported() {
    let fixture = gen_server_cert(false);
    let chain = || Ok(fixture.server_chain_pem.clone().into_bytes());
    let key = || Ok(fixture.server_key_pem.clone().into_bytes());
    let gone = || Err("no such file".to_string());
    let fault = |r: Result<otk::ingest::tls::TlsMaterial, TlsAcceptError>| match r {
        Ok(_) => panic!("expected an error"),
        Err(e) => e.message(),
    };
    assert_eq!(
        fault(load_material(&tls_config(false), gone(), key(), None)),
        "failed to read TLS file server-chain.pem: no such file"
    );
    assert_eq!(
        fault(load_material(&tls_config(false), chain(), gone(), None)),
        "failed to read TLS file server-key.pem: no such file"
    );
    assert_eq!(
        fault(load_material(&tls_config(true), chain(), key(), Some(gone()))),
        "failed to read TLS file client-ca.pem: no such file"
    );
    assert_eq!(
        fault(load_material(&tls_config(false), Ok(b"nothing".to_vec()), key(), None)),
        "TLS cert chain at server-chain.pem contained no certificates"
    );
    assert_eq!(
        fault(load_material(&tls_config(false), chain(), Ok(vec![]), None)),
        "TLS key file at server-key.pem contained no usable private key"
    );
    assert!(fault(load_material(
        &tls_config(false),
        Ok(b"-----BEGIN CERTIFICATE-----\nAQID\n".to_vec()),
        key(),
        None
    ))
    .starts_with("failed to read TLS file server-chain.pem: section end"));
}

#[test]
fn what_was_found_is_judged() {
    assert_eq!(take_certs("p", Ok(vec![vec![1], vec![2]])).unwrap(), vec![vec![1], vec![2]]);
    assert!(matches!(take_certs("p", Ok(vec![])), Err(TlsAcceptError::NoCertificates(p)) if p == "p"));
    assert!(matches!(
        take_certs("p", Err("broken".to_string())),
        Err(TlsAcceptError::Io { path, reason }) if path == "p" && reason == "broken"
    ));
    let key = PemKey { kind: KeyKind::Sec1, der: vec![7] };
    assert_eq!(take_key("p", Ok(Some(key))).ok().unwrap().der, vec![7]);
    assert!(matches!(take_key("p", Ok(None)), Err(TlsAcceptError::NoPrivateKey(p)) if p == "p"));
    assert!(take_key("p", Err("broken".to_string())).is_err());
}

#[test]
fn material_that_is_no_good_is_refused() {
    let fixture = gen_server_cert(false);
    let other = gen_server_cert(false);
    // A key that belongs to another certificate.
    let material = load_material(
        &tls_config(false),
        Ok(fixture.server_chain_pem.clone().into_bytes()),
        Ok(other.server_key_pem.clone().into_bytes()),
        None,
    )
    .ok()
    .unwrap();
    assert!(matches!(build_server_config(material), Err(TlsAcceptError::RustlsBuild(_))));
    // An authority that is none.
    let material = load_material(
        &tls_config(true),
        Ok(fixture.server_chain_pem.clone().into_bytes()),
        Ok(fixture.server_key_pem.clone().into_bytes()),
        Some(Ok(b"-----BEGIN CERTIFICATE-----\nAQID\n-----END CERTIFICATE-----\n".to_vec())),
    )
    .ok()
    .unwrap();
    match build_server_config(material) {
        Err(e) => assert!(e.message().starts_with("rustls rejected the loaded material: ")),
        Ok(_) => panic!("expected an error"),
    }
}
