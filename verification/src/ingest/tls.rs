//! TLS for a listener: its certificates, its key, and who may connect.

use std::sync::Arc;

use rustls::pki_types::{CertificateDer, PrivateKeyDer};
use rustls::server::WebPkiClientVerifier;
use rustls::ServerConfig;
use vstd::prelude::*;
use vstd::string::*;

use crate::ingest::config::TlsConfig;

verus! {

/// `rustls::ServerConfig`: how a server speaks TLS.
#[verifier::external_type_specification]
#[verifier::external_body]
pub struct ExServerConfig(rustls::ServerConfig);

/// `rustls::RootCertStore`: the authorities that are trusted.
#[verifier::external_type_specification]
#[verifier::external_body]
pub struct ExRootCertStore(rustls::RootCertStore);

/// In which form a private key is.
#[derive(Debug, Clone, Copy, PartialEq, Eq, Structural)]
pub enum KeyKind {
    Pkcs1,
    Sec1,
    Pkcs8,
}

/// A private key.
pub struct PemKey {
    pub kind: KeyKind,
    pub der: Vec<u8>,
}

/// What a listener needs for TLS.
pub struct TlsMaterial {
    /// The certificate chain, the leaf first, each certificate in DER.
    pub cert_chain: Vec<Vec<u8>>,
    pub private_key: PemKey,
    /// The authorities that sign clients' certificates, where clients have to
    /// show one.
    pub client_ca: Option<Vec<Vec<u8>>>,
}

/// Why a listener cannot speak TLS.
#[derive(Debug)]
#[allow(inconsistent_fields)]
pub enum TlsAcceptError {
    /// A file cannot be read.
    Io { path: String, reason: String },
    /// A certificate file without certificates.
    NoCertificates(String),
    /// A key file without a key.
    NoPrivateKey(String),
    /// A file of authorities without certificates.
    NoClientCaCerts(String),
    /// The material is there, but it is no good.
    RustlsBuild(String),
}

/// Why a listener cannot speak TLS, as a model.
#[verifier::ext_equal]
pub enum TlsFault {
    Io(Seq<char>, Seq<char>),
    NoCertificates(Seq<char>),
    NoPrivateKey(Seq<char>),
    NoClientCaCerts(Seq<char>),
    RustlsBuild(Seq<char>),
}

impl View for TlsAcceptError {
    type V = TlsFault;

    open spec fn view(&self) -> TlsFault {
        match self {
            TlsAcceptError::Io { path, reason } => TlsFault::Io(path@, reason@),
            TlsAcceptError::NoCertificates(p) => TlsFault::NoCertificates(p@),
            TlsAcceptError::NoPrivateKey(p) => TlsFault::NoPrivateKey(p@),
            TlsAcceptError::NoClientCaCerts(p) => TlsFault::NoClientCaCerts(p@),
            TlsAcceptError::RustlsBuild(e) => TlsFault::RustlsBuild(e@),
        }
    }
}

impl TlsAcceptError {
    /// The sentence for the error.
    pub open spec fn text(&self) -> Seq<char> {
        match self@ {
            TlsFault::Io(path, reason) => "failed to read TLS file "@ + path + ": "@ + reason,
            TlsFault::NoCertificates(p) => "TLS cert chain at "@ + p
                + " contained no certificates"@,
            TlsFault::NoPrivateKey(p) => "TLS key file at "@ + p
                + " contained no usable private key"@,
            TlsFault::NoClientCaCerts(p) => "TLS client-CA file at "@ + p
                + " contained no certificates"@,
            TlsFault::RustlsBuild(e) => "rustls rejected the loaded material: "@ + e,
        }
    }

    /// A sentence that tells a person what is wrong.
    pub fn message(&self) -> (r: String)
        ensures
            r@ == self.text(),
    {
        match self {
            TlsAcceptError::Io { path, reason } => "failed to read TLS file ".to_owned().concat(
                path.as_str(),
            ).concat(": ").concat(reason.as_str()),
            TlsAcceptError::NoCertificates(p) => "TLS cert chain at ".to_owned().concat(
                p.as_str(),
            ).concat(" contained no certificates"),
            TlsAcceptError::NoPrivateKey(p) => "TLS key file at ".to_owned().concat(
                p.as_str(),
            ).concat(" contained no usable private key"),
            TlsAcceptError::NoClientCaCerts(p) => "TLS client-CA file at ".to_owned().concat(
                p.as_str(),
            ).concat(" contained no certificates"),
            TlsAcceptError::RustlsBuild(e) => "rustls rejected the loaded material: ".to_owned().concat(
                e.as_str(),
            ),
        }
    }
}

/// Certificates in DER, as byte sequences.
pub open spec fn ders(certs: Seq<Vec<u8>>) -> Seq<Seq<u8>> {
    Seq::new(certs.len(), |i: int| certs[i]@)
}

/// The certificates in a PEM file, as `rustls_pemfile::certs` gives them, or
/// the text of the error that it ends with.
pub uninterp spec fn pem_certs(pem: Seq<u8>) -> Result<Seq<Seq<u8>>, Seq<char>>;

/// The first private key in a PEM file, as `rustls_pemfile::private_key` gives
/// it, or the text of the error that it ends with.
pub uninterp spec fn pem_key(pem: Seq<u8>) -> Result<Option<(KeyKind, Seq<u8>)>, Seq<char>>;

/// The trust anchor that `rustls::RootCertStore::add` takes from a certificate,
/// or the text of its error.
pub uninterp spec fn anchor_of(der: Seq<u8>) -> Result<Seq<u8>, Seq<char>>;

/// The trust anchors in a store, in the order in which they were added.
pub uninterp spec fn anchors_in(store: rustls::RootCertStore) -> Seq<Seq<u8>>;

/// The text of the error with which rustls refuses a certificate chain with a
/// key (`with_single_cert`), if it does.
pub uninterp spec fn single_cert_fault(
    chain: Seq<Seq<u8>>,
    kind: KeyKind,
    key: Seq<u8>,
) -> Option<Seq<char>>;

/// What a configuration was made with: the anchors under which clients have to
/// show a certificate, if they have to, the chain that is shown to them, and the
/// key with its form.
pub uninterp spec fn made_with(config: rustls::ServerConfig) -> (
    Option<Seq<Seq<u8>>>,
    Seq<Seq<u8>>,
    KeyKind,
    Seq<u8>,
);

/// `rustls_pemfile::certs` on bytes in memory: all certificates of the file in
/// their order, or the first error. What that comes to for given bytes is left
/// to the name [`pem_certs`].
#[verifier::external_body]
fn read_certs(pem: &[u8]) -> (r: Result<Vec<Vec<u8>>, String>)
    ensures
        match r {
            Ok(certs) => pem_certs(pem@) is Ok && pem_certs(pem@)->Ok_0 == ders(certs@),
            Err(e) => pem_certs(pem@) is Err && pem_certs(pem@)->Err_0 == e@,
        },
{
    let mut reader = pem;
    let found: Result<Vec<_>, std::io::Error> = rustls_pemfile::certs(&mut reader).collect();
    match found {
        Ok(certs) => Ok(certs.iter().map(|cert| cert.to_vec()).collect()),
        Err(e) => Err(e.to_string()),
    }
}

/// `rustls_pemfile::private_key` on bytes in memory: the first private key of
/// the file, of whatever form. What that is for given bytes is left to the name
/// [`pem_key`].
#[verifier::external_body]
fn read_key(pem: &[u8]) -> (r: Result<Option<PemKey>, String>)
    ensures
        match r {
            Ok(Some(key)) => pem_key(pem@) is Ok && pem_key(pem@)->Ok_0 == Some(
                (key.kind, key.der@),
            ),
            Ok(None) => pem_key(pem@) is Ok && pem_key(pem@)->Ok_0 is None,
            Err(e) => pem_key(pem@) is Err && pem_key(pem@)->Err_0 == e@,
        },
{
    let mut reader = pem;
    let key = rustls_pemfile::private_key(&mut reader).map_err(|e| e.to_string())?;
    let kind = match &key {
        Some(PrivateKeyDer::Pkcs1(_)) => KeyKind::Pkcs1,
        Some(PrivateKeyDer::Sec1(_)) => KeyKind::Sec1,
        _ => KeyKind::Pkcs8,
    };
    Ok(key.map(|key| PemKey { kind, der: key.secret_der().to_vec() }))
}

/// `rustls::RootCertStore::empty`: a store without anchors.
#[verifier::external_body]
fn no_roots() -> (r: rustls::RootCertStore)
    ensures
        anchors_in(r) == Seq::<Seq<u8>>::empty(),
{
    rustls::RootCertStore::empty()
}

/// `rustls::RootCertStore::add`: adds the anchor of a certificate behind those
/// that are there; a certificate that has none changes nothing. Which anchor a
/// certificate has is left to the name [`anchor_of`].
#[verifier::external_body]
fn add_root(store: &mut rustls::RootCertStore, der: &Vec<u8>) -> (r: Result<(), String>)
    ensures
        match r {
            Ok(_) => anchor_of(der@) is Ok && anchors_in(*final(store)) == anchors_in(
                *old(store),
            ).push(anchor_of(der@)->Ok_0),
            Err(e) => anchor_of(der@) is Err && anchor_of(der@)->Err_0 == e@ && anchors_in(
                *final(store),
            ) == anchors_in(*old(store)),
        },
{
    store.add(CertificateDer::from(der.as_slice())).map_err(|e| e.to_string())
}

/// `rustls::ServerConfig`, built with the AWS-LC provider and without client
/// authentication: refused exactly where `with_single_cert` refuses the chain
/// with the key, which is left to the name [`single_cert_fault`]. Clients are
/// shown the chain, and need show nothing.
#[verifier::external_body]
fn plain_config(chain: Vec<Vec<u8>>, key: PemKey) -> (r: Result<rustls::ServerConfig, String>)
    ensures
        match r {
            Ok(config) => single_cert_fault(ders(chain@), key.kind, key.der@) is None && made_with(
                config,
            ) == (None::<Seq<Seq<u8>>>, ders(chain@), key.kind, key.der@),
            Err(e) => single_cert_fault(ders(chain@), key.kind, key.der@) == Some(e@),
        },
{
    let provider = Arc::new(rustls::crypto::aws_lc_rs::default_provider());
    let builder = ServerConfig::builder_with_provider(provider);
    let builder = builder.with_safe_default_protocol_versions().map_err(|e| e.to_string())?;
    let certs = chain.into_iter().map(CertificateDer::from).collect();
    let key = match key.kind {
        KeyKind::Pkcs1 => PrivateKeyDer::Pkcs1(key.der.into()),
        KeyKind::Sec1 => PrivateKeyDer::Sec1(key.der.into()),
        KeyKind::Pkcs8 => PrivateKeyDer::Pkcs8(key.der.into()),
    };
    builder.with_no_client_auth().with_single_cert(certs, key).map_err(|e| e.to_string())
}

/// `rustls::ServerConfig`, built as in [`plain_config`], with a
/// `WebPkiClientVerifier` that wants of every client a certificate under one of
/// the anchors. Without anchors it is refused; otherwise exactly where
/// [`plain_config`] is.
#[verifier::external_body]
fn mutual_config(roots: rustls::RootCertStore, chain: Vec<Vec<u8>>, key: PemKey) -> (r: Result<
    rustls::ServerConfig,
    String,
>)
    ensures
        match r {
            Ok(config) => anchors_in(roots).len() > 0 && single_cert_fault(
                ders(chain@),
                key.kind,
                key.der@,
            ) is None && made_with(config) == (
                Some(anchors_in(roots)),
                ders(chain@),
                key.kind,
                key.der@,
            ),
            Err(e) => if anchors_in(roots).len() == 0 {
                e@ == "no root trust anchors were provided"@
            } else {
                single_cert_fault(ders(chain@), key.kind, key.der@) == Some(e@)
            },
        },
{
    let provider = Arc::new(rustls::crypto::aws_lc_rs::default_provider());
    let verifier = WebPkiClientVerifier::builder_with_provider(Arc::new(roots), provider.clone());
    let verifier = verifier.build().map_err(|e| e.to_string())?;
    let builder = ServerConfig::builder_with_provider(provider);
    let builder = builder.with_safe_default_protocol_versions().map_err(|e| e.to_string())?;
    let certs = chain.into_iter().map(CertificateDer::from).collect();
    let key = match key.kind {
        KeyKind::Pkcs1 => PrivateKeyDer::Pkcs1(key.der.into()),
        KeyKind::Sec1 => PrivateKeyDer::Sec1(key.der.into()),
        KeyKind::Pkcs8 => PrivateKeyDer::Pkcs8(key.der.into()),
    };
    builder.with_client_cert_verifier(verifier).with_single_cert(certs, key).map_err(|e| e.to_string())
}

/// What a file of certificates comes to, by what was found in it.
pub open spec fn certs_outcome(
    path: Seq<char>,
    found: Result<Seq<Seq<u8>>, Seq<char>>,
) -> Result<Seq<Seq<u8>>, TlsFault> {
    match found {
        Err(reason) => Err(TlsFault::Io(path, reason)),
        Ok(certs) => if certs.len() == 0 {
            Err(TlsFault::NoCertificates(path))
        } else {
            Ok(certs)
        },
    }
}

/// What a key file comes to, by what was found in it.
pub open spec fn key_outcome(
    path: Seq<char>,
    found: Result<Option<(KeyKind, Seq<u8>)>, Seq<char>>,
) -> Result<(KeyKind, Seq<u8>), TlsFault> {
    match found {
        Err(reason) => Err(TlsFault::Io(path, reason)),
        Ok(None) => Err(TlsFault::NoPrivateKey(path)),
        Ok(Some(key)) => Ok(key),
    }
}

/// The model of what was found in a file of certificates.
pub open spec fn found_certs(found: Result<Vec<Vec<u8>>, String>) -> Result<
    Seq<Seq<u8>>,
    Seq<char>,
> {
    match found {
        Ok(certs) => Ok(ders(certs@)),
        Err(e) => Err(e@),
    }
}

/// The model of what was found in a key file.
pub open spec fn found_key(found: Result<Option<PemKey>, String>) -> Result<
    Option<(KeyKind, Seq<u8>)>,
    Seq<char>,
> {
    match found {
        Ok(Some(key)) => Ok(Some((key.kind, key.der@))),
        Ok(None) => Ok(None),
        Err(e) => Err(e@),
    }
}

/// Takes the certificates that were found in a file: there have to be some.
pub fn take_certs(path: &str, found: Result<Vec<Vec<u8>>, String>) -> (r: Result<
    Vec<Vec<u8>>,
    TlsAcceptError,
>)
    ensures
        match r {
            Ok(certs) => certs_outcome(path@, found_certs(found)) == Ok::<
                Seq<Seq<u8>>,
                TlsFault,
            >(ders(certs@)),
            Err(e) => certs_outcome(path@, found_certs(found)) == Err::<Seq<Seq<u8>>, TlsFault>(
                e@,
            ),
        },
{
    match found {
        Err(reason) => Err(TlsAcceptError::Io { path: path.to_owned(), reason }),
        Ok(certs) => if certs.len() == 0 {
            Err(TlsAcceptError::NoCertificates(path.to_owned()))
        } else {
            Ok(certs)
        },
    }
}

/// Takes the key that was found in a file: there has to be one.
pub fn take_key(path: &str, found: Result<Option<PemKey>, String>) -> (r: Result<
    PemKey,
    TlsAcceptError,
>)
    ensures
        match r {
            Ok(key) => key_outcome(path@, found_key(found)) == Ok::<(KeyKind, Seq<u8>), TlsFault>(
                (key.kind, key.der@),
            ),
            Err(e) => key_outcome(path@, found_key(found)) == Err::<(KeyKind, Seq<u8>), TlsFault>(
                e@,
            ),
        },
{
    match found {
        Err(reason) => Err(TlsAcceptError::Io { path: path.to_owned(), reason }),
        Ok(None) => Err(TlsAcceptError::NoPrivateKey(path.to_owned())),
        Ok(Some(key)) => Ok(key),
    }
}

/// What was read from a file: its bytes, or why it could not be read.
pub type FileRead = Result<Vec<u8>, String>;

/// The certificates of a file, by what was read from it.
pub open spec fn certs_in(path: Seq<char>, file: FileRead) -> Result<Seq<Seq<u8>>, TlsFault> {
    match file {
        Err(reason) => Err(TlsFault::Io(path, reason@)),
        Ok(pem) => certs_outcome(path, pem_certs(pem@)),
    }
}

/// The key of a file, by what was read from it.
pub open spec fn key_in(path: Seq<char>, file: FileRead) -> Result<(KeyKind, Seq<u8>), TlsFault> {
    match file {
        Err(reason) => Err(TlsFault::Io(path, reason@)),
        Ok(pem) => key_outcome(path, pem_key(pem@)),
    }
}

/// The certificates of a file.
pub fn load_certs(path: &str, file: FileRead) -> (r: Result<Vec<Vec<u8>>, TlsAcceptError>)
    ensures
        match r {
            Ok(certs) => certs_in(path@, file) == Ok::<Seq<Seq<u8>>, TlsFault>(ders(certs@)),
            Err(e) => certs_in(path@, file) == Err::<Seq<Seq<u8>>, TlsFault>(e@),
        },
{
    match file {
        Err(reason) => Err(TlsAcceptError::Io { path: path.to_owned(), reason }),
        Ok(pem) => take_certs(path, read_certs(pem.as_slice())),
    }
}

/// The key of a file.
pub fn load_private_key(path: &str, file: FileRead) -> (r: Result<PemKey, TlsAcceptError>)
    ensures
        match r {
            Ok(key) => key_in(path@, file) == Ok::<(KeyKind, Seq<u8>), TlsFault>(
                (key.kind, key.der@),
            ),
            Err(e) => key_in(path@, file) == Err::<(KeyKind, Seq<u8>), TlsFault>(e@),
        },
{
    match file {
        Err(reason) => Err(TlsAcceptError::Io { path: path.to_owned(), reason }),
        Ok(pem) => take_key(path, read_key(pem.as_slice())),
    }
}

/// Why the material of a listener cannot be loaded, if it cannot: the first
/// fault among the chain, the key, and the authorities.
pub open spec fn material_fault(
    cfg: TlsConfig,
    chain: FileRead,
    key: FileRead,
    client_ca: Option<FileRead>,
) -> Option<TlsFault> {
    match certs_in(cfg.cert_chain@, chain) {
        Err(e) => Some(e),
        Ok(_) => match key_in(cfg.private_key@, key) {
            Err(e) => Some(e),
            Ok(_) => match (cfg.client_ca, client_ca) {
                (Some(path), Some(file)) => match certs_in(path@, file) {
                    Err(e) => Some(e),
                    Ok(_) => None,
                },
                _ => None,
            },
        },
    }
}

/// Loads the material of a listener, by what was read from its files.
pub fn load_material(
    cfg: &TlsConfig,
    chain: FileRead,
    key: FileRead,
    client_ca: Option<FileRead>,
) -> (r: Result<TlsMaterial, TlsAcceptError>)
    requires
        cfg.client_ca is Some == client_ca is Some,
    ensures
        match r {
            Ok(m) => {
                &&& material_fault(*cfg, chain, key, client_ca) is None
                &&& certs_in(cfg.cert_chain@, chain)->Ok_0 == ders(m.cert_chain@)
                &&& key_in(cfg.private_key@, key)->Ok_0 == (
                    m.private_key.kind,
                    m.private_key.der@,
                )
                &&& match (client_ca, m.client_ca) {
                    (Some(file), Some(certs)) => certs_in(cfg.client_ca->Some_0@, file)->Ok_0
                        == ders(certs@),
                    (None, None) => true,
                    _ => false,
                }
            },
            Err(e) => material_fault(*cfg, chain, key, client_ca) == Some(e@),
        },
{
    let cert_chain = match load_certs(cfg.cert_chain.as_str(), chain) {
        Ok(certs) => certs,
        Err(e) => {
            return Err(e);
        },
    };
    let private_key = match load_private_key(cfg.private_key.as_str(), key) {
        Ok(key) => key,
        Err(e) => {
            return Err(e);
        },
    };
    let client_ca = match (&cfg.client_ca, client_ca) {
        (Some(path), Some(file)) => match load_certs(path.as_str(), file) {
            Ok(certs) => Some(certs),
            Err(e) => {
                return Err(e);
            },
        },
        _ => None,
    };
    Ok(TlsMaterial { cert_chain, private_key, client_ca })
}

/// The text of the first error among the anchors of certificates, from number
/// `i` on.
pub open spec fn root_fault(certs: Seq<Seq<u8>>, i: int) -> Option<Seq<char>>
    decreases certs.len() - i,
{
    if 0 <= i < certs.len() {
        match anchor_of(certs[i]) {
            Err(e) => Some(e),
            Ok(_) => root_fault(certs, i + 1),
        }
    } else {
        None
    }
}

/// Why rustls refuses the material, if it does.
pub open spec fn build_fault(m: TlsMaterial) -> Option<Seq<char>> {
    let fault = single_cert_fault(ders(m.cert_chain@), m.private_key.kind, m.private_key.der@);
    match m.client_ca {
        None => fault,
        Some(ca) => match root_fault(ders(ca@), 0) {
            Some(e) => Some(e),
            None => if ca@.len() == 0 {
                Some("no root trust anchors were provided"@)
            } else {
                fault
            },
        },
    }
}

/// The anchors of certificates that all have one.
pub open spec fn anchors_of(certs: Seq<Seq<u8>>) -> Seq<Seq<u8>> {
    Seq::new(certs.len(), |i: int| anchor_of(certs[i])->Ok_0)
}

/// The anchors under which clients have to show a certificate, if they have to.
pub open spec fn client_anchors(m: TlsMaterial) -> Option<Seq<Seq<u8>>> {
    match m.client_ca {
        None => None,
        Some(ca) => Some(anchors_of(ders(ca@))),
    }
}

/// Builds the TLS side of a listener. Where authorities are given, every client
/// has to show a certificate that one of them signed.
pub fn build_server_config(material: TlsMaterial) -> (r: Result<
    rustls::ServerConfig,
    TlsAcceptError,
>)
    ensures
        match r {
            Ok(config) => build_fault(material) is None && made_with(config) == (
                client_anchors(material),
                ders(material.cert_chain@),
                material.private_key.kind,
                material.private_key.der@,
            ),
            Err(e) => build_fault(material) is Some && e@ == TlsFault::RustlsBuild(
                build_fault(material)->Some_0,
            ),
        },
{
    let TlsMaterial { cert_chain, private_key, client_ca } = material;
    let built = match client_ca {
        None => plain_config(cert_chain, private_key),
        Some(ca) => {
            let mut roots = no_roots();
            let mut i: usize = 0;
            assert(anchors_in(roots) =~= anchors_of(ders(ca@)).take(0));
            while i < ca.len()
                invariant
                    i <= ca@.len(),
                    material.client_ca == Some(ca),
                    anchors_in(roots) == anchors_of(ders(ca@)).take(i as int),
                    root_fault(ders(ca@), 0) == root_fault(ders(ca@), i as int),
                decreases ca@.len() - i,
            {
                assert(ders(ca@)[i as int] == ca@[i as int]@);
                if let Err(e) = add_root(&mut roots, &ca[i]) {
                    return Err(TlsAcceptError::RustlsBuild(e));
                }
                i = i + 1;
                assert(anchors_in(roots) =~= anchors_of(ders(ca@)).take(i as int));
            }
            assert(anchors_of(ders(ca@)).take(i as int) =~= anchors_of(ders(ca@)));
            mutual_config(roots, cert_chain, private_key)
        },
    };
    match built {
        Ok(config) => Ok(config),
        Err(e) => Err(TlsAcceptError::RustlsBuild(e)),
    }
}

/// A listener shows the chain of the first file with the key of the second. Clients
/// have to show a certificate if and only if there is a third file, and then under an
/// authority of that file: each of its certificates stands for one, in order.
pub proof fn law_listener_uses_its_files(
    cfg: TlsConfig,
    chain: Vec<u8>,
    key: Vec<u8>,
    ca: Option<Vec<u8>>,
    ca_file: Option<FileRead>,
    material: TlsMaterial,
    config: rustls::ServerConfig,
)
    requires
        cfg.client_ca is Some == ca is Some,
        ca_file == (match ca {
            Some(pem) => Some(Ok::<Vec<u8>, String>(pem)),
            None => None,
        }),
        call_ensures(
            load_material,
            (&cfg, Ok::<Vec<u8>, String>(chain), Ok::<Vec<u8>, String>(key), ca_file),
            Ok::<TlsMaterial, TlsAcceptError>(material),
        ),
        call_ensures(
            build_server_config,
            (material,),
            Ok::<rustls::ServerConfig, TlsAcceptError>(config),
        ),
    ensures
        ({
            let (anchors, shown, kind, der) = made_with(config);
            &&& pem_certs(chain@) == Ok::<Seq<Seq<u8>>, Seq<char>>(shown)
            &&& shown.len() > 0
            &&& pem_key(key@) == Ok::<Option<(KeyKind, Seq<u8>)>, Seq<char>>(Some((kind, der)))
            &&& match ca {
                None => anchors is None,
                Some(pem) => anchors matches Some(roots) && pem_certs(pem@) is Ok && roots.len()
                    == pem_certs(pem@)->Ok_0.len() && roots.len() > 0 && forall|i: int|
                    0 <= i < roots.len() ==> anchor_of(pem_certs(pem@)->Ok_0[i]) == Ok::<
                        Seq<u8>,
                        Seq<char>,
                    >(#[trigger] roots[i]),
            }
        }),
{
    if let Some(pem) = ca {
        let certs = ders(material.client_ca->Some_0@);
        assert forall|i: int| 0 <= i < certs.len() implies anchor_of(#[trigger] certs[i]) is Ok by {
            lemma_no_root_fault(certs, 0, i);
        }
    }
}

/// Where no certificate lacks an anchor, each has one.
proof fn lemma_no_root_fault(certs: Seq<Seq<u8>>, from: int, i: int)
    requires
        root_fault(certs, from) is None,
        0 <= from <= i < certs.len(),
    ensures
        anchor_of(certs[i]) is Ok,
    decreases i - from,
{
    if from < i {
        lemma_no_root_fault(certs, from + 1, i);
    }
}

/// A file that cannot be read is named with the reason, and so is one that lacks what
/// it is for: the chain before the key, and the key before the authorities.
pub proof fn law_first_bad_file(
    cfg: TlsConfig,
    chain: FileRead,
    key: FileRead,
    ca: Option<FileRead>,
    e: TlsAcceptError,
)
    requires
        cfg.client_ca is Some == ca is Some,
        call_ensures(
            load_material,
            (&cfg, chain, key, ca),
            Err::<TlsMaterial, TlsAcceptError>(e),
        ),
    ensures
        match chain {
            Err(reason) => e@ == TlsFault::Io(cfg.cert_chain@, reason@),
            Ok(pem) => match pem_certs(pem@) {
                Err(reason) => e@ == TlsFault::Io(cfg.cert_chain@, reason),
                Ok(certs) => if certs.len() == 0 {
                    e@ == TlsFault::NoCertificates(cfg.cert_chain@)
                } else {
                    match key {
                        Err(reason) => e@ == TlsFault::Io(cfg.private_key@, reason@),
                        Ok(pem) => match pem_key(pem@) {
                            Err(reason) => e@ == TlsFault::Io(cfg.private_key@, reason),
                            Ok(None) => e@ == TlsFault::NoPrivateKey(cfg.private_key@),
                            Ok(Some(_)) => ca is Some && match ca->Some_0 {
                                Err(reason) => e@ == TlsFault::Io(cfg.client_ca->Some_0@, reason@),
                                Ok(pem) => match pem_certs(pem@) {
                                    Err(reason) => e@ == TlsFault::Io(
                                        cfg.client_ca->Some_0@,
                                        reason,
                                    ),
                                    Ok(certs) => certs.len() == 0 && e@
                                        == TlsFault::NoCertificates(cfg.client_ca->Some_0@),
                                },
                            },
                        },
                    }
                },
            },
        },
{
}

} // verus!
