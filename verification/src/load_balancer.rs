//! The load balancer: which host a request is for, and what it is answered.

use vstd::prelude::*;

use crate::digest::{decimal, decimal_of};
use crate::error::{error, fault, outcome, Error, ErrorKind, Fault};
use crate::path::{join_path, joined_path, lies_in, starts_with};
use crate::text::{begins, begins_with, cat2, cat3, chars_of, cut, split_once, text_of};

verus! {

/// The parts of the address that a request is made to.
pub struct UriParts {
    pub scheme: Option<String>,
    pub authority: Option<String>,
    pub path_and_query: Option<String>,
}

/// The `Host` header of a request: there is none, it is no text, or it is this text.
pub enum HostHeader {
    Missing,
    Unreadable,
    Text(String),
}

/// The host in the authority `text`, where it is one.
pub uninterp spec fn authority_host(text: Seq<char>) -> Option<Seq<char>>;

/// `str::parse` for `http::uri::Authority`, and `Authority::host` of the result:
/// the host part of an authority, a function of the text alone.
#[verifier::external_body]
pub(crate) fn host_in(text: &str) -> (r: Option<String>)
    ensures
        r.deep_view() == authority_host(text@),
{
    text.parse::<hyper::http::uri::Authority>().ok().map(|authority| authority.host().to_string())
}

/// The address made of the given parts, where they make one.
pub uninterp spec fn assembled_uri(
    scheme: Seq<char>,
    authority: Seq<char>,
    path_and_query: Option<Seq<char>>,
) -> Option<Seq<char>>;

/// `http::Uri::from_parts` on parts that `str::parse` reads, and the `Display`
/// format of the result: an address, a function of the texts alone.
#[verifier::external_body]
pub(crate) fn assemble_uri(scheme: &str, authority: &str, path_and_query: &Option<String>) -> (r: Option<String>)
    ensures
        r.deep_view() == assembled_uri(scheme@, authority@, path_and_query.deep_view()),
{
    let mut parts = hyper::http::uri::Parts::default();
    parts.scheme = Some(scheme.parse().ok()?);
    parts.authority = Some(authority.parse().ok()?);
    parts.path_and_query = match path_and_query {
        Some(text) => Some(text.parse().ok()?),
        None => None,
    };
    hyper::Uri::from_parts(parts).ok().map(|uri| uri.to_string())
}

/// The host of a request, from what its header and its address name: a header
/// that is no text decides that there is none.
pub open spec fn chosen_host(header: HostHeader, from_header: Option<Seq<char>>, from_uri: Option<Seq<char>>) -> Option<
    Seq<char>,
> {
    match header {
        HostHeader::Missing => from_uri,
        HostHeader::Unreadable => None,
        HostHeader::Text(_) => match from_header {
            Some(host) => Some(host),
            None => from_uri,
        },
    }
}

pub fn choose_host(header: &HostHeader, from_header: Option<String>, from_uri: Option<String>) -> (r: Option<String>)
    ensures
        r.deep_view() == chosen_host(*header, from_header.deep_view(), from_uri.deep_view()),
{
    match header {
        HostHeader::Missing => from_uri,
        HostHeader::Unreadable => None,
        HostHeader::Text(_) => match from_header {
            Some(host) => Some(host),
            None => from_uri,
        },
    }
}

/// The host that an authority names, where there is an authority.
pub open spec fn host_of(authority: Option<Seq<char>>) -> Option<Seq<char>> {
    match authority {
        Some(text) => authority_host(text),
        None => None,
    }
}

/// The host that a request is for.
pub open spec fn request_host(header: HostHeader, authority: Option<Seq<char>>) -> Option<Seq<char>> {
    let from_header = match header {
        HostHeader::Text(text) => authority_host(text@),
        _ => None,
    };
    chosen_host(header, from_header, host_of(authority))
}

pub fn extract_host(header: &HostHeader, authority: &Option<String>) -> (r: Option<String>)
    ensures
        r.deep_view() == request_host(*header, authority.deep_view()),
{
    let from_header = match header {
        HostHeader::Text(text) => host_in(text.as_str()),
        _ => None,
    };
    let from_uri = match authority {
        Some(text) => host_in(text.as_str()),
        None => None,
    };
    choose_host(header, from_header, from_uri)
}

/// The path in a path with a query.
pub open spec fn path_part(path_and_query: Seq<char>) -> Seq<char> {
    let path = match cut(path_and_query, '?') {
        Some((path, _)) => path,
        None => path_and_query,
    };
    if path.len() == 0 {
        "/"@
    } else {
        path
    }
}

fn path_of(path_and_query: &str) -> (r: String)
    ensures
        r@ == path_part(path_and_query@),
{
    let path = match split_once(path_and_query, '?') {
        Some((path, _)) => path,
        None => path_and_query.to_owned(),
    };
    if path.as_str().is_empty() {
        "/".to_owned()
    } else {
        path
    }
}

/// The file that a request for a well-known resource names, below `root`.
pub open spec fn well_known_file(root: Option<Seq<char>>, path_and_query: Option<Seq<char>>) -> Option<Seq<char>> {
    match (root, path_and_query) {
        (Some(root), Some(pq)) => if begins(path_part(pq), "/.well-known/"@) {
            Some(joined_path(root, path_part(pq).subrange(1, path_part(pq).len() as int)))
        } else {
            None
        },
        _ => None,
    }
}

pub fn well_known_path(root: &Option<String>, path_and_query: &Option<String>) -> (r: Option<String>)
    ensures
        r.deep_view() == well_known_file(root.deep_view(), path_and_query.deep_view()),
{
    match (root, path_and_query) {
        (Some(root), Some(pq)) => {
            let path = path_of(pq.as_str());
            if begins_with(path.as_str(), "/.well-known/") {
                proof {
                    reveal_strlit("/.well-known/");
                }
                let chars = chars_of(path.as_str());
                let relative = text_of(&chars, 1, chars.len());
                Some(join_path(root.as_str(), relative.as_str()))
            } else {
                None
            }
        },
        _ => None,
    }
}

/// The file to serve: what the named file really is, where that is below `root`.
pub open spec fn served_file(root: Seq<char>, canonical: Option<Seq<char>>) -> Option<Seq<char>> {
    match canonical {
        Some(path) => if lies_in(path, root) {
            Some(path)
        } else {
            None
        },
        None => None,
    }
}

/// No file outside of the root is served.
pub proof fn law_served_inside(root: Seq<char>, canonical: Option<Seq<char>>)
    ensures
        served_file(root, canonical) matches Some(path) ==> lies_in(path, root),
{
}

pub fn servable(root: &str, canonical: Option<String>) -> (r: Option<String>)
    ensures
        r.deep_view() == served_file(root@, canonical.deep_view()),
{
    match canonical {
        Some(path) => if starts_with(path.as_str(), root) {
            Some(path)
        } else {
            None
        },
        None => None,
    }
}

/// What a request is answered.
pub enum Reply {
    /// Nothing but a status.
    Status(u16),
    /// The address where it is to be made instead.
    Location(String),
    /// The parts of its address make no address.
    Unbuildable,
}

/// What a `Reply` says.
#[verifier::ext_equal]
pub enum Answered {
    Status(u16),
    Location(Seq<char>),
    Unbuildable,
}

impl DeepView for Reply {
    type V = Answered;

    open spec fn deep_view(&self) -> Answered {
        match self {
            Reply::Status(status) => Answered::Status(*status),
            Reply::Location(uri) => Answered::Location(uri@),
            Reply::Unbuildable => Answered::Unbuildable,
        }
    }
}

/// The answer that leads to the address `built`, where there is one.
pub open spec fn leading_to(built: Option<Seq<char>>) -> Answered {
    match built {
        Some(uri) => Answered::Location(uri),
        None => Answered::Unbuildable,
    }
}

pub fn lead_to(built: Option<String>) -> (r: Reply)
    ensures
        r.deep_view() == leading_to(built.deep_view()),
{
    match built {
        Some(uri) => Reply::Location(uri),
        None => Reply::Unbuildable,
    }
}

/// The authority that a request is led to: that of its address, else its host.
pub open spec fn redirect_authority(authority: Option<Seq<char>>, host: Option<Seq<char>>) -> Option<Seq<char>> {
    match authority {
        Some(text) => Some(text),
        None => host,
    }
}

/// What a plain request is answered: it is to be made over TLS.
pub open spec fn redirect_answer(
    authority: Option<Seq<char>>,
    host: Option<Seq<char>>,
    path_and_query: Option<Seq<char>>,
) -> Answered {
    match redirect_authority(authority, host) {
        None => Answered::Status(400),
        Some(target) => leading_to(assembled_uri("https"@, target, path_and_query)),
    }
}

pub fn redirect(parts: &UriParts, header: &HostHeader) -> (r: Reply)
    ensures
        r.deep_view() == redirect_answer(
            parts.authority.deep_view(),
            request_host(*header, parts.authority.deep_view()),
            parts.path_and_query.deep_view(),
        ),
{
    let target = match &parts.authority {
        Some(text) => text.clone(),
        None => match extract_host(header, &parts.authority) {
            Some(host) => host,
            None => return Reply::Status(400),
        },
    };
    lead_to(assemble_uri("https", target.as_str(), &parts.path_and_query))
}

/// What is done with a request that did not come over a secure connection: a
/// file is looked for and served, or it is answered at once.
pub enum HttpStep {
    Look(String),
    Answer(Reply),
}

/// What an `HttpStep` says.
#[verifier::ext_equal]
pub enum HttpAnswer {
    Look(Seq<char>),
    Answer(Answered),
}

impl DeepView for HttpStep {
    type V = HttpAnswer;

    open spec fn deep_view(&self) -> HttpAnswer {
        match self {
            HttpStep::Look(path) => HttpAnswer::Look(path@),
            HttpStep::Answer(reply) => HttpAnswer::Answer(reply.deep_view()),
        }
    }
}

/// What is done with a request that did not come over a secure connection:
/// well-known files are served from `root`, where there is one, and any other
/// request is led to the same place over a secure connection.
pub fn handle_http(root: &Option<String>, parts: &UriParts, header: &HostHeader) -> (r: HttpStep)
    ensures
        r.deep_view() == (match well_known_file(root.deep_view(), parts.path_and_query.deep_view()) {
            Some(path) => HttpAnswer::Look(path),
            None => HttpAnswer::Answer(
                redirect_answer(
                    parts.authority.deep_view(),
                    request_host(*header, parts.authority.deep_view()),
                    parts.path_and_query.deep_view(),
                ),
            ),
        }),
{
    match well_known_path(root, &parts.path_and_query) {
        Some(path) => HttpStep::Look(path),
        None => HttpStep::Answer(redirect(parts, header)),
    }
}

/// What is done with a request that is passed on: it is answered where its host
/// or the backend of that host is not known, and else made to the backend.
pub open spec fn proxy_answer(
    host: Option<Seq<char>>,
    backend: Option<(Seq<char>, u16)>,
    path_and_query: Option<Seq<char>>,
) -> Answered {
    match host {
        None => Answered::Status(400),
        Some(_) => match backend {
            None => Answered::Status(404),
            Some((ip, port)) => leading_to(
                assembled_uri("http"@, ip + ":"@ + decimal(port as int), path_and_query),
            ),
        },
    }
}

/// What is done with a request for `host`, whose backend is `backend`.
pub fn proxy_request(host: &Option<String>, backend: &Option<(String, u16)>, path_and_query: &Option<String>) -> (r: Reply)
    ensures
        r.deep_view() == proxy_answer(host.deep_view(), backend.deep_view(), path_and_query.deep_view()),
{
    if host.is_none() {
        return Reply::Status(400);
    }
    match backend {
        None => Reply::Status(404),
        Some((ip, port)) => {
            let authority = cat3(ip.as_str(), ":", decimal_of(*port as u64).as_str());
            lead_to(assemble_uri("http", authority.as_str(), path_and_query))
        },
    }
}

/// How a private key is encoded.
#[derive(Clone, Copy, Debug, PartialEq, Eq, Structural)]
pub enum KeyFormat {
    Pkcs1,
    Sec1,
    Pkcs8,
}

pub struct PrivateKey {
    pub format: KeyFormat,
    pub der: Vec<u8>,
}

/// What a `PrivateKey` is.
impl DeepView for PrivateKey {
    type V = (KeyFormat, Seq<u8>);

    open spec fn deep_view(&self) -> (KeyFormat, Seq<u8>) {
        (self.format, self.der.deep_view())
    }
}

/// The certificates in a PEM file, or what is wrong with it.
pub uninterp spec fn pem_certificates(file: Seq<u8>) -> Result<Seq<Seq<u8>>, Seq<char>>;

/// The first private key in a PEM file, if there is one, or what is wrong with it.
pub uninterp spec fn pem_private_key(file: Seq<u8>) -> Result<Option<(KeyFormat, Seq<u8>)>, Seq<char>>;

/// What is wrong with a certificate chain and its key, if something is.
pub uninterp spec fn certificate_problem(chain: Seq<Seq<u8>>, key: (KeyFormat, Seq<u8>)) -> Option<Seq<char>>;

/// What a list of certificates, or the message in its place, says.
pub open spec fn certificates_told(r: Result<Vec<Vec<u8>>, String>) -> Result<Seq<Seq<u8>>, Seq<char>> {
    match r {
        Ok(certs) => Ok(certs.deep_view()),
        Err(message) => Err(message@),
    }
}

/// What a private key, or the message in its place, says.
pub open spec fn key_told(r: Result<Option<PrivateKey>, String>) -> Result<Option<(KeyFormat, Seq<u8>)>, Seq<char>> {
    match r {
        Ok(key) => Ok(key.deep_view()),
        Err(message) => Err(message@),
    }
}

/// `rustls_pemfile::certs` on the bytes of a file: the certificates in their
/// order, or the message of the first error; a function of the bytes alone.
#[verifier::external_body]
pub(crate) fn read_certificates(file: &Vec<u8>) -> (r: Result<Vec<Vec<u8>>, String>)
    ensures
        certificates_told(r) == pem_certificates(file@),
{
    let mut reader = file.as_slice();
    let certs: std::io::Result<Vec<_>> = rustls_pemfile::certs(&mut reader).collect();
    match certs {
        Ok(certs) => Ok(certs.into_iter().map(|cert| cert.to_vec()).collect()),
        Err(e) => Err(e.to_string()),
    }
}

/// `rustls_pemfile::private_key` on the bytes of a file: the first private key,
/// or the message of the first error before it; a function of the bytes alone.
#[verifier::external_body]
pub(crate) fn read_private_key(file: &Vec<u8>) -> (r: Result<Option<PrivateKey>, String>)
    ensures
        key_told(r) == pem_private_key(file@),
{
    let mut reader = file.as_slice();
    match rustls_pemfile::private_key(&mut reader) {
        Ok(Some(rustls::pki_types::PrivateKeyDer::Pkcs1(key))) => Ok(
            Some(PrivateKey { format: KeyFormat::Pkcs1, der: key.secret_pkcs1_der().to_vec() }),
        ),
        Ok(Some(rustls::pki_types::PrivateKeyDer::Sec1(key))) => Ok(
            Some(PrivateKey { format: KeyFormat::Sec1, der: key.secret_sec1_der().to_vec() }),
        ),
        Ok(Some(rustls::pki_types::PrivateKeyDer::Pkcs8(key))) => Ok(
            Some(PrivateKey { format: KeyFormat::Pkcs8, der: key.secret_pkcs8_der().to_vec() }),
        ),
        Ok(_) => Ok(None),
        Err(e) => Err(e.to_string()),
    }
}

#[verifier::external_type_specification]
#[verifier::external_body]
pub struct ExServerConfig(rustls::ServerConfig);

/// The certificate chain that a server with the configuration `config` answers
/// with, and the key that it signs with.
pub uninterp spec fn answers_with(config: rustls::ServerConfig) -> (Seq<Seq<u8>>, (KeyFormat, Seq<u8>));

/// `with_single_cert` of `rustls`' server configuration builder, with the
/// cryptography of `ring`: a configuration that answers with the given chain and
/// signs with the given key, or the message for a chain and a key that do not
/// fit.
#[verifier::external_body]
pub(crate) fn server_config(chain: Vec<Vec<u8>>, key: PrivateKey) -> (r: Result<rustls::ServerConfig, String>)
    ensures
        match r {
            Ok(config) => certificate_problem(chain.deep_view(), key.deep_view()) is None && answers_with(config) == (
                chain.deep_view(),
                key.deep_view(),
            ),
            Err(message) => certificate_problem(chain.deep_view(), key.deep_view()) == Some(message@),
        },
{
    let key = match key.format {
        KeyFormat::Pkcs1 => rustls::pki_types::PrivatePkcs1KeyDer::from(key.der).into(),
        KeyFormat::Sec1 => rustls::pki_types::PrivateSec1KeyDer::from(key.der).into(),
        KeyFormat::Pkcs8 => rustls::pki_types::PrivatePkcs8KeyDer::from(key.der).into(),
    };
    let chain = chain.into_iter().map(rustls::pki_types::CertificateDer::from).collect();
    rustls::ServerConfig::builder_with_provider(std::sync::Arc::new(rustls::crypto::ring::default_provider()))
        .with_safe_default_protocol_versions()
        .and_then(|builder| builder.with_no_client_auth().with_single_cert(chain, key))
        .map_err(|e| e.to_string())
}

/// The configuration of a TLS server.
pub struct TlsConfig {
    pub config: rustls::ServerConfig,
}

/// The certificate chain in the file `path`.
pub open spec fn chain_of_file(path: Seq<char>, certs: Result<Seq<Seq<u8>>, Seq<char>>) -> Result<Seq<Seq<u8>>, Fault> {
    match certs {
        Err(message) => Err(fault(ErrorKind::InvalidData, message)),
        Ok(chain) => if chain.len() == 0 {
            Err(fault(ErrorKind::InvalidData, path + " does not contain a PEM certificate"@))
        } else {
            Ok(chain)
        },
    }
}

/// The private key in the file `path`.
pub open spec fn key_of_file(path: Seq<char>, key: Result<Option<(KeyFormat, Seq<u8>)>, Seq<char>>) -> Result<
    (KeyFormat, Seq<u8>),
    Fault,
> {
    match key {
        Err(message) => Err(fault(ErrorKind::InvalidData, message)),
        Ok(None) => Err(fault(ErrorKind::InvalidData, path + " does not contain a PEM private key"@)),
        Ok(Some(key)) => Ok(key),
    }
}

/// Takes the certificates that were read from the file `path`.
pub fn load_cert_chain(path: &str, certs: Result<Vec<Vec<u8>>, String>) -> (r: Result<Vec<Vec<u8>>, Error>)
    ensures
        outcome(r) == chain_of_file(path@, certificates_told(certs)),
{
    match certs {
        Err(message) => Err(error(ErrorKind::InvalidData, message)),
        Ok(chain) => if chain.len() == 0 {
            Err(error(ErrorKind::InvalidData, cat2(path, " does not contain a PEM certificate")))
        } else {
            Ok(chain)
        },
    }
}

/// Takes the private key that was read from the file `path`.
pub fn load_private_key(path: &str, key: Result<Option<PrivateKey>, String>) -> (r: Result<PrivateKey, Error>)
    ensures
        outcome(r) == key_of_file(path@, key_told(key)),
{
    match key {
        Err(message) => Err(error(ErrorKind::InvalidData, message)),
        Ok(None) => Err(error(ErrorKind::InvalidData, cat2(path, " does not contain a PEM private key"))),
        Ok(Some(key)) => Ok(key),
    }
}

/// Why no TLS configuration is made of two files, if none is.
pub open spec fn tls_fault(
    chain_path: Seq<char>,
    chain_file: Seq<u8>,
    key_path: Seq<char>,
    key_file: Seq<u8>,
) -> Option<Fault> {
    match (
        chain_of_file(chain_path, pem_certificates(chain_file)),
        key_of_file(key_path, pem_private_key(key_file)),
    ) {
        (Err(e), _) => Some(e),
        (_, Err(e)) => Some(e),
        (Ok(chain), Ok(key)) => match certificate_problem(chain, key) {
            Some(message) => Some(fault(ErrorKind::InvalidData, message)),
            None => None,
        },
    }
}

/// The TLS configuration for the certificate chain and the private key in two
/// PEM files: it answers with that chain and signs with that key.
pub fn load_tls_config(chain_path: &str, chain_file: &Vec<u8>, key_path: &str, key_file: &Vec<u8>) -> (r: Result<
    TlsConfig,
    Error,
>)
    ensures
        match r {
            Ok(made) => tls_fault(chain_path@, chain_file@, key_path@, key_file@) is None && answers_with(made.config)
                == (pem_certificates(chain_file@)->Ok_0, pem_private_key(key_file@)->Ok_0->0),
            Err(e) => tls_fault(chain_path@, chain_file@, key_path@, key_file@) == Some(e.deep_view()),
        },
{
    let chain = match load_cert_chain(chain_path, read_certificates(chain_file)) {
        Ok(chain) => chain,
        Err(e) => return Err(e),
    };
    let key = match load_private_key(key_path, read_private_key(key_file)) {
        Ok(key) => key,
        Err(e) => return Err(e),
    };
    match server_config(chain, key) {
        Ok(config) => Ok(TlsConfig { config }),
        Err(message) => Err(error(ErrorKind::InvalidData, message)),
    }
}

} // verus!
