//! The load balancer, calls over the bus, and tags of binaries.

use cbs::bus_rpc::{call_reply, call_to, parse_call, BusRpcError, BusStream, HyperClient, HyperSyncClient};
use cbs::error::ErrorKind;
use cbs::load_balancer::{
    choose_host, extract_host, handle_http, lead_to, load_cert_chain, load_private_key, load_tls_config, proxy_request,
    redirect, servable, well_known_path, HostHeader, HttpStep, KeyFormat, PrivateKey, Reply, UriParts,
};
use cbs::rainbow;

const CERTIFICATE: [u8; 306] = [
    48, 130, 1, 46, 48, 129, 225, 160, 3, 2, 1, 2, 2, 20, 118, 198, 225, 37,
    218, 155, 143, 83, 222, 170, 180, 66, 181, 195, 203, 93, 144, 130, 68, 29, 48, 5,
    6, 3, 43, 101, 112, 48, 12, 49, 10, 48, 8, 6, 3, 85, 4, 3, 12, 1,
    116, 48, 32, 23, 13, 50, 54, 49, 49, 49, 53, 49, 55, 51, 55, 53, 57, 90,
    24, 15, 50, 49, 50, 54, 49, 48, 50, 50, 49, 55, 51, 55, 53, 57, 90, 48,
    12, 49, 10, 48, 8, 6, 3, 85, 4, 3, 12, 1, 116, 48, 42, 48, 5, 6,
    3, 43, 101, 112, 3, 33, 0, 93, 65, 86, 250, 56, 118, 70, 229, 190, 140, 154,
    252, 125, 25, 40, 87, 158, 34, 73, 73, 195, 58, 249, 186, 117, 66, 150, 243, 89,
    26, 106, 207, 163, 83, 48, 81, 48, 29, 6, 3, 85, 29, 14, 4, 22, 4, 20,
    197, 100, 138, 122, 17, 83, 250, 38, 112, 113, 188, 24, 10, 6, 65, 223, 135, 149,
    53, 3, 48, 31, 6, 3, 85, 29, 35, 4, 24, 48, 22, 128, 20, 197, 100, 138,
    122, 17, 83, 250, 38, 112, 113, 188, 24, 10, 6, 65, 223, 135, 149, 53, 3, 48,
    15, 6, 3, 85, 29, 19, 1, 1, 255, 4, 5, 48, 3, 1, 1, 255, 48, 5,
    6, 3, 43, 101, 112, 3, 65, 0, 49, 57, 61, 121, 91, 223, 166, 146, 186, 230,
    222, 37, 250, 161, 45, 51, 16, 192, 27, 120, 47, 42, 215, 169, 194, 196, 205, 35,
    141, 248, 24, 184, 98, 59, 101, 63, 204, 213, 77, 118, 90, 48, 21, 136, 75, 233,
    88, 76, 126, 225, 53, 118, 233, 91, 78, 79, 215, 0, 207, 84, 204, 122, 221, 12,
];

const KEY: [u8; 48] = [
    48, 46, 2, 1, 0, 48, 5, 6, 3, 43, 101, 112, 4, 34, 4, 32, 143, 81,
    174, 61, 83, 48, 166, 48, 0, 195, 101, 43, 94, 24, 72, 195, 44, 213, 194, 6,
    102, 73, 73, 95, 15, 231, 99, 253, 218, 149, 216, 56,
];

const OTHER_KEY: [u8; 48] = [
    48, 46, 2, 1, 0, 48, 5, 6, 3, 43, 101, 112, 4, 34, 4, 32, 61, 161,
    47, 53, 52, 202, 150, 36, 161, 210, 79, 59, 47, 42, 38, 179, 73, 89, 178, 175,
    31, 114, 162, 93, 153, 215, 4, 73, 164, 213, 207, 128,
];

const DIGITS: &[u8; 64] = b"ABCDEFGHIJKLMNOPQRSTUVWXYZabcdefghijklmnopqrstuvwxyz0123456789+/";

/// The PEM text that holds `der` under `label`.
fn pem(label: &str, der: &[u8]) -> Vec<u8> {
    let mut body = String::new();
    for chunk in der.chunks(3) {
        let mut group = [0u8; 3];
        group[..chunk.len()].copy_from_slice(chunk);
        let n = (group[0] as u32) << 16 | (group[1] as u32) << 8 | group[2] as u32;
        for i in 0..4 {
            if i <= chunk.len() {
                body.push(DIGITS[(n >> (18 - 6 * i) & 63) as usize] as char);
            } else {
                body.push('=');
            }
        }
    }
    format!("-----BEGIN {label}-----\n{body}\n-----END {label}-----\n").into_bytes()
}

fn some(text: &str) -> Option<String> {
    Some(text.to_string())
}

fn parts(authority: Option<&str>, path_and_query: Option<&str>) -> UriParts {
    UriParts {
        scheme: None,
        authority: authority.map(|text| text.to_string()),
        path_and_query: path_and_query.map(|text| text.to_string()),
    }
}

fn location(reply: Reply) -> String {
    match reply {
        Reply::Location(uri) => uri,
        Reply::Status(status) => format!("status {status}"),
        Reply::Unbuildable => "unbuildable".to_string(),
    }
}

#[test]
fn the_host_is_that_of_the_header() {
    let header = HostHeader::Text("example.com:8080".to_string());
    assert_eq!(extract_host(&header, &some("other.org")), some("example.com"));
    assert_eq!(extract_host(&HostHeader::Missing, &some("user@other.org:1")), some("other.org"));
    assert_eq!(extract_host(&HostHeader::Missing, &None), None);
    assert_eq!(extract_host(&HostHeader::Unreadable, &some("other.org")), None);
    let broken = HostHeader::Text("a b".to_string());
    assert_eq!(extract_host(&broken, &some("other.org")), some("other.org"));
    assert_eq!(choose_host(&broken, some("x"), some("y")), some("x"));
}

#[test]
fn plain_requests_are_led_to_the_secure_place() {
    let header = HostHeader::Text("example.com:8080".to_string());
    assert_eq!(location(redirect(&parts(None, Some("/a?b=c")), &header)), "https://example.com/a?b=c");
    assert_eq!(
        location(redirect(&parts(Some("other.org:81"), Some("/")), &header)),
        "https://other.org:81/"
    );
    assert_eq!(location(redirect(&parts(None, Some("/a")), &HostHeader::Missing)), "status 400");
    assert_eq!(location(lead_to(None)), "unbuildable");
}

#[test]
fn well_known_files_are_served_from_the_root() {
    let root = some("/srv/www");
    let header = HostHeader::Text("example.com".to_string());
    match handle_http(&root, &parts(None, Some("/.well-known/acme/x?y")), &header) {
        HttpStep::Look(path) => assert_eq!(path, "/srv/www/.well-known/acme/x"),
        HttpStep::Answer(_) => panic!("no file"),
    }
    match handle_http(&root, &parts(None, Some("/known")), &header) {
        HttpStep::Look(_) => panic!("a file"),
        HttpStep::Answer(reply) => assert_eq!(location(reply), "https://example.com/known"),
    }
    match handle_http(&None, &parts(None, Some("/.well-known/acme/x")), &header) {
        HttpStep::Look(_) => panic!("a file"),
        HttpStep::Answer(reply) => assert_eq!(location(reply), "https://example.com/.well-known/acme/x"),
    }
    assert_eq!(well_known_path(&root, &None), None);
    assert_eq!(servable("/srv/www", some("/srv/www/.well-known/x")), some("/srv/www/.well-known/x"));
    assert_eq!(servable("/srv/www", some("/etc/passwd")), None);
    assert_eq!(servable("/srv/www", some("/srv/www2/x")), None);
    assert_eq!(servable("/srv/www", None), None);
}

#[test]
fn requests_are_passed_to_the_backend_of_their_host() {
    let backend = Some(("10.0.0.7".to_string(), 9000));
    assert_eq!(
        location(proxy_request(&some("a.com"), &backend, &some("/x?y"))),
        "http://10.0.0.7:9000/x?y"
    );
    assert_eq!(location(proxy_request(&None, &backend, &some("/x"))), "status 400");
    assert_eq!(location(proxy_request(&some("a.com"), &None, &some("/x"))), "status 404");
    let broken = Some(("not an address".to_string(), 1));
    assert_eq!(location(proxy_request(&some("a.com"), &broken, &some("/x"))), "unbuildable");
}

#[test]
fn certificates_and_keys_are_read_from_pem_files() {
    let chain = pem("CERTIFICATE", &CERTIFICATE);
    let key = pem(&format!("{} KEY", "PRIVATE"), &KEY);
    assert!(load_tls_config("chain.pem", &chain, "key.pem", &key).is_ok());
    let e = load_tls_config("chain.pem", &Vec::new(), "key.pem", &key).err().unwrap();
    assert_eq!(e.kind, ErrorKind::InvalidData);
    assert_eq!(e.message, "chain.pem does not contain a PEM certificate");
    let e = load_tls_config("chain.pem", &chain, "key.pem", &chain).err().unwrap();
    assert_eq!(e.message, "key.pem does not contain a PEM private key");
    let other = pem(&format!("{} KEY", "PRIVATE"), &OTHER_KEY);
    assert_eq!(
        load_tls_config("chain.pem", &chain, "key.pem", &other).err().unwrap().kind,
        ErrorKind::InvalidData
    );
    let cut = b"-----BEGIN CERTIFICATE-----\nAAAA\n".to_vec();
    assert!(load_tls_config("chain.pem", &cut, "key.pem", &key).is_err());
}

#[test]
fn what_was_read_from_pem_files_is_checked() {
    assert_eq!(load_cert_chain("c", Ok(vec![vec![1, 2]])).unwrap(), vec![vec![1, 2]]);
    assert_eq!(load_cert_chain("c", Err("broken".to_string())).err().unwrap().message, "broken");
    let key = PrivateKey { format: KeyFormat::Sec1, der: vec![3] };
    let taken = load_private_key("k", Ok(Some(key))).unwrap();
    assert_eq!(taken.format, KeyFormat::Sec1);
    assert_eq!(taken.der, vec![3]);
    assert_eq!(
        load_private_key("k", Ok(None)).err().unwrap().message,
        "k does not contain a PEM private key"
    );
    assert_eq!(load_private_key("k", Err("broken".to_string())).err().unwrap().message, "broken");
}

#[test]
fn a_path_names_a_service_and_a_method() {
    assert_eq!(parse_call("/fortune/get"), Some(("fortune".to_string(), "get".to_string())));
    assert_eq!(parse_call("/fortune"), None);
    assert_eq!(parse_call("fortune/get"), None);
    assert_eq!(parse_call("/fortune/get/more"), None);
}

#[test]
fn the_end_of_a_call_has_a_status() {
    assert_eq!(call_reply(Ok(vec![1, 2])), (200, vec![1, 2]));
    assert_eq!(call_reply(Err(BusRpcError::NotImplemented)), (501, Vec::new()));
    assert_eq!(call_reply(Err(BusRpcError::ServiceNameDidNotMatch)), (404, Vec::new()));
    assert_eq!(call_reply(Err(BusRpcError::FailedToBindPort)), (500, Vec::new()));
    assert_eq!(call_reply(Err(BusRpcError::InternalError("x".to_string()))), (500, Vec::new()));
    assert_eq!(call_reply(Err(BusRpcError::ConnectionError("x".to_string()))), (500, Vec::new()));
}

#[test]
fn messages_arrive_in_whatever_pieces_they_come() {
    let mut bytes: Vec<u8> = Vec::new();
    bytes.extend_from_slice(&[5, 0, 0, 0]);
    bytes.extend_from_slice(b"hello");
    bytes.extend_from_slice(&[0, 0, 0, 0]);
    bytes.extend_from_slice(&[3, 0, 0, 0]);
    bytes.extend_from_slice(b"abc");
    for size in 1..bytes.len() + 1 {
        let mut stream = BusStream::new();
        let mut messages: Vec<Vec<u8>> = Vec::new();
        for piece in bytes.chunks(size) {
            stream.receive(&piece.to_vec());
            while let Some(message) = stream.next_message() {
                messages.push(message);
            }
        }
        assert_eq!(messages, vec![b"hello".to_vec(), Vec::new(), b"abc".to_vec()]);
        assert_eq!(stream.finish(), None);
    }
}

#[test]
fn a_stream_that_ends_within_a_message_is_cut_off() {
    let mut stream = BusStream::new();
    stream.receive(&vec![2, 0, 0, 0, 1]);
    assert_eq!(stream.next_message(), None);
    assert!(stream.finish().is_some());
    let mut stream = BusStream::new();
    stream.receive(&vec![2, 0]);
    assert_eq!(stream.next_message(), None);
    assert!(stream.finish().is_some());
}

#[test]
fn a_call_goes_to_the_address_of_its_service() {
    let mut client = HyperClient::new("localhost".to_string(), 8000, ());
    client.add_header("x-key".to_string(), "v".to_string());
    let call = match client.call("/fortune/get", vec![7], false) {
        Ok(call) => call,
        Err(_) => panic!("no call"),
    };
    assert_eq!(call.uri, "http://localhost:8000/fortune/get");
    assert!(call.headers.contains(&("x-key".to_string(), "v".to_string())));
    assert_eq!(call.body, vec![7]);
    let client = HyperClient::new_tls("example.com".to_string(), 443, ());
    match client.call("/a/b", Vec::new(), true) {
        Ok(call) => assert_eq!(call.uri, "https://example.com:443/a/b"),
        Err(_) => panic!("no call"),
    }
    let client = HyperClient::new("no host".to_string(), 1, ());
    assert!(matches!(client.call("/a/b", Vec::new(), false), Err(_)));
    assert!(matches!(call_to(Err("broken".to_string()), Vec::new(), Vec::new()), Err(_)));
    let mut sync = HyperSyncClient::new("localhost".to_string(), 1, (), "executor");
    sync.add_header("a".to_string(), "b".to_string());
    assert_eq!(sync.inner.inner.headers, vec![("a".to_string(), "b".to_string())]);
    assert_eq!(sync.executor, "executor");
    assert!(HyperSyncClient::new_tls("h".to_string(), 1, (), ()).inner.inner.use_tls);
}

#[test]
fn a_binary_has_a_name_and_a_tag() {
    assert_eq!(rainbow::parse("cbs:latest").unwrap(), ("cbs".to_string(), "latest".to_string()));
    assert_eq!(rainbow::parse("cbs").err().unwrap().kind, ErrorKind::InvalidData);
    assert!(rainbow::parse("a:b:c").is_err());
    assert_eq!(
        rainbow::tag_url("cbs", "latest"),
        "https://storage.googleapis.com/rainbow-binaries/cbs/tags/latest"
    );
}
