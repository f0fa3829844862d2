//! End-to-end scenario: adding a peer over a mocked exchange.

use yggdrasilctl::codec::{decode_envelope, encode_request, Request};
use yggdrasilctl::endpoint::{node_info_arguments, peer_arguments};
use yggdrasilctl::{Empty, Endpoint, RouterVersion};

#[test]
fn addpeer_scenario() {
    // wire encoding of the request, byte for byte
    let out = encode_request(Request {
        request: "addpeer".to_string(),
        keepalive: true,
        arguments: peer_arguments("tcp://[::]:0".to_string(), None),
    });
    assert_eq!(
        out,
        &b"{\"request\":\"addpeer\",\"keepalive\":true,\"arguments\":{\"uri\":\"tcp://[::]:0\"}}"[..]
    );

    // a success reply with an empty payload yields the empty success marker
    let e = Endpoint::attach_version((), RouterVersion::v0_5_0__);
    let envelope = decode_envelope(b"{\"status\":\"success\",\"response\":{}}").unwrap();
    let payload = envelope.into_result().expect("success");
    assert_eq!(e.empty_response(&payload), Some(Empty {}));
}

#[test]
fn addpeer_with_interface_argument() {
    let out = encode_request(Request {
        request: "addpeer".to_string(),
        keepalive: true,
        arguments: peer_arguments("tls://host:443".to_string(), Some("eth0".to_string())),
    });
    assert_eq!(
        out,
        &b"{\"request\":\"addpeer\",\"keepalive\":true,\
\"arguments\":{\"uri\":\"tls://host:443\",\"interface\":\"eth0\"}}"[..]
    );
}

#[test]
fn nodeinfo_request_arguments() {
    let out = encode_request(Request {
        request: "getnodeinfo".to_string(),
        keepalive: true,
        arguments: node_info_arguments("k".to_string()),
    });
    assert_eq!(
        out,
        &b"{\"request\":\"getnodeinfo\",\"keepalive\":true,\"arguments\":{\"key\":\"k\"}}"[..]
    );
}
