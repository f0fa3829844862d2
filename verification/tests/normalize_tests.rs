//! The schema normalizer, dialect by dialect.

use yggdrasilctl::parse::parse_json;
use yggdrasilctl::{DurationValue, Endpoint, Json, RouterVersion};

fn endpoint(version: RouterVersion) -> Endpoint<()> {
    Endpoint::attach_version((), version)
}

fn parse(text: &str) -> Json {
    parse_json(text.as_bytes()).expect("test payload parses")
}

#[test]
fn peers_oldest_and_current_agree() {
    // the same remote state in the two wire shapes
    let old = parse(
        "{\"peers\":{\"200:1::1\":{\"port\":7,\"key\":\"k1\",\"coords\":[1,2],\
         \"remote\":\"tcp://host:1\",\"bytes_recvd\":10,\"bytes_sent\":20,\"uptime\":5.5}}}",
    );
    let new = parse(
        "{\"peers\":[{\"address\":\"200:1::1\",\"key\":\"k1\",\"port\":7,\"priority\":3,\
         \"remote\":\"tcp://host:1\",\"bytes_recvd\":10,\"bytes_sent\":20,\"uptime\":5.5,\
         \"up\":true,\"inbound\":false,\"last_error\":null}]}",
    );
    let po = endpoint(RouterVersion::__v0_4_4).get_peers(&old).unwrap();
    let pn = endpoint(RouterVersion::v0_5_0__).get_peers(&new).unwrap();
    assert_eq!(po.len(), 1);
    assert_eq!(pn.len(), 1);
    // equal on every field the oldest dialect carries
    assert_eq!(po[0].address, pn[0].address);
    assert_eq!(po[0].key, pn[0].key);
    assert_eq!(po[0].port, pn[0].port);
    assert_eq!(po[0].remote, pn[0].remote);
    assert_eq!(po[0].bytes_recvd, pn[0].bytes_recvd);
    assert_eq!(po[0].bytes_sent, pn[0].bytes_sent);
    assert_eq!(po[0].uptime, Some(DurationValue { secs: 5, nanos: 500_000_000 }));
    assert_eq!(po[0].uptime, pn[0].uptime);
    // dialect-absent fields are unset, not defaulted
    assert_eq!(po[0].priority, None);
    assert_eq!(po[0].last_error, None);
    assert_eq!(po[0].last_error_time, None);
    // while the current dialect carries them
    assert_eq!(pn[0].priority, Some(3));
}

#[test]
fn peers_intermediate_discards_priority() {
    let mid = parse(
        "{\"peers\":[{\"address\":\"200:1::1\",\"key\":\"k1\",\"port\":7,\"priority\":3,\
         \"coords\":[1],\"remote\":\"r\",\"bytes_recvd\":1,\"bytes_sent\":2,\"uptime\":0.25}]}",
    );
    let p = endpoint(RouterVersion::v0_4_5__v0_4_7).get_peers(&mid).unwrap();
    assert_eq!(p[0].priority, None);
    assert_eq!(p[0].up, true);
    assert_eq!(p[0].inbound, false);
    assert_eq!(p[0].uptime, Some(DurationValue { secs: 0, nanos: 250_000_000 }));
}

#[test]
fn peers_current_full_record() {
    let new = parse(
        "{\"peers\":[{\"address\":null,\"key\":\"k\",\"port\":0,\"up\":false,\"inbound\":true,\
         \"last_error\":\"socket closed\",\"last_error_time\":1500000000}]}",
    );
    let p = endpoint(RouterVersion::v0_5_0__).get_peers(&new).unwrap();
    assert_eq!(p[0].address, None);
    assert_eq!(p[0].up, false);
    assert_eq!(p[0].inbound, true);
    assert_eq!(p[0].remote, None);
    assert_eq!(p[0].bytes_recvd, None);
    assert_eq!(p[0].uptime, None);
    assert_eq!(p[0].last_error, Some("socket closed".to_string()));
    assert_eq!(p[0].last_error_time, Some(DurationValue { secs: 1, nanos: 500_000_000 }));
}

#[test]
fn peers_bad_shape_is_rejected() {
    // a missing required member fails the whole reply
    let new = parse("{\"peers\":[{\"address\":null,\"key\":\"k\",\"port\":0,\"up\":false}]}");
    assert!(endpoint(RouterVersion::v0_5_0__).get_peers(&new).is_none());
    // so does the wrong collection shape for the dialect
    let old_shape = parse("{\"peers\":{}}");
    assert!(endpoint(RouterVersion::v0_5_0__).get_peers(&old_shape).is_none());
    let arr_shape = parse("{\"peers\":[]}");
    assert!(endpoint(RouterVersion::__v0_4_4).get_peers(&arr_shape).is_none());
    let not_obj = parse("{\"nothing\":1}");
    assert!(endpoint(RouterVersion::v0_5_0__).get_peers(&not_obj).is_none());
}

#[test]
fn sessions_oldest_zeroes_byte_counters() {
    let old = parse("{\"sessions\":{\"200:1::2\":{\"key\":\"k2\"}}}");
    let s = endpoint(RouterVersion::__v0_4_4).get_sessions(&old).unwrap();
    assert_eq!(s.len(), 1);
    assert_eq!(s[0].address, "200:1::2");
    assert_eq!(s[0].key, "k2");
    // zero is the old dialect's own absence-of-history default ...
    assert_eq!(s[0].bytes_recvd, Some(0));
    assert_eq!(s[0].bytes_sent, Some(0));
    // ... while the uptime it never tracked stays unset
    assert_eq!(s[0].uptime, None);
}

#[test]
fn sessions_current() {
    let new = parse(
        "{\"sessions\":[{\"address\":\"200:1::2\",\"key\":\"k2\",\"bytes_recvd\":5,\
         \"bytes_sent\":6,\"uptime\":1.5}]}",
    );
    let s = endpoint(RouterVersion::v0_5_0__).get_sessions(&new).unwrap();
    assert_eq!(s[0].key, "k2");
    assert_eq!(s[0].bytes_recvd, Some(5));
    assert_eq!(s[0].uptime, Some(DurationValue { secs: 1, nanos: 500_000_000 }));
}

#[test]
fn self_three_dialects() {
    let old = parse(
        "{\"self\":{\"201:1::3\":{\"build_name\":\"n\",\"build_version\":\"0.4.4\",\
         \"key\":\"k\",\"coords\":[0],\"subnet\":\"301::/64\"}}}",
    );
    let e = endpoint(RouterVersion::__v0_4_4).get_self(&old).unwrap().unwrap();
    assert_eq!(e.address, "201:1::3");
    assert_eq!(e.build_name, "n");
    assert_eq!(e.routing_entries, None);

    // an empty wrapper is an application-level failure, not a parse error
    let empty = parse("{\"self\":{}}");
    let r = endpoint(RouterVersion::__v0_4_4).get_self(&empty).unwrap();
    assert_eq!(r, Err("Unknown".to_string()));

    let mid = parse(
        "{\"build_name\":\"n\",\"build_version\":\"0.4.6\",\"key\":\"k\",\
         \"address\":\"201:1::3\",\"coords\":[0],\"subnet\":\"301::/64\"}",
    );
    let e = endpoint(RouterVersion::v0_4_5__v0_4_7).get_self(&mid).unwrap().unwrap();
    assert_eq!(e.address, "201:1::3");
    assert_eq!(e.routing_entries, None);

    let new = parse(
        "{\"build_name\":\"n\",\"build_version\":\"0.5.1\",\"key\":\"k\",\
         \"address\":\"201:1::3\",\"subnet\":\"301::/64\",\"routing_entries\":12}",
    );
    let e = endpoint(RouterVersion::v0_5_0__).get_self(&new).unwrap().unwrap();
    assert_eq!(e.routing_entries, Some(12));
}

#[test]
fn paths_both_dialects() {
    let old = parse("{\"paths\":{\"200:1::4\":{\"key\":\"k\",\"path\":[1,2,3]}}}");
    let p = endpoint(RouterVersion::__v0_4_4).get_paths(&old).unwrap();
    assert_eq!(p[0].address, "200:1::4");
    assert_eq!(p[0].path, vec![1, 2, 3]);
    assert_eq!(p[0].sequence, None);

    let new = parse(
        "{\"paths\":[{\"address\":\"200:1::4\",\"key\":\"k\",\"path\":[1,2,3],\"sequence\":9}]}",
    );
    let p2 = endpoint(RouterVersion::v0_5_0__).get_paths(&new).unwrap();
    assert_eq!(p2[0].address, p[0].address);
    assert_eq!(p2[0].key, p[0].key);
    assert_eq!(p2[0].path, p[0].path);
    assert_eq!(p2[0].sequence, Some(9));
}

#[test]
fn dht_both_dialects() {
    let old = parse("{\"dht\":{\"200:1::5\":{\"key\":\"k\",\"port\":1,\"rest\":2}}}");
    let d = endpoint(RouterVersion::__v0_4_4).get_dht(&old).unwrap();
    assert_eq!(d[0].address, "200:1::5");
    assert_eq!(d[0].port, 1);
    assert_eq!(d[0].rest, 2);

    let new = parse("{\"dht\":[{\"address\":\"200:1::5\",\"key\":\"k\",\"port\":1,\"rest\":2}]}");
    let d2 = endpoint(RouterVersion::v0_5_0__).get_dht(&new).unwrap();
    assert_eq!(d2[0].address, d[0].address);
    assert_eq!(d2[0].key, d[0].key);
    assert_eq!(d2[0].port, d[0].port);
    assert_eq!(d2[0].rest, d[0].rest);
}

#[test]
fn tun_tree_multicast_nodeinfo() {
    let tun = parse("{\"enabled\":true,\"name\":\"tun0\",\"mtu\":65535}");
    let t = endpoint(RouterVersion::v0_5_0__).get_tun(&tun).unwrap();
    assert_eq!(t.enabled, true);
    assert_eq!(t.name, Some("tun0".to_string()));
    assert_eq!(t.mtu, Some(65535));

    let tun_min = parse("{\"enabled\":false}");
    let t = endpoint(RouterVersion::v0_5_0__).get_tun(&tun_min).unwrap();
    assert_eq!(t.name, None);
    assert_eq!(t.mtu, None);

    let tree = parse(
        "{\"tree\":[{\"address\":\"200:1::6\",\"key\":\"k\",\"parent\":\"p\",\"sequence\":4}]}",
    );
    let n = endpoint(RouterVersion::v0_5_0__).get_tree(&tree).unwrap();
    assert_eq!(n[0].parent, "p");
    assert_eq!(n[0].sequence, 4);

    let mi = parse("{\"multicast_interfaces\":[\"eth0\",\"wlan0\"]}");
    let m = endpoint(RouterVersion::v0_5_0__)
        .get_multicast_interfaces(&mi)
        .unwrap();
    assert_eq!(m, vec!["eth0".to_string(), "wlan0".to_string()]);

    let ni = parse("{\"buildname\":\"x\",\"custom\":[1,2]}");
    let info = endpoint(RouterVersion::v0_5_0__).get_node_info(&ni).unwrap();
    assert_eq!(info.len(), 2);
    assert_eq!(info[0].0, "buildname");
    // a non-object payload is rejected
    let bad = parse("[1,2]");
    assert!(endpoint(RouterVersion::v0_5_0__).get_node_info(&bad).is_none());
}

#[test]
fn list_both_dialects() {
    let old = parse("{\"list\":{\"getself\":{\"fields\":[\"all\"]}}}");
    let l = endpoint(RouterVersion::__v0_4_4).list(&old).unwrap();
    assert_eq!(l[0].command, "getself");
    assert_eq!(l[0].description, "");
    assert_eq!(l[0].fields, Some(vec!["all".to_string()]));

    let new = parse(
        "{\"list\":[{\"command\":\"getself\",\"description\":\"who am i\",\"fields\":[\"all\"]}]}",
    );
    let l2 = endpoint(RouterVersion::v0_5_0__).list(&new).unwrap();
    assert_eq!(l2[0].command, l[0].command);
    assert_eq!(l2[0].fields, l[0].fields);
    assert_eq!(l2[0].description, "who am i");

    let new_min = parse("{\"list\":[{\"command\":\"c\",\"description\":\"d\"}]}");
    let l3 = endpoint(RouterVersion::v0_5_0__).list(&new_min).unwrap();
    assert_eq!(l3[0].fields, None);
}

#[test]
fn durations_truncate_beyond_nanoseconds() {
    let v = parse("{\"sessions\":[{\"address\":\"a\",\"key\":\"k\",\"uptime\":1234.5678901239}]}");
    let s = endpoint(RouterVersion::v0_5_0__).get_sessions(&v).unwrap();
    assert_eq!(s[0].uptime, Some(DurationValue { secs: 1234, nanos: 567_890_123 }));

    let v = parse("{\"sessions\":[{\"address\":\"a\",\"key\":\"k\",\"uptime\":0.000000001}]}");
    let s = endpoint(RouterVersion::v0_5_0__).get_sessions(&v).unwrap();
    assert_eq!(s[0].uptime, Some(DurationValue { secs: 0, nanos: 1 }));
}
