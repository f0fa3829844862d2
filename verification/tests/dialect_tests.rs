//! Version negotiation: classifying probe replies.

use yggdrasilctl::dialect::classify_self_reply;
use yggdrasilctl::parse::parse_json;
use yggdrasilctl::RouterVersion;

fn classify(text: &str) -> RouterVersion {
    let v = parse_json(text.as_bytes()).expect("probe reply parses");
    classify_self_reply(&v)
}

#[test]
fn self_wrapper_classifies_oldest() {
    let r = classify(
        "{\"self\":{\"201:1::1\":{\"build_name\":\"x\",\"build_version\":\"0.4.4\",\
         \"key\":\"k\",\"coords\":[],\"subnet\":\"301::/64\"}}}",
    );
    assert_eq!(r, RouterVersion::__v0_4_4);
}

#[test]
fn v04_build_version_classifies_intermediate() {
    let r = classify("{\"build_version\":\"0.4.6\",\"build_name\":\"x\"}");
    assert_eq!(r, RouterVersion::v0_4_5__v0_4_7);
}

#[test]
fn v05_build_version_classifies_current() {
    let r = classify("{\"build_version\":\"0.5.1\",\"build_name\":\"x\"}");
    assert_eq!(r, RouterVersion::v0_5_0__);
}

#[test]
fn no_marker_classifies_current() {
    assert_eq!(classify("{\"something\":1}"), RouterVersion::v0_5_0__);
    assert_eq!(classify("{\"build_version\":7}"), RouterVersion::v0_5_0__);
    assert_eq!(classify("{}"), RouterVersion::v0_5_0__);
}

#[test]
fn version_string_edge_cases() {
    // a pre-release tag on the third component still parses the first three
    assert_eq!(
        classify("{\"build_version\":\"0.4.6-dev\"}"),
        RouterVersion::v0_4_5__v0_4_7
    );
    // an unparsable third component leaves only two numbers
    assert_eq!(
        classify("{\"build_version\":\"0.4-rc1\"}"),
        RouterVersion::v0_5_0__
    );
    // two components are never enough
    assert_eq!(classify("{\"build_version\":\"0.4\"}"), RouterVersion::v0_5_0__);
    // signs are accepted the way a number parse accepts them
    assert_eq!(
        classify("{\"build_version\":\"+0.4.0\"}"),
        RouterVersion::v0_4_5__v0_4_7
    );
    assert_eq!(classify("{\"build_version\":\"\"}"), RouterVersion::v0_5_0__);
}
