use trana::proto;
use trana::proto::{Envelope, ProfilePutReq, RPC_TOPICS};
use trana::Body;

#[test]
fn envelope_roundtrips_ok_and_err() {
    let mut resp = serde_json::Map::new();
    resp.insert("id".to_string(), serde_json::Value::from("abc"));
    let env = Envelope::ok(serde_json::to_string(&resp).unwrap());
    let data = env.outcome().unwrap();
    let got: serde_json::Value = serde_json::from_str(&data).unwrap();
    assert_eq!(got["id"], "abc");

    let err = Envelope::err("nope");
    assert_eq!(err.data, "null");
    let res = err.outcome();
    assert_eq!(res.unwrap_err(), "nope");
}

#[test]
fn rpc_topics_are_unique() {
    let mut set = std::collections::HashSet::new();
    for t in RPC_TOPICS {
        assert!(set.insert(t), "duplicate topic {t}");
    }
}

#[test]
fn a_failure_without_a_message_still_says_something() {
    let env = Envelope { ok: false, error: None, data: "null".to_string() };
    assert_eq!(env.outcome().unwrap_err(), "unknown error");
}

#[test]
fn requests_have_defaults() {
    assert_eq!(proto::default_sort(), "hot");
    assert_eq!(proto::default_limit(), 50);
}

#[test]
fn a_profile_request_becomes_a_profile() {
    let req = ProfilePutReq {
        handle: Some("h".to_string()),
        display_name: "n".to_string(),
        bio: "b".to_string(),
        avatar: None,
        links: vec![],
        devices: vec!["d".to_string()],
    };
    match proto::profile_body(req) {
        Body::Profile(p) => {
            assert_eq!(p.handle.as_deref(), Some("h"));
            assert_eq!(p.display_name, "n");
            assert_eq!(p.bio, "b");
            assert_eq!(p.devices, vec!["d".to_string()]);
        }
        _ => panic!("expected a profile"),
    }
}
