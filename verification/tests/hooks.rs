use tagstore::error::StoreError;
use tagstore::function::{parse_json_map, JsonMap};
use tagstore::hook::{Caller, CoreHookArgs, HookAction, HookArgs, HOOK_POINT_COUNT};
use tagstore::object::Object;
use tagstore::proto;
use tagstore::session::{Identity, Session};
use tagstore::tag::{TagValue, Timestamp};

fn x_is_one() -> JsonMap {
    let mut m = JsonMap::new();
    m.insert("x".to_string(), serde_json::Value::from(1));
    m
}

fn session() -> Session {
    Session::new("tok".to_string(), Identity::new("cache".to_string()))
}

#[test]
fn reply_without_payload_is_no_action() {
    let pb = proto::HookAction { result_or_args: None, update_args: false };
    assert_eq!(HookAction::from_pb(pb).unwrap(), HookAction::NoOp);
    let pb = proto::HookAction { result_or_args: None, update_args: true };
    assert_eq!(HookAction::from_pb(pb).unwrap(), HookAction::NoOp);
    assert_eq!(HookAction::default(), HookAction::NoOp);
}

#[test]
fn reply_with_flag_replaces_arguments() {
    let pb = proto::HookAction { result_or_args: Some("{\"x\": 1}".to_string()), update_args: true };
    assert_eq!(HookAction::from_pb(pb).unwrap(), HookAction::UpdateArgs(x_is_one()));
}

#[test]
fn reply_without_flag_replaces_result() {
    let pb =
        proto::HookAction { result_or_args: Some("{\"x\": 1}".to_string()), update_args: false };
    assert_eq!(HookAction::from_pb(pb).unwrap(), HookAction::UpdateResult(x_is_one()));
}

#[test]
fn malformed_payload_is_a_parse_error() {
    let pb = proto::HookAction { result_or_args: Some("{\"x\": ".to_string()), update_args: true };
    assert!(matches!(HookAction::from_pb(pb), Err(StoreError::Parse { .. })));
    let pb = proto::HookAction { result_or_args: Some("[1, 2]".to_string()), update_args: false };
    assert!(matches!(HookAction::from_pb(pb), Err(StoreError::Parse { .. })));
    let pb = proto::HookAction { result_or_args: Some(String::new()), update_args: false };
    assert!(matches!(HookAction::from_pb(pb), Err(StoreError::Parse { .. })));
}

#[test]
fn from_parsed_follows_the_flag() {
    assert_eq!(HookAction::from_parsed(true, None), HookAction::NoOp);
    assert_eq!(HookAction::from_parsed(true, Some(x_is_one())), HookAction::UpdateArgs(x_is_one()));
    assert_eq!(
        HookAction::from_parsed(false, Some(x_is_one())),
        HookAction::UpdateResult(x_is_one())
    );
}

#[test]
fn json_text_is_compact_and_sorted() {
    let m = parse_json_map("{ \"b\": [1, null], \"a\": {\"k\": \"v\"} }".to_string()).unwrap();
    let mut sess = session();
    let pb = HookArgs { arguments: &m, original_result: None, session: &mut sess }.to_pb();
    assert_eq!(pb.arguments, "{\"a\":{\"k\":\"v\"},\"b\":[1,null]}");
    assert_eq!(parse_json_map(pb.arguments).unwrap(), m);
}

#[test]
fn parse_error_has_a_message() {
    let e = parse_json_map("nope".to_string()).unwrap_err();
    assert!(!e.reason().is_empty());
    assert!(e.tag().is_none());
}

#[test]
fn generic_request_for_before_hook() {
    let args = x_is_one();
    let mut sess = session();
    let pb = HookArgs { arguments: &args, original_result: None, session: &mut sess }.to_pb();
    assert_eq!(pb.call_id, 0);
    assert_eq!(pb.arguments, "{\"x\":1}");
    assert_eq!(pb.original_result, None);
    assert_eq!(pb.session, "tok");
    assert_eq!(pb.identity, "cache");
}

#[test]
fn generic_request_for_after_hook() {
    let args = JsonMap::new();
    let result = x_is_one();
    let mut sess = session();
    let pb = HookArgs { arguments: &args, original_result: Some(&result), session: &mut sess }.to_pb();
    assert_eq!(pb.arguments, "{}");
    assert_eq!(pb.original_result, Some("{\"x\":1}".to_string()));
}

fn object_with(name: &str, value: &str) -> Object {
    let mut o = Object::new();
    o.tags.insert(
        name.to_string(),
        TagValue::new(Some(value.to_string()), Timestamp { secs: 1, nanos: 2 }),
    );
    o
}

#[test]
fn core_request_with_session() {
    let o = object_with("a", "1");
    let old = object_with("a", "0");
    let mut sess = session();
    let args = CoreHookArgs::new(&o, Some(&old), Caller::Session(&mut sess));
    assert_eq!(args.identity().cache_token(), "cache");
    let pb = args.to_pb();
    assert_eq!(pb.call_id, 0);
    assert_eq!(pb.session, Some("tok".to_string()));
    assert_eq!(pb.identity, "cache");
    let sent = pb.object.unwrap();
    assert_eq!(sent.tags.len(), 1);
    assert_eq!(sent.tags.get(&"a".to_string()), o.tags.get(&"a".to_string()));
    let sent_old = pb.old_object.unwrap();
    assert_eq!(sent_old.tags.get(&"a".to_string()), old.tags.get(&"a".to_string()));
}

#[test]
fn core_request_with_bare_identity() {
    let o = object_with("a", "1");
    let id = Identity::new("watcher".to_string());
    let args = CoreHookArgs::new(&o, None, Caller::IdentityOnly(&id));
    assert_eq!(args.identity().cache_token(), "watcher");
    let pb = args.to_pb();
    assert_eq!(pb.call_id, 0);
    assert_eq!(pb.session, None);
    assert_eq!(pb.identity, "watcher");
    assert!(pb.object.is_some());
    assert!(pb.old_object.is_none());
}

#[test]
fn seven_hook_points() {
    assert_eq!(HOOK_POINT_COUNT, 7);
}

#[test]
fn hook_can_change_the_session() {
    let args = JsonMap::new();
    let mut sess = session();
    {
        let call = HookArgs { arguments: &args, original_result: None, session: &mut sess };
        call.session.token = "renewed".to_string();
        assert_eq!(call.to_pb().session, "renewed");
    }
    assert_eq!(sess.token, "renewed");
}
