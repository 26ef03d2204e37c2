use keyvalue_codec::keyvalue::AddRequest;
use keyvalue_codec::keyvalue::AddResponse;
use keyvalue_codec::keyvalue::DelRequest;
use keyvalue_codec::keyvalue::DelResponse;
use keyvalue_codec::keyvalue::GetRequest;
use keyvalue_codec::keyvalue::GetResponse;
use keyvalue_codec::keyvalue::KeyExistsQuery;
use keyvalue_codec::keyvalue::ListClearRequest;
use keyvalue_codec::keyvalue::ListDelItemRequest;
use keyvalue_codec::keyvalue::ListPushRequest;
use keyvalue_codec::keyvalue::ListRangeRequest;
use keyvalue_codec::keyvalue::ListRangeResponse;
use keyvalue_codec::keyvalue::ListResponse;
use keyvalue_codec::keyvalue::SetAddRequest;
use keyvalue_codec::keyvalue::SetIntersectionRequest;
use keyvalue_codec::keyvalue::SetOperationResponse;
use keyvalue_codec::keyvalue::SetQueryRequest;
use keyvalue_codec::keyvalue::SetQueryResponse;
use keyvalue_codec::keyvalue::SetRemoveRequest;
use keyvalue_codec::keyvalue::SetRequest;
use keyvalue_codec::keyvalue::SetResponse;
use keyvalue_codec::keyvalue::SetUnionRequest;

#[test]
fn get_request_round_trip() {
    let r = GetRequest { key: "counter1".to_string() };
    assert_eq!(GetRequest::decode(&r.encode()).unwrap(), r);
}

#[test]
fn get_request_round_trip_empty_key() {
    let r = GetRequest { key: String::new() };
    assert_eq!(GetRequest::decode(&r.encode()).unwrap(), r);
}

#[test]
fn get_request_round_trip_non_ascii_key() {
    let r = GetRequest { key: "clé-🔑-ключ".to_string() };
    assert_eq!(GetRequest::decode(&r.encode()).unwrap(), r);
}

#[test]
fn get_response_round_trip() {
    let r = GetResponse { value: "twelve".to_string(), exists: true };
    assert_eq!(GetResponse::decode(&r.encode()).unwrap(), r);
    let r = GetResponse { value: String::new(), exists: false };
    assert_eq!(GetResponse::decode(&r.encode()).unwrap(), r);
}

#[test]
fn set_request_round_trip_sample() {
    let r = SetRequest::sample();
    assert_eq!(r.key, "counter1");
    assert_eq!(r.value, "12");
    assert_eq!(r.expires_s, 100);
    assert_eq!(SetRequest::decode(&r.encode()).unwrap(), r);
}

#[test]
fn set_request_round_trip_no_expiration() {
    let r = SetRequest { key: String::new(), value: String::new(), expires_s: 0 };
    assert_eq!(SetRequest::decode(&r.encode()).unwrap(), r);
}

#[test]
fn set_request_round_trip_negative_expiration() {
    let r = SetRequest { key: "k".to_string(), value: "v".to_string(), expires_s: -7 };
    assert_eq!(SetRequest::decode(&r.encode()).unwrap(), r);
}

#[test]
fn del_request_round_trip() {
    let r = DelRequest { key: "gone".to_string() };
    assert_eq!(DelRequest::decode(&r.encode()).unwrap(), r);
}

#[test]
fn del_response_round_trip() {
    let r = DelResponse { key: "gone".to_string() };
    assert_eq!(DelResponse::decode(&r.encode()).unwrap(), r);
}

#[test]
fn set_response_round_trip() {
    let r = SetResponse { value: "stored".to_string() };
    assert_eq!(SetResponse::decode(&r.encode()).unwrap(), r);
}

#[test]
fn add_request_round_trip() {
    let r = AddRequest { key: "counter1".to_string(), value: -25 };
    assert_eq!(AddRequest::decode(&r.encode()).unwrap(), r);
}

#[test]
fn add_response_round_trip() {
    let r = AddResponse { value: i32::MIN };
    assert_eq!(AddResponse::decode(&r.encode()).unwrap(), r);
    let r = AddResponse { value: i32::MAX };
    assert_eq!(AddResponse::decode(&r.encode()).unwrap(), r);
}

#[test]
fn list_push_request_round_trip() {
    let r = ListPushRequest { key: "l".to_string(), value: "item".to_string() };
    assert_eq!(ListPushRequest::decode(&r.encode()).unwrap(), r);
}

#[test]
fn list_del_item_request_round_trip() {
    let r = ListDelItemRequest { key: "l".to_string(), value: "item".to_string() };
    assert_eq!(ListDelItemRequest::decode(&r.encode()).unwrap(), r);
}

#[test]
fn list_clear_request_round_trip() {
    let r = ListClearRequest { key: "l".to_string() };
    assert_eq!(ListClearRequest::decode(&r.encode()).unwrap(), r);
}

#[test]
fn list_range_request_round_trip() {
    let r = ListRangeRequest { key: "l".to_string(), start: -1, stop: 42 };
    assert_eq!(ListRangeRequest::decode(&r.encode()).unwrap(), r);
}

#[test]
fn list_range_response_round_trip() {
    let r = ListRangeResponse { values: vec!["a".to_string(), String::new(), "c".to_string()] };
    assert_eq!(ListRangeResponse::decode(&r.encode()).unwrap(), r);
}

#[test]
fn list_range_response_round_trip_empty() {
    let r = ListRangeResponse { values: vec![] };
    assert_eq!(ListRangeResponse::decode(&r.encode()).unwrap(), r);
}

#[test]
fn list_response_round_trip() {
    let r = ListResponse { new_count: 3 };
    assert_eq!(ListResponse::decode(&r.encode()).unwrap(), r);
}

#[test]
fn set_add_request_round_trip() {
    let r = SetAddRequest { key: "s".to_string(), value: "m".to_string() };
    assert_eq!(SetAddRequest::decode(&r.encode()).unwrap(), r);
}

#[test]
fn set_remove_request_round_trip() {
    let r = SetRemoveRequest { key: "s".to_string(), value: "m".to_string() };
    assert_eq!(SetRemoveRequest::decode(&r.encode()).unwrap(), r);
}

#[test]
fn set_query_request_round_trip() {
    let r = SetQueryRequest { key: "s".to_string() };
    assert_eq!(SetQueryRequest::decode(&r.encode()).unwrap(), r);
}

#[test]
fn set_query_response_round_trip() {
    let r = SetQueryResponse { values: vec!["x".to_string(), "y".to_string()] };
    assert_eq!(SetQueryResponse::decode(&r.encode()).unwrap(), r);
}

#[test]
fn set_intersection_request_round_trip() {
    let r = SetIntersectionRequest { keys: vec!["a".to_string(), "b".to_string()] };
    assert_eq!(SetIntersectionRequest::decode(&r.encode()).unwrap(), r);
}

#[test]
fn set_union_request_round_trip() {
    let r = SetUnionRequest { keys: vec![] };
    assert_eq!(SetUnionRequest::decode(&r.encode()).unwrap(), r);
}

#[test]
fn set_operation_response_round_trip() {
    let r = SetOperationResponse { new_count: 0 };
    assert_eq!(SetOperationResponse::decode(&r.encode()).unwrap(), r);
}

#[test]
fn key_exists_query_round_trip() {
    let r = KeyExistsQuery { key: "anybody".to_string() };
    assert_eq!(KeyExistsQuery::decode(&r.encode()).unwrap(), r);
}
