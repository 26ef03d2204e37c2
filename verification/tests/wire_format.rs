use keyvalue_codec::keyvalue::DelResponse;
use keyvalue_codec::keyvalue::GetRequest;
use keyvalue_codec::keyvalue::GetResponse;
use keyvalue_codec::keyvalue::ListRangeResponse;
use keyvalue_codec::keyvalue::SetIntersectionRequest;
use keyvalue_codec::keyvalue::SetQueryResponse;
use keyvalue_codec::keyvalue::SetRequest;
use keyvalue_codec::keyvalue::SetUnionRequest;
use keyvalue_codec::keyvalue::OP_ADD;
use keyvalue_codec::keyvalue::OP_CLEAR;
use keyvalue_codec::keyvalue::OP_DEL;
use keyvalue_codec::keyvalue::OP_GET;
use keyvalue_codec::keyvalue::OP_KEY_EXISTS;
use keyvalue_codec::keyvalue::OP_LIST_DEL;
use keyvalue_codec::keyvalue::OP_PUSH;
use keyvalue_codec::keyvalue::OP_RANGE;
use keyvalue_codec::keyvalue::OP_SET;
use keyvalue_codec::keyvalue::OP_SET_ADD;
use keyvalue_codec::keyvalue::OP_SET_INTERSECT;
use keyvalue_codec::keyvalue::OP_SET_QUERY;
use keyvalue_codec::keyvalue::OP_SET_REMOVE;
use keyvalue_codec::keyvalue::OP_SET_UNION;
use keyvalue_codec::wire::encode_doc;
use keyvalue_codec::wire::DecodingError;
use keyvalue_codec::wire::Field;
use keyvalue_codec::wire::Value;

fn field(name: &str, value: Value) -> Field {
    Field { name: name.to_string(), value }
}

#[test]
fn operation_names_are_stable() {
    assert_eq!(OP_ADD, "Add");
    assert_eq!(OP_GET, "Get");
    assert_eq!(OP_SET, "Set");
    assert_eq!(OP_DEL, "Del");
    assert_eq!(OP_CLEAR, "Clear");
    assert_eq!(OP_RANGE, "Range");
    assert_eq!(OP_PUSH, "Push");
    assert_eq!(OP_LIST_DEL, "ListItemDelete");
    assert_eq!(OP_SET_ADD, "SetAdd");
    assert_eq!(OP_SET_REMOVE, "SetRemove");
    assert_eq!(OP_SET_UNION, "SetUnion");
    assert_eq!(OP_SET_INTERSECT, "SetIntersection");
    assert_eq!(OP_SET_QUERY, "SetQuery");
    assert_eq!(OP_KEY_EXISTS, "KeyExists");
}

#[test]
fn absent_values_field_decodes_to_empty_list() {
    let payload = encode_doc(&vec![]);
    let r = ListRangeResponse::decode(&payload).unwrap();
    assert_eq!(r.values, Vec::<String>::new());
    let r = SetQueryResponse::decode(&payload).unwrap();
    assert_eq!(r.values, Vec::<String>::new());
}

#[test]
fn absent_keys_field_decodes_to_empty_list() {
    let payload = encode_doc(&vec![]);
    let r = SetUnionRequest::decode(&payload).unwrap();
    assert_eq!(r.keys, Vec::<String>::new());
    let r = SetIntersectionRequest::decode(&payload).unwrap();
    assert_eq!(r.keys, Vec::<String>::new());
}

#[test]
fn unrelated_fields_are_ignored_and_values_still_defaults() {
    let payload = encode_doc(&vec![field("other", Value::Int(5))]);
    let r = ListRangeResponse::decode(&payload).unwrap();
    assert_eq!(r.values, Vec::<String>::new());
}

#[test]
fn del_response_payload_with_key_field() {
    let payload = encode_doc(&vec![field("key", Value::Text("counter1".to_string()))]);
    let r = DelResponse::decode(&payload).unwrap();
    assert_eq!(r, DelResponse { key: "counter1".to_string() });
}

#[test]
fn expires_s_travels_under_the_wire_name_expires() {
    let r = SetRequest { key: "k".to_string(), value: "v".to_string(), expires_s: 100 };
    let decoded = SetRequest::decode(&r.encode()).unwrap();
    assert_eq!(decoded.expires_s, 100);

    let payload = encode_doc(&vec![
        field("key", Value::Text("k".to_string())),
        field("value", Value::Text("v".to_string())),
        field("expires", Value::Int(100)),
    ]);
    let decoded = SetRequest::decode(&payload).unwrap();
    assert_eq!(decoded, r);

    // A document using the in-memory name instead of the wire name is
    // missing the required wire field.
    let payload = encode_doc(&vec![
        field("key", Value::Text("k".to_string())),
        field("value", Value::Text("v".to_string())),
        field("expires_s", Value::Int(100)),
    ]);
    assert_eq!(SetRequest::decode(&payload), Err(DecodingError::MissingField));
}

#[test]
fn missing_required_field_is_an_error() {
    let payload = encode_doc(&vec![]);
    assert_eq!(GetRequest::decode(&payload), Err(DecodingError::MissingField));
    let payload = encode_doc(&vec![field("value", Value::Text("x".to_string()))]);
    assert_eq!(GetRequest::decode(&payload), Err(DecodingError::MissingField));
}

#[test]
fn wrongly_typed_field_is_an_error() {
    let payload = encode_doc(&vec![field("key", Value::Int(3))]);
    assert_eq!(GetRequest::decode(&payload), Err(DecodingError::WrongType));
    let payload = encode_doc(&vec![field("values", Value::Text("x".to_string()))]);
    assert_eq!(ListRangeResponse::decode(&payload), Err(DecodingError::WrongType));
}

#[test]
fn truncated_payload_is_malformed() {
    let r = GetRequest { key: "counter1".to_string() };
    let payload = r.encode();
    let cut = &payload[..payload.len() - 1];
    assert_eq!(GetRequest::decode(cut), Err(DecodingError::Malformed));
    assert_eq!(GetRequest::decode(&[]), Err(DecodingError::Malformed));
}

#[test]
fn trailing_bytes_are_malformed() {
    let r = GetRequest { key: "counter1".to_string() };
    let mut payload = r.encode();
    payload.push(0);
    assert_eq!(GetRequest::decode(&payload), Err(DecodingError::Malformed));
}

#[test]
fn corrupted_value_tag_is_malformed() {
    let r = GetRequest { key: String::new() };
    let mut payload = r.encode();
    // The last twelve bytes are the key field's value: its tag and the
    // length of the empty string.  Overwrite the tag with an unknown one.
    let tag_at = payload.len() - 9;
    payload[tag_at] = 250;
    assert_eq!(GetRequest::decode(&payload), Err(DecodingError::Malformed));
}

#[test]
fn invalid_utf8_in_a_string_is_malformed() {
    let r = GetRequest { key: "ab".to_string() };
    let mut payload = r.encode();
    // The final two bytes are the key's UTF-8 form; 0xFF never occurs in
    // valid UTF-8.
    let at = payload.len() - 1;
    payload[at] = 0xFF;
    assert_eq!(GetRequest::decode(&payload), Err(DecodingError::Malformed));
}

#[test]
fn first_of_duplicate_fields_wins() {
    let payload = encode_doc(&vec![
        field("key", Value::Text("first".to_string())),
        field("key", Value::Text("second".to_string())),
    ]);
    let r = GetRequest::decode(&payload).unwrap();
    assert_eq!(r.key, "first");
}

#[test]
fn boolean_wire_byte_must_be_zero_or_one() {
    let r = GetResponse { value: String::new(), exists: true };
    let mut payload = r.encode();
    // The exists field's value byte is the last byte of the payload.
    let at = payload.len() - 1;
    payload[at] = 2;
    assert_eq!(GetResponse::decode(&payload), Err(DecodingError::Malformed));
}
