//! Record types for the key-value capability contract.
//!
//! Each operation of the storage provider is routed under one of the
//! `OP_*` name constants and carries one of the record types below as its
//! payload.  Every record knows how to `encode` itself into the wire
//! payload and how to `decode` one, and both directions are pinned to
//! mathematical `spec_encode`/`spec_decode` functions; a round-trip law
//! accompanies each record.

use vstd::prelude::*;

verus! {

use vstd::string::StringExecFns;

use crate::wire::DecodingError;
use crate::wire::Field;
use crate::wire::FieldModel;
use crate::wire::Value;
use crate::wire::ValueModel;
use crate::wire::clone_texts;
use crate::wire::decode_doc;
use crate::wire::doc_fits;
use crate::wire::enc_doc;
use crate::wire::encode_doc;
use crate::wire::field_fits;
use crate::wire::get_flag;
use crate::wire::get_int;
use crate::wire::get_text;
use crate::wire::get_texts;
use crate::wire::lemma_decode_doc_enc;
use crate::wire::lemma_encode_utf8_len;
use crate::wire::lemma_lookup_one;
use crate::wire::lemma_lookup_three;
use crate::wire::lemma_lookup_two;
use crate::wire::lookup;
use crate::wire::opt_texts;
use crate::wire::req_flag;
use crate::wire::req_int;
use crate::wire::req_text;
use crate::wire::spec_decode_doc;
use crate::wire::text_fits;
use crate::wire::texts_fit;

/// Operation name for the atomic add operation.
pub const OP_ADD: &'static str = "Add";

/// Operation name for fetching a value.
pub const OP_GET: &'static str = "Get";

/// Operation name for storing a value.
pub const OP_SET: &'static str = "Set";

/// Operation name for deleting a key.
pub const OP_DEL: &'static str = "Del";

/// Operation name for clearing a list.
pub const OP_CLEAR: &'static str = "Clear";

/// Operation name for reading a range of a list.
pub const OP_RANGE: &'static str = "Range";

/// Operation name for appending to a list.
pub const OP_PUSH: &'static str = "Push";

/// Operation name for deleting an item from a list.
pub const OP_LIST_DEL: &'static str = "ListItemDelete";

/// Operation name for adding a member to a set.
pub const OP_SET_ADD: &'static str = "SetAdd";

/// Operation name for removing a member from a set.
pub const OP_SET_REMOVE: &'static str = "SetRemove";

/// Operation name for the union of several sets.
pub const OP_SET_UNION: &'static str = "SetUnion";

/// Operation name for the intersection of several sets.
pub const OP_SET_INTERSECT: &'static str = "SetIntersection";

/// Operation name for enumerating the members of a set.
pub const OP_SET_QUERY: &'static str = "SetQuery";

/// Operation name for testing whether a key exists.
pub const OP_KEY_EXISTS: &'static str = "KeyExists";

/// Facts about the wire field names: each fits its length prefix, and the
/// names that share a record differ from one another.
proof fn lemma_name_facts()
    ensures
        text_fits("key"@),
        text_fits("value"@),
        text_fits("expires"@),
        text_fits("exists"@),
        text_fits("newCount"@),
        text_fits("start"@),
        text_fits("stop"@),
        text_fits("values"@),
        text_fits("keys"@),
        "key"@ != "value"@,
        "key"@ != "expires"@,
        "value"@ != "expires"@,
        "value"@ != "exists"@,
        "key"@ != "start"@,
        "key"@ != "stop"@,
        "start"@ != "stop"@,
{
    reveal_strlit("key");
    reveal_strlit("value");
    reveal_strlit("expires");
    reveal_strlit("exists");
    reveal_strlit("newCount");
    reveal_strlit("start");
    reveal_strlit("stop");
    reveal_strlit("values");
    reveal_strlit("keys");
    lemma_encode_utf8_len("key"@);
    lemma_encode_utf8_len("value"@);
    lemma_encode_utf8_len("expires"@);
    lemma_encode_utf8_len("exists"@);
    lemma_encode_utf8_len("newCount"@);
    lemma_encode_utf8_len("start"@);
    lemma_encode_utf8_len("stop"@);
    lemma_encode_utf8_len("values"@);
    lemma_encode_utf8_len("keys"@);
}

/// A request to get a single value from the K/V store
#[derive(Debug, PartialEq)]
pub struct GetRequest {
    pub key: String,
}

impl GetRequest {
    /// The payload document this record stands for.
    pub open spec fn doc_model(key: Seq<char>) -> Seq<FieldModel> {
        seq![
            (FieldModel { name: "key"@, value: ValueModel::Text(key) }),
        ]
    }

    /// The exact bytes this record encodes to.
    pub open spec fn spec_encode(key: Seq<char>) -> Seq<u8> {
        enc_doc(Self::doc_model(key))
    }

    /// What decoding a payload as this record yields.
    pub open spec fn spec_decode(b: Seq<u8>) -> Result<Seq<char>, DecodingError> {
        match spec_decode_doc(b) {
            None => Err(DecodingError::Malformed),
            Some(d) => req_text(d, "key"@),
        }
    }

    /// Serialize the record into a wire payload.
    pub fn encode(&self) -> (r: Vec<u8>)
        ensures
            r@ == Self::spec_encode(self.key@),
    {
        let mut d: Vec<Field> = Vec::new();
        d.push(Field { name: String::from_str("key"), value: Value::Text(self.key.clone()) });
        let r = encode_doc(&d);
        proof {
            assert(d.deep_view() =~= Self::doc_model(self.key@));
        }
        r
    }

    /// Parse a wire payload into this record.
    pub fn decode(bytes: &[u8]) -> (r: Result<Self, DecodingError>)
        ensures
            match (r, Self::spec_decode(bytes@)) {
                (Ok(x), Ok(m)) => x.key@ == m,
                (Err(e1), Err(e2)) => e1 == e2,
                _ => false,
            },
    {
        let d = match decode_doc(bytes) {
            Some(d) => d,
            None => {
                return Err(DecodingError::Malformed);
            },
        };
        let key = match get_text(&d, "key") {
            Ok(v) => v,
            Err(e) => {
                return Err(e);
            },
        };
        Ok(GetRequest { key })
    }
}

/// Law: decoding an encoded `GetRequest` yields the record back.
pub proof fn lemma_get_request_round_trip(key: Seq<char>)
    requires
        text_fits(key),
    ensures
        GetRequest::spec_decode(GetRequest::spec_encode(key)) == Ok::<_, DecodingError>(key),
{
    let d = GetRequest::doc_model(key);
    lemma_name_facts();
    assert(doc_fits(d)) by {
        assert(field_fits(d[0]));
    }
    lemma_decode_doc_enc(d);
    lemma_lookup_one(d[0]);
}

/// The result of a get request
#[derive(Debug, PartialEq)]
pub struct GetResponse {
    /// The value returned from the data store
    pub value: String,
    /// Indicates whether the key existed
    pub exists: bool,
}

impl GetResponse {
    /// The payload document this record stands for.
    pub open spec fn doc_model(value: Seq<char>, exists: bool) -> Seq<FieldModel> {
        seq![
            (FieldModel { name: "value"@, value: ValueModel::Text(value) }),
            (FieldModel { name: "exists"@, value: ValueModel::Flag(exists) }),
        ]
    }

    /// The exact bytes this record encodes to.
    pub open spec fn spec_encode(value: Seq<char>, exists: bool) -> Seq<u8> {
        enc_doc(Self::doc_model(value, exists))
    }

    /// What decoding a payload as this record yields.
    pub open spec fn spec_decode(b: Seq<u8>) -> Result<(Seq<char>, bool), DecodingError> {
        match spec_decode_doc(b) {
            None => Err(DecodingError::Malformed),
            Some(d) => match (req_text(d, "value"@), req_flag(d, "exists"@)) {
                (Ok(x0), Ok(x1)) => Ok((x0, x1)),
                (Err(e), _) => Err(e),
                (Ok(_), Err(e)) => Err(e),
            },
        }
    }

    /// Serialize the record into a wire payload.
    pub fn encode(&self) -> (r: Vec<u8>)
        ensures
            r@ == Self::spec_encode(self.value@, self.exists),
    {
        let mut d: Vec<Field> = Vec::new();
        d.push(Field { name: String::from_str("value"), value: Value::Text(self.value.clone()) });
        d.push(Field { name: String::from_str("exists"), value: Value::Flag(self.exists) });
        let r = encode_doc(&d);
        proof {
            assert(d.deep_view() =~= Self::doc_model(self.value@, self.exists));
        }
        r
    }

    /// Parse a wire payload into this record.
    pub fn decode(bytes: &[u8]) -> (r: Result<Self, DecodingError>)
        ensures
            match (r, Self::spec_decode(bytes@)) {
                (Ok(x), Ok(m)) => x.value@ == m.0 && x.exists == m.1,
                (Err(e1), Err(e2)) => e1 == e2,
                _ => false,
            },
    {
        let d = match decode_doc(bytes) {
            Some(d) => d,
            None => {
                return Err(DecodingError::Malformed);
            },
        };
        let value = match get_text(&d, "value") {
            Ok(v) => v,
            Err(e) => {
                return Err(e);
            },
        };
        let exists = match get_flag(&d, "exists") {
            Ok(v) => v,
            Err(e) => {
                return Err(e);
            },
        };
        Ok(GetResponse { value, exists })
    }
}

/// Law: decoding an encoded `GetResponse` yields the record back.
pub proof fn lemma_get_response_round_trip(value: Seq<char>, exists: bool)
    requires
        text_fits(value),
    ensures
        GetResponse::spec_decode(GetResponse::spec_encode(value, exists)) == Ok::<_, DecodingError>((value, exists)),
{
    let d = GetResponse::doc_model(value, exists);
    lemma_name_facts();
    assert(doc_fits(d)) by {
        assert(field_fits(d[0]));
        assert(field_fits(d[1]));
    }
    lemma_decode_doc_enc(d);
    assert(d =~= seq![d[0], d[1]]);
    lemma_lookup_two(d[0], d[1]);
}

/// A request to set a value
#[derive(Debug, PartialEq)]
pub struct SetRequest {
    /// Key of the item to set
    pub key: String,
    /// Value of the item to set
    pub value: String,
    /// Seconds after which the key will expire, 0 - no expiration
    pub expires_s: i32,
}

impl SetRequest {
    /// The payload document this record stands for.
    pub open spec fn doc_model(key: Seq<char>, value: Seq<char>, expires_s: i32) -> Seq<FieldModel> {
        seq![
            (FieldModel { name: "key"@, value: ValueModel::Text(key) }),
            (FieldModel { name: "value"@, value: ValueModel::Text(value) }),
            (FieldModel { name: "expires"@, value: ValueModel::Int(expires_s) }),
        ]
    }

    /// The exact bytes this record encodes to.
    pub open spec fn spec_encode(key: Seq<char>, value: Seq<char>, expires_s: i32) -> Seq<u8> {
        enc_doc(Self::doc_model(key, value, expires_s))
    }

    /// What decoding a payload as this record yields.
    pub open spec fn spec_decode(b: Seq<u8>) -> Result<(Seq<char>, Seq<char>, i32), DecodingError> {
        match spec_decode_doc(b) {
            None => Err(DecodingError::Malformed),
            Some(d) => match (req_text(d, "key"@), req_text(d, "value"@), req_int(d, "expires"@)) {
                (Ok(x0), Ok(x1), Ok(x2)) => Ok((x0, x1, x2)),
                (Err(e), _, _) => Err(e),
                (Ok(_), Err(e), _) => Err(e),
                (Ok(_), Ok(_), Err(e)) => Err(e),
            },
        }
    }

    /// Serialize the record into a wire payload.
    pub fn encode(&self) -> (r: Vec<u8>)
        ensures
            r@ == Self::spec_encode(self.key@, self.value@, self.expires_s),
    {
        let mut d: Vec<Field> = Vec::new();
        d.push(Field { name: String::from_str("key"), value: Value::Text(self.key.clone()) });
        d.push(Field { name: String::from_str("value"), value: Value::Text(self.value.clone()) });
        d.push(Field { name: String::from_str("expires"), value: Value::Int(self.expires_s) });
        let r = encode_doc(&d);
        proof {
            assert(d.deep_view() =~= Self::doc_model(self.key@, self.value@, self.expires_s));
        }
        r
    }

    /// Parse a wire payload into this record.
    pub fn decode(bytes: &[u8]) -> (r: Result<Self, DecodingError>)
        ensures
            match (r, Self::spec_decode(bytes@)) {
                (Ok(x), Ok(m)) => x.key@ == m.0 && x.value@ == m.1 && x.expires_s == m.2,
                (Err(e1), Err(e2)) => e1 == e2,
                _ => false,
            },
    {
        let d = match decode_doc(bytes) {
            Some(d) => d,
            None => {
                return Err(DecodingError::Malformed);
            },
        };
        let key = match get_text(&d, "key") {
            Ok(v) => v,
            Err(e) => {
                return Err(e);
            },
        };
        let value = match get_text(&d, "value") {
            Ok(v) => v,
            Err(e) => {
                return Err(e);
            },
        };
        let expires_s = match get_int(&d, "expires") {
            Ok(v) => v,
            Err(e) => {
                return Err(e);
            },
        };
        Ok(SetRequest { key, value, expires_s })
    }
}

/// Law: decoding an encoded `SetRequest` yields the record back.
pub proof fn lemma_set_request_round_trip(key: Seq<char>, value: Seq<char>, expires_s: i32)
    requires
        text_fits(key),
        text_fits(value),
    ensures
        SetRequest::spec_decode(SetRequest::spec_encode(key, value, expires_s)) == Ok::<_, DecodingError>((key, value, expires_s)),
{
    let d = SetRequest::doc_model(key, value, expires_s);
    lemma_name_facts();
    assert(doc_fits(d)) by {
        assert(field_fits(d[0]));
        assert(field_fits(d[1]));
        assert(field_fits(d[2]));
    }
    lemma_decode_doc_enc(d);
    assert(d =~= seq![d[0], d[1], d[2]]);
    lemma_lookup_three(d[0], d[1], d[2]);
}

/// A request to delete a key
#[derive(Debug, PartialEq)]
pub struct DelRequest {
    pub key: String,
}

impl DelRequest {
    /// The payload document this record stands for.
    pub open spec fn doc_model(key: Seq<char>) -> Seq<FieldModel> {
        seq![
            (FieldModel { name: "key"@, value: ValueModel::Text(key) }),
        ]
    }

    /// The exact bytes this record encodes to.
    pub open spec fn spec_encode(key: Seq<char>) -> Seq<u8> {
        enc_doc(Self::doc_model(key))
    }

    /// What decoding a payload as this record yields.
    pub open spec fn spec_decode(b: Seq<u8>) -> Result<Seq<char>, DecodingError> {
        match spec_decode_doc(b) {
            None => Err(DecodingError::Malformed),
            Some(d) => req_text(d, "key"@),
        }
    }

    /// Serialize the record into a wire payload.
    pub fn encode(&self) -> (r: Vec<u8>)
        ensures
            r@ == Self::spec_encode(self.key@),
    {
        let mut d: Vec<Field> = Vec::new();
        d.push(Field { name: String::from_str("key"), value: Value::Text(self.key.clone()) });
        let r = encode_doc(&d);
        proof {
            assert(d.deep_view() =~= Self::doc_model(self.key@));
        }
        r
    }

    /// Parse a wire payload into this record.
    pub fn decode(bytes: &[u8]) -> (r: Result<Self, DecodingError>)
        ensures
            match (r, Self::spec_decode(bytes@)) {
                (Ok(x), Ok(m)) => x.key@ == m,
                (Err(e1), Err(e2)) => e1 == e2,
                _ => false,
            },
    {
        let d = match decode_doc(bytes) {
            Some(d) => d,
            None => {
                return Err(DecodingError::Malformed);
            },
        };
        let key = match get_text(&d, "key") {
            Ok(v) => v,
            Err(e) => {
                return Err(e);
            },
        };
        Ok(DelRequest { key })
    }
}

/// Law: decoding an encoded `DelRequest` yields the record back.
pub proof fn lemma_del_request_round_trip(key: Seq<char>)
    requires
        text_fits(key),
    ensures
        DelRequest::spec_decode(DelRequest::spec_encode(key)) == Ok::<_, DecodingError>(key),
{
    let d = DelRequest::doc_model(key);
    lemma_name_facts();
    assert(doc_fits(d)) by {
        assert(field_fits(d[0]));
    }
    lemma_decode_doc_enc(d);
    lemma_lookup_one(d[0]);
}

/// The result of a delete request; echoes the key
#[derive(Debug, PartialEq)]
pub struct DelResponse {
    pub key: String,
}

impl DelResponse {
    /// The payload document this record stands for.
    pub open spec fn doc_model(key: Seq<char>) -> Seq<FieldModel> {
        seq![
            (FieldModel { name: "key"@, value: ValueModel::Text(key) }),
        ]
    }

    /// The exact bytes this record encodes to.
    pub open spec fn spec_encode(key: Seq<char>) -> Seq<u8> {
        enc_doc(Self::doc_model(key))
    }

    /// What decoding a payload as this record yields.
    pub open spec fn spec_decode(b: Seq<u8>) -> Result<Seq<char>, DecodingError> {
        match spec_decode_doc(b) {
            None => Err(DecodingError::Malformed),
            Some(d) => req_text(d, "key"@),
        }
    }

    /// Serialize the record into a wire payload.
    pub fn encode(&self) -> (r: Vec<u8>)
        ensures
            r@ == Self::spec_encode(self.key@),
    {
        let mut d: Vec<Field> = Vec::new();
        d.push(Field { name: String::from_str("key"), value: Value::Text(self.key.clone()) });
        let r = encode_doc(&d);
        proof {
            assert(d.deep_view() =~= Self::doc_model(self.key@));
        }
        r
    }

    /// Parse a wire payload into this record.
    pub fn decode(bytes: &[u8]) -> (r: Result<Self, DecodingError>)
        ensures
            match (r, Self::spec_decode(bytes@)) {
                (Ok(x), Ok(m)) => x.key@ == m,
                (Err(e1), Err(e2)) => e1 == e2,
                _ => false,
            },
    {
        let d = match decode_doc(bytes) {
            Some(d) => d,
            None => {
                return Err(DecodingError::Malformed);
            },
        };
        let key = match get_text(&d, "key") {
            Ok(v) => v,
            Err(e) => {
                return Err(e);
            },
        };
        Ok(DelResponse { key })
    }
}

/// Law: decoding an encoded `DelResponse` yields the record back.
pub proof fn lemma_del_response_round_trip(key: Seq<char>)
    requires
        text_fits(key),
    ensures
        DelResponse::spec_decode(DelResponse::spec_encode(key)) == Ok::<_, DecodingError>(key),
{
    let d = DelResponse::doc_model(key);
    lemma_name_facts();
    assert(doc_fits(d)) by {
        assert(field_fits(d[0]));
    }
    lemma_decode_doc_enc(d);
    lemma_lookup_one(d[0]);
}

/// Response to a set request
#[derive(Debug, PartialEq)]
pub struct SetResponse {
    pub value: String,
}

impl SetResponse {
    /// The payload document this record stands for.
    pub open spec fn doc_model(value: Seq<char>) -> Seq<FieldModel> {
        seq![
            (FieldModel { name: "value"@, value: ValueModel::Text(value) }),
        ]
    }

    /// The exact bytes this record encodes to.
    pub open spec fn spec_encode(value: Seq<char>) -> Seq<u8> {
        enc_doc(Self::doc_model(value))
    }

    /// What decoding a payload as this record yields.
    pub open spec fn spec_decode(b: Seq<u8>) -> Result<Seq<char>, DecodingError> {
        match spec_decode_doc(b) {
            None => Err(DecodingError::Malformed),
            Some(d) => req_text(d, "value"@),
        }
    }

    /// Serialize the record into a wire payload.
    pub fn encode(&self) -> (r: Vec<u8>)
        ensures
            r@ == Self::spec_encode(self.value@),
    {
        let mut d: Vec<Field> = Vec::new();
        d.push(Field { name: String::from_str("value"), value: Value::Text(self.value.clone()) });
        let r = encode_doc(&d);
        proof {
            assert(d.deep_view() =~= Self::doc_model(self.value@));
        }
        r
    }

    /// Parse a wire payload into this record.
    pub fn decode(bytes: &[u8]) -> (r: Result<Self, DecodingError>)
        ensures
            match (r, Self::spec_decode(bytes@)) {
                (Ok(x), Ok(m)) => x.value@ == m,
                (Err(e1), Err(e2)) => e1 == e2,
                _ => false,
            },
    {
        let d = match decode_doc(bytes) {
            Some(d) => d,
            None => {
                return Err(DecodingError::Malformed);
            },
        };
        let value = match get_text(&d, "value") {
            Ok(v) => v,
            Err(e) => {
                return Err(e);
            },
        };
        Ok(SetResponse { value })
    }
}

/// Law: decoding an encoded `SetResponse` yields the record back.
pub proof fn lemma_set_response_round_trip(value: Seq<char>)
    requires
        text_fits(value),
    ensures
        SetResponse::spec_decode(SetResponse::spec_encode(value)) == Ok::<_, DecodingError>(value),
{
    let d = SetResponse::doc_model(value);
    lemma_name_facts();
    assert(doc_fits(d)) by {
        assert(field_fits(d[0]));
    }
    lemma_decode_doc_enc(d);
    lemma_lookup_one(d[0]);
}

/// A request to perform an atomic add operation
#[derive(Debug, PartialEq)]
pub struct AddRequest {
    pub key: String,
    pub value: i32,
}

impl AddRequest {
    /// The payload document this record stands for.
    pub open spec fn doc_model(key: Seq<char>, value: i32) -> Seq<FieldModel> {
        seq![
            (FieldModel { name: "key"@, value: ValueModel::Text(key) }),
            (FieldModel { name: "value"@, value: ValueModel::Int(value) }),
        ]
    }

    /// The exact bytes this record encodes to.
    pub open spec fn spec_encode(key: Seq<char>, value: i32) -> Seq<u8> {
        enc_doc(Self::doc_model(key, value))
    }

    /// What decoding a payload as this record yields.
    pub open spec fn spec_decode(b: Seq<u8>) -> Result<(Seq<char>, i32), DecodingError> {
        match spec_decode_doc(b) {
            None => Err(DecodingError::Malformed),
            Some(d) => match (req_text(d, "key"@), req_int(d, "value"@)) {
                (Ok(x0), Ok(x1)) => Ok((x0, x1)),
                (Err(e), _) => Err(e),
                (Ok(_), Err(e)) => Err(e),
            },
        }
    }

    /// Serialize the record into a wire payload.
    pub fn encode(&self) -> (r: Vec<u8>)
        ensures
            r@ == Self::spec_encode(self.key@, self.value),
    {
        let mut d: Vec<Field> = Vec::new();
        d.push(Field { name: String::from_str("key"), value: Value::Text(self.key.clone()) });
        d.push(Field { name: String::from_str("value"), value: Value::Int(self.value) });
        let r = encode_doc(&d);
        proof {
            assert(d.deep_view() =~= Self::doc_model(self.key@, self.value));
        }
        r
    }

    /// Parse a wire payload into this record.
    pub fn decode(bytes: &[u8]) -> (r: Result<Self, DecodingError>)
        ensures
            match (r, Self::spec_decode(bytes@)) {
                (Ok(x), Ok(m)) => x.key@ == m.0 && x.value == m.1,
                (Err(e1), Err(e2)) => e1 == e2,
                _ => false,
            },
    {
        let d = match decode_doc(bytes) {
            Some(d) => d,
            None => {
                return Err(DecodingError::Malformed);
            },
        };
        let key = match get_text(&d, "key") {
            Ok(v) => v,
            Err(e) => {
                return Err(e);
            },
        };
        let value = match get_int(&d, "value") {
            Ok(v) => v,
            Err(e) => {
                return Err(e);
            },
        };
        Ok(AddRequest { key, value })
    }
}

/// Law: decoding an encoded `AddRequest` yields the record back.
pub proof fn lemma_add_request_round_trip(key: Seq<char>, value: i32)
    requires
        text_fits(key),
    ensures
        AddRequest::spec_decode(AddRequest::spec_encode(key, value)) == Ok::<_, DecodingError>((key, value)),
{
    let d = AddRequest::doc_model(key, value);
    lemma_name_facts();
    assert(doc_fits(d)) by {
        assert(field_fits(d[0]));
        assert(field_fits(d[1]));
    }
    lemma_decode_doc_enc(d);
    assert(d =~= seq![d[0], d[1]]);
    lemma_lookup_two(d[0], d[1]);
}

/// Result of an atomic add operation
#[derive(Debug, PartialEq)]
pub struct AddResponse {
    pub value: i32,
}

impl AddResponse {
    /// The payload document this record stands for.
    pub open spec fn doc_model(value: i32) -> Seq<FieldModel> {
        seq![
            (FieldModel { name: "value"@, value: ValueModel::Int(value) }),
        ]
    }

    /// The exact bytes this record encodes to.
    pub open spec fn spec_encode(value: i32) -> Seq<u8> {
        enc_doc(Self::doc_model(value))
    }

    /// What decoding a payload as this record yields.
    pub open spec fn spec_decode(b: Seq<u8>) -> Result<i32, DecodingError> {
        match spec_decode_doc(b) {
            None => Err(DecodingError::Malformed),
            Some(d) => req_int(d, "value"@),
        }
    }

    /// Serialize the record into a wire payload.
    pub fn encode(&self) -> (r: Vec<u8>)
        ensures
            r@ == Self::spec_encode(self.value),
    {
        let mut d: Vec<Field> = Vec::new();
        d.push(Field { name: String::from_str("value"), value: Value::Int(self.value) });
        let r = encode_doc(&d);
        proof {
            assert(d.deep_view() =~= Self::doc_model(self.value));
        }
        r
    }

    /// Parse a wire payload into this record.
    pub fn decode(bytes: &[u8]) -> (r: Result<Self, DecodingError>)
        ensures
            match (r, Self::spec_decode(bytes@)) {
                (Ok(x), Ok(m)) => x.value == m,
                (Err(e1), Err(e2)) => e1 == e2,
                _ => false,
            },
    {
        let d = match decode_doc(bytes) {
            Some(d) => d,
            None => {
                return Err(DecodingError::Malformed);
            },
        };
        let value = match get_int(&d, "value") {
            Ok(v) => v,
            Err(e) => {
                return Err(e);
            },
        };
        Ok(AddResponse { value })
    }
}

/// Law: decoding an encoded `AddResponse` yields the record back.
pub proof fn lemma_add_response_round_trip(value: i32)
    ensures
        AddResponse::spec_decode(AddResponse::spec_encode(value)) == Ok::<_, DecodingError>(value),
{
    let d = AddResponse::doc_model(value);
    lemma_name_facts();
    assert(doc_fits(d)) by {
        assert(field_fits(d[0]));
    }
    lemma_decode_doc_enc(d);
    lemma_lookup_one(d[0]);
}

/// A request to add an item to the end of a list
#[derive(Debug, PartialEq)]
pub struct ListPushRequest {
    pub key: String,
    pub value: String,
}

impl ListPushRequest {
    /// The payload document this record stands for.
    pub open spec fn doc_model(key: Seq<char>, value: Seq<char>) -> Seq<FieldModel> {
        seq![
            (FieldModel { name: "key"@, value: ValueModel::Text(key) }),
            (FieldModel { name: "value"@, value: ValueModel::Text(value) }),
        ]
    }

    /// The exact bytes this record encodes to.
    pub open spec fn spec_encode(key: Seq<char>, value: Seq<char>) -> Seq<u8> {
        enc_doc(Self::doc_model(key, value))
    }

    /// What decoding a payload as this record yields.
    pub open spec fn spec_decode(b: Seq<u8>) -> Result<(Seq<char>, Seq<char>), DecodingError> {
        match spec_decode_doc(b) {
            None => Err(DecodingError::Malformed),
            Some(d) => match (req_text(d, "key"@), req_text(d, "value"@)) {
                (Ok(x0), Ok(x1)) => Ok((x0, x1)),
                (Err(e), _) => Err(e),
                (Ok(_), Err(e)) => Err(e),
            },
        }
    }

    /// Serialize the record into a wire payload.
    pub fn encode(&self) -> (r: Vec<u8>)
        ensures
            r@ == Self::spec_encode(self.key@, self.value@),
    {
        let mut d: Vec<Field> = Vec::new();
        d.push(Field { name: String::from_str("key"), value: Value::Text(self.key.clone()) });
        d.push(Field { name: String::from_str("value"), value: Value::Text(self.value.clone()) });
        let r = encode_doc(&d);
        proof {
            assert(d.deep_view() =~= Self::doc_model(self.key@, self.value@));
        }
        r
    }

    /// Parse a wire payload into this record.
    pub fn decode(bytes: &[u8]) -> (r: Result<Self, DecodingError>)
        ensures
            match (r, Self::spec_decode(bytes@)) {
                (Ok(x), Ok(m)) => x.key@ == m.0 && x.value@ == m.1,
                (Err(e1), Err(e2)) => e1 == e2,
                _ => false,
            },
    {
        let d = match decode_doc(bytes) {
            Some(d) => d,
            None => {
                return Err(DecodingError::Malformed);
            },
        };
        let key = match get_text(&d, "key") {
            Ok(v) => v,
            Err(e) => {
                return Err(e);
            },
        };
        let value = match get_text(&d, "value") {
            Ok(v) => v,
            Err(e) => {
                return Err(e);
            },
        };
        Ok(ListPushRequest { key, value })
    }
}

/// Law: decoding an encoded `ListPushRequest` yields the record back.
pub proof fn lemma_list_push_request_round_trip(key: Seq<char>, value: Seq<char>)
    requires
        text_fits(key),
        text_fits(value),
    ensures
        ListPushRequest::spec_decode(ListPushRequest::spec_encode(key, value)) == Ok::<_, DecodingError>((key, value)),
{
    let d = ListPushRequest::doc_model(key, value);
    lemma_name_facts();
    assert(doc_fits(d)) by {
        assert(field_fits(d[0]));
        assert(field_fits(d[1]));
    }
    lemma_decode_doc_enc(d);
    assert(d =~= seq![d[0], d[1]]);
    lemma_lookup_two(d[0], d[1]);
}

/// A request to delete all occurences of an item from a list
#[derive(Debug, PartialEq)]
pub struct ListDelItemRequest {
    pub key: String,
    pub value: String,
}

impl ListDelItemRequest {
    /// The payload document this record stands for.
    pub open spec fn doc_model(key: Seq<char>, value: Seq<char>) -> Seq<FieldModel> {
        seq![
            (FieldModel { name: "key"@, value: ValueModel::Text(key) }),
            (FieldModel { name: "value"@, value: ValueModel::Text(value) }),
        ]
    }

    /// The exact bytes this record encodes to.
    pub open spec fn spec_encode(key: Seq<char>, value: Seq<char>) -> Seq<u8> {
        enc_doc(Self::doc_model(key, value))
    }

    /// What decoding a payload as this record yields.
    pub open spec fn spec_decode(b: Seq<u8>) -> Result<(Seq<char>, Seq<char>), DecodingError> {
        match spec_decode_doc(b) {
            None => Err(DecodingError::Malformed),
            Some(d) => match (req_text(d, "key"@), req_text(d, "value"@)) {
                (Ok(x0), Ok(x1)) => Ok((x0, x1)),
                (Err(e), _) => Err(e),
                (Ok(_), Err(e)) => Err(e),
            },
        }
    }

    /// Serialize the record into a wire payload.
    pub fn encode(&self) -> (r: Vec<u8>)
        ensures
            r@ == Self::spec_encode(self.key@, self.value@),
    {
        let mut d: Vec<Field> = Vec::new();
        d.push(Field { name: String::from_str("key"), value: Value::Text(self.key.clone()) });
        d.push(Field { name: String::from_str("value"), value: Value::Text(self.value.clone()) });
        let r = encode_doc(&d);
        proof {
            assert(d.deep_view() =~= Self::doc_model(self.key@, self.value@));
        }
        r
    }

    /// Parse a wire payload into this record.
    pub fn decode(bytes: &[u8]) -> (r: Result<Self, DecodingError>)
        ensures
            match (r, Self::spec_decode(bytes@)) {
                (Ok(x), Ok(m)) => x.key@ == m.0 && x.value@ == m.1,
                (Err(e1), Err(e2)) => e1 == e2,
                _ => false,
            },
    {
        let d = match decode_doc(bytes) {
            Some(d) => d,
            None => {
                return Err(DecodingError::Malformed);
            },
        };
        let key = match get_text(&d, "key") {
            Ok(v) => v,
            Err(e) => {
                return Err(e);
            },
        };
        let value = match get_text(&d, "value") {
            Ok(v) => v,
            Err(e) => {
                return Err(e);
            },
        };
        Ok(ListDelItemRequest { key, value })
    }
}

/// Law: decoding an encoded `ListDelItemRequest` yields the record back.
pub proof fn lemma_list_del_item_request_round_trip(key: Seq<char>, value: Seq<char>)
    requires
        text_fits(key),
        text_fits(value),
    ensures
        ListDelItemRequest::spec_decode(ListDelItemRequest::spec_encode(key, value)) == Ok::<_, DecodingError>((key, value)),
{
    let d = ListDelItemRequest::doc_model(key, value);
    lemma_name_facts();
    assert(doc_fits(d)) by {
        assert(field_fits(d[0]));
        assert(field_fits(d[1]));
    }
    lemma_decode_doc_enc(d);
    assert(d =~= seq![d[0], d[1]]);
    lemma_lookup_two(d[0], d[1]);
}

/// A request to clear a list at a given key
#[derive(Debug, PartialEq)]
pub struct ListClearRequest {
    pub key: String,
}

impl ListClearRequest {
    /// The payload document this record stands for.
    pub open spec fn doc_model(key: Seq<char>) -> Seq<FieldModel> {
        seq![
            (FieldModel { name: "key"@, value: ValueModel::Text(key) }),
        ]
    }

    /// The exact bytes this record encodes to.
    pub open spec fn spec_encode(key: Seq<char>) -> Seq<u8> {
        enc_doc(Self::doc_model(key))
    }

    /// What decoding a payload as this record yields.
    pub open spec fn spec_decode(b: Seq<u8>) -> Result<Seq<char>, DecodingError> {
        match spec_decode_doc(b) {
            None => Err(DecodingError::Malformed),
            Some(d) => req_text(d, "key"@),
        }
    }

    /// Serialize the record into a wire payload.
    pub fn encode(&self) -> (r: Vec<u8>)
        ensures
            r@ == Self::spec_encode(self.key@),
    {
        let mut d: Vec<Field> = Vec::new();
        d.push(Field { name: String::from_str("key"), value: Value::Text(self.key.clone()) });
        let r = encode_doc(&d);
        proof {
            assert(d.deep_view() =~= Self::doc_model(self.key@));
        }
        r
    }

    /// Parse a wire payload into this record.
    pub fn decode(bytes: &[u8]) -> (r: Result<Self, DecodingError>)
        ensures
            match (r, Self::spec_decode(bytes@)) {
                (Ok(x), Ok(m)) => x.key@ == m,
                (Err(e1), Err(e2)) => e1 == e2,
                _ => false,
            },
    {
        let d = match decode_doc(bytes) {
            Some(d) => d,
            None => {
                return Err(DecodingError::Malformed);
            },
        };
        let key = match get_text(&d, "key") {
            Ok(v) => v,
            Err(e) => {
                return Err(e);
            },
        };
        Ok(ListClearRequest { key })
    }
}

/// Law: decoding an encoded `ListClearRequest` yields the record back.
pub proof fn lemma_list_clear_request_round_trip(key: Seq<char>)
    requires
        text_fits(key),
    ensures
        ListClearRequest::spec_decode(ListClearRequest::spec_encode(key)) == Ok::<_, DecodingError>(key),
{
    let d = ListClearRequest::doc_model(key);
    lemma_name_facts();
    assert(doc_fits(d)) by {
        assert(field_fits(d[0]));
    }
    lemma_decode_doc_enc(d);
    lemma_lookup_one(d[0]);
}

/// A request to retrieve a range of values from a list
#[derive(Debug, PartialEq)]
pub struct ListRangeRequest {
    pub key: String,
    pub start: i32,
    pub stop: i32,
}

impl ListRangeRequest {
    /// The payload document this record stands for.
    pub open spec fn doc_model(key: Seq<char>, start: i32, stop: i32) -> Seq<FieldModel> {
        seq![
            (FieldModel { name: "key"@, value: ValueModel::Text(key) }),
            (FieldModel { name: "start"@, value: ValueModel::Int(start) }),
            (FieldModel { name: "stop"@, value: ValueModel::Int(stop) }),
        ]
    }

    /// The exact bytes this record encodes to.
    pub open spec fn spec_encode(key: Seq<char>, start: i32, stop: i32) -> Seq<u8> {
        enc_doc(Self::doc_model(key, start, stop))
    }

    /// What decoding a payload as this record yields.
    pub open spec fn spec_decode(b: Seq<u8>) -> Result<(Seq<char>, i32, i32), DecodingError> {
        match spec_decode_doc(b) {
            None => Err(DecodingError::Malformed),
            Some(d) => match (req_text(d, "key"@), req_int(d, "start"@), req_int(d, "stop"@)) {
                (Ok(x0), Ok(x1), Ok(x2)) => Ok((x0, x1, x2)),
                (Err(e), _, _) => Err(e),
                (Ok(_), Err(e), _) => Err(e),
                (Ok(_), Ok(_), Err(e)) => Err(e),
            },
        }
    }

    /// Serialize the record into a wire payload.
    pub fn encode(&self) -> (r: Vec<u8>)
        ensures
            r@ == Self::spec_encode(self.key@, self.start, self.stop),
    {
        let mut d: Vec<Field> = Vec::new();
        d.push(Field { name: String::from_str("key"), value: Value::Text(self.key.clone()) });
        d.push(Field { name: String::from_str("start"), value: Value::Int(self.start) });
        d.push(Field { name: String::from_str("stop"), value: Value::Int(self.stop) });
        let r = encode_doc(&d);
        proof {
            assert(d.deep_view() =~= Self::doc_model(self.key@, self.start, self.stop));
        }
        r
    }

    /// Parse a wire payload into this record.
    pub fn decode(bytes: &[u8]) -> (r: Result<Self, DecodingError>)
        ensures
            match (r, Self::spec_decode(bytes@)) {
                (Ok(x), Ok(m)) => x.key@ == m.0 && x.start == m.1 && x.stop == m.2,
                (Err(e1), Err(e2)) => e1 == e2,
                _ => false,
            },
    {
        let d = match decode_doc(bytes) {
            Some(d) => d,
            None => {
                return Err(DecodingError::Malformed);
            },
        };
        let key = match get_text(&d, "key") {
            Ok(v) => v,
            Err(e) => {
                return Err(e);
            },
        };
        let start = match get_int(&d, "start") {
            Ok(v) => v,
            Err(e) => {
                return Err(e);
            },
        };
        let stop = match get_int(&d, "stop") {
            Ok(v) => v,
            Err(e) => {
                return Err(e);
            },
        };
        Ok(ListRangeRequest { key, start, stop })
    }
}

/// Law: decoding an encoded `ListRangeRequest` yields the record back.
pub proof fn lemma_list_range_request_round_trip(key: Seq<char>, start: i32, stop: i32)
    requires
        text_fits(key),
    ensures
        ListRangeRequest::spec_decode(ListRangeRequest::spec_encode(key, start, stop)) == Ok::<_, DecodingError>((key, start, stop)),
{
    let d = ListRangeRequest::doc_model(key, start, stop);
    lemma_name_facts();
    assert(doc_fits(d)) by {
        assert(field_fits(d[0]));
        assert(field_fits(d[1]));
        assert(field_fits(d[2]));
    }
    lemma_decode_doc_enc(d);
    assert(d =~= seq![d[0], d[1], d[2]]);
    lemma_lookup_three(d[0], d[1], d[2]);
}

/// List of values returned from a range request
#[derive(Debug, PartialEq)]
pub struct ListRangeResponse {
    pub values: Vec<String>,
}

impl ListRangeResponse {
    /// The payload document this record stands for.
    pub open spec fn doc_model(values: Seq<Seq<char>>) -> Seq<FieldModel> {
        seq![
            (FieldModel { name: "values"@, value: ValueModel::List(values) }),
        ]
    }

    /// The exact bytes this record encodes to.
    pub open spec fn spec_encode(values: Seq<Seq<char>>) -> Seq<u8> {
        enc_doc(Self::doc_model(values))
    }

    /// What decoding a payload as this record yields.
    pub open spec fn spec_decode(b: Seq<u8>) -> Result<Seq<Seq<char>>, DecodingError> {
        match spec_decode_doc(b) {
            None => Err(DecodingError::Malformed),
            Some(d) => opt_texts(d, "values"@),
        }
    }

    /// Serialize the record into a wire payload.
    pub fn encode(&self) -> (r: Vec<u8>)
        ensures
            r@ == Self::spec_encode(self.values.deep_view()),
    {
        let cl_values = clone_texts(&self.values);
        proof {
            assert(cl_values.deep_view() =~= self.values.deep_view());
        }
        let mut d: Vec<Field> = Vec::new();
        d.push(Field { name: String::from_str("values"), value: Value::List(cl_values) });
        let r = encode_doc(&d);
        proof {
            assert(d.deep_view() =~= Self::doc_model(self.values.deep_view()));
        }
        r
    }

    /// Parse a wire payload into this record.
    pub fn decode(bytes: &[u8]) -> (r: Result<Self, DecodingError>)
        ensures
            match (r, Self::spec_decode(bytes@)) {
                (Ok(x), Ok(m)) => x.values.deep_view() == m,
                (Err(e1), Err(e2)) => e1 == e2,
                _ => false,
            },
    {
        let d = match decode_doc(bytes) {
            Some(d) => d,
            None => {
                return Err(DecodingError::Malformed);
            },
        };
        let values = match get_texts(&d, "values") {
            Ok(v) => v,
            Err(e) => {
                return Err(e);
            },
        };
        Ok(ListRangeResponse { values })
    }
}

/// Law: decoding an encoded `ListRangeResponse` yields the record back.
pub proof fn lemma_list_range_response_round_trip(values: Seq<Seq<char>>)
    requires
        texts_fit(values),
    ensures
        ListRangeResponse::spec_decode(ListRangeResponse::spec_encode(values)) == Ok::<_, DecodingError>(values),
{
    let d = ListRangeResponse::doc_model(values);
    lemma_name_facts();
    assert(doc_fits(d)) by {
        assert(field_fits(d[0]));
    }
    lemma_decode_doc_enc(d);
    lemma_lookup_one(d[0]);
}

/// Return response from non-range list requests like push and clear
#[derive(Debug, PartialEq)]
pub struct ListResponse {
    pub new_count: i32,
}

impl ListResponse {
    /// The payload document this record stands for.
    pub open spec fn doc_model(new_count: i32) -> Seq<FieldModel> {
        seq![
            (FieldModel { name: "newCount"@, value: ValueModel::Int(new_count) }),
        ]
    }

    /// The exact bytes this record encodes to.
    pub open spec fn spec_encode(new_count: i32) -> Seq<u8> {
        enc_doc(Self::doc_model(new_count))
    }

    /// What decoding a payload as this record yields.
    pub open spec fn spec_decode(b: Seq<u8>) -> Result<i32, DecodingError> {
        match spec_decode_doc(b) {
            None => Err(DecodingError::Malformed),
            Some(d) => req_int(d, "newCount"@),
        }
    }

    /// Serialize the record into a wire payload.
    pub fn encode(&self) -> (r: Vec<u8>)
        ensures
            r@ == Self::spec_encode(self.new_count),
    {
        let mut d: Vec<Field> = Vec::new();
        d.push(Field { name: String::from_str("newCount"), value: Value::Int(self.new_count) });
        let r = encode_doc(&d);
        proof {
            assert(d.deep_view() =~= Self::doc_model(self.new_count));
        }
        r
    }

    /// Parse a wire payload into this record.
    pub fn decode(bytes: &[u8]) -> (r: Result<Self, DecodingError>)
        ensures
            match (r, Self::spec_decode(bytes@)) {
                (Ok(x), Ok(m)) => x.new_count == m,
                (Err(e1), Err(e2)) => e1 == e2,
                _ => false,
            },
    {
        let d = match decode_doc(bytes) {
            Some(d) => d,
            None => {
                return Err(DecodingError::Malformed);
            },
        };
        let new_count = match get_int(&d, "newCount") {
            Ok(v) => v,
            Err(e) => {
                return Err(e);
            },
        };
        Ok(ListResponse { new_count })
    }
}

/// Law: decoding an encoded `ListResponse` yields the record back.
pub proof fn lemma_list_response_round_trip(new_count: i32)
    ensures
        ListResponse::spec_decode(ListResponse::spec_encode(new_count)) == Ok::<_, DecodingError>(new_count),
{
    let d = ListResponse::doc_model(new_count);
    lemma_name_facts();
    assert(doc_fits(d)) by {
        assert(field_fits(d[0]));
    }
    lemma_decode_doc_enc(d);
    lemma_lookup_one(d[0]);
}

/// Request to add an item to a set
#[derive(Debug, PartialEq)]
pub struct SetAddRequest {
    pub key: String,
    pub value: String,
}

impl SetAddRequest {
    /// The payload document this record stands for.
    pub open spec fn doc_model(key: Seq<char>, value: Seq<char>) -> Seq<FieldModel> {
        seq![
            (FieldModel { name: "key"@, value: ValueModel::Text(key) }),
            (FieldModel { name: "value"@, value: ValueModel::Text(value) }),
        ]
    }

    /// The exact bytes this record encodes to.
    pub open spec fn spec_encode(key: Seq<char>, value: Seq<char>) -> Seq<u8> {
        enc_doc(Self::doc_model(key, value))
    }

    /// What decoding a payload as this record yields.
    pub open spec fn spec_decode(b: Seq<u8>) -> Result<(Seq<char>, Seq<char>), DecodingError> {
        match spec_decode_doc(b) {
            None => Err(DecodingError::Malformed),
            Some(d) => match (req_text(d, "key"@), req_text(d, "value"@)) {
                (Ok(x0), Ok(x1)) => Ok((x0, x1)),
                (Err(e), _) => Err(e),
                (Ok(_), Err(e)) => Err(e),
            },
        }
    }

    /// Serialize the record into a wire payload.
    pub fn encode(&self) -> (r: Vec<u8>)
        ensures
            r@ == Self::spec_encode(self.key@, self.value@),
    {
        let mut d: Vec<Field> = Vec::new();
        d.push(Field { name: String::from_str("key"), value: Value::Text(self.key.clone()) });
        d.push(Field { name: String::from_str("value"), value: Value::Text(self.value.clone()) });
        let r = encode_doc(&d);
        proof {
            assert(d.deep_view() =~= Self::doc_model(self.key@, self.value@));
        }
        r
    }

    /// Parse a wire payload into this record.
    pub fn decode(bytes: &[u8]) -> (r: Result<Self, DecodingError>)
        ensures
            match (r, Self::spec_decode(bytes@)) {
                (Ok(x), Ok(m)) => x.key@ == m.0 && x.value@ == m.1,
                (Err(e1), Err(e2)) => e1 == e2,
                _ => false,
            },
    {
        let d = match decode_doc(bytes) {
            Some(d) => d,
            None => {
                return Err(DecodingError::Malformed);
            },
        };
        let key = match get_text(&d, "key") {
            Ok(v) => v,
            Err(e) => {
                return Err(e);
            },
        };
        let value = match get_text(&d, "value") {
            Ok(v) => v,
            Err(e) => {
                return Err(e);
            },
        };
        Ok(SetAddRequest { key, value })
    }
}

/// Law: decoding an encoded `SetAddRequest` yields the record back.
pub proof fn lemma_set_add_request_round_trip(key: Seq<char>, value: Seq<char>)
    requires
        text_fits(key),
        text_fits(value),
    ensures
        SetAddRequest::spec_decode(SetAddRequest::spec_encode(key, value)) == Ok::<_, DecodingError>((key, value)),
{
    let d = SetAddRequest::doc_model(key, value);
    lemma_name_facts();
    assert(doc_fits(d)) by {
        assert(field_fits(d[0]));
        assert(field_fits(d[1]));
    }
    lemma_decode_doc_enc(d);
    assert(d =~= seq![d[0], d[1]]);
    lemma_lookup_two(d[0], d[1]);
}

/// Request to remove a specific value from a set
#[derive(Debug, PartialEq)]
pub struct SetRemoveRequest {
    pub key: String,
    pub value: String,
}

impl SetRemoveRequest {
    /// The payload document this record stands for.
    pub open spec fn doc_model(key: Seq<char>, value: Seq<char>) -> Seq<FieldModel> {
        seq![
            (FieldModel { name: "key"@, value: ValueModel::Text(key) }),
            (FieldModel { name: "value"@, value: ValueModel::Text(value) }),
        ]
    }

    /// The exact bytes this record encodes to.
    pub open spec fn spec_encode(key: Seq<char>, value: Seq<char>) -> Seq<u8> {
        enc_doc(Self::doc_model(key, value))
    }

    /// What decoding a payload as this record yields.
    pub open spec fn spec_decode(b: Seq<u8>) -> Result<(Seq<char>, Seq<char>), DecodingError> {
        match spec_decode_doc(b) {
            None => Err(DecodingError::Malformed),
            Some(d) => match (req_text(d, "key"@), req_text(d, "value"@)) {
                (Ok(x0), Ok(x1)) => Ok((x0, x1)),
                (Err(e), _) => Err(e),
                (Ok(_), Err(e)) => Err(e),
            },
        }
    }

    /// Serialize the record into a wire payload.
    pub fn encode(&self) -> (r: Vec<u8>)
        ensures
            r@ == Self::spec_encode(self.key@, self.value@),
    {
        let mut d: Vec<Field> = Vec::new();
        d.push(Field { name: String::from_str("key"), value: Value::Text(self.key.clone()) });
        d.push(Field { name: String::from_str("value"), value: Value::Text(self.value.clone()) });
        let r = encode_doc(&d);
        proof {
            assert(d.deep_view() =~= Self::doc_model(self.key@, self.value@));
        }
        r
    }

    /// Parse a wire payload into this record.
    pub fn decode(bytes: &[u8]) -> (r: Result<Self, DecodingError>)
        ensures
            match (r, Self::spec_decode(bytes@)) {
                (Ok(x), Ok(m)) => x.key@ == m.0 && x.value@ == m.1,
                (Err(e1), Err(e2)) => e1 == e2,
                _ => false,
            },
    {
        let d = match decode_doc(bytes) {
            Some(d) => d,
            None => {
                return Err(DecodingError::Malformed);
            },
        };
        let key = match get_text(&d, "key") {
            Ok(v) => v,
            Err(e) => {
                return Err(e);
            },
        };
        let value = match get_text(&d, "value") {
            Ok(v) => v,
            Err(e) => {
                return Err(e);
            },
        };
        Ok(SetRemoveRequest { key, value })
    }
}

/// Law: decoding an encoded `SetRemoveRequest` yields the record back.
pub proof fn lemma_set_remove_request_round_trip(key: Seq<char>, value: Seq<char>)
    requires
        text_fits(key),
        text_fits(value),
    ensures
        SetRemoveRequest::spec_decode(SetRemoveRequest::spec_encode(key, value)) == Ok::<_, DecodingError>((key, value)),
{
    let d = SetRemoveRequest::doc_model(key, value);
    lemma_name_facts();
    assert(doc_fits(d)) by {
        assert(field_fits(d[0]));
        assert(field_fits(d[1]));
    }
    lemma_decode_doc_enc(d);
    assert(d =~= seq![d[0], d[1]]);
    lemma_lookup_two(d[0], d[1]);
}

/// Request to query the contents of a set
#[derive(Debug, PartialEq)]
pub struct SetQueryRequest {
    pub key: String,
}

impl SetQueryRequest {
    /// The payload document this record stands for.
    pub open spec fn doc_model(key: Seq<char>) -> Seq<FieldModel> {
        seq![
            (FieldModel { name: "key"@, value: ValueModel::Text(key) }),
        ]
    }

    /// The exact bytes this record encodes to.
    pub open spec fn spec_encode(key: Seq<char>) -> Seq<u8> {
        enc_doc(Self::doc_model(key))
    }

    /// What decoding a payload as this record yields.
    pub open spec fn spec_decode(b: Seq<u8>) -> Result<Seq<char>, DecodingError> {
        match spec_decode_doc(b) {
            None => Err(DecodingError::Malformed),
            Some(d) => req_text(d, "key"@),
        }
    }

    /// Serialize the record into a wire payload.
    pub fn encode(&self) -> (r: Vec<u8>)
        ensures
            r@ == Self::spec_encode(self.key@),
    {
        let mut d: Vec<Field> = Vec::new();
        d.push(Field { name: String::from_str("key"), value: Value::Text(self.key.clone()) });
        let r = encode_doc(&d);
        proof {
            assert(d.deep_view() =~= Self::doc_model(self.key@));
        }
        r
    }

    /// Parse a wire payload into this record.
    pub fn decode(bytes: &[u8]) -> (r: Result<Self, DecodingError>)
        ensures
            match (r, Self::spec_decode(bytes@)) {
                (Ok(x), Ok(m)) => x.key@ == m,
                (Err(e1), Err(e2)) => e1 == e2,
                _ => false,
            },
    {
        let d = match decode_doc(bytes) {
            Some(d) => d,
            None => {
                return Err(DecodingError::Malformed);
            },
        };
        let key = match get_text(&d, "key") {
            Ok(v) => v,
            Err(e) => {
                return Err(e);
            },
        };
        Ok(SetQueryRequest { key })
    }
}

/// Law: decoding an encoded `SetQueryRequest` yields the record back.
pub proof fn lemma_set_query_request_round_trip(key: Seq<char>)
    requires
        text_fits(key),
    ensures
        SetQueryRequest::spec_decode(SetQueryRequest::spec_encode(key)) == Ok::<_, DecodingError>(key),
{
    let d = SetQueryRequest::doc_model(key);
    lemma_name_facts();
    assert(doc_fits(d)) by {
        assert(field_fits(d[0]));
    }
    lemma_decode_doc_enc(d);
    lemma_lookup_one(d[0]);
}

/// Response to an operation that requests members of a list (query, intersect, union)
#[derive(Debug, PartialEq)]
pub struct SetQueryResponse {
    pub values: Vec<String>,
}

impl SetQueryResponse {
    /// The payload document this record stands for.
    pub open spec fn doc_model(values: Seq<Seq<char>>) -> Seq<FieldModel> {
        seq![
            (FieldModel { name: "values"@, value: ValueModel::List(values) }),
        ]
    }

    /// The exact bytes this record encodes to.
    pub open spec fn spec_encode(values: Seq<Seq<char>>) -> Seq<u8> {
        enc_doc(Self::doc_model(values))
    }

    /// What decoding a payload as this record yields.
    pub open spec fn spec_decode(b: Seq<u8>) -> Result<Seq<Seq<char>>, DecodingError> {
        match spec_decode_doc(b) {
            None => Err(DecodingError::Malformed),
            Some(d) => opt_texts(d, "values"@),
        }
    }

    /// Serialize the record into a wire payload.
    pub fn encode(&self) -> (r: Vec<u8>)
        ensures
            r@ == Self::spec_encode(self.values.deep_view()),
    {
        let cl_values = clone_texts(&self.values);
        proof {
            assert(cl_values.deep_view() =~= self.values.deep_view());
        }
        let mut d: Vec<Field> = Vec::new();
        d.push(Field { name: String::from_str("values"), value: Value::List(cl_values) });
        let r = encode_doc(&d);
        proof {
            assert(d.deep_view() =~= Self::doc_model(self.values.deep_view()));
        }
        r
    }

    /// Parse a wire payload into this record.
    pub fn decode(bytes: &[u8]) -> (r: Result<Self, DecodingError>)
        ensures
            match (r, Self::spec_decode(bytes@)) {
                (Ok(x), Ok(m)) => x.values.deep_view() == m,
                (Err(e1), Err(e2)) => e1 == e2,
                _ => false,
            },
    {
        let d = match decode_doc(bytes) {
            Some(d) => d,
            None => {
                return Err(DecodingError::Malformed);
            },
        };
        let values = match get_texts(&d, "values") {
            Ok(v) => v,
            Err(e) => {
                return Err(e);
            },
        };
        Ok(SetQueryResponse { values })
    }
}

/// Law: decoding an encoded `SetQueryResponse` yields the record back.
pub proof fn lemma_set_query_response_round_trip(values: Seq<Seq<char>>)
    requires
        texts_fit(values),
    ensures
        SetQueryResponse::spec_decode(SetQueryResponse::spec_encode(values)) == Ok::<_, DecodingError>(values),
{
    let d = SetQueryResponse::doc_model(values);
    lemma_name_facts();
    assert(doc_fits(d)) by {
        assert(field_fits(d[0]));
    }
    lemma_decode_doc_enc(d);
    lemma_lookup_one(d[0]);
}

/// Request for the intersection of multiple sets
#[derive(Debug, PartialEq)]
pub struct SetIntersectionRequest {
    pub keys: Vec<String>,
}

impl SetIntersectionRequest {
    /// The payload document this record stands for.
    pub open spec fn doc_model(keys: Seq<Seq<char>>) -> Seq<FieldModel> {
        seq![
            (FieldModel { name: "keys"@, value: ValueModel::List(keys) }),
        ]
    }

    /// The exact bytes this record encodes to.
    pub open spec fn spec_encode(keys: Seq<Seq<char>>) -> Seq<u8> {
        enc_doc(Self::doc_model(keys))
    }

    /// What decoding a payload as this record yields.
    pub open spec fn spec_decode(b: Seq<u8>) -> Result<Seq<Seq<char>>, DecodingError> {
        match spec_decode_doc(b) {
            None => Err(DecodingError::Malformed),
            Some(d) => opt_texts(d, "keys"@),
        }
    }

    /// Serialize the record into a wire payload.
    pub fn encode(&self) -> (r: Vec<u8>)
        ensures
            r@ == Self::spec_encode(self.keys.deep_view()),
    {
        let cl_keys = clone_texts(&self.keys);
        proof {
            assert(cl_keys.deep_view() =~= self.keys.deep_view());
        }
        let mut d: Vec<Field> = Vec::new();
        d.push(Field { name: String::from_str("keys"), value: Value::List(cl_keys) });
        let r = encode_doc(&d);
        proof {
            assert(d.deep_view() =~= Self::doc_model(self.keys.deep_view()));
        }
        r
    }

    /// Parse a wire payload into this record.
    pub fn decode(bytes: &[u8]) -> (r: Result<Self, DecodingError>)
        ensures
            match (r, Self::spec_decode(bytes@)) {
                (Ok(x), Ok(m)) => x.keys.deep_view() == m,
                (Err(e1), Err(e2)) => e1 == e2,
                _ => false,
            },
    {
        let d = match decode_doc(bytes) {
            Some(d) => d,
            None => {
                return Err(DecodingError::Malformed);
            },
        };
        let keys = match get_texts(&d, "keys") {
            Ok(v) => v,
            Err(e) => {
                return Err(e);
            },
        };
        Ok(SetIntersectionRequest { keys })
    }
}

/// Law: decoding an encoded `SetIntersectionRequest` yields the record back.
pub proof fn lemma_set_intersection_request_round_trip(keys: Seq<Seq<char>>)
    requires
        texts_fit(keys),
    ensures
        SetIntersectionRequest::spec_decode(SetIntersectionRequest::spec_encode(keys)) == Ok::<_, DecodingError>(keys),
{
    let d = SetIntersectionRequest::doc_model(keys);
    lemma_name_facts();
    assert(doc_fits(d)) by {
        assert(field_fits(d[0]));
    }
    lemma_decode_doc_enc(d);
    lemma_lookup_one(d[0]);
}

/// Request for the union of multiple sets
#[derive(Debug, PartialEq)]
pub struct SetUnionRequest {
    pub keys: Vec<String>,
}

impl SetUnionRequest {
    /// The payload document this record stands for.
    pub open spec fn doc_model(keys: Seq<Seq<char>>) -> Seq<FieldModel> {
        seq![
            (FieldModel { name: "keys"@, value: ValueModel::List(keys) }),
        ]
    }

    /// The exact bytes this record encodes to.
    pub open spec fn spec_encode(keys: Seq<Seq<char>>) -> Seq<u8> {
        enc_doc(Self::doc_model(keys))
    }

    /// What decoding a payload as this record yields.
    pub open spec fn spec_decode(b: Seq<u8>) -> Result<Seq<Seq<char>>, DecodingError> {
        match spec_decode_doc(b) {
            None => Err(DecodingError::Malformed),
            Some(d) => opt_texts(d, "keys"@),
        }
    }

    /// Serialize the record into a wire payload.
    pub fn encode(&self) -> (r: Vec<u8>)
        ensures
            r@ == Self::spec_encode(self.keys.deep_view()),
    {
        let cl_keys = clone_texts(&self.keys);
        proof {
            assert(cl_keys.deep_view() =~= self.keys.deep_view());
        }
        let mut d: Vec<Field> = Vec::new();
        d.push(Field { name: String::from_str("keys"), value: Value::List(cl_keys) });
        let r = encode_doc(&d);
        proof {
            assert(d.deep_view() =~= Self::doc_model(self.keys.deep_view()));
        }
        r
    }

    /// Parse a wire payload into this record.
    pub fn decode(bytes: &[u8]) -> (r: Result<Self, DecodingError>)
        ensures
            match (r, Self::spec_decode(bytes@)) {
                (Ok(x), Ok(m)) => x.keys.deep_view() == m,
                (Err(e1), Err(e2)) => e1 == e2,
                _ => false,
            },
    {
        let d = match decode_doc(bytes) {
            Some(d) => d,
            None => {
                return Err(DecodingError::Malformed);
            },
        };
        let keys = match get_texts(&d, "keys") {
            Ok(v) => v,
            Err(e) => {
                return Err(e);
            },
        };
        Ok(SetUnionRequest { keys })
    }
}

/// Law: decoding an encoded `SetUnionRequest` yields the record back.
pub proof fn lemma_set_union_request_round_trip(keys: Seq<Seq<char>>)
    requires
        texts_fit(keys),
    ensures
        SetUnionRequest::spec_decode(SetUnionRequest::spec_encode(keys)) == Ok::<_, DecodingError>(keys),
{
    let d = SetUnionRequest::doc_model(keys);
    lemma_name_facts();
    assert(doc_fits(d)) by {
        assert(field_fits(d[0]));
    }
    lemma_decode_doc_enc(d);
    lemma_lookup_one(d[0]);
}

/// Response to a set query, add, or delete
#[derive(Debug, PartialEq)]
pub struct SetOperationResponse {
    pub new_count: i32,
}

impl SetOperationResponse {
    /// The payload document this record stands for.
    pub open spec fn doc_model(new_count: i32) -> Seq<FieldModel> {
        seq![
            (FieldModel { name: "newCount"@, value: ValueModel::Int(new_count) }),
        ]
    }

    /// The exact bytes this record encodes to.
    pub open spec fn spec_encode(new_count: i32) -> Seq<u8> {
        enc_doc(Self::doc_model(new_count))
    }

    /// What decoding a payload as this record yields.
    pub open spec fn spec_decode(b: Seq<u8>) -> Result<i32, DecodingError> {
        match spec_decode_doc(b) {
            None => Err(DecodingError::Malformed),
            Some(d) => req_int(d, "newCount"@),
        }
    }

    /// Serialize the record into a wire payload.
    pub fn encode(&self) -> (r: Vec<u8>)
        ensures
            r@ == Self::spec_encode(self.new_count),
    {
        let mut d: Vec<Field> = Vec::new();
        d.push(Field { name: String::from_str("newCount"), value: Value::Int(self.new_count) });
        let r = encode_doc(&d);
        proof {
            assert(d.deep_view() =~= Self::doc_model(self.new_count));
        }
        r
    }

    /// Parse a wire payload into this record.
    pub fn decode(bytes: &[u8]) -> (r: Result<Self, DecodingError>)
        ensures
            match (r, Self::spec_decode(bytes@)) {
                (Ok(x), Ok(m)) => x.new_count == m,
                (Err(e1), Err(e2)) => e1 == e2,
                _ => false,
            },
    {
        let d = match decode_doc(bytes) {
            Some(d) => d,
            None => {
                return Err(DecodingError::Malformed);
            },
        };
        let new_count = match get_int(&d, "newCount") {
            Ok(v) => v,
            Err(e) => {
                return Err(e);
            },
        };
        Ok(SetOperationResponse { new_count })
    }
}

/// Law: decoding an encoded `SetOperationResponse` yields the record back.
pub proof fn lemma_set_operation_response_round_trip(new_count: i32)
    ensures
        SetOperationResponse::spec_decode(SetOperationResponse::spec_encode(new_count)) == Ok::<_, DecodingError>(new_count),
{
    let d = SetOperationResponse::doc_model(new_count);
    lemma_name_facts();
    assert(doc_fits(d)) by {
        assert(field_fits(d[0]));
    }
    lemma_decode_doc_enc(d);
    lemma_lookup_one(d[0]);
}

/// Test for the existence of a key
#[derive(Debug, PartialEq)]
pub struct KeyExistsQuery {
    pub key: String,
}

impl KeyExistsQuery {
    /// The payload document this record stands for.
    pub open spec fn doc_model(key: Seq<char>) -> Seq<FieldModel> {
        seq![
            (FieldModel { name: "key"@, value: ValueModel::Text(key) }),
        ]
    }

    /// The exact bytes this record encodes to.
    pub open spec fn spec_encode(key: Seq<char>) -> Seq<u8> {
        enc_doc(Self::doc_model(key))
    }

    /// What decoding a payload as this record yields.
    pub open spec fn spec_decode(b: Seq<u8>) -> Result<Seq<char>, DecodingError> {
        match spec_decode_doc(b) {
            None => Err(DecodingError::Malformed),
            Some(d) => req_text(d, "key"@),
        }
    }

    /// Serialize the record into a wire payload.
    pub fn encode(&self) -> (r: Vec<u8>)
        ensures
            r@ == Self::spec_encode(self.key@),
    {
        let mut d: Vec<Field> = Vec::new();
        d.push(Field { name: String::from_str("key"), value: Value::Text(self.key.clone()) });
        let r = encode_doc(&d);
        proof {
            assert(d.deep_view() =~= Self::doc_model(self.key@));
        }
        r
    }

    /// Parse a wire payload into this record.
    pub fn decode(bytes: &[u8]) -> (r: Result<Self, DecodingError>)
        ensures
            match (r, Self::spec_decode(bytes@)) {
                (Ok(x), Ok(m)) => x.key@ == m,
                (Err(e1), Err(e2)) => e1 == e2,
                _ => false,
            },
    {
        let d = match decode_doc(bytes) {
            Some(d) => d,
            None => {
                return Err(DecodingError::Malformed);
            },
        };
        let key = match get_text(&d, "key") {
            Ok(v) => v,
            Err(e) => {
                return Err(e);
            },
        };
        Ok(KeyExistsQuery { key })
    }
}

/// Law: decoding an encoded `KeyExistsQuery` yields the record back.
pub proof fn lemma_key_exists_query_round_trip(key: Seq<char>)
    requires
        text_fits(key),
    ensures
        KeyExistsQuery::spec_decode(KeyExistsQuery::spec_encode(key)) == Ok::<_, DecodingError>(key),
{
    let d = KeyExistsQuery::doc_model(key);
    lemma_name_facts();
    assert(doc_fits(d)) by {
        assert(field_fits(d[0]));
    }
    lemma_decode_doc_enc(d);
    lemma_lookup_one(d[0]);
}

impl SetRequest {
    /// A ready-made example request: store `"12"` under `"counter1"`
    /// with a hundred-second expiration.
    pub fn sample() -> (r: SetRequest)
        ensures
            r.key@ == "counter1"@,
            r.value@ == "12"@,
            r.expires_s == 100,
    {
        SetRequest {
            key: String::from_str("counter1"),
            value: String::from_str("12"),
            expires_s: 100,
        }
    }
}

/// Law: a payload whose document carries no `values` field decodes to the
/// empty list for the list-bearing responses, not to an error.
pub proof fn lemma_values_default_on_absence(b: Seq<u8>, d: Seq<FieldModel>)
    requires
        spec_decode_doc(b) == Some(d),
        lookup(d, "values"@) is None,
    ensures
        ListRangeResponse::spec_decode(b) == Ok::<_, DecodingError>(Seq::<Seq<char>>::empty()),
        SetQueryResponse::spec_decode(b) == Ok::<_, DecodingError>(Seq::<Seq<char>>::empty()),
{
}

/// Law: a payload whose document carries no `keys` field decodes to the
/// empty list for the multi-set requests, not to an error.
pub proof fn lemma_keys_default_on_absence(b: Seq<u8>, d: Seq<FieldModel>)
    requires
        spec_decode_doc(b) == Some(d),
        lookup(d, "keys"@) is None,
    ensures
        SetUnionRequest::spec_decode(b) == Ok::<_, DecodingError>(Seq::<Seq<char>>::empty()),
        SetIntersectionRequest::spec_decode(b) == Ok::<_, DecodingError>(Seq::<Seq<char>>::empty()),
{
}

/// Law: the in-memory field `expires_s` travels under the wire name
/// `expires`, and decoding restores it unchanged.
pub proof fn lemma_expires_wire_name(key: Seq<char>, value: Seq<char>, expires_s: i32)
    requires
        text_fits(key),
        text_fits(value),
    ensures
        lookup(SetRequest::doc_model(key, value, expires_s), "expires"@) == Some(
            ValueModel::Int(expires_s),
        ),
        SetRequest::spec_decode(SetRequest::spec_encode(key, value, expires_s)) == Ok::<
            _,
            DecodingError,
        >((key, value, expires_s)),
{
    let d = SetRequest::doc_model(key, value, expires_s);
    lemma_name_facts();
    assert(d =~= seq![d[0], d[1], d[2]]);
    lemma_lookup_three(d[0], d[1], d[2]);
    lemma_set_request_round_trip(key, value, expires_s);
}

} // verus!
