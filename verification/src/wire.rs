//! The wire format: a self-describing map from field names to values.
//!
//! A payload is a little-endian field count followed by the fields, each a
//! length-prefixed UTF-8 name and a tagged value.  Values are strings,
//! 32-bit integers, booleans, or lists of strings, which covers every field
//! of the key-value message records.
//!
//! `enc_doc` is the mathematical encoding of a document and the parse_*
//! family is its exact inverse; `encode_doc` and `decode_doc` are the
//! executable forms, each pinned to the mathematical one by its contract.

use vstd::prelude::*;

verus! {

use vstd::bytes::lemma_auto_spec_u32_to_from_le_bytes;
use vstd::bytes::lemma_auto_spec_u64_to_from_le_bytes;
use vstd::bytes::spec_u32_from_le_bytes;
use vstd::bytes::spec_u32_to_le_bytes;
use vstd::bytes::spec_u64_from_le_bytes;
use vstd::bytes::spec_u64_to_le_bytes;
use vstd::bytes::u32_from_le_bytes;
use vstd::bytes::u32_to_le_bytes;
use vstd::bytes::u64_from_le_bytes;
use vstd::bytes::u64_to_le_bytes;
use vstd::slice::slice_subrange;
use vstd::slice::slice_to_vec;
use vstd::string::StringExecFns;
use vstd::utf8::decode_utf8;
use vstd::utf8::encode_scalar;
use vstd::utf8::encode_utf8;
use vstd::utf8::encode_utf8_decode_utf8;
use vstd::utf8::encode_utf8_valid_utf8;
use vstd::utf8::valid_utf8;

/// Tag byte announcing a string value.
pub const TAG_TEXT: u8 = 1;

/// Tag byte announcing a 32-bit integer value.
pub const TAG_INT: u8 = 2;

/// Tag byte announcing a boolean value.
pub const TAG_FLAG: u8 = 3;

/// Tag byte announcing a list-of-strings value.
pub const TAG_LIST: u8 = 4;

/// A field value as it travels on the wire.
pub enum Value {
    Text(String),
    Int(i32),
    Flag(bool),
    List(Vec<String>),
}

/// One named field of a payload document.
pub struct Field {
    pub name: String,
    pub value: Value,
}

/// The mathematical counterpart of [`Value`].
pub enum ValueModel {
    Text(Seq<char>),
    Int(i32),
    Flag(bool),
    List(Seq<Seq<char>>),
}

/// The mathematical counterpart of [`Field`].
pub struct FieldModel {
    pub name: Seq<char>,
    pub value: ValueModel,
}

impl View for Value {
    type V = ValueModel;

    open spec fn view(&self) -> ValueModel {
        match self {
            Value::Text(s) => ValueModel::Text(s@),
            Value::Int(i) => ValueModel::Int(*i),
            Value::Flag(b) => ValueModel::Flag(*b),
            Value::List(l) => ValueModel::List(l.deep_view()),
        }
    }
}

impl DeepView for Value {
    type V = ValueModel;

    open spec fn deep_view(&self) -> ValueModel {
        self.view()
    }
}

impl View for Field {
    type V = FieldModel;

    open spec fn view(&self) -> FieldModel {
        FieldModel { name: self.name@, value: self.value@ }
    }
}

impl DeepView for Field {
    type V = FieldModel;

    open spec fn deep_view(&self) -> FieldModel {
        self.view()
    }
}

/// Why a payload was rejected.
#[derive(Debug, Clone, Copy, PartialEq, Eq, Structural)]
pub enum DecodingError {
    /// The bytes are not a well-formed payload document.
    Malformed,
    /// A required field is absent.
    MissingField,
    /// A field is present but holds a value of the wrong type.
    WrongType,
}

// ---------------------------------------------------------------------------
// Mathematical encoding
// ---------------------------------------------------------------------------

/// A string on the wire: the byte length of its UTF-8 form, then that form.
pub open spec fn enc_text(s: Seq<char>) -> Seq<u8> {
    spec_u64_to_le_bytes(encode_utf8(s).len() as u64) + encode_utf8(s)
}

/// A list of strings, one after the other.
pub open spec fn enc_texts(l: Seq<Seq<char>>) -> Seq<u8>
    decreases l.len(),
{
    if l.len() == 0 {
        Seq::empty()
    } else {
        enc_text(l[0]) + enc_texts(l.drop_first())
    }
}

/// A tagged value.
pub open spec fn enc_value(v: ValueModel) -> Seq<u8> {
    match v {
        ValueModel::Text(s) => seq![TAG_TEXT] + enc_text(s),
        ValueModel::Int(i) => seq![TAG_INT] + spec_u32_to_le_bytes(i as u32),
        ValueModel::Flag(b) => seq![TAG_FLAG] + seq![(if b { 1u8 } else { 0u8 })],
        ValueModel::List(l) => seq![TAG_LIST] + spec_u64_to_le_bytes(l.len() as u64)
            + enc_texts(l),
    }
}

/// A field: its name, then its value.
pub open spec fn enc_field(f: FieldModel) -> Seq<u8> {
    enc_text(f.name) + enc_value(f.value)
}

/// The fields of a document, one after the other.
pub open spec fn enc_fields(d: Seq<FieldModel>) -> Seq<u8>
    decreases d.len(),
{
    if d.len() == 0 {
        Seq::empty()
    } else {
        enc_field(d[0]) + enc_fields(d.drop_first())
    }
}

/// A whole payload document: the field count, then the fields.
pub open spec fn enc_doc(d: Seq<FieldModel>) -> Seq<u8> {
    spec_u64_to_le_bytes(d.len() as u64) + enc_fields(d)
}

// ---------------------------------------------------------------------------
// Size side conditions: every length written must fit its prefix.
// ---------------------------------------------------------------------------

pub open spec fn text_fits(s: Seq<char>) -> bool {
    encode_utf8(s).len() <= u64::MAX
}

pub open spec fn texts_fit(l: Seq<Seq<char>>) -> bool {
    l.len() <= u64::MAX && forall|i: int| 0 <= i < l.len() ==> text_fits(#[trigger] l[i])
}

pub open spec fn value_fits(v: ValueModel) -> bool {
    match v {
        ValueModel::Text(s) => text_fits(s),
        ValueModel::Int(_) => true,
        ValueModel::Flag(_) => true,
        ValueModel::List(l) => texts_fit(l),
    }
}

pub open spec fn field_fits(f: FieldModel) -> bool {
    text_fits(f.name) && value_fits(f.value)
}

pub open spec fn doc_fits(d: Seq<FieldModel>) -> bool {
    d.len() <= u64::MAX && forall|i: int| 0 <= i < d.len() ==> field_fits(#[trigger] d[i])
}

// ---------------------------------------------------------------------------
// Mathematical parsing: the inverse of the encoding.  Each function returns
// the parsed item and the unconsumed remainder, or nothing on bad input.
// ---------------------------------------------------------------------------

pub open spec fn parse_u64(b: Seq<u8>) -> Option<(u64, Seq<u8>)> {
    if b.len() >= 8 {
        Some((spec_u64_from_le_bytes(b.take(8)), b.skip(8)))
    } else {
        None
    }
}

pub open spec fn parse_u32(b: Seq<u8>) -> Option<(u32, Seq<u8>)> {
    if b.len() >= 4 {
        Some((spec_u32_from_le_bytes(b.take(4)), b.skip(4)))
    } else {
        None
    }
}

pub open spec fn parse_text(b: Seq<u8>) -> Option<(Seq<char>, Seq<u8>)> {
    match parse_u64(b) {
        Some((n, r)) => if n <= r.len() && valid_utf8(r.take(n as int)) {
            Some((decode_utf8(r.take(n as int)), r.skip(n as int)))
        } else {
            None
        },
        None => None,
    }
}

pub open spec fn parse_texts(b: Seq<u8>, n: nat) -> Option<(Seq<Seq<char>>, Seq<u8>)>
    decreases n,
{
    if n == 0 {
        Some((Seq::empty(), b))
    } else {
        match parse_text(b) {
            Some((s, r)) => match parse_texts(r, (n - 1) as nat) {
                Some((l, r2)) => Some((seq![s] + l, r2)),
                None => None,
            },
            None => None,
        }
    }
}

pub open spec fn parse_value(b: Seq<u8>) -> Option<(ValueModel, Seq<u8>)> {
    if b.len() < 1 {
        None
    } else {
        let tag = b[0];
        let r = b.skip(1);
        if tag == TAG_TEXT {
            match parse_text(r) {
                Some((s, r2)) => Some((ValueModel::Text(s), r2)),
                None => None,
            }
        } else if tag == TAG_INT {
            match parse_u32(r) {
                Some((u, r2)) => Some((ValueModel::Int(u as i32), r2)),
                None => None,
            }
        } else if tag == TAG_FLAG {
            if r.len() >= 1 && (r[0] == 0 || r[0] == 1) {
                Some((ValueModel::Flag(r[0] == 1), r.skip(1)))
            } else {
                None
            }
        } else if tag == TAG_LIST {
            match parse_u64(r) {
                Some((n, r2)) => match parse_texts(r2, n as nat) {
                    Some((l, r3)) => Some((ValueModel::List(l), r3)),
                    None => None,
                },
                None => None,
            }
        } else {
            None
        }
    }
}

pub open spec fn parse_field(b: Seq<u8>) -> Option<(FieldModel, Seq<u8>)> {
    match parse_text(b) {
        Some((name, r)) => match parse_value(r) {
            Some((v, r2)) => Some((FieldModel { name: name, value: v }, r2)),
            None => None,
        },
        None => None,
    }
}

pub open spec fn parse_fields(b: Seq<u8>, n: nat) -> Option<(Seq<FieldModel>, Seq<u8>)>
    decreases n,
{
    if n == 0 {
        Some((Seq::empty(), b))
    } else {
        match parse_field(b) {
            Some((f, r)) => match parse_fields(r, (n - 1) as nat) {
                Some((d, r2)) => Some((seq![f] + d, r2)),
                None => None,
            },
            None => None,
        }
    }
}

pub open spec fn parse_doc(b: Seq<u8>) -> Option<(Seq<FieldModel>, Seq<u8>)> {
    match parse_u64(b) {
        Some((n, r)) => parse_fields(r, n as nat),
        None => None,
    }
}

/// What a whole payload means: its document, provided every byte is consumed.
pub open spec fn spec_decode_doc(b: Seq<u8>) -> Option<Seq<FieldModel>> {
    match parse_doc(b) {
        Some((d, r)) => if r.len() == 0 {
            Some(d)
        } else {
            None
        },
        None => None,
    }
}

// ---------------------------------------------------------------------------
// Parsing inverts encoding.
// ---------------------------------------------------------------------------

/// Casting a 32-bit integer to its unsigned carrier and back is the identity.
pub proof fn lemma_i32_u32_round_trip(i: i32)
    ensures
        (i as u32) as i32 == i,
{
    assert((i as u32) as i32 == i) by (bit_vector);
}

pub proof fn lemma_parse_u64_enc(x: u64, rest: Seq<u8>)
    ensures
        parse_u64(spec_u64_to_le_bytes(x) + rest) == Some((x, rest)),
{
    lemma_auto_spec_u64_to_from_le_bytes();
    let b = spec_u64_to_le_bytes(x) + rest;
    assert(b.take(8) =~= spec_u64_to_le_bytes(x));
    assert(b.skip(8) =~= rest);
}

pub proof fn lemma_parse_u32_enc(x: u32, rest: Seq<u8>)
    ensures
        parse_u32(spec_u32_to_le_bytes(x) + rest) == Some((x, rest)),
{
    lemma_auto_spec_u32_to_from_le_bytes();
    let b = spec_u32_to_le_bytes(x) + rest;
    assert(b.take(4) =~= spec_u32_to_le_bytes(x));
    assert(b.skip(4) =~= rest);
}

pub proof fn lemma_parse_text_enc(s: Seq<char>, rest: Seq<u8>)
    requires
        text_fits(s),
    ensures
        parse_text(enc_text(s) + rest) == Some((s, rest)),
{
    let u = encode_utf8(s);
    let n = u.len() as u64;
    assert(enc_text(s) + rest =~= spec_u64_to_le_bytes(n) + (u + rest));
    lemma_parse_u64_enc(n, u + rest);
    assert((u + rest).take(n as int) =~= u);
    assert((u + rest).skip(n as int) =~= rest);
    encode_utf8_valid_utf8(s);
    encode_utf8_decode_utf8(s);
}

pub proof fn lemma_parse_texts_enc(l: Seq<Seq<char>>, rest: Seq<u8>)
    requires
        texts_fit(l),
    ensures
        parse_texts(enc_texts(l) + rest, l.len() as nat) == Some((l, rest)),
    decreases l.len(),
{
    if l.len() == 0 {
        assert(enc_texts(l) + rest =~= rest);
        assert(l =~= Seq::<Seq<char>>::empty());
    } else {
        let tail = l.drop_first();
        assert(enc_texts(l) + rest =~= enc_text(l[0]) + (enc_texts(tail) + rest));
        lemma_parse_text_enc(l[0], enc_texts(tail) + rest);
        lemma_parse_texts_enc(tail, rest);
        assert(seq![l[0]] + tail =~= l);
    }
}

pub proof fn lemma_parse_value_enc(v: ValueModel, rest: Seq<u8>)
    requires
        value_fits(v),
    ensures
        parse_value(enc_value(v) + rest) == Some((v, rest)),
{
    let b = enc_value(v) + rest;
    match v {
        ValueModel::Text(s) => {
            assert(b.skip(1) =~= enc_text(s) + rest);
            lemma_parse_text_enc(s, rest);
        },
        ValueModel::Int(i) => {
            assert(b.skip(1) =~= spec_u32_to_le_bytes(i as u32) + rest);
            lemma_parse_u32_enc(i as u32, rest);
            lemma_i32_u32_round_trip(i);
        },
        ValueModel::Flag(fl) => {
            assert(b.skip(1).skip(1) =~= rest);
        },
        ValueModel::List(l) => {
            let n = l.len() as u64;
            assert(b.skip(1) =~= spec_u64_to_le_bytes(n) + (enc_texts(l) + rest));
            lemma_parse_u64_enc(n, enc_texts(l) + rest);
            lemma_parse_texts_enc(l, rest);
        },
    }
}

pub proof fn lemma_parse_field_enc(f: FieldModel, rest: Seq<u8>)
    requires
        field_fits(f),
    ensures
        parse_field(enc_field(f) + rest) == Some((f, rest)),
{
    assert(enc_field(f) + rest =~= enc_text(f.name) + (enc_value(f.value) + rest));
    lemma_parse_text_enc(f.name, enc_value(f.value) + rest);
    lemma_parse_value_enc(f.value, rest);
}

#[verifier::spinoff_prover]
#[verifier::rlimit(30)]
pub proof fn lemma_parse_fields_enc(d: Seq<FieldModel>, rest: Seq<u8>)
    requires
        doc_fits(d),
    ensures
        parse_fields(enc_fields(d) + rest, d.len() as nat) == Some((d, rest)),
    decreases d.len(),
{
    if d.len() == 0 {
        assert(enc_fields(d) + rest =~= rest);
        assert(d =~= Seq::<FieldModel>::empty());
    } else {
        let tail = d.drop_first();
        assert(enc_fields(d) + rest =~= enc_field(d[0]) + (enc_fields(tail) + rest));
        lemma_parse_field_enc(d[0], enc_fields(tail) + rest);
        assert(doc_fits(tail)) by {
            assert(forall|i: int| 0 <= i < tail.len() ==> #[trigger] tail[i] == d[i + 1]);
        }
        lemma_parse_fields_enc(tail, rest);
        assert(seq![d[0]] + tail =~= d);
    }
}

/// Decoding a payload produced by the encoder yields the document back.
pub proof fn lemma_decode_doc_enc(d: Seq<FieldModel>)
    requires
        doc_fits(d),
    ensures
        spec_decode_doc(enc_doc(d)) == Some(d),
{
    let n = d.len() as u64;
    assert(enc_doc(d) =~= spec_u64_to_le_bytes(n) + (enc_fields(d) + Seq::<u8>::empty()));
    lemma_parse_u64_enc(n, enc_fields(d) + Seq::<u8>::empty());
    lemma_parse_fields_enc(d, Seq::<u8>::empty());
}

// ---------------------------------------------------------------------------
// Reading fields out of a decoded document
// ---------------------------------------------------------------------------

/// The value of the first field named `name`, if any.
pub open spec fn lookup(d: Seq<FieldModel>, name: Seq<char>) -> Option<ValueModel>
    decreases d.len(),
{
    if d.len() == 0 {
        None
    } else if d[0].name == name {
        Some(d[0].value)
    } else {
        lookup(d.drop_first(), name)
    }
}

/// A required string field: absent or differently typed fields are errors.
pub open spec fn req_text(d: Seq<FieldModel>, name: Seq<char>) -> Result<
    Seq<char>,
    DecodingError,
> {
    match lookup(d, name) {
        None => Err(DecodingError::MissingField),
        Some(ValueModel::Text(s)) => Ok(s),
        Some(_) => Err(DecodingError::WrongType),
    }
}

/// A required 32-bit integer field.
pub open spec fn req_int(d: Seq<FieldModel>, name: Seq<char>) -> Result<i32, DecodingError> {
    match lookup(d, name) {
        None => Err(DecodingError::MissingField),
        Some(ValueModel::Int(i)) => Ok(i),
        Some(_) => Err(DecodingError::WrongType),
    }
}

/// A required boolean field.
pub open spec fn req_flag(d: Seq<FieldModel>, name: Seq<char>) -> Result<bool, DecodingError> {
    match lookup(d, name) {
        None => Err(DecodingError::MissingField),
        Some(ValueModel::Flag(b)) => Ok(b),
        Some(_) => Err(DecodingError::WrongType),
    }
}

/// A list-of-strings field that defaults to the empty list when absent.
pub open spec fn opt_texts(d: Seq<FieldModel>, name: Seq<char>) -> Result<
    Seq<Seq<char>>,
    DecodingError,
> {
    match lookup(d, name) {
        None => Ok(Seq::empty()),
        Some(ValueModel::List(l)) => Ok(l),
        Some(_) => Err(DecodingError::WrongType),
    }
}

// ---------------------------------------------------------------------------
// Executable encoding
// ---------------------------------------------------------------------------

fn write_u64(out: &mut Vec<u8>, x: u64)
    ensures
        final(out)@ == old(out)@ + spec_u64_to_le_bytes(x),
{
    let mut s = u64_to_le_bytes(x);
    out.append(&mut s);
}

fn write_u32(out: &mut Vec<u8>, x: u32)
    ensures
        final(out)@ == old(out)@ + spec_u32_to_le_bytes(x),
{
    let mut s = u32_to_le_bytes(x);
    out.append(&mut s);
}

fn write_text(out: &mut Vec<u8>, s: &String)
    ensures
        final(out)@ == old(out)@ + enc_text(s@),
{
    let bytes = s.as_str().as_bytes();
    write_u64(out, bytes.len() as u64);
    let mut v = slice_to_vec(bytes);
    out.append(&mut v);
    proof {
        assert(final(out)@ =~= old(out)@ + enc_text(s@));
    }
}

fn write_texts(out: &mut Vec<u8>, l: &Vec<String>)
    ensures
        final(out)@ == old(out)@ + enc_texts(l.deep_view()),
{
    let ghost m = l.deep_view();
    let n = l.len();
    for i in 0..n
        invariant
            n == l@.len(),
            m == l.deep_view(),
            out@ == old(out)@ + enc_texts(m.take(i as int)),
    {
        write_text(out, &l[i]);
        proof {
            lemma_enc_texts_snoc(m.take(i as int), m[i as int]);
            assert(m.take(i as int).push(m[i as int]) =~= m.take(i as int + 1));
        }
    }
    proof {
        assert(m.take(n as int) =~= m);
    }
}

/// `enc_texts` grows one string at a time.
proof fn lemma_enc_texts_snoc(l: Seq<Seq<char>>, s: Seq<char>)
    ensures
        enc_texts(l.push(s)) == enc_texts(l) + enc_text(s),
    decreases l.len(),
{
    if l.len() == 0 {
        assert(l.push(s).drop_first() =~= l);
        assert(enc_texts(l.push(s)) =~= enc_texts(l) + enc_text(s));
    } else {
        assert(l.push(s).drop_first() =~= l.drop_first().push(s));
        lemma_enc_texts_snoc(l.drop_first(), s);
        assert(enc_texts(l.push(s)) =~= enc_texts(l) + enc_text(s));
    }
}

/// `enc_fields` grows one field at a time.
proof fn lemma_enc_fields_snoc(d: Seq<FieldModel>, f: FieldModel)
    ensures
        enc_fields(d.push(f)) == enc_fields(d) + enc_field(f),
    decreases d.len(),
{
    if d.len() == 0 {
        assert(d.push(f).drop_first() =~= d);
        assert(enc_fields(d.push(f)) =~= enc_fields(d) + enc_field(f));
    } else {
        assert(d.push(f).drop_first() =~= d.drop_first().push(f));
        lemma_enc_fields_snoc(d.drop_first(), f);
        assert(enc_fields(d.push(f)) =~= enc_fields(d) + enc_field(f));
    }
}

fn write_value(out: &mut Vec<u8>, v: &Value)
    ensures
        final(out)@ == old(out)@ + enc_value(v@),
{
    match v {
        Value::Text(s) => {
            out.push(TAG_TEXT);
            write_text(out, s);
        },
        Value::Int(i) => {
            out.push(TAG_INT);
            write_u32(out, *i as u32);
        },
        Value::Flag(b) => {
            out.push(TAG_FLAG);
            out.push(if *b { 1 } else { 0 });
        },
        Value::List(l) => {
            out.push(TAG_LIST);
            write_u64(out, l.len() as u64);
            write_texts(out, l);
        },
    }
    proof {
        assert(final(out)@ =~= old(out)@ + enc_value(v@));
    }
}

fn write_field(out: &mut Vec<u8>, f: &Field)
    ensures
        final(out)@ == old(out)@ + enc_field(f@),
{
    write_text(out, &f.name);
    write_value(out, &f.value);
    proof {
        assert(final(out)@ =~= old(out)@ + enc_field(f@));
    }
}

/// Encode a document as a payload.
pub fn encode_doc(d: &Vec<Field>) -> (r: Vec<u8>)
    ensures
        r@ == enc_doc(d.deep_view()),
{
    let ghost m = d.deep_view();
    let mut out: Vec<u8> = Vec::new();
    write_u64(&mut out, d.len() as u64);
    let n = d.len();
    for i in 0..n
        invariant
            n == d@.len(),
            m == d.deep_view(),
            out@ == spec_u64_to_le_bytes(m.len() as u64) + enc_fields(m.take(i as int)),
    {
        write_field(&mut out, &d[i]);
        proof {
            lemma_enc_fields_snoc(m.take(i as int), m[i as int]);
            assert(m.take(i as int).push(m[i as int]) =~= m.take(i as int + 1));
            assert(out@ =~= spec_u64_to_le_bytes(m.len() as u64) + enc_fields(
                m.take(i as int + 1),
            ));
        }
    }
    proof {
        assert(m.take(n as int) =~= m);
        assert(out@ =~= enc_doc(m));
    }
    out
}

// ---------------------------------------------------------------------------
// Executable decoding
// ---------------------------------------------------------------------------

fn read_u64(b: &[u8], pos: usize) -> (r: Option<(u64, usize)>)
    requires
        pos <= b@.len(),
    ensures
        match r {
            Some(p) => pos <= p.1 <= b@.len() && parse_u64(b@.skip(pos as int)) == Some(
                (p.0, b@.skip(p.1 as int)),
            ),
            None => parse_u64(b@.skip(pos as int)) is None,
        },
{
    if b.len() - pos >= 8 {
        let s = slice_subrange(b, pos, pos + 8);
        let x = u64_from_le_bytes(s);
        proof {
            assert(b@.skip(pos as int).take(8) =~= b@.subrange(pos as int, pos as int + 8));
            assert(b@.skip(pos as int).skip(8) =~= b@.skip(pos as int + 8));
        }
        Some((x, pos + 8))
    } else {
        None
    }
}

fn read_u32(b: &[u8], pos: usize) -> (r: Option<(u32, usize)>)
    requires
        pos <= b@.len(),
    ensures
        match r {
            Some(p) => pos <= p.1 <= b@.len() && parse_u32(b@.skip(pos as int)) == Some(
                (p.0, b@.skip(p.1 as int)),
            ),
            None => parse_u32(b@.skip(pos as int)) is None,
        },
{
    if b.len() - pos >= 4 {
        let s = slice_subrange(b, pos, pos + 4);
        let x = u32_from_le_bytes(s);
        proof {
            assert(b@.skip(pos as int).take(4) =~= b@.subrange(pos as int, pos as int + 4));
            assert(b@.skip(pos as int).skip(4) =~= b@.skip(pos as int + 4));
        }
        Some((x, pos + 4))
    } else {
        None
    }
}

/// Relies on `String::from_utf8`: it returns the string whose UTF-8
/// encoding is the given byte vector, and rejects exactly the byte
/// vectors that are not valid UTF-8.
#[verifier::external_body]
fn string_from_utf8(b: Vec<u8>) -> (r: Option<String>)
    ensures
        match r {
            Some(s) => valid_utf8(b@) && s@ == decode_utf8(b@),
            None => !valid_utf8(b@),
        },
{
    String::from_utf8(b).ok()
}

fn read_text(b: &[u8], pos: usize) -> (r: Option<(String, usize)>)
    requires
        pos <= b@.len(),
    ensures
        match r {
            Some(p) => pos <= p.1 <= b@.len() && parse_text(b@.skip(pos as int)) == Some(
                (p.0@, b@.skip(p.1 as int)),
            ),
            None => parse_text(b@.skip(pos as int)) is None,
        },
{
    match read_u64(b, pos) {
        None => None,
        Some((n, p)) => {
            if n > (b.len() - p) as u64 {
                return None;
            }
            let len = n as usize;
            let sub = slice_subrange(b, p, p + len);
            let v = slice_to_vec(sub);
            proof {
                assert(b@.skip(p as int).take(n as int) =~= b@.subrange(
                    p as int,
                    p as int + n as int,
                ));
                assert(b@.skip(p as int).skip(n as int) =~= b@.skip(p as int + n as int));
            }
            match string_from_utf8(v) {
                Some(s) => Some((s, p + len)),
                None => None,
            }
        },
    }
}

fn read_texts(b: &[u8], pos: usize, n: u64) -> (r: Option<(Vec<String>, usize)>)
    requires
        pos <= b@.len(),
    ensures
        match r {
            Some(p) => pos <= p.1 <= b@.len() && parse_texts(b@.skip(pos as int), n as nat)
                == Some((p.0.deep_view(), b@.skip(p.1 as int))),
            None => parse_texts(b@.skip(pos as int), n as nat) is None,
        },
{
    let mut out: Vec<String> = Vec::new();
    let mut p = pos;
    let mut i: u64 = 0;
    while i < n
        invariant
            i <= n,
            pos <= p <= b@.len(),
            parse_texts(b@.skip(pos as int), n as nat) == match parse_texts(
                b@.skip(p as int),
                (n - i) as nat,
            ) {
                Some(q) => Some((out.deep_view() + q.0, q.1)),
                None => None::<(Seq<Seq<char>>, Seq<u8>)>,
            },
        decreases n - i,
    {
        match read_text(b, p) {
            None => {
                return None;
            },
            Some((s, p2)) => {
                proof {
                    let rest = b@.skip(p2 as int);
                    match parse_texts(rest, (n - i - 1) as nat) {
                        Some(q) => {
                            assert(out.deep_view().push(s@) + q.0 =~= out.deep_view() + (seq![s@]
                                + q.0));
                        },
                        None => {},
                    }
                }
                out.push(s);
                p = p2;
                i = i + 1;
            },
        }
    }
    proof {
        assert(out.deep_view() + Seq::<Seq<char>>::empty() =~= out.deep_view());
    }
    Some((out, p))
}

fn read_value(b: &[u8], pos: usize) -> (r: Option<(Value, usize)>)
    requires
        pos <= b@.len(),
    ensures
        match r {
            Some(p) => pos <= p.1 <= b@.len() && parse_value(b@.skip(pos as int)) == Some(
                (p.0@, b@.skip(p.1 as int)),
            ),
            None => parse_value(b@.skip(pos as int)) is None,
        },
{
    if pos >= b.len() {
        return None;
    }
    let tag = b[pos];
    let p = pos + 1;
    proof {
        assert(b@.skip(pos as int)[0] == b@[pos as int]);
        assert(b@.skip(pos as int).skip(1) =~= b@.skip(p as int));
    }
    if tag == TAG_TEXT {
        match read_text(b, p) {
            Some((s, p2)) => Some((Value::Text(s), p2)),
            None => None,
        }
    } else if tag == TAG_INT {
        match read_u32(b, p) {
            Some((u, p2)) => Some((Value::Int(u as i32), p2)),
            None => None,
        }
    } else if tag == TAG_FLAG {
        if p < b.len() && (b[p] == 0 || b[p] == 1) {
            proof {
                assert(b@.skip(p as int)[0] == b@[p as int]);
                assert(b@.skip(p as int).skip(1) =~= b@.skip(p as int + 1));
            }
            Some((Value::Flag(b[p] == 1), p + 1))
        } else {
            None
        }
    } else if tag == TAG_LIST {
        match read_u64(b, p) {
            Some((n, p2)) => match read_texts(b, p2, n) {
                Some((l, p3)) => Some((Value::List(l), p3)),
                None => None,
            },
            None => None,
        }
    } else {
        None
    }
}

fn read_field(b: &[u8], pos: usize) -> (r: Option<(Field, usize)>)
    requires
        pos <= b@.len(),
    ensures
        match r {
            Some(p) => pos <= p.1 <= b@.len() && parse_field(b@.skip(pos as int)) == Some(
                (p.0@, b@.skip(p.1 as int)),
            ),
            None => parse_field(b@.skip(pos as int)) is None,
        },
{
    match read_text(b, pos) {
        None => None,
        Some((name, p)) => match read_value(b, p) {
            Some((v, p2)) => Some((Field { name, value: v }, p2)),
            None => None,
        },
    }
}

/// Decode a payload into its document; every byte must be consumed.
pub fn decode_doc(b: &[u8]) -> (r: Option<Vec<Field>>)
    ensures
        match r {
            Some(d) => spec_decode_doc(b@) == Some(d.deep_view()),
            None => spec_decode_doc(b@) is None,
        },
{
    proof {
        assert(b@.skip(0) =~= b@);
    }
    let (n, start) = match read_u64(b, 0) {
        Some(p) => p,
        None => {
            return None;
        },
    };
    let mut out: Vec<Field> = Vec::new();
    let mut p = start;
    let mut i: u64 = 0;
    while i < n
        invariant
            i <= n,
            start <= p <= b@.len(),
            parse_u64(b@) == Some((n, b@.skip(start as int))),
            parse_fields(b@.skip(start as int), n as nat) == match parse_fields(
                b@.skip(p as int),
                (n - i) as nat,
            ) {
                Some(q) => Some((out.deep_view() + q.0, q.1)),
                None => None::<(Seq<FieldModel>, Seq<u8>)>,
            },
        decreases n - i,
    {
        match read_field(b, p) {
            None => {
                return None;
            },
            Some((f, p2)) => {
                proof {
                    let rest = b@.skip(p2 as int);
                    match parse_fields(rest, (n - i - 1) as nat) {
                        Some(q) => {
                            assert(out.deep_view().push(f@) + q.0 =~= out.deep_view() + (seq![f@]
                                + q.0));
                        },
                        None => {},
                    }
                }
                out.push(f);
                p = p2;
                i = i + 1;
            },
        }
    }
    proof {
        assert(out.deep_view() + Seq::<FieldModel>::empty() =~= out.deep_view());
    }
    if p != b.len() {
        return None;
    }
    Some(out)
}

// ---------------------------------------------------------------------------
// Executable field access
// ---------------------------------------------------------------------------

fn str_eq(a: &String, b: &str) -> (r: bool)
    ensures
        r == (a@ == b@),
{
    let owned = String::from_str(b);
    *a == owned
}

fn find_field<'a>(d: &'a Vec<Field>, name: &str) -> (r: Option<&'a Value>)
    ensures
        match r {
            Some(v) => lookup(d.deep_view(), name@) == Some(v@),
            None => lookup(d.deep_view(), name@) is None,
        },
{
    let ghost m = d.deep_view();
    proof {
        assert(m.skip(0) =~= m);
    }
    let n = d.len();
    for i in 0..n
        invariant
            n == d@.len(),
            m == d.deep_view(),
            lookup(m, name@) == lookup(m.skip(i as int), name@),
    {
        proof {
            assert(m.skip(i as int)[0] == d@[i as int].deep_view());
        }
        if str_eq(&d[i].name, name) {
            return Some(&d[i].value);
        }
        proof {
            assert(m.skip(i as int).drop_first() =~= m.skip(i as int + 1));
        }
    }
    proof {
        assert(m.skip(n as int) =~= Seq::<FieldModel>::empty());
    }
    None
}

/// Fetch a required string field of a decoded document.
pub fn get_text(d: &Vec<Field>, name: &str) -> (r: Result<String, DecodingError>)
    ensures
        match (r, req_text(d.deep_view(), name@)) {
            (Ok(s), Ok(m)) => s@ == m,
            (Err(e1), Err(e2)) => e1 == e2,
            _ => false,
        },
{
    match find_field(d, name) {
        None => Err(DecodingError::MissingField),
        Some(Value::Text(s)) => Ok(s.clone()),
        Some(_) => Err(DecodingError::WrongType),
    }
}

/// Fetch a required 32-bit integer field of a decoded document.
pub fn get_int(d: &Vec<Field>, name: &str) -> (r: Result<i32, DecodingError>)
    ensures
        match (r, req_int(d.deep_view(), name@)) {
            (Ok(i), Ok(m)) => i == m,
            (Err(e1), Err(e2)) => e1 == e2,
            _ => false,
        },
{
    match find_field(d, name) {
        None => Err(DecodingError::MissingField),
        Some(Value::Int(i)) => Ok(*i),
        Some(_) => Err(DecodingError::WrongType),
    }
}

/// Fetch a required boolean field of a decoded document.
pub fn get_flag(d: &Vec<Field>, name: &str) -> (r: Result<bool, DecodingError>)
    ensures
        match (r, req_flag(d.deep_view(), name@)) {
            (Ok(b), Ok(m)) => b == m,
            (Err(e1), Err(e2)) => e1 == e2,
            _ => false,
        },
{
    match find_field(d, name) {
        None => Err(DecodingError::MissingField),
        Some(Value::Flag(b)) => Ok(*b),
        Some(_) => Err(DecodingError::WrongType),
    }
}

/// Copy a vector of strings; the copy views equal to the original.
pub fn clone_texts(v: &Vec<String>) -> (r: Vec<String>)
    ensures
        r@ == v@,
{
    let mut out: Vec<String> = Vec::new();
    let n = v.len();
    for i in 0..n
        invariant
            n == v@.len(),
            out@ == v@.take(i as int),
    {
        out.push(v[i].clone());
        proof {
            assert(v@.take(i as int).push(v@[i as int]) =~= v@.take(i as int + 1));
        }
    }
    proof {
        assert(v@.take(n as int) =~= v@);
    }
    out
}

/// Fetch a list-of-strings field, defaulting to empty when absent.
pub fn get_texts(d: &Vec<Field>, name: &str) -> (r: Result<Vec<String>, DecodingError>)
    ensures
        match (r, opt_texts(d.deep_view(), name@)) {
            (Ok(l), Ok(m)) => l.deep_view() == m,
            (Err(e1), Err(e2)) => e1 == e2,
            _ => false,
        },
{
    match find_field(d, name) {
        None => {
            let out: Vec<String> = Vec::new();
            proof {
                assert(out.deep_view() =~= Seq::<Seq<char>>::empty());
            }
            Ok(out)
        },
        Some(Value::List(l)) => {
            let out = clone_texts(l);
            proof {
                assert(out.deep_view() =~= l.deep_view());
            }
            Ok(out)
        },
        Some(_) => Err(DecodingError::WrongType),
    }
}

// ---------------------------------------------------------------------------
// Lookup in the small documents the record encoders build
// ---------------------------------------------------------------------------

pub proof fn lemma_lookup_one(f: FieldModel)
    ensures
        lookup(seq![f], f.name) == Some(f.value),
{
}

pub proof fn lemma_lookup_two(f1: FieldModel, f2: FieldModel)
    requires
        f1.name != f2.name,
    ensures
        lookup(seq![f1, f2], f1.name) == Some(f1.value),
        lookup(seq![f1, f2], f2.name) == Some(f2.value),
{
    assert(seq![f1, f2].drop_first() =~= seq![f2]);
    assert(lookup(seq![f2], f2.name) == Some(f2.value));
}

pub proof fn lemma_lookup_three(f1: FieldModel, f2: FieldModel, f3: FieldModel)
    requires
        f1.name != f2.name,
        f1.name != f3.name,
        f2.name != f3.name,
    ensures
        lookup(seq![f1, f2, f3], f1.name) == Some(f1.value),
        lookup(seq![f1, f2, f3], f2.name) == Some(f2.value),
        lookup(seq![f1, f2, f3], f3.name) == Some(f3.value),
{
    assert(seq![f1, f2, f3].drop_first() =~= seq![f2, f3]);
    assert(seq![f2, f3].drop_first() =~= seq![f3]);
    assert(lookup(seq![f3], f3.name) == Some(f3.value));
    assert(lookup(seq![f2, f3], f2.name) == Some(f2.value));
    assert(lookup(seq![f2, f3], f3.name) == Some(f3.value));
}

/// The UTF-8 form of a string takes at most four bytes per character.
pub proof fn lemma_encode_utf8_len(s: Seq<char>)
    ensures
        encode_utf8(s).len() <= 4 * s.len(),
    decreases s.len(),
{
    if s.len() == 0 {
    } else {
        assert(encode_scalar(s[0] as u32).len() <= 4);
        lemma_encode_utf8_len(s.drop_first());
    }
}

} // verus!
