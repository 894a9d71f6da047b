//! The selective decoder: reads from a message just what the metrics need.
//! That is the kind of operation, the command, the collection and the
//! database of a request, and, of a reply, how it went. Nothing here fails:
//! a payload that does not hold what is looked for yields a summary without
//! it, and an unknown opcode yields `Unknown`.
//!
//! `decode` is the way in. `decode_payload` reads a payload as it is.

use vstd::prelude::*;
use vstd::slice::slice_subrange;
use crate::bson::{
    cstring_at, element_at, element_named, find_element, find_nested, name_at, name_view,
    nested_elements, number_value, read_cstring, read_name, read_number, read_string, read_truth,
    string_value, truth_value,
};
use crate::compression::{decode_compressed, message_summary};
use crate::wire::{
    WireMessage, le_i32, le_i64, lemma_le_i32_range, read_i32_le, read_i64_le, MAX_MESSAGE_SIZE,
};

verus! {

/// The kind of operation that an opcode stands for.
#[derive(Clone, Copy, Debug, PartialEq, Eq, Structural)]
pub enum OpKind {
    Reply,
    Update,
    Insert,
    Query,
    GetMore,
    Delete,
    KillCursors,
    Compressed,
    Msg,
    /// An opcode that this proxy does not know, kept as it came.
    Unknown(i32),
}

/// Reply to a legacy request.
pub const OP_REPLY: i32 = 1;

/// Legacy update.
pub const OP_UPDATE: i32 = 2001;

/// Legacy insert.
pub const OP_INSERT: i32 = 2002;

/// Legacy query.
pub const OP_QUERY: i32 = 2004;

/// Legacy request for more of a cursor.
pub const OP_GET_MORE: i32 = 2005;

/// Legacy delete.
pub const OP_DELETE: i32 = 2006;

/// Legacy request to close cursors.
pub const OP_KILL_CURSORS: i32 = 2007;

/// Another message, compressed.
pub const OP_COMPRESSED: i32 = 2012;

/// Request or reply in the current format.
pub const OP_MSG: i32 = 2013;

/// The kind of operation of an opcode. Total: what is not known is
/// `Unknown`.
pub open spec fn op_kind_of(op_code: i32) -> OpKind {
    if op_code == OP_REPLY {
        OpKind::Reply
    } else if op_code == OP_UPDATE {
        OpKind::Update
    } else if op_code == OP_INSERT {
        OpKind::Insert
    } else if op_code == OP_QUERY {
        OpKind::Query
    } else if op_code == OP_GET_MORE {
        OpKind::GetMore
    } else if op_code == OP_DELETE {
        OpKind::Delete
    } else if op_code == OP_KILL_CURSORS {
        OpKind::KillCursors
    } else if op_code == OP_COMPRESSED {
        OpKind::Compressed
    } else if op_code == OP_MSG {
        OpKind::Msg
    } else {
        OpKind::Unknown(op_code)
    }
}

/// The legacy operations whose payload starts with four bytes of flags and
/// the full name of a collection.
pub open spec fn names_collection(kind: OpKind) -> bool {
    kind is Update || kind is Insert || kind is Query || kind is GetMore || kind is Delete
}

/// Start of the body document of an `OP_MSG` payload, looked for from the
/// section at `p` on. A section that starts with a zero byte is the body; a
/// section that starts with a one is a document sequence, skipped by its
/// length where that stays within the payload; anything else ends the
/// search.
pub open spec fn body_from(payload: Seq<u8>, p: int) -> Option<int>
    decreases payload.len() - p,
{
    if p < 0 || p >= payload.len() {
        None
    } else if payload[p] == 0 {
        Some(p + 1)
    } else if payload[p] == 1 && p + 5 <= payload.len() && le_i32(payload, p + 1) >= 4 && p + 1
        + le_i32(payload, p + 1) <= payload.len() {
        body_from(payload, p + 1 + le_i32(payload, p + 1))
    } else {
        None
    }
}

/// Length of what stands in front of the documents of an `OP_REPLY`
/// payload: flags, cursor, starting position and number of documents.
pub const REPLY_PRELUDE_LEN: usize = 20;

/// Where the elements start of the document that says what a message is
/// about: behind the four bytes of that document's length. In an `OP_MSG`
/// the document is the body, which is looked for behind four bytes of
/// flags; in an `OP_REPLY` it is the first document returned. No other
/// operation has one.
pub open spec fn elements_of(op: OpKind, payload: Seq<u8>) -> Option<int> {
    if op is Msg {
        match body_from(payload, 4) {
            Some(doc) => if doc + 4 <= payload.len() {
                Some(doc + 4)
            } else {
                None
            },
            None => None,
        }
    } else if op is Reply {
        Some(REPLY_PRELUDE_LEN + 4)
    } else {
        None
    }
}

/// A position in a payload that may be there, as a value.
pub open spec fn place(at: Option<usize>) -> Option<int> {
    match at {
        Some(e) => Some(e as int),
        None => None,
    }
}

/// The element called `name` among those that start at `from`.
pub open spec fn lookup(payload: Seq<u8>, name: Seq<u8>, from: Option<int>) -> Option<int> {
    match from {
        Some(e) => element_named(payload, name, e),
        None => None,
    }
}

/// The string of the element at `at`.
pub open spec fn text_at(payload: Seq<u8>, at: Option<int>) -> Option<Seq<u8>> {
    match at {
        Some(e) => string_value(payload, e),
        None => None,
    }
}

/// The whole number of the element at `at`.
pub open spec fn number_at(payload: Seq<u8>, at: Option<int>) -> Option<i64> {
    match at {
        Some(e) => number_value(payload, e),
        None => None,
    }
}

/// The truth of the element at `at`.
pub open spec fn truth_at(payload: Seq<u8>, at: Option<int>) -> Option<bool> {
    match at {
        Some(e) => truth_value(payload, e),
        None => None,
    }
}

/// The elements of the document that the element at `at` holds.
pub open spec fn nested_at(payload: Seq<u8>, at: Option<int>) -> Option<int> {
    match at {
        Some(e) => nested_elements(payload, e),
        None => None,
    }
}

/// `$db`, the element of a body that names the database.
pub open spec fn key_db() -> Seq<u8> {
    seq![0x24u8, 0x64u8, 0x62u8]
}

/// `ok`, the element of a reply that says whether the command succeeded.
pub open spec fn key_ok() -> Seq<u8> {
    seq![0x6fu8, 0x6bu8]
}

/// `n`, the element of a reply that counts the documents affected.
pub open spec fn key_n() -> Seq<u8> {
    seq![0x6eu8]
}

/// `code`, the element of a reply that numbers the error.
pub open spec fn key_code() -> Seq<u8> {
    seq![0x63u8, 0x6fu8, 0x64u8, 0x65u8]
}

/// `errmsg`, the element of a reply that describes the error.
pub open spec fn key_errmsg() -> Seq<u8> {
    seq![0x65u8, 0x72u8, 0x72u8, 0x6du8, 0x73u8, 0x67u8]
}

/// `cursor`, the element of a reply that holds the cursor.
pub open spec fn key_cursor() -> Seq<u8> {
    seq![0x63u8, 0x75u8, 0x72u8, 0x73u8, 0x6fu8, 0x72u8]
}

/// `id`, the element of a cursor that identifies it.
pub open spec fn key_id() -> Seq<u8> {
    seq![0x69u8, 0x64u8]
}

/// The command of an `OP_MSG`: by the protocol's convention, the name of the
/// first element of the body.
pub open spec fn command_of(op: OpKind, payload: Seq<u8>) -> Option<Seq<u8>> {
    match elements_of(op, payload) {
        Some(e) => if op is Msg && element_at(payload, e) {
            Some(name_at(payload, e))
        } else {
            None
        },
        None => None,
    }
}

/// The collection of a message. A legacy operation names it in full behind
/// its four bytes of flags. In an `OP_MSG` it is the value of the first
/// element of the body where that is a string, as in `{find: "users"}`.
pub open spec fn collection_of(op: OpKind, payload: Seq<u8>) -> Option<Seq<u8>> {
    if names_collection(op) {
        cstring_at(payload, 4)
    } else if op is Msg {
        text_at(payload, elements_of(op, payload))
    } else {
        None
    }
}

/// The database of an `OP_MSG`: the string of the body's element `$db`.
pub open spec fn database_of(op: OpKind, payload: Seq<u8>) -> Option<Seq<u8>> {
    if op is Msg {
        text_at(payload, lookup(payload, key_db(), elements_of(op, payload)))
    } else {
        None
    }
}

/// Whether a reply reports success: the truth of its element `ok`.
pub open spec fn ok_of(op: OpKind, payload: Seq<u8>) -> Option<bool> {
    truth_at(payload, lookup(payload, key_ok(), elements_of(op, payload)))
}

/// How many documents a reply counts: in an `OP_REPLY` the number of
/// documents returned, which its prelude gives; in an `OP_MSG` the number of
/// its element `n`.
pub open spec fn n_of(op: OpKind, payload: Seq<u8>) -> Option<i64> {
    if op is Reply {
        if payload.len() >= REPLY_PRELUDE_LEN {
            Some(le_i32(payload, 16) as i64)
        } else {
            None
        }
    } else {
        number_at(payload, lookup(payload, key_n(), elements_of(op, payload)))
    }
}

/// The cursor that a reply leaves open: in an `OP_REPLY` the one that its
/// prelude gives; in an `OP_MSG` the number of the element `id` of the
/// document `cursor`.
pub open spec fn cursor_of(op: OpKind, payload: Seq<u8>) -> Option<i64> {
    if op is Reply {
        if payload.len() >= REPLY_PRELUDE_LEN {
            Some(le_i64(payload, 4) as i64)
        } else {
            None
        }
    } else {
        number_at(
            payload,
            lookup(
                payload,
                key_id(),
                nested_at(payload, lookup(payload, key_cursor(), elements_of(op, payload))),
            ),
        )
    }
}

/// The number of the error that a reply reports: that of its element `code`.
pub open spec fn error_code_of(op: OpKind, payload: Seq<u8>) -> Option<i64> {
    number_at(payload, lookup(payload, key_code(), elements_of(op, payload)))
}

/// The description of the error that a reply reports: the string of its
/// element `errmsg`.
pub open spec fn error_message_of(op: OpKind, payload: Seq<u8>) -> Option<Seq<u8>> {
    text_at(payload, lookup(payload, key_errmsg(), elements_of(op, payload)))
}

/// What the decoder keeps of a message, as a value.
pub struct Summary {
    pub op: OpKind,
    pub command: Option<Seq<u8>>,
    pub collection: Option<Seq<u8>>,
    pub database: Option<Seq<u8>>,
    pub ok: Option<bool>,
    pub n: Option<i64>,
    pub cursor_id: Option<i64>,
    pub error_code: Option<i64>,
    pub error_message: Option<Seq<u8>>,
}

/// What the decoder keeps of a message. Names and texts are the bytes that
/// were sent. What a message does not say is `None`.
#[derive(Clone, Debug, PartialEq, Eq)]
pub struct DecodedMessage {
    /// The kind of operation.
    pub op: OpKind,
    /// The command of an `OP_MSG`.
    pub command: Option<Vec<u8>>,
    /// The collection; of a legacy operation, in full, database included.
    pub collection: Option<Vec<u8>>,
    /// The database of an `OP_MSG`.
    pub database: Option<Vec<u8>>,
    /// Whether a reply reports success.
    pub ok: Option<bool>,
    /// How many documents a reply counts.
    pub n: Option<i64>,
    /// The cursor that a reply leaves open.
    pub cursor_id: Option<i64>,
    /// The number of the error that a reply reports.
    pub error_code: Option<i64>,
    /// The description of the error that a reply reports.
    pub error_message: Option<Vec<u8>>,
}

impl View for DecodedMessage {
    type V = Summary;

    open spec fn view(&self) -> Summary {
        Summary {
            op: self.op,
            command: name_view(self.command),
            collection: name_view(self.collection),
            database: name_view(self.database),
            ok: self.ok,
            n: self.n,
            cursor_id: self.cursor_id,
            error_code: self.error_code,
            error_message: name_view(self.error_message),
        }
    }
}

/// A summary that says nothing but the kind of operation.
pub open spec fn bare(op: OpKind) -> Summary {
    Summary {
        op,
        command: None,
        collection: None,
        database: None,
        ok: None,
        n: None,
        cursor_id: None,
        error_code: None,
        error_message: None,
    }
}

/// The summary of a message with the given opcode and payload.
pub open spec fn summary_of(op_code: i32, payload: Seq<u8>) -> Summary {
    let op = op_kind_of(op_code);
    if op is Msg || op is Reply {
        Summary {
            op,
            command: command_of(op, payload),
            collection: collection_of(op, payload),
            database: database_of(op, payload),
            ok: ok_of(op, payload),
            n: n_of(op, payload),
            cursor_id: cursor_of(op, payload),
            error_code: error_code_of(op, payload),
            error_message: error_message_of(op, payload),
        }
    } else {
        Summary { collection: collection_of(op, payload), ..bare(op) }
    }
}

/// What stands in front of the data of an `OP_COMPRESSED` payload.
#[derive(Clone, Copy, Debug, PartialEq, Eq, Structural)]
pub struct CompressedEnvelope {
    /// The opcode of the message that was compressed.
    pub original_opcode: i32,
    /// The length of that message's payload once decompressed.
    pub uncompressed_size: i32,
    /// Which compressor was used.
    pub compressor_id: u8,
}

/// Length of what stands in front of the data of an `OP_COMPRESSED` payload.
pub const ENVELOPE_LEN: usize = 9;

/// The envelope that a payload starts with.
pub open spec fn envelope_of(payload: Seq<u8>) -> CompressedEnvelope {
    CompressedEnvelope {
        original_opcode: le_i32(payload, 0) as i32,
        uncompressed_size: le_i32(payload, 4) as i32,
        compressor_id: payload[8],
    }
}

impl DecodedMessage {
    /// A summary that says nothing but the kind of operation.
    pub fn bare(op: OpKind) -> (d: DecodedMessage)
        ensures
            d@ == self::bare(op),
    {
        DecodedMessage {
            op,
            command: None,
            collection: None,
            database: None,
            ok: None,
            n: None,
            cursor_id: None,
            error_code: None,
            error_message: None,
        }
    }
}

/// The kind of operation of an opcode.
pub fn classify(op_code: i32) -> (kind: OpKind)
    ensures
        kind == op_kind_of(op_code),
{
    if op_code == OP_REPLY {
        OpKind::Reply
    } else if op_code == OP_UPDATE {
        OpKind::Update
    } else if op_code == OP_INSERT {
        OpKind::Insert
    } else if op_code == OP_QUERY {
        OpKind::Query
    } else if op_code == OP_GET_MORE {
        OpKind::GetMore
    } else if op_code == OP_DELETE {
        OpKind::Delete
    } else if op_code == OP_KILL_CURSORS {
        OpKind::KillCursors
    } else if op_code == OP_COMPRESSED {
        OpKind::Compressed
    } else if op_code == OP_MSG {
        OpKind::Msg
    } else {
        OpKind::Unknown(op_code)
    }
}

/// Looks for the body document of an `OP_MSG` payload from the section at
/// `from` on.
fn find_body(payload: &[u8], from: usize) -> (doc: Option<usize>)
    ensures
        doc is Some <==> body_from(payload@, from as int) is Some,
        doc is Some ==> doc->Some_0 == body_from(payload@, from as int)->Some_0,
        doc is Some ==> doc->Some_0 <= payload@.len(),
{
    let mut p: usize = from;
    loop
        invariant
            body_from(payload@, p as int) == body_from(payload@, from as int),
        decreases payload@.len() - p,
    {
        if p >= payload.len() {
            return None;
        }
        let kind = payload[p];
        if kind == 0 {
            return Some(p + 1);
        }
        if kind != 1 || payload.len() - p < 5 {
            return None;
        }
        let size = read_i32_le(payload, p + 1);
        if size < 4 {
            return None;
        }
        let step = size as usize;
        if payload.len() - p - 1 < step {
            return None;
        }
        p = p + 1 + step;
    }
}

/// Where the elements start of the document that says what a message is
/// about.
fn find_elements(op: OpKind, payload: &[u8]) -> (start: Option<usize>)
    ensures
        start is Some <==> elements_of(op, payload@) is Some,
        start is Some ==> start->Some_0 == elements_of(op, payload@)->Some_0,
{
    match op {
        OpKind::Msg => {
            let len = payload.len();
            match find_body(payload, 4) {
                Some(doc) => {
                    if len - doc >= 4 {
                        Some(doc + 4)
                    } else {
                        None
                    }
                },
                None => None,
            }
        },
        OpKind::Reply => Some(REPLY_PRELUDE_LEN + 4),
        _ => None,
    }
}

/// The element called `name` among those that start at `from`.
fn find_among(payload: &[u8], name: &[u8], from: Option<usize>) -> (found: Option<usize>)
    ensures
        place(found) == lookup(payload@, name@, place(from)),
{
    match from {
        Some(e) => find_element(payload, name, e),
        None => None,
    }
}

/// The string of the element called `name` among those that start at `from`.
fn text_among(payload: &[u8], name: &[u8], from: Option<usize>) -> (text: Option<Vec<u8>>)
    ensures
        name_view(text) == text_at(payload@, lookup(payload@, name@, place(from))),
{
    match find_among(payload, name, from) {
        Some(at) => read_string(payload, at),
        None => None,
    }
}

/// The number of the element called `name` among those that start at `from`.
fn number_among(payload: &[u8], name: &[u8], from: Option<usize>) -> (number: Option<i64>)
    ensures
        number == number_at(payload@, lookup(payload@, name@, place(from))),
{
    match find_among(payload, name, from) {
        Some(at) => read_number(payload, at),
        None => None,
    }
}

/// The truth of the element called `name` among those that start at `from`.
fn truth_among(payload: &[u8], name: &[u8], from: Option<usize>) -> (truth: Option<bool>)
    ensures
        truth == truth_at(payload@, lookup(payload@, name@, place(from))),
{
    match find_among(payload, name, from) {
        Some(at) => read_truth(payload, at),
        None => None,
    }
}

/// The elements of the document that the element called `name` holds.
fn nested_among(payload: &[u8], name: &[u8], from: Option<usize>) -> (start: Option<usize>)
    ensures
        place(start) == nested_at(payload@, lookup(payload@, name@, place(from))),
{
    match find_among(payload, name, from) {
        Some(at) => find_nested(payload, at),
        None => None,
    }
}

/// Summarises a message with the given opcode and payload, as they are: a
/// compressed message is not opened.
pub fn decode_payload(op_code: i32, payload: &[u8]) -> (d: DecodedMessage)
    ensures
        d@ == summary_of(op_code, payload@),
{
    let op = classify(op_code);
    let mut d = DecodedMessage::bare(op);
    match op {
        OpKind::Update | OpKind::Insert | OpKind::Query | OpKind::GetMore | OpKind::Delete => {
            d.collection = read_cstring(payload, 4);
        },
        OpKind::Msg | OpKind::Reply => {
            let start = find_elements(op, payload);
            let key_db: [u8; 3] = [0x24, 0x64, 0x62];
            let key_ok: [u8; 2] = [0x6f, 0x6b];
            let key_n: [u8; 1] = [0x6e];
            let key_code: [u8; 4] = [0x63, 0x6f, 0x64, 0x65];
            let key_errmsg: [u8; 6] = [0x65, 0x72, 0x72, 0x6d, 0x73, 0x67];
            let key_cursor: [u8; 6] = [0x63, 0x75, 0x72, 0x73, 0x6f, 0x72];
            let key_id: [u8; 2] = [0x69, 0x64];
            proof {
                assert(place(start) == elements_of(op, payload@));
                assert(key_db@ =~= self::key_db());
                assert(key_ok@ =~= self::key_ok());
                assert(key_n@ =~= self::key_n());
                assert(key_code@ =~= self::key_code());
                assert(key_errmsg@ =~= self::key_errmsg());
                assert(key_cursor@ =~= self::key_cursor());
                assert(key_id@ =~= self::key_id());
            }
            match op {
                OpKind::Msg => {
                    match start {
                        Some(e) => {
                            d.command = read_name(payload, e);
                            d.collection = read_string(payload, e);
                        },
                        None => {},
                    }
                    d.database = text_among(payload, key_db.as_slice(), start);
                    d.n = number_among(payload, key_n.as_slice(), start);
                    let cursor = nested_among(payload, key_cursor.as_slice(), start);
                    d.cursor_id = number_among(payload, key_id.as_slice(), cursor);
                },
                _ => {
                    if payload.len() >= REPLY_PRELUDE_LEN {
                        proof {
                            lemma_le_i32_range(payload@, 16);
                        }
                        d.n = Some(read_i32_le(payload, 16) as i64);
                        d.cursor_id = Some(read_i64_le(payload, 4));
                    }
                },
            }
            d.ok = truth_among(payload, key_ok.as_slice(), start);
            d.error_code = number_among(payload, key_code.as_slice(), start);
            d.error_message = text_among(payload, key_errmsg.as_slice(), start);
        },
        _ => {},
    }
    d
}

/// Summarises a message. A compressed message is opened, into no more than
/// the largest message's length, and what is summarised is the message
/// inside it.
pub fn decode(message: &WireMessage) -> (d: DecodedMessage)
    ensures
        d@ == message_summary(
            message@.header.op_code,
            message@.payload,
            MAX_MESSAGE_SIZE as int,
        ),
{
    if message.header.op_code == OP_COMPRESSED {
        decode_compressed(message.payload.as_slice(), MAX_MESSAGE_SIZE)
    } else {
        decode_payload(message.header.op_code, message.payload.as_slice())
    }
}

/// Splits the payload of an `OP_COMPRESSED` message into its envelope and
/// the compressed data behind it; `None` where the payload is shorter than
/// an envelope.
pub fn compressed_parts(payload: &[u8]) -> (parts: Option<(CompressedEnvelope, &[u8])>)
    ensures
        parts is Some <==> payload@.len() >= ENVELOPE_LEN,
        parts is Some ==> parts->Some_0.0 == envelope_of(payload@) && parts->Some_0.1@
            == payload@.skip(ENVELOPE_LEN as int),
{
    if payload.len() < ENVELOPE_LEN {
        return None;
    }
    proof {
        lemma_le_i32_range(payload@, 0);
        lemma_le_i32_range(payload@, 4);
    }
    let envelope = CompressedEnvelope {
        original_opcode: read_i32_le(payload, 0),
        uncompressed_size: read_i32_le(payload, 4),
        compressor_id: payload[8],
    };
    let data = slice_subrange(payload, ENVELOPE_LEN, payload.len());
    assert(data@ =~= payload@.skip(ENVELOPE_LEN as int));
    Some((envelope, data))
}

} // verus!
