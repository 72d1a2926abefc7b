//! The AimX-v2 NDJSON envelope codec.
//!
//! One JSON object per line, tagged by a `"t"` member, mapping onto the
//! role-neutral [`Inbound`]/[`Outbound`] message set. A frame's members are
//! written in a fixed order (`t`, `id`, `seq`, `method`, `topic`, `sub`,
//! `params`, `payload`, `data`, `ok`, `err`), absent ones left out. Record
//! values are spliced into the frame verbatim as raw JSON, and sliced back
//! out the same way; a missing value reads as `null`.
//!
//! On the reading side every known member is checked for its type whatever
//! the tag: a string member must be a JSON string without escape sequences
//! (or `null`), a number member a JSON integer that fits a `u64` (or `null`).

use vstd::prelude::*;

use crate::json::{
    append_ascii, append_bytes, append_decimal, ascii, decimal_bytes, find_member,
    array_items, is_null_text, json_array_items, json_object_members, json_raw_value, json_string, member_views, null_text,
    object_members, payload_of, quote_json_string, raw_field, raw_json_value, read_borrowed_str,
    read_u64_literal, str_field, string_views, u64_field, utf8_bytes,
};
use crate::codec_laws::{
    inbound_members, law_reply_round_trip, law_request_round_trip, lemma_reply_frame_text,
    lemma_request_frame_text, object_text, outbound_members, reads_back_written, same_inbound,
    same_outbound, writable_inbound, writable_outbound,
};
use crate::json::{lemma_plain_json_string, plain_text, quoted_utf8};
use crate::session::{CodecError, EnvelopeCodec, Inbound, Outbound, RpcError};
use vstd::utf8::encode_utf8;

verus! {

/// The zero-sized AimX-v2 NDJSON codec.
#[derive(Clone, Copy, Default, Debug)]
pub struct AimxCodec;

/// The wire code of an RPC error.
pub open spec fn err_code_text(e: RpcError) -> Seq<char> {
    match e {
        RpcError::NotFound => "not_found"@,
        RpcError::Denied => "denied"@,
        RpcError::Internal => "internal"@,
        RpcError::VersionMismatch => "version_mismatch"@,
    }
}

/// The RPC error a wire code stands for; an unknown code reads as `Internal`.
pub open spec fn code_error(s: Seq<char>) -> RpcError {
    if s == "not_found"@ {
        RpcError::NotFound
    } else if s == "denied"@ {
        RpcError::Denied
    } else if s == "version_mismatch"@ {
        RpcError::VersionMismatch
    } else {
        RpcError::Internal
    }
}

/// The wire code of an RPC error.
pub fn err_code(e: &RpcError) -> (r: &'static str)
    ensures
        r@ == err_code_text(*e),
        r.is_ascii(),
{
    match e {
        RpcError::NotFound => {
            proof {
                reveal_strlit("not_found");
            }
            "not_found"
        },
        RpcError::Denied => {
            proof {
                reveal_strlit("denied");
            }
            "denied"
        },
        RpcError::Internal => {
            proof {
                reveal_strlit("internal");
            }
            "internal"
        },
        RpcError::VersionMismatch => {
            proof {
                reveal_strlit("version_mismatch");
            }
            "version_mismatch"
        },
    }
}

/// The RPC error a wire code stands for; an unknown code reads as `Internal`.
pub fn code_err(s: &str) -> (r: RpcError)
    ensures
        r == code_error(s@),
{
    let s = s.to_owned();
    if s == "not_found".to_owned() {
        RpcError::NotFound
    } else if s == "denied".to_owned() {
        RpcError::Denied
    } else if s == "version_mismatch".to_owned() {
        RpcError::VersionMismatch
    } else {
        RpcError::Internal
    }
}

/// The frame a request encodes to, or nothing when its value is not one
/// JSON value.
pub open spec fn inbound_frame(msg: Inbound) -> Option<Seq<u8>> {
    match msg {
        Inbound::Request { id, method, params } => match json_raw_value(params@) {
            Some(raw) => Some(
                ascii("{\"t\":\"req\",\"id\":"@) + decimal_bytes(id as nat) + ascii(",\"method\":"@)
                    + json_string(method@) + ascii(",\"params\":"@) + raw + ascii("}"@),
            ),
            None => None,
        },
        Inbound::Subscribe { id, topic } => Some(
            ascii("{\"t\":\"sub\",\"id\":"@) + decimal_bytes(id as nat) + ascii(",\"topic\":"@)
                + json_string(topic@) + ascii("}"@),
        ),
        Inbound::Unsubscribe { sub } => Some(
            ascii("{\"t\":\"unsub\",\"sub\":"@) + json_string(sub@) + ascii("}"@),
        ),
        Inbound::Write { topic, payload } => match json_raw_value(payload@) {
            Some(raw) => Some(
                ascii("{\"t\":\"write\",\"topic\":"@) + json_string(topic@) + ascii(",\"payload\":"@)
                    + raw + ascii("}"@),
            ),
            None => None,
        },
        Inbound::Ping => Some(ascii("{\"t\":\"ping\"}"@)),
    }
}

/// The optional `topic` member of an event.
pub open spec fn event_topic(topic: Option<String>) -> Seq<u8> {
    match topic {
        Some(t) => ascii(",\"topic\":"@) + json_string(t@),
        None => Seq::empty(),
    }
}

/// The frame a reply or event encodes to, or nothing when its value is not
/// one JSON value.
pub open spec fn outbound_frame(msg: Outbound) -> Option<Seq<u8>> {
    match msg {
        Outbound::Reply { id, result } => match result {
            Ok(data) => match json_raw_value(data@) {
                Some(raw) => Some(
                    ascii("{\"t\":\"reply\",\"id\":"@) + decimal_bytes(id as nat) + ascii(",\"ok\":"@)
                        + raw + ascii("}"@),
                ),
                None => None,
            },
            Err(e) => Some(
                ascii("{\"t\":\"reply\",\"id\":"@) + decimal_bytes(id as nat) + ascii(",\"err\":\""@)
                    + ascii(err_code_text(e)) + ascii("\"}"@),
            ),
        },
        Outbound::Event { sub, seq, topic, data } => match json_raw_value(data@) {
            Some(raw) => Some(
                ascii("{\"t\":\"event\",\"seq\":"@) + decimal_bytes(seq as nat) + event_topic(topic)
                    + ascii(",\"sub\":"@) + json_string(sub@) + ascii(",\"data\":"@) + raw + ascii(
                    "}"@,
                ),
            ),
            None => None,
        },
        Outbound::Snapshot { sub, topic, data } => match json_raw_value(data@) {
            Some(raw) => Some(
                ascii("{\"t\":\"snap\",\"topic\":"@) + json_string(topic@) + ascii(",\"sub\":"@)
                    + json_string(sub@) + ascii(",\"data\":"@) + raw + ascii("}"@),
            ),
            None => None,
        },
        Outbound::Subscribed { sub } => Some(
            ascii("{\"t\":\"subscribed\",\"sub\":"@) + json_string(sub@) + ascii("}"@),
        ),
        Outbound::Pong => Some(ascii("{\"t\":\"pong\"}"@)),
    }
}

/// Every known member of the frame has its type, and the tag is a string.
pub open spec fn frame_typed(ms: Seq<(Seq<char>, Seq<char>)>) -> bool {
    &&& str_field(ms, "t"@) matches Some(Some(_))
    &&& u64_field(ms, "id"@) is Some
    &&& u64_field(ms, "seq"@) is Some
    &&& str_field(ms, "method"@) is Some
    &&& str_field(ms, "topic"@) is Some
    &&& str_field(ms, "sub"@) is Some
    &&& str_field(ms, "err"@) is Some
}

/// The tag of a well-typed frame.
pub open spec fn frame_tag(ms: Seq<(Seq<char>, Seq<char>)>) -> Seq<char> {
    str_field(ms, "t"@).unwrap().unwrap()
}

/// The present, non-null value of an optional string member.
pub open spec fn opt_str(ms: Seq<(Seq<char>, Seq<char>)>, key: Seq<char>) -> Option<Seq<char>> {
    str_field(ms, key).unwrap()
}

/// The present, non-null value of an optional `u64` member.
pub open spec fn opt_u64(ms: Seq<(Seq<char>, Seq<char>)>, key: Seq<char>) -> Option<u64> {
    u64_field(ms, key).unwrap()
}

/// The request a well-typed frame's members stand for; `r` is what reading
/// them gave.
pub open spec fn inbound_from_members(ms: Seq<(Seq<char>, Seq<char>)>, r: Result<Inbound, CodecError>) -> bool {
    let t = frame_tag(ms);
    if t == "req"@ {
        if opt_u64(ms, "id"@) is Some && opt_str(ms, "method"@) is Some {
            r matches Ok(Inbound::Request { id, method, params }) && Some(id) == opt_u64(ms, "id"@)
                && Some(method@) == opt_str(ms, "method"@) && params@ == payload_of(
                raw_field(ms, "params"@),
            )
        } else {
            r == Err::<Inbound, CodecError>(CodecError::Malformed)
        }
    } else if t == "sub"@ {
        if opt_u64(ms, "id"@) is Some && opt_str(ms, "topic"@) is Some {
            r matches Ok(Inbound::Subscribe { id, topic }) && Some(id) == opt_u64(ms, "id"@) && Some(
                topic@,
            ) == opt_str(ms, "topic"@)
        } else {
            r == Err::<Inbound, CodecError>(CodecError::Malformed)
        }
    } else if t == "unsub"@ {
        if opt_str(ms, "sub"@) is Some {
            r matches Ok(Inbound::Unsubscribe { sub }) && Some(sub@) == opt_str(ms, "sub"@)
        } else {
            r == Err::<Inbound, CodecError>(CodecError::Malformed)
        }
    } else if t == "write"@ {
        if opt_str(ms, "topic"@) is Some {
            r matches Ok(Inbound::Write { topic, payload }) && Some(topic@) == opt_str(ms, "topic"@)
                && payload@ == payload_of(raw_field(ms, "payload"@))
        } else {
            r == Err::<Inbound, CodecError>(CodecError::Malformed)
        }
    } else if t == "ping"@ {
        r matches Ok(Inbound::Ping)
    } else {
        r == Err::<Inbound, CodecError>(CodecError::Malformed)
    }
}

/// The name of the frame member at position `i` of the array form, in the
/// order the fields of a frame are declared.
pub open spec fn frame_field(i: int) -> Seq<char> {
    if i == 0 {
        "t"@
    } else if i == 1 {
        "id"@
    } else if i == 2 {
        "seq"@
    } else if i == 3 {
        "method"@
    } else if i == 4 {
        "topic"@
    } else if i == 5 {
        "sub"@
    } else if i == 6 {
        "params"@
    } else if i == 7 {
        "payload"@
    } else if i == 8 {
        "data"@
    } else if i == 9 {
        "ok"@
    } else {
        "err"@
    }
}

/// The members of a frame written as a JSON array: each element names the
/// field at its position.
pub open spec fn positional_members(items: Seq<Seq<char>>) -> Seq<(Seq<char>, Seq<char>)> {
    Seq::new(items.len(), |i: int| (frame_field(i), items[i]))
}

/// The members a frame carries: those of a JSON object, or the elements of
/// a JSON array holding the tag and at most every other field, by position.
pub open spec fn frame_members(frame: Seq<u8>) -> Option<Seq<(Seq<char>, Seq<char>)>> {
    match json_object_members(frame) {
        Some(ms) => Some(ms),
        None => match json_array_items(frame) {
            Some(items) => if 1 <= items.len() <= 11 {
                Some(positional_members(items))
            } else {
                None
            },
            None => None,
        },
    }
}

/// The field name at position `i` of the array form.
fn field_name(i: usize) -> (r: &'static str)
    requires
        i < 11,
    ensures
        r@ == frame_field(i as int),
{
    if i == 0 {
        "t"
    } else if i == 1 {
        "id"
    } else if i == 2 {
        "seq"
    } else if i == 3 {
        "method"
    } else if i == 4 {
        "topic"
    } else if i == 5 {
        "sub"
    } else if i == 6 {
        "params"
    } else if i == 7 {
        "payload"
    } else if i == 8 {
        "data"
    } else if i == 9 {
        "ok"
    } else {
        "err"
    }
}

/// Names the elements of an array-form frame by position.
fn name_positions(items: Vec<String>) -> (r: Vec<(String, String)>)
    requires
        items.len() <= 11,
    ensures
        member_views(r@) == positional_members(string_views(items@)),
{
    let mut out: Vec<(String, String)> = Vec::new();
    let mut i: usize = 0;
    while i < items.len()
        invariant
            i <= items.len() <= 11,
            out@.len() == i,
            forall|k: int| 0 <= k < i ==> #[trigger] member_views(out@)[k] == positional_members(string_views(items@))[k],
        decreases items.len() - i,
    {
        let name = field_name(i).to_owned();
        let ghost before = out@;
        out.push((name, items[i].clone()));
        proof {
            assert forall|k: int| 0 <= k < i + 1 implies #[trigger] member_views(out@)[k] == positional_members(
                string_views(items@),
            )[k] by {
                if k < i {
                    assert(out@[k] == before[k]);
                    assert(member_views(before)[k] == positional_members(string_views(items@))[k]);
                }
            }
        }
        i = i + 1;
    }
    assert(member_views(out@) =~= positional_members(string_views(items@)));
    out
}

/// What decoding `frame` as a request gives.
pub open spec fn decodes_inbound(frame: Seq<u8>, r: Result<Inbound, CodecError>) -> bool {
    match frame_members(frame) {
        None => r == Err::<Inbound, CodecError>(CodecError::Malformed),
        Some(ms) => if frame_typed(ms) {
            inbound_from_members(ms, r)
        } else {
            r == Err::<Inbound, CodecError>(CodecError::Malformed)
        },
    }
}

/// The reply or event a well-typed frame's members stand for; `r` is what
/// reading them gave.
pub open spec fn outbound_from_members(ms: Seq<(Seq<char>, Seq<char>)>, r: Result<Outbound, CodecError>) -> bool {
    let t = frame_tag(ms);
    if t == "reply"@ {
        if opt_u64(ms, "id"@) is None {
            r == Err::<Outbound, CodecError>(CodecError::Malformed)
        } else if raw_field(ms, "ok"@) is Some {
            r matches Ok(Outbound::Reply { id, result }) && Some(id) == opt_u64(ms, "id"@)
                && (result matches Ok(data) && data@ == payload_of(raw_field(ms, "ok"@)))
        } else if opt_str(ms, "err"@) is Some {
            r matches Ok(Outbound::Reply { id, result }) && Some(id) == opt_u64(ms, "id"@) && result
                == Err::<Vec<u8>, RpcError>(code_error(opt_str(ms, "err"@).unwrap()))
        } else {
            r == Err::<Outbound, CodecError>(CodecError::Malformed)
        }
    } else if t == "event"@ {
        if opt_str(ms, "sub"@) is Some && opt_u64(ms, "seq"@) is Some {
            r matches Ok(Outbound::Event { sub, seq, topic, data }) && Some(sub@) == opt_str(ms, "sub"@)
                && Some(seq) == opt_u64(ms, "seq"@) && match topic {
                Some(tp) => opt_str(ms, "topic"@) == Some(tp@),
                None => opt_str(ms, "topic"@) is None,
            } && data@ == payload_of(raw_field(ms, "data"@))
        } else {
            r == Err::<Outbound, CodecError>(CodecError::Malformed)
        }
    } else if t == "snap"@ {
        if opt_str(ms, "sub"@) is Some && opt_str(ms, "topic"@) is Some {
            r matches Ok(Outbound::Snapshot { sub, topic, data }) && Some(sub@) == opt_str(ms, "sub"@)
                && Some(topic@) == opt_str(ms, "topic"@) && data@ == payload_of(
                raw_field(ms, "data"@),
            )
        } else {
            r == Err::<Outbound, CodecError>(CodecError::Malformed)
        }
    } else if t == "subscribed"@ {
        if opt_str(ms, "sub"@) is Some {
            r matches Ok(Outbound::Subscribed { sub }) && Some(sub@) == opt_str(ms, "sub"@)
        } else {
            r == Err::<Outbound, CodecError>(CodecError::Malformed)
        }
    } else if t == "pong"@ {
        r matches Ok(Outbound::Pong)
    } else {
        r == Err::<Outbound, CodecError>(CodecError::Malformed)
    }
}

/// What decoding `frame` as a reply or event gives.
pub open spec fn decodes_outbound(frame: Seq<u8>, r: Result<Outbound, CodecError>) -> bool {
    match frame_members(frame) {
        None => r == Err::<Outbound, CodecError>(CodecError::Malformed),
        Some(ms) => if frame_typed(ms) {
            outbound_from_members(ms, r)
        } else {
            r == Err::<Outbound, CodecError>(CodecError::Malformed)
        },
    }
}

/// Reads an optional string member.
fn read_str_field(ms: &Vec<(String, String)>, key: &str) -> (r: Option<Option<String>>)
    ensures
        match r {
            Some(Some(s)) => str_field(member_views(ms@), key@) == Some(Some(s@)),
            Some(None) => str_field(member_views(ms@), key@) == Some(None::<Seq<char>>),
            None => str_field(member_views(ms@), key@) is None,
        },
{
    let k = key.to_owned();
    match find_member(ms, &k) {
        None => Some(None),
        Some(i) => {
            let v = &ms[i].1;
            if is_null_text(v) {
                Some(None)
            } else {
                match read_borrowed_str(v) {
                    Some(s) => Some(Some(s)),
                    None => None,
                }
            }
        },
    }
}

/// Reads an optional `u64` member.
fn read_u64_field(ms: &Vec<(String, String)>, key: &str) -> (r: Option<Option<u64>>)
    ensures
        r == u64_field(member_views(ms@), key@),
{
    let k = key.to_owned();
    match find_member(ms, &k) {
        None => Some(None),
        Some(i) => {
            let v = &ms[i].1;
            if is_null_text(v) {
                Some(None)
            } else {
                match read_u64_literal(v) {
                    Some(n) => Some(Some(n)),
                    None => None,
                }
            }
        },
    }
}

/// Reads an optional raw-value member and hands on its bytes, `null` when
/// it is missing; also says whether it was there.
fn read_payload(ms: &Vec<(String, String)>, key: &str) -> (r: (bool, Vec<u8>))
    ensures
        r.0 == raw_field(member_views(ms@), key@) is Some,
        r.1@ == payload_of(raw_field(member_views(ms@), key@)),
{
    let k = key.to_owned();
    let present = match find_member(ms, &k) {
        None => None,
        Some(i) => {
            let v = &ms[i].1;
            if is_null_text(v) {
                None
            } else {
                Some(i)
            }
        },
    };
    match present {
        Some(i) => (true, utf8_bytes(&ms[i].1)),
        None => {
            let mut out: Vec<u8> = Vec::new();
            proof {
                reveal_strlit("null");
            }
            append_ascii(&mut out, "null");
            assert(ascii("null"@) == ascii(null_text()));
            (false, out)
        },
    }
}

/// The members every frame shares, each read for its type.
struct Members {
    t: String,
    id: Option<u64>,
    seq: Option<u64>,
    method: Option<String>,
    topic: Option<String>,
    sub: Option<String>,
    err: Option<String>,
}

/// Parses `frame` and reads its common members; `None` when the frame is
/// neither a JSON object nor an array of at least the tag and at most every
/// field, or a known member has the wrong type.
fn read_members(frame: &[u8]) -> (r: Option<(Vec<(String, String)>, Members)>)
    ensures
        match r {
            Some((ms, m)) => {
                &&& frame_members(frame@) == Some(member_views(ms@))
                &&& frame_typed(member_views(ms@))
                &&& m.t@ == frame_tag(member_views(ms@))
                &&& m.id == opt_u64(member_views(ms@), "id"@)
                &&& m.seq == opt_u64(member_views(ms@), "seq"@)
                &&& opt_view(m.method) == opt_str(member_views(ms@), "method"@)
                &&& opt_view(m.topic) == opt_str(member_views(ms@), "topic"@)
                &&& opt_view(m.sub) == opt_str(member_views(ms@), "sub"@)
                &&& opt_view(m.err) == opt_str(member_views(ms@), "err"@)
            },
            None => match frame_members(frame@) {
                None => true,
                Some(ms) => !frame_typed(ms),
            },
        },
        reads_back_written(frame@),
{
    let ms = match object_members(frame) {
        Some(ms) => ms,
        None => match array_items(frame) {
            Some(items) => {
                if items.len() < 1 || items.len() > 11 {
                    return None;
                }
                name_positions(items)
            },
            None => return None,
        },
    };
    let t = match read_str_field(&ms, "t") {
        Some(Some(t)) => t,
        _ => return None,
    };
    let id = match read_u64_field(&ms, "id") {
        Some(v) => v,
        None => return None,
    };
    let seq = match read_u64_field(&ms, "seq") {
        Some(v) => v,
        None => return None,
    };
    let method = match read_str_field(&ms, "method") {
        Some(v) => v,
        None => return None,
    };
    let topic = match read_str_field(&ms, "topic") {
        Some(v) => v,
        None => return None,
    };
    let sub = match read_str_field(&ms, "sub") {
        Some(v) => v,
        None => return None,
    };
    let err = match read_str_field(&ms, "err") {
        Some(v) => v,
        None => return None,
    };
    Some((ms, Members { t, id, seq, method, topic, sub, err }))
}

/// The character view of an optional string.
pub open spec fn opt_view(o: Option<String>) -> Option<Seq<char>> {
    match o {
        Some(s) => Some(s@),
        None => None,
    }
}

/// Whether `s` is the ASCII text `lit`.
fn is_tag(s: &String, lit: &str) -> (r: bool)
    ensures
        r == (s@ == lit@),
{
    *s == lit.to_owned()
}

/// Appends the JSON string literal for `s`.
fn append_json_string(buf: &mut Vec<u8>, s: &str) -> (r: Result<(), CodecError>)
    ensures
        r is Ok,
        final(buf)@ == old(buf)@ + json_string(s@),
        plain_text(s@) ==> json_string(s@) == quoted_utf8(s@),
{
    proof {
        if plain_text(s@) {
            lemma_plain_json_string(s@);
        }
    }
    match quote_json_string(s) {
        Ok(q) => {
            append_bytes(buf, q.as_slice());
            Ok(())
        },
        Err(_) => Err(CodecError::Malformed),
    }
}

/// Every RPC error reads back from its wire code as itself.
pub proof fn law_error_codes_read_back(e: RpcError)
    ensures
        code_error(err_code_text(e)) == e,
{
    reveal_strlit("not_found");
    reveal_strlit("denied");
    reveal_strlit("internal");
    reveal_strlit("version_mismatch");
    assert("not_found"@.len() == 9);
    assert("denied"@.len() == 6);
    assert("internal"@.len() == 8);
    assert("version_mismatch"@.len() == 16);
    match e {
        RpcError::NotFound => {},
        RpcError::Denied => {
            assert("denied"@ != "not_found"@);
        },
        RpcError::Internal => {
            assert("internal"@ != "not_found"@);
            assert("internal"@ != "denied"@);
            assert("internal"@ != "version_mismatch"@);
        },
        RpcError::VersionMismatch => {
            assert("version_mismatch"@ != "not_found"@);
            assert("version_mismatch"@ != "denied"@);
        },
    }
}

impl EnvelopeCodec for AimxCodec {
    /// Decodes a request frame (server direction).
    ///
    /// The frame is read as a JSON object of members, a repeated member
    /// keeping its last value, or as a JSON array whose elements are the
    /// frame's fields in their declared order.
    fn decode(&self, frame: &[u8]) -> (r: Result<Inbound, CodecError>)
        ensures
            decodes_inbound(frame@, r),
            forall|msg: Inbound, text: Seq<char>|
                writable_inbound(msg, text) && frame@ == encode_utf8(object_text(inbound_members(msg, text)))
                    ==> (r matches Ok(x) && same_inbound(x, msg)),
    {
        let r = read_inbound(frame);
        proof {
            assert forall|msg: Inbound, text: Seq<char>|
                writable_inbound(msg, text) && frame@ == encode_utf8(object_text(inbound_members(msg, text)))
                    implies (r matches Ok(x) && same_inbound(x, msg)) by {
                law_request_round_trip(msg, text, r);
            }
        }
        r
    }

    /// Encodes a reply or event (server direction), appending the frame to
    /// `out`; `out` is left as it was on an error.
    fn encode(&self, msg: Outbound, out: &mut Vec<u8>) -> (r: Result<(), CodecError>)
        ensures
            match outbound_frame(msg) {
                Some(bytes) => r is Ok && final(out)@ == old(out)@ + bytes,
                None => r == Err::<(), CodecError>(CodecError::Malformed) && final(out)@ == old(out)@,
            },
            forall|text: Seq<char>|
                writable_outbound(msg, text) ==> r is Ok && final(out)@ == old(out)@ + encode_utf8(
                    object_text(outbound_members(msg, text)),
                ),
    {
        let ghost m0 = msg;
        let mut buf: Vec<u8> = Vec::new();
        match msg {
            Outbound::Reply { id, result } => match result {
                Ok(data) => {
                    let raw = match raw_json_value(data.as_slice()) {
                        Some(v) => v,
                        None => return Err(CodecError::Malformed),
                    };
                    proof {
                        reveal_strlit("{\"t\":\"reply\",\"id\":");
                    }
                    append_ascii(&mut buf, "{\"t\":\"reply\",\"id\":");
                    append_decimal(&mut buf, id);
                    proof {
                        reveal_strlit(",\"ok\":");
                    }
                    append_ascii(&mut buf, ",\"ok\":");
                    append_bytes(&mut buf, raw.as_slice());
                    proof {
                        reveal_strlit("}");
                    }
                    append_ascii(&mut buf, "}");
                },
                Err(e) => {
                    proof {
                        reveal_strlit("{\"t\":\"reply\",\"id\":");
                    }
                    append_ascii(&mut buf, "{\"t\":\"reply\",\"id\":");
                    append_decimal(&mut buf, id);
                    proof {
                        reveal_strlit(",\"err\":\"");
                    }
                    append_ascii(&mut buf, ",\"err\":\"");
                    append_ascii(&mut buf, err_code(&e));
                    proof {
                        reveal_strlit("\"}");
                    }
                    append_ascii(&mut buf, "\"}");
                },
            },
            Outbound::Event { sub, seq, topic, data } => {
                let raw = match raw_json_value(data.as_slice()) {
                    Some(v) => v,
                    None => return Err(CodecError::Malformed),
                };
                proof {
                    reveal_strlit("{\"t\":\"event\",\"seq\":");
                }
                append_ascii(&mut buf, "{\"t\":\"event\",\"seq\":");
                append_decimal(&mut buf, seq);
                match topic {
                    Some(tp) => {
                        proof {
                            reveal_strlit(",\"topic\":");
                        }
                        append_ascii(&mut buf, ",\"topic\":");
                        let _ = append_json_string(&mut buf, tp.as_str());
                    },
                    None => {},
                }
                proof {
                    reveal_strlit(",\"sub\":");
                }
                append_ascii(&mut buf, ",\"sub\":");
                let _ = append_json_string(&mut buf, sub.as_str());
                proof {
                    reveal_strlit(",\"data\":");
                }
                append_ascii(&mut buf, ",\"data\":");
                append_bytes(&mut buf, raw.as_slice());
                proof {
                    reveal_strlit("}");
                }
                append_ascii(&mut buf, "}");
            },
            Outbound::Snapshot { sub, topic, data } => {
                let raw = match raw_json_value(data.as_slice()) {
                    Some(v) => v,
                    None => return Err(CodecError::Malformed),
                };
                proof {
                    reveal_strlit("{\"t\":\"snap\",\"topic\":");
                }
                append_ascii(&mut buf, "{\"t\":\"snap\",\"topic\":");
                let _ = append_json_string(&mut buf, topic.as_str());
                proof {
                    reveal_strlit(",\"sub\":");
                }
                append_ascii(&mut buf, ",\"sub\":");
                let _ = append_json_string(&mut buf, sub.as_str());
                proof {
                    reveal_strlit(",\"data\":");
                }
                append_ascii(&mut buf, ",\"data\":");
                append_bytes(&mut buf, raw.as_slice());
                proof {
                    reveal_strlit("}");
                }
                append_ascii(&mut buf, "}");
            },
            Outbound::Subscribed { sub } => {
                proof {
                    reveal_strlit("{\"t\":\"subscribed\",\"sub\":");
                }
                append_ascii(&mut buf, "{\"t\":\"subscribed\",\"sub\":");
                let _ = append_json_string(&mut buf, sub.as_str());
                proof {
                    reveal_strlit("}");
                }
                append_ascii(&mut buf, "}");
            },
            Outbound::Pong => {
                proof {
                    reveal_strlit("{\"t\":\"pong\"}");
                }
                append_ascii(&mut buf, "{\"t\":\"pong\"}");
            },
        }
        proof {
            assert forall|text: Seq<char>| writable_outbound(m0, text) implies outbound_frame(m0) == Some(
                encode_utf8(object_text(outbound_members(m0, text))),
            ) by {
                lemma_reply_frame_text(m0, text);
            }
        }
        append_bytes(out, buf.as_slice());
        Ok(())
    }

    /// Encodes a request (client direction), appending the frame to `out`;
    /// `out` is left as it was on an error.
    fn encode_inbound(&self, msg: Inbound, out: &mut Vec<u8>) -> (r: Result<(), CodecError>)
        ensures
            match inbound_frame(msg) {
                Some(bytes) => r is Ok && final(out)@ == old(out)@ + bytes,
                None => r == Err::<(), CodecError>(CodecError::Malformed) && final(out)@ == old(out)@,
            },
            forall|text: Seq<char>|
                writable_inbound(msg, text) ==> r is Ok && final(out)@ == old(out)@ + encode_utf8(
                    object_text(inbound_members(msg, text)),
                ),
    {
        let ghost m0 = msg;
        let mut buf: Vec<u8> = Vec::new();
        match msg {
            Inbound::Request { id, method, params } => {
                let raw = match raw_json_value(params.as_slice()) {
                    Some(v) => v,
                    None => return Err(CodecError::Malformed),
                };
                proof {
                    reveal_strlit("{\"t\":\"req\",\"id\":");
                }
                append_ascii(&mut buf, "{\"t\":\"req\",\"id\":");
                append_decimal(&mut buf, id);
                proof {
                    reveal_strlit(",\"method\":");
                }
                append_ascii(&mut buf, ",\"method\":");
                let _ = append_json_string(&mut buf, method.as_str());
                proof {
                    reveal_strlit(",\"params\":");
                }
                append_ascii(&mut buf, ",\"params\":");
                append_bytes(&mut buf, raw.as_slice());
                proof {
                    reveal_strlit("}");
                }
                append_ascii(&mut buf, "}");
            },
            Inbound::Subscribe { id, topic } => {
                proof {
                    reveal_strlit("{\"t\":\"sub\",\"id\":");
                }
                append_ascii(&mut buf, "{\"t\":\"sub\",\"id\":");
                append_decimal(&mut buf, id);
                proof {
                    reveal_strlit(",\"topic\":");
                }
                append_ascii(&mut buf, ",\"topic\":");
                let _ = append_json_string(&mut buf, topic.as_str());
                proof {
                    reveal_strlit("}");
                }
                append_ascii(&mut buf, "}");
            },
            Inbound::Unsubscribe { sub } => {
                proof {
                    reveal_strlit("{\"t\":\"unsub\",\"sub\":");
                }
                append_ascii(&mut buf, "{\"t\":\"unsub\",\"sub\":");
                let _ = append_json_string(&mut buf, sub.as_str());
                proof {
                    reveal_strlit("}");
                }
                append_ascii(&mut buf, "}");
            },
            Inbound::Write { topic, payload } => {
                let raw = match raw_json_value(payload.as_slice()) {
                    Some(v) => v,
                    None => return Err(CodecError::Malformed),
                };
                proof {
                    reveal_strlit("{\"t\":\"write\",\"topic\":");
                }
                append_ascii(&mut buf, "{\"t\":\"write\",\"topic\":");
                let _ = append_json_string(&mut buf, topic.as_str());
                proof {
                    reveal_strlit(",\"payload\":");
                }
                append_ascii(&mut buf, ",\"payload\":");
                append_bytes(&mut buf, raw.as_slice());
                proof {
                    reveal_strlit("}");
                }
                append_ascii(&mut buf, "}");
            },
            Inbound::Ping => {
                proof {
                    reveal_strlit("{\"t\":\"ping\"}");
                }
                append_ascii(&mut buf, "{\"t\":\"ping\"}");
            },
        }
        proof {
            assert forall|text: Seq<char>| writable_inbound(m0, text) implies inbound_frame(m0) == Some(
                encode_utf8(object_text(inbound_members(m0, text))),
            ) by {
                lemma_request_frame_text(m0, text);
            }
        }
        append_bytes(out, buf.as_slice());
        Ok(())
    }

    /// Decodes a reply or event frame (client direction).
    ///
    /// The frame is read as for [`decode`](Self::decode). A reply carries
    /// its value under `ok`, or failing that an error code under `err`.
    fn decode_outbound(&self, frame: &[u8]) -> (r: Result<Outbound, CodecError>)
        ensures
            decodes_outbound(frame@, r),
            forall|msg: Outbound, text: Seq<char>|
                writable_outbound(msg, text) && !(msg matches Outbound::Reply { result: Ok(_), .. } && text
                    == null_text()) && frame@ == encode_utf8(object_text(outbound_members(msg, text)))
                    ==> (r matches Ok(x) && same_outbound(x, msg)),
    {
        let r = read_outbound(frame);
        proof {
            assert forall|msg: Outbound, text: Seq<char>|
                writable_outbound(msg, text) && !(msg matches Outbound::Reply { result: Ok(_), .. } && text
                    == null_text()) && frame@ == encode_utf8(object_text(outbound_members(msg, text)))
                    implies (r matches Ok(x) && same_outbound(x, msg)) by {
                law_reply_round_trip(msg, text, r);
            }
        }
        r
    }
}

/// Reads a request frame as a JSON object of members.
fn read_inbound(frame: &[u8]) -> (r: Result<Inbound, CodecError>)
    ensures
        decodes_inbound(frame@, r),
        reads_back_written(frame@),
{
    let (ms, m) = match read_members(frame) {
        Some(p) => p,
        None => return Err(CodecError::Malformed),
    };
    if is_tag(&m.t, "req") {
        match (m.id, m.method) {
            (Some(id), Some(method)) => {
                let (_, params) = read_payload(&ms, "params");
                Ok(Inbound::Request { id, method, params })
            },
            _ => Err(CodecError::Malformed),
        }
    } else if is_tag(&m.t, "sub") {
        match (m.id, m.topic) {
            (Some(id), Some(topic)) => Ok(Inbound::Subscribe { id, topic }),
            _ => Err(CodecError::Malformed),
        }
    } else if is_tag(&m.t, "unsub") {
        match m.sub {
            Some(sub) => Ok(Inbound::Unsubscribe { sub }),
            None => Err(CodecError::Malformed),
        }
    } else if is_tag(&m.t, "write") {
        match m.topic {
            Some(topic) => {
                let (_, payload) = read_payload(&ms, "payload");
                Ok(Inbound::Write { topic, payload })
            },
            None => Err(CodecError::Malformed),
        }
    } else if is_tag(&m.t, "ping") {
        Ok(Inbound::Ping)
    } else {
        Err(CodecError::Malformed)
    }
}

/// Reads a reply or event frame: the frame is read as for a request, and a
/// reply carries its value under `ok`, or failing that an error code under
/// `err`.
fn read_outbound(frame: &[u8]) -> (r: Result<Outbound, CodecError>)
    ensures
        decodes_outbound(frame@, r),
        reads_back_written(frame@),
{
    let (ms, m) = match read_members(frame) {
        Some(p) => p,
        None => return Err(CodecError::Malformed),
    };
    if is_tag(&m.t, "reply") {
        let id = match m.id {
            Some(id) => id,
            None => return Err(CodecError::Malformed),
        };
        let (has_ok, ok) = read_payload(&ms, "ok");
        if has_ok {
            Ok(Outbound::Reply { id, result: Ok(ok) })
        } else {
            match m.err {
                Some(code) => Ok(Outbound::Reply { id, result: Err(code_err(code.as_str())) }),
                None => Err(CodecError::Malformed),
            }
        }
    } else if is_tag(&m.t, "event") {
        match (m.sub, m.seq) {
            (Some(sub), Some(seq)) => {
                let (_, data) = read_payload(&ms, "data");
                Ok(Outbound::Event { sub, seq, topic: m.topic, data })
            },
            _ => Err(CodecError::Malformed),
        }
    } else if is_tag(&m.t, "snap") {
        match (m.sub, m.topic) {
            (Some(sub), Some(topic)) => {
                let (_, data) = read_payload(&ms, "data");
                Ok(Outbound::Snapshot { sub, topic, data })
            },
            _ => Err(CodecError::Malformed),
        }
    } else if is_tag(&m.t, "subscribed") {
        match m.sub {
            Some(sub) => Ok(Outbound::Subscribed { sub }),
            None => Err(CodecError::Malformed),
        }
    } else if is_tag(&m.t, "pong") {
        Ok(Outbound::Pong)
    } else {
        Err(CodecError::Malformed)
    }
}

} // verus!
