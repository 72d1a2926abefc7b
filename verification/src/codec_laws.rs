//! What the codec writes is the JSON object of a message's members, and
//! reading that object back gives the message again.
//!
//! A frame is written as `{"k1":v1,...}`: each member's key in quotes, a
//! colon, and its JSON text. Reading a frame starts from its members (the
//! parse itself is `serde_json`'s); these laws show that the members a
//! request, reply or event is written with read back as the same message,
//! and so that decoding the frame written for a message gives the message.

use vstd::prelude::*;
use vstd::utf8::{encode_utf8, is_ascii_chars};

use crate::client::decimal_text;
use crate::codec::{
    decodes_inbound, decodes_outbound, err_code_text, frame_tag, frame_typed, inbound_frame, inbound_from_members,
    law_error_codes_read_back, opt_str, opt_u64, outbound_frame, outbound_from_members,
};
use crate::json::{
    ascii, borrowed_str, decimal_bytes, json_object_members, json_raw_value, json_string, lookup, null_text, payload_of,
    plain_text, quoted_utf8, raw_field, u64_literal,
};
use crate::session::{CodecError, Inbound, Outbound, RpcError};
use crate::text::{all_digits, decimal_value, digit_value, is_digit};

verus! {

broadcast use vstd::seq_lib::group_seq_properties;

/// A text between quotes.
pub open spec fn quote_chars(s: Seq<char>) -> Seq<char> {
    seq!['"'] + s + seq!['"']
}

/// One member of a JSON object: the quoted key, a colon, the value's text.
pub open spec fn member_text(m: (Seq<char>, Seq<char>)) -> Seq<char> {
    quote_chars(m.0) + seq![':'] + m.1
}

/// The members of a JSON object, separated by commas.
pub open spec fn members_text(ms: Seq<(Seq<char>, Seq<char>)>) -> Seq<char>
    decreases ms.len(),
{
    if ms.len() == 0 {
        Seq::empty()
    } else if ms.len() == 1 {
        member_text(ms[0])
    } else {
        member_text(ms[0]) + seq![','] + members_text(ms.drop_first())
    }
}

/// The JSON object text of a member list.
pub open spec fn object_text(ms: Seq<(Seq<char>, Seq<char>)>) -> Seq<char> {
    seq!['{'] + members_text(ms) + seq!['}']
}

/// The members a request is written with; `text` is the JSON text of its
/// value, if it has one.
pub open spec fn inbound_members(m: Inbound, text: Seq<char>) -> Seq<(Seq<char>, Seq<char>)> {
    match m {
        Inbound::Request { id, method, params } => seq![
            ("t"@, quote_chars("req"@)),
            ("id"@, decimal_text(id as nat)),
            ("method"@, quote_chars(method@)),
            ("params"@, text),
        ],
        Inbound::Subscribe { id, topic } => seq![
            ("t"@, quote_chars("sub"@)),
            ("id"@, decimal_text(id as nat)),
            ("topic"@, quote_chars(topic@)),
        ],
        Inbound::Unsubscribe { sub } => seq![("t"@, quote_chars("unsub"@)), ("sub"@, quote_chars(sub@))],
        Inbound::Write { topic, payload } => seq![
            ("t"@, quote_chars("write"@)),
            ("topic"@, quote_chars(topic@)),
            ("payload"@, text),
        ],
        Inbound::Ping => seq![("t"@, quote_chars("ping"@))],
    }
}

/// The request's strings need no escaping, and its value (if any) is the
/// JSON text `text` exactly, as one JSON value.
pub open spec fn writable_inbound(m: Inbound, text: Seq<char>) -> bool {
    match m {
        Inbound::Request { id, method, params } => plain_text(method@) && encode_utf8(text) == params@
            && json_raw_value(params@) == Some(params@),
        Inbound::Subscribe { id, topic } => plain_text(topic@),
        Inbound::Unsubscribe { sub } => plain_text(sub@),
        Inbound::Write { topic, payload } => plain_text(topic@) && encode_utf8(text) == payload@
            && json_raw_value(payload@) == Some(payload@),
        Inbound::Ping => true,
    }
}

/// Two requests carry the same values.
pub open spec fn same_inbound(a: Inbound, b: Inbound) -> bool {
    match (a, b) {
        (Inbound::Request { id: i1, method: m1, params: p1 }, Inbound::Request { id: i2, method: m2, params: p2 }) => i1
            == i2 && m1@ == m2@ && p1@ == p2@,
        (Inbound::Subscribe { id: i1, topic: t1 }, Inbound::Subscribe { id: i2, topic: t2 }) => i1 == i2
            && t1@ == t2@,
        (Inbound::Unsubscribe { sub: s1 }, Inbound::Unsubscribe { sub: s2 }) => s1@ == s2@,
        (Inbound::Write { topic: t1, payload: p1 }, Inbound::Write { topic: t2, payload: p2 }) => t1@
            == t2@ && p1@ == p2@,
        (Inbound::Ping, Inbound::Ping) => true,
        _ => false,
    }
}

/// UTF-8 encoding distributes over concatenation.
pub proof fn lemma_encode_utf8_concat(a: Seq<char>, b: Seq<char>)
    ensures
        encode_utf8(a + b) == encode_utf8(a) + encode_utf8(b),
    decreases a.len(),
{
    if a.len() == 0 {
        assert(a + b =~= b);
    } else {
        assert((a + b).drop_first() =~= a.drop_first() + b);
        assert((a + b)[0] == a[0]);
        lemma_encode_utf8_concat(a.drop_first(), b);
    }
}

/// The UTF-8 encoding of ASCII characters is their bytes.
pub proof fn lemma_ascii_encoding(s: Seq<char>)
    requires
        is_ascii_chars(s),
    ensures
        encode_utf8(s) == ascii(s),
{
    vstd::utf8::is_ascii_chars_encode_utf8(s);
    assert(encode_utf8(s) =~= ascii(s));
}

/// The decimal text of a number is a run of digits whose value is the
/// number, and its UTF-8 encoding is its decimal bytes.
pub proof fn lemma_decimal_text(n: nat)
    ensures
        decimal_text(n).len() > 0,
        all_digits(decimal_text(n)),
        decimal_value(decimal_text(n)) == n,
        is_ascii_chars(decimal_text(n)),
        encode_utf8(decimal_text(n)) == decimal_bytes(n),
        decimal_text(n)[0] != 'n' && decimal_text(n)[0] != '"',
        n > 0 ==> decimal_text(n)[0] != '0',
    decreases n,
{
    if n < 10 {
        let c = ((n + 48) as u8) as char;
        assert(decimal_text(n) =~= seq![c]);
        assert(seq![c].drop_last() =~= Seq::<char>::empty());
        assert(decimal_value(Seq::<char>::empty()) == 0);
        assert(digit_value(c) == n);
        assert(decimal_value(seq![c]) == decimal_value(seq![c].drop_last()) * 10 + digit_value(seq![c].last()));
        lemma_ascii_encoding(decimal_text(n));
    } else {
        lemma_decimal_text(n / 10);
        let head = decimal_text(n / 10);
        let c = (((n % 10) + 48) as u8) as char;
        let t = head.push(c);
        assert(t.drop_last() =~= head);
        assert(t[0] == head[0]);
        assert forall|i: int| 0 <= i < t.len() implies is_digit(#[trigger] t[i]) by {
            if i < head.len() {
                assert(t[i] == head[i]);
            }
        }
        assert(decimal_value(t) == decimal_value(head) * 10 + digit_value(c));
        assert(digit_value(c) == n % 10);
        assert((n / 10) * 10 + n % 10 == n) by (nonlinear_arith);
        assert(is_ascii_chars(t)) by {
            assert forall|i: int| 0 <= i < t.len() implies '\0' <= #[trigger] t[i] <= '\u{7f}' by {
                if i < head.len() {
                    assert(t[i] == head[i]);
                }
            }
        }
        lemma_ascii_encoding(t);
        lemma_ascii_encoding(head);
        assert(ascii(t) =~= ascii(head).push(((n % 10) + 48) as u8));
    }
}

/// A quoted text without backslashes reads back as itself.
pub proof fn lemma_quote_reads_back(s: Seq<char>)
    requires
        !s.contains('\\'),
    ensures
        borrowed_str(quote_chars(s)) == Some(s),
        quote_chars(s) != null_text(),
{
    let q = quote_chars(s);
    assert(q.subrange(1, q.len() - 1) =~= s);
    assert(q[0] == '"');
}

/// A plain text has no backslash.
pub proof fn lemma_plain_no_backslash(s: Seq<char>)
    requires
        plain_text(s),
    ensures
        !s.contains('\\'),
{
    if s.contains('\\') {
        let i = choose|i: int| 0 <= i < s.len() && s[i] == '\\';
        assert(s[i] != '\\');
    }
}

/// The key texts of the frame members, told apart.
proof fn lemma_keys_distinct()
    ensures
        "t"@ != "id"@, "t"@ != "seq"@, "t"@ != "method"@, "t"@ != "topic"@, "t"@ != "sub"@,
        "t"@ != "err"@, "t"@ != "params"@, "t"@ != "payload"@,
        "id"@ != "seq"@, "id"@ != "method"@, "id"@ != "topic"@, "id"@ != "sub"@, "id"@ != "err"@,
        "id"@ != "params"@, "id"@ != "payload"@,
        "method"@ != "seq"@, "method"@ != "topic"@, "method"@ != "sub"@, "method"@ != "err"@,
        "method"@ != "params"@, "method"@ != "payload"@,
        "topic"@ != "seq"@, "topic"@ != "sub"@, "topic"@ != "err"@, "topic"@ != "payload"@,
        "sub"@ != "seq"@, "sub"@ != "err"@,
        "params"@ != "seq"@, "params"@ != "topic"@, "params"@ != "sub"@, "params"@ != "err"@,
        "payload"@ != "seq"@, "payload"@ != "sub"@, "payload"@ != "err"@,
        "req"@ != "sub"@, "req"@ != "unsub"@, "req"@ != "write"@, "req"@ != "ping"@,
        "sub"@ != "unsub"@, "sub"@ != "write"@, "sub"@ != "ping"@,
        "unsub"@ != "write"@, "unsub"@ != "ping"@, "write"@ != "ping"@,
        !"req"@.contains('\\'), !"sub"@.contains('\\'), !"unsub"@.contains('\\'),
        !"write"@.contains('\\'), !"ping"@.contains('\\'),
{
    reveal_strlit("t");
    reveal_strlit("id");
    reveal_strlit("seq");
    reveal_strlit("method");
    reveal_strlit("topic");
    reveal_strlit("sub");
    reveal_strlit("err");
    reveal_strlit("params");
    reveal_strlit("payload");
    reveal_strlit("req");
    reveal_strlit("unsub");
    reveal_strlit("write");
    reveal_strlit("ping");
    assert("t"@.len() == 1 && "id"@.len() == 2 && "seq"@.len() == 3 && "sub"@.len() == 3);
    assert("err"@.len() == 3 && "req"@.len() == 3 && "method"@.len() == 6 && "topic"@.len() == 5);
    assert("params"@.len() == 6 && "payload"@.len() == 7 && "unsub"@.len() == 5);
    assert("write"@.len() == 5 && "ping"@.len() == 4);
    assert("sub"@[0] != "seq"@[1] || "sub"@ != "seq"@);
    assert("sub"@[1] == 'u' && "seq"@[1] == 'e');
    assert("sub"@[0] == 's' && "err"@[0] == 'e' && "req"@[0] == 'r');
    assert("method"@[0] == 'm' && "params"@[0] == 'p');
    assert("topic"@[0] == 't' && "unsub"@[0] == 'u' && "write"@[0] == 'w');
    assert(!"req"@.contains('\\')) by {
        if "req"@.contains('\\') {
            let i = choose|i: int| 0 <= i < 3 && "req"@[i] == '\\';
        }
    }
    assert(!"sub"@.contains('\\')) by {
        if "sub"@.contains('\\') {
            let i = choose|i: int| 0 <= i < 3 && "sub"@[i] == '\\';
        }
    }
    assert(!"unsub"@.contains('\\')) by {
        if "unsub"@.contains('\\') {
            let i = choose|i: int| 0 <= i < 5 && "unsub"@[i] == '\\';
        }
    }
    assert(!"write"@.contains('\\')) by {
        if "write"@.contains('\\') {
            let i = choose|i: int| 0 <= i < 5 && "write"@[i] == '\\';
        }
    }
    assert(!"ping"@.contains('\\')) by {
        if "ping"@.contains('\\') {
            let i = choose|i: int| 0 <= i < 4 && "ping"@[i] == '\\';
        }
    }
}

/// A value's JSON text carried as a member reads back as the same bytes.
proof fn lemma_payload_reads_back(v: Option<Seq<char>>, text: Seq<char>)
    requires
        v == Some(text),
    ensures
        payload_of(if text == null_text() { None } else { v }) == encode_utf8(text),
{
    if text == null_text() {
        assert(is_ascii_chars(null_text()));
        lemma_ascii_encoding(null_text());
    }
}

/// Reading back the members a request is written with gives the request:
/// any member list that maps each key as the written members do is well
/// typed and reads as a request with the same values.
pub proof fn law_request_members_read_back(m: Inbound, text: Seq<char>, ms: Seq<(Seq<char>, Seq<char>)>)
    requires
        writable_inbound(m, text),
        forall|k: Seq<char>| #[trigger] lookup(ms, k) == lookup(inbound_members(m, text), k),
    ensures
        frame_typed(ms),
        forall|r: Result<Inbound, CodecError>|
            inbound_from_members(ms, r) ==> (r matches Ok(x) && same_inbound(x, m)),
{
    lemma_keys_distinct();
    reveal_with_fuel(lookup, 6);
    let mv = inbound_members(m, text);
    assert(lookup(ms, "t"@) == lookup(mv, "t"@));
    assert(lookup(ms, "id"@) == lookup(mv, "id"@));
    assert(lookup(ms, "seq"@) == lookup(mv, "seq"@));
    assert(lookup(ms, "method"@) == lookup(mv, "method"@));
    assert(lookup(ms, "topic"@) == lookup(mv, "topic"@));
    assert(lookup(ms, "sub"@) == lookup(mv, "sub"@));
    assert(lookup(ms, "err"@) == lookup(mv, "err"@));
    assert(lookup(ms, "params"@) == lookup(mv, "params"@));
    assert(lookup(ms, "payload"@) == lookup(mv, "payload"@));
    match m {
        Inbound::Request { id, method, params } => {
            lemma_quote_reads_back("req"@);
            lemma_plain_no_backslash(method@);
            lemma_quote_reads_back(method@);
            lemma_decimal_text(id as nat);
            assert(u64_literal(decimal_text(id as nat)) == Some(id));
            assert(decimal_text(id as nat) != null_text());
            assert(frame_tag(ms) == "req"@);
            assert(opt_u64(ms, "id"@) == Some(id));
            assert(opt_str(ms, "method"@) == Some(method@));
            lemma_payload_reads_back(lookup(ms, "params"@), text);
            assert(payload_of(raw_field(ms, "params"@)) == params@);
        },
        Inbound::Subscribe { id, topic } => {
            lemma_quote_reads_back("sub"@);
            lemma_plain_no_backslash(topic@);
            lemma_quote_reads_back(topic@);
            lemma_decimal_text(id as nat);
            assert(u64_literal(decimal_text(id as nat)) == Some(id));
            assert(decimal_text(id as nat) != null_text());
            assert(frame_tag(ms) == "sub"@);
            assert(opt_u64(ms, "id"@) == Some(id));
            assert(opt_str(ms, "topic"@) == Some(topic@));
        },
        Inbound::Unsubscribe { sub } => {
            lemma_quote_reads_back("unsub"@);
            lemma_plain_no_backslash(sub@);
            lemma_quote_reads_back(sub@);
            assert(frame_tag(ms) == "unsub"@);
            assert(opt_str(ms, "sub"@) == Some(sub@));
        },
        Inbound::Write { topic, payload } => {
            lemma_quote_reads_back("write"@);
            lemma_plain_no_backslash(topic@);
            lemma_quote_reads_back(topic@);
            assert(frame_tag(ms) == "write"@);
            assert(opt_str(ms, "topic"@) == Some(topic@));
            lemma_payload_reads_back(lookup(ms, "payload"@), text);
            assert(payload_of(raw_field(ms, "payload"@)) == payload@);
        },
        Inbound::Ping => {
            lemma_quote_reads_back("ping"@);
            assert(frame_tag(ms) == "ping"@);
        },
    }
}

/// The bytes of a quoted text.
proof fn lemma_quote_bytes(s: Seq<char>)
    ensures
        encode_utf8(quote_chars(s)) == quoted_utf8(s),
{
    let q = seq!['"'];
    lemma_encode_utf8_concat(q + s, q);
    lemma_encode_utf8_concat(q, s);
    lemma_ascii_encoding(q);
    assert(ascii(q) =~= seq![34u8]);
}

/// The bytes of one member: the quoted key, a colon, the value's bytes.
proof fn lemma_member_bytes(k: Seq<char>, v: Seq<char>)
    ensures
        encode_utf8(member_text((k, v))) == quoted_utf8(k) + seq![58u8] + encode_utf8(v),
{
    let c = seq![':'];
    lemma_encode_utf8_concat(quote_chars(k) + c, v);
    lemma_encode_utf8_concat(quote_chars(k), c);
    lemma_quote_bytes(k);
    lemma_ascii_encoding(c);
    assert(ascii(c) =~= seq![58u8]);
}

/// The bytes of an object's text.
proof fn lemma_members_bytes(ms: Seq<(Seq<char>, Seq<char>)>)
    ensures
        encode_utf8(object_text(ms)) == seq![123u8] + members_bytes(ms) + seq![125u8],
    decreases ms.len(),
{
    lemma_members_text_bytes(ms);
    let o = seq!['{'];
    let c = seq!['}'];
    lemma_encode_utf8_concat(o + members_text(ms), c);
    lemma_encode_utf8_concat(o, members_text(ms));
    lemma_ascii_encoding(o);
    lemma_ascii_encoding(c);
    assert(ascii(o) =~= seq![123u8]);
    assert(ascii(c) =~= seq![125u8]);
}

/// The bytes of the members, comma separated.
pub open spec fn members_bytes(ms: Seq<(Seq<char>, Seq<char>)>) -> Seq<u8>
    decreases ms.len(),
{
    if ms.len() == 0 {
        Seq::empty()
    } else if ms.len() == 1 {
        quoted_utf8(ms[0].0) + seq![58u8] + encode_utf8(ms[0].1)
    } else {
        quoted_utf8(ms[0].0) + seq![58u8] + encode_utf8(ms[0].1) + seq![44u8] + members_bytes(ms.drop_first())
    }
}

proof fn lemma_members_text_bytes(ms: Seq<(Seq<char>, Seq<char>)>)
    ensures
        encode_utf8(members_text(ms)) == members_bytes(ms),
    decreases ms.len(),
{
    if ms.len() == 0 {
    } else if ms.len() == 1 {
        lemma_member_bytes(ms[0].0, ms[0].1);
    } else {
        lemma_members_text_bytes(ms.drop_first());
        lemma_member_bytes(ms[0].0, ms[0].1);
        let c = seq![','];
        lemma_encode_utf8_concat(member_text(ms[0]) + c, members_text(ms.drop_first()));
        lemma_encode_utf8_concat(member_text(ms[0]), c);
        lemma_ascii_encoding(c);
        assert(ascii(c) =~= seq![44u8]);
    }
}

/// The bytes of an ASCII text, written out.
proof fn lemma_ascii_quoted(s: Seq<char>)
    requires
        is_ascii_chars(s),
    ensures
        quoted_utf8(s) == seq![34u8] + ascii(s) + seq![34u8],
{
    lemma_ascii_encoding(s);
}

proof fn lemma_frame_text_request(id: u64, method: Seq<char>, text: Seq<char>)
    ensures
        ascii("{\"t\":\"req\",\"id\":"@) + decimal_bytes(id as nat) + ascii(",\"method\":"@) + quoted_utf8(method)
            + ascii(",\"params\":"@) + encode_utf8(text) + ascii("}"@) == encode_utf8(
            object_text(seq![("t"@, quote_chars("req"@)), ("id"@, decimal_text(id as nat)), ("method"@, quote_chars(method)), ("params"@, text)]),
        ),
{
    let ms = seq![("t"@, quote_chars("req"@)), ("id"@, decimal_text(id as nat)), ("method"@, quote_chars(method)), ("params"@, text)];
    lemma_members_bytes(ms);
    reveal_with_fuel(members_bytes, 5);
    reveal_strlit("t");
    reveal_strlit("id");
    reveal_strlit("method");
    reveal_strlit("topic");
    reveal_strlit("sub");
    reveal_strlit("params");
    reveal_strlit("payload");
    reveal_strlit("req");
    reveal_strlit("unsub");
    reveal_strlit("write");
    reveal_strlit("ping");
    lemma_decimal_text(id as nat);
    lemma_ascii_quoted("t"@);
    lemma_ascii_quoted("id"@);
    lemma_ascii_quoted("method"@);
    lemma_ascii_quoted("params"@);
    lemma_ascii_quoted("req"@);
    lemma_quote_bytes("req"@);
    lemma_quote_bytes(method);
    reveal_strlit("{\"t\":\"req\",\"id\":");
    reveal_strlit(",\"method\":");
    reveal_strlit(",\"params\":");
    reveal_strlit("}");
    assert(ascii("{\"t\":\"req\",\"id\":"@) =~= seq![123u8] + quoted_utf8("t"@) + seq![58u8] + quoted_utf8("req"@) + seq![44u8]
        + quoted_utf8("id"@) + seq![58u8]);
    assert(ascii(",\"method\":"@) =~= seq![44u8] + quoted_utf8("method"@) + seq![58u8]);
    assert(ascii(",\"params\":"@) =~= seq![44u8] + quoted_utf8("params"@) + seq![58u8]);
    assert(ascii("}"@) =~= seq![125u8]);
}

proof fn lemma_frame_text_subscribe(id: u64, topic: Seq<char>)
    ensures
        ascii("{\"t\":\"sub\",\"id\":"@) + decimal_bytes(id as nat) + ascii(",\"topic\":"@) + quoted_utf8(topic)
            + ascii("}"@) == encode_utf8(
            object_text(seq![("t"@, quote_chars("sub"@)), ("id"@, decimal_text(id as nat)), ("topic"@, quote_chars(topic))]),
        ),
{
    let ms = seq![("t"@, quote_chars("sub"@)), ("id"@, decimal_text(id as nat)), ("topic"@, quote_chars(topic))];
    lemma_members_bytes(ms);
    reveal_with_fuel(members_bytes, 5);
    reveal_strlit("t");
    reveal_strlit("id");
    reveal_strlit("method");
    reveal_strlit("topic");
    reveal_strlit("sub");
    reveal_strlit("params");
    reveal_strlit("payload");
    reveal_strlit("req");
    reveal_strlit("unsub");
    reveal_strlit("write");
    reveal_strlit("ping");
    lemma_decimal_text(id as nat);
    lemma_ascii_quoted("t"@);
    lemma_ascii_quoted("id"@);
    lemma_ascii_quoted("topic"@);
    lemma_ascii_quoted("sub"@);
    lemma_quote_bytes("sub"@);
    lemma_quote_bytes(topic);
    reveal_strlit("{\"t\":\"sub\",\"id\":");
    reveal_strlit(",\"topic\":");
    reveal_strlit("}");
    assert(ascii("{\"t\":\"sub\",\"id\":"@) =~= seq![123u8] + quoted_utf8("t"@) + seq![58u8] + quoted_utf8("sub"@)
        + seq![44u8] + quoted_utf8("id"@) + seq![58u8]);
    assert(ascii(",\"topic\":"@) =~= seq![44u8] + quoted_utf8("topic"@) + seq![58u8]);
    assert(ascii("}"@) =~= seq![125u8]);
}

proof fn lemma_frame_text_unsubscribe(sub: Seq<char>)
    ensures
        ascii("{\"t\":\"unsub\",\"sub\":"@) + quoted_utf8(sub) + ascii("}"@) == encode_utf8(
            object_text(seq![("t"@, quote_chars("unsub"@)), ("sub"@, quote_chars(sub))]),
        ),
{
    let ms = seq![("t"@, quote_chars("unsub"@)), ("sub"@, quote_chars(sub))];
    lemma_members_bytes(ms);
    reveal_with_fuel(members_bytes, 5);
    reveal_strlit("t");
    reveal_strlit("id");
    reveal_strlit("method");
    reveal_strlit("topic");
    reveal_strlit("sub");
    reveal_strlit("params");
    reveal_strlit("payload");
    reveal_strlit("req");
    reveal_strlit("unsub");
    reveal_strlit("write");
    reveal_strlit("ping");
    lemma_ascii_quoted("t"@);
    lemma_ascii_quoted("sub"@);
    lemma_ascii_quoted("unsub"@);
    lemma_quote_bytes("unsub"@);
    lemma_quote_bytes(sub);
    reveal_strlit("{\"t\":\"unsub\",\"sub\":");
    reveal_strlit("}");
    assert(ascii("{\"t\":\"unsub\",\"sub\":"@) =~= seq![123u8] + quoted_utf8("t"@) + seq![58u8]
        + quoted_utf8("unsub"@) + seq![44u8] + quoted_utf8("sub"@) + seq![58u8]);
    assert(ascii("}"@) =~= seq![125u8]);
}

proof fn lemma_frame_text_write(topic: Seq<char>, text: Seq<char>)
    ensures
        ascii("{\"t\":\"write\",\"topic\":"@) + quoted_utf8(topic) + ascii(",\"payload\":"@) + encode_utf8(text)
            + ascii("}"@) == encode_utf8(
            object_text(seq![("t"@, quote_chars("write"@)), ("topic"@, quote_chars(topic)), ("payload"@, text)]),
        ),
{
    let ms = seq![("t"@, quote_chars("write"@)), ("topic"@, quote_chars(topic)), ("payload"@, text)];
    lemma_members_bytes(ms);
    reveal_with_fuel(members_bytes, 5);
    reveal_strlit("t");
    reveal_strlit("id");
    reveal_strlit("method");
    reveal_strlit("topic");
    reveal_strlit("sub");
    reveal_strlit("params");
    reveal_strlit("payload");
    reveal_strlit("req");
    reveal_strlit("unsub");
    reveal_strlit("write");
    reveal_strlit("ping");
    lemma_ascii_quoted("t"@);
    lemma_ascii_quoted("topic"@);
    lemma_ascii_quoted("payload"@);
    lemma_ascii_quoted("write"@);
    lemma_quote_bytes("write"@);
    lemma_quote_bytes(topic);
    reveal_strlit("{\"t\":\"write\",\"topic\":");
    reveal_strlit(",\"payload\":");
    reveal_strlit("}");
    assert(ascii("{\"t\":\"write\",\"topic\":"@) =~= seq![123u8] + quoted_utf8("t"@) + seq![58u8]
        + quoted_utf8("write"@) + seq![44u8] + quoted_utf8("topic"@) + seq![58u8]);
    assert(ascii(",\"payload\":"@) =~= seq![44u8] + quoted_utf8("payload"@) + seq![58u8]);
    assert(ascii("}"@) =~= seq![125u8]);
}

proof fn lemma_frame_text_ping()
    ensures
        ascii("{\"t\":\"ping\"}"@) == encode_utf8(object_text(seq![("t"@, quote_chars("ping"@))])),
{
    let ms = seq![("t"@, quote_chars("ping"@))];
    lemma_members_bytes(ms);
    reveal_with_fuel(members_bytes, 5);
    reveal_strlit("t");
    reveal_strlit("id");
    reveal_strlit("method");
    reveal_strlit("topic");
    reveal_strlit("sub");
    reveal_strlit("params");
    reveal_strlit("payload");
    reveal_strlit("req");
    reveal_strlit("unsub");
    reveal_strlit("write");
    reveal_strlit("ping");
    lemma_ascii_quoted("t"@);
    lemma_ascii_quoted("ping"@);
    lemma_quote_bytes("ping"@);
    reveal_strlit("{\"t\":\"ping\"}");
    assert(ascii("{\"t\":\"ping\"}"@) =~= seq![123u8] + quoted_utf8("t"@) + seq![58u8] + quoted_utf8("ping"@)
        + seq![125u8]);
}

/// What the request codec writes for a request whose strings need no
/// escaping is the JSON object text of the members it is written with.
pub proof fn lemma_request_frame_text(m: Inbound, text: Seq<char>)
    requires
        writable_inbound(m, text),
        match m {
            Inbound::Request { method, .. } => json_string(method@) == quoted_utf8(method@),
            Inbound::Subscribe { topic, .. } => json_string(topic@) == quoted_utf8(topic@),
            Inbound::Unsubscribe { sub } => json_string(sub@) == quoted_utf8(sub@),
            Inbound::Write { topic, .. } => json_string(topic@) == quoted_utf8(topic@),
            Inbound::Ping => true,
        },
    ensures
        inbound_frame(m) == Some(encode_utf8(object_text(inbound_members(m, text)))),
{
    match m {
        Inbound::Request { id, method, params } => lemma_frame_text_request(id, method@, text),
        Inbound::Subscribe { id, topic } => lemma_frame_text_subscribe(id, topic@),
        Inbound::Unsubscribe { sub } => lemma_frame_text_unsubscribe(sub@),
        Inbound::Write { topic, payload } => lemma_frame_text_write(topic@, text),
        Inbound::Ping => lemma_frame_text_ping(),
    }
}

/// The members a reply or event is written with; `text` is the JSON text of
/// its value, if it has one.
pub open spec fn outbound_members(m: Outbound, text: Seq<char>) -> Seq<(Seq<char>, Seq<char>)> {
    match m {
        Outbound::Reply { id, result } => match result {
            Ok(_) => seq![("t"@, quote_chars("reply"@)), ("id"@, decimal_text(id as nat)), ("ok"@, text)],
            Err(e) => seq![
                ("t"@, quote_chars("reply"@)),
                ("id"@, decimal_text(id as nat)),
                ("err"@, quote_chars(err_code_text(e))),
            ],
        },
        Outbound::Event { sub, seq, topic, data } => match topic {
            Some(tp) => seq![
                ("t"@, quote_chars("event"@)),
                ("seq"@, decimal_text(seq as nat)),
                ("topic"@, quote_chars(tp@)),
                ("sub"@, quote_chars(sub@)),
                ("data"@, text),
            ],
            None => seq![
                ("t"@, quote_chars("event"@)),
                ("seq"@, decimal_text(seq as nat)),
                ("sub"@, quote_chars(sub@)),
                ("data"@, text),
            ],
        },
        Outbound::Snapshot { sub, topic, data } => seq![
            ("t"@, quote_chars("snap"@)),
            ("topic"@, quote_chars(topic@)),
            ("sub"@, quote_chars(sub@)),
            ("data"@, text),
        ],
        Outbound::Subscribed { sub } => seq![("t"@, quote_chars("subscribed"@)), ("sub"@, quote_chars(sub@))],
        Outbound::Pong => seq![("t"@, quote_chars("pong"@))],
    }
}

/// The value bytes are exactly the JSON text `text`, as one JSON value.
pub open spec fn carries_text(data: Seq<u8>, text: Seq<char>) -> bool {
    encode_utf8(text) == data && json_raw_value(data) == Some(data)
}

/// The reply's or event's strings need no escaping, and its value (if any)
/// is the JSON text `text` exactly, as one JSON value.
pub open spec fn writable_outbound(m: Outbound, text: Seq<char>) -> bool {
    match m {
        Outbound::Reply { id, result } => match result {
            Ok(data) => carries_text(data@, text),
            Err(_) => true,
        },
        Outbound::Event { sub, seq, topic, data } => plain_text(sub@) && carries_text(data@, text)
            && match topic {
            Some(tp) => plain_text(tp@),
            None => true,
        },
        Outbound::Snapshot { sub, topic, data } => plain_text(sub@) && plain_text(topic@)
            && carries_text(data@, text),
        Outbound::Subscribed { sub } => plain_text(sub@),
        Outbound::Pong => true,
    }
}

/// The strings a written reply or event quotes read as `serde_json` wrote
/// them.
pub open spec fn outbound_quotes_plain(m: Outbound) -> bool {
    match m {
        Outbound::Event { sub, topic, .. } => json_string(sub@) == quoted_utf8(sub@) && match topic {
            Some(tp) => json_string(tp@) == quoted_utf8(tp@),
            None => true,
        },
        Outbound::Snapshot { sub, topic, .. } => json_string(sub@) == quoted_utf8(sub@) && json_string(
            topic@,
        ) == quoted_utf8(topic@),
        Outbound::Subscribed { sub } => json_string(sub@) == quoted_utf8(sub@),
        _ => true,
    }
}

/// Two replies or events carry the same values.
pub open spec fn same_outbound(a: Outbound, b: Outbound) -> bool {
    match (a, b) {
        (Outbound::Reply { id: i1, result: r1 }, Outbound::Reply { id: i2, result: r2 }) => i1 == i2
            && match (r1, r2) {
            (Ok(d1), Ok(d2)) => d1@ == d2@,
            (Err(e1), Err(e2)) => e1 == e2,
            _ => false,
        },
        (Outbound::Event { sub: s1, seq: q1, topic: t1, data: d1 }, Outbound::Event {
            sub: s2,
            seq: q2,
            topic: t2,
            data: d2,
        }) => s1@ == s2@ && q1 == q2 && d1@ == d2@ && match (t1, t2) {
            (Some(x), Some(y)) => x@ == y@,
            (None, None) => true,
            _ => false,
        },
        (Outbound::Snapshot { sub: s1, topic: t1, data: d1 }, Outbound::Snapshot {
            sub: s2,
            topic: t2,
            data: d2,
        }) => s1@ == s2@ && t1@ == t2@ && d1@ == d2@,
        (Outbound::Subscribed { sub: s1 }, Outbound::Subscribed { sub: s2 }) => s1@ == s2@,
        (Outbound::Pong, Outbound::Pong) => true,
        _ => false,
    }
}

/// The key and tag texts of reply and event frames, told apart.
proof fn lemma_outbound_keys_distinct()
    ensures
        "t"@ != "id"@, "t"@ != "seq"@, "t"@ != "method"@, "t"@ != "topic"@, "t"@ != "sub"@,
        "t"@ != "err"@, "t"@ != "ok"@, "t"@ != "data"@,
        "id"@ != "seq"@, "id"@ != "method"@, "id"@ != "topic"@, "id"@ != "sub"@, "id"@ != "err"@,
        "id"@ != "ok"@, "id"@ != "data"@,
        "seq"@ != "method"@, "seq"@ != "topic"@, "seq"@ != "sub"@, "seq"@ != "err"@, "seq"@ != "data"@,
        "ok"@ != "seq"@, "ok"@ != "method"@, "ok"@ != "topic"@, "ok"@ != "sub"@, "ok"@ != "err"@,
        "topic"@ != "sub"@, "topic"@ != "err"@, "topic"@ != "method"@, "topic"@ != "data"@,
        "sub"@ != "err"@, "sub"@ != "method"@, "sub"@ != "data"@,
        "err"@ != "method"@, "err"@ != "data"@,
        "data"@ != "method"@,
        "reply"@ != "event"@, "reply"@ != "snap"@, "reply"@ != "subscribed"@, "reply"@ != "pong"@,
        "event"@ != "snap"@, "event"@ != "subscribed"@, "event"@ != "pong"@,
        "snap"@ != "subscribed"@, "snap"@ != "pong"@, "subscribed"@ != "pong"@,
        !"reply"@.contains('\\'), !"event"@.contains('\\'), !"snap"@.contains('\\'),
        !"subscribed"@.contains('\\'), !"pong"@.contains('\\'),
{
    reveal_with_fuel(members_bytes, 6);
    reveal_strlit("t");
    reveal_strlit("id");
    reveal_strlit("seq");
    reveal_strlit("topic");
    reveal_strlit("sub");
    reveal_strlit("ok");
    reveal_strlit("err");
    reveal_strlit("data");
    reveal_strlit("reply");
    reveal_strlit("event");
    reveal_strlit("snap");
    reveal_strlit("subscribed");
    reveal_strlit("pong");
    reveal_strlit("method");
    assert("t"@.len() == 1 && "id"@.len() == 2 && "ok"@.len() == 2 && "seq"@.len() == 3);
    assert("sub"@.len() == 3 && "err"@.len() == 3 && "data"@.len() == 4 && "topic"@.len() == 5);
    assert("method"@.len() == 6 && "reply"@.len() == 5 && "event"@.len() == 5 && "snap"@.len() == 4);
    assert("subscribed"@.len() == 10 && "pong"@.len() == 4);
    assert("sub"@[0] == 's' && "seq"@[0] == 's' && "sub"@[1] == 'u' && "seq"@[1] == 'e');
    assert("err"@[0] == 'e' && "id"@[0] == 'i' && "ok"@[0] == 'o');
    assert("reply"@[0] == 'r' && "event"@[0] == 'e' && "snap"@[0] == 's' && "pong"@[0] == 'p');
    assert("data"@[0] == 'd');
    assert forall|w: Seq<char>| w == "reply"@ || w == "event"@ || w == "snap"@ || w == "subscribed"@ || w == "pong"@ implies !w.contains('\\') by {
        if w.contains('\\') {
            let i = choose|i: int| 0 <= i < w.len() && w[i] == '\\';
        }
    }
}

/// A code text is plain ASCII without backslashes.
proof fn lemma_err_code_text(e: RpcError)
    ensures
        is_ascii_chars(err_code_text(e)),
        !err_code_text(e).contains('\\'),
{
    reveal_strlit("not_found");
    reveal_strlit("denied");
    reveal_strlit("internal");
    reveal_strlit("version_mismatch");
    let c = err_code_text(e);
    if c.contains('\\') {
        let i = choose|i: int| 0 <= i < c.len() && c[i] == '\\';
    }
}

proof fn lemma_frame_text_reply_ok(id: u64, text: Seq<char>)
    ensures
        ascii("{\"t\":\"reply\",\"id\":"@) + decimal_bytes(id as nat) + ascii(",\"ok\":"@) + encode_utf8(text)
            + ascii("}"@) == encode_utf8(
            object_text(seq![("t"@, quote_chars("reply"@)), ("id"@, decimal_text(id as nat)), ("ok"@, text)]),
        ),
{
    let ms = seq![("t"@, quote_chars("reply"@)), ("id"@, decimal_text(id as nat)), ("ok"@, text)];
    lemma_members_bytes(ms);
    reveal_with_fuel(members_bytes, 4);
    reveal_strlit("t");
    reveal_strlit("id");
    reveal_strlit("ok");
    reveal_strlit("reply");
    lemma_decimal_text(id as nat);
    lemma_ascii_quoted("t"@);
    lemma_ascii_quoted("id"@);
    lemma_ascii_quoted("ok"@);
    lemma_ascii_quoted("reply"@);
    lemma_quote_bytes("reply"@);
    reveal_strlit("{\"t\":\"reply\",\"id\":");
    reveal_strlit(",\"ok\":");
    reveal_strlit("}");
    assert(ascii("{\"t\":\"reply\",\"id\":"@) =~= seq![123u8] + quoted_utf8("t"@) + seq![58u8] + quoted_utf8("reply"@)
        + seq![44u8] + quoted_utf8("id"@) + seq![58u8]);
    assert(ascii(",\"ok\":"@) =~= seq![44u8] + quoted_utf8("ok"@) + seq![58u8]);
    assert(ascii("}"@) =~= seq![125u8]);
}

proof fn lemma_frame_text_reply_err(id: u64, code: Seq<char>)
    requires
        is_ascii_chars(code),
    ensures
        ascii("{\"t\":\"reply\",\"id\":"@) + decimal_bytes(id as nat) + ascii(",\"err\":\""@) + ascii(code)
            + ascii("\"}"@) == encode_utf8(
            object_text(seq![("t"@, quote_chars("reply"@)), ("id"@, decimal_text(id as nat)), ("err"@, quote_chars(code))]),
        ),
{
    let ms = seq![("t"@, quote_chars("reply"@)), ("id"@, decimal_text(id as nat)), ("err"@, quote_chars(code))];
    lemma_members_bytes(ms);
    reveal_with_fuel(members_bytes, 4);
    reveal_strlit("t");
    reveal_strlit("id");
    reveal_strlit("err");
    reveal_strlit("reply");
    lemma_decimal_text(id as nat);
    lemma_ascii_quoted("t"@);
    lemma_ascii_quoted("id"@);
    lemma_ascii_quoted("err"@);
    lemma_ascii_quoted("reply"@);
    lemma_ascii_quoted(code);
    lemma_quote_bytes("reply"@);
    lemma_quote_bytes(code);
    reveal_strlit("{\"t\":\"reply\",\"id\":");
    reveal_strlit(",\"err\":\"");
    reveal_strlit("\"}");
    assert(ascii("{\"t\":\"reply\",\"id\":"@) =~= seq![123u8] + quoted_utf8("t"@) + seq![58u8] + quoted_utf8("reply"@)
        + seq![44u8] + quoted_utf8("id"@) + seq![58u8]);
    assert(ascii(",\"err\":\""@) =~= seq![44u8] + quoted_utf8("err"@) + seq![58u8] + seq![34u8]);
    assert(ascii("\"}"@) =~= seq![34u8] + seq![125u8]);
}

#[verifier::rlimit(40)]
proof fn lemma_frame_text_event_topic(seq: u64, topic: Seq<char>, sub: Seq<char>, text: Seq<char>)
    ensures
        ascii("{\"t\":\"event\",\"seq\":"@) + decimal_bytes(seq as nat) + (ascii(",\"topic\":"@) + quoted_utf8(topic))
            + ascii(",\"sub\":"@) + quoted_utf8(sub) + ascii(",\"data\":"@) + encode_utf8(text) + ascii("}"@)
            == encode_utf8(
            object_text(
                seq![
                    ("t"@, quote_chars("event"@)),
                    ("seq"@, decimal_text(seq as nat)),
                    ("topic"@, quote_chars(topic)),
                    ("sub"@, quote_chars(sub)),
                    ("data"@, text),
                ],
            ),
        ),
{
    let ms = seq![
        ("t"@, quote_chars("event"@)),
        ("seq"@, decimal_text(seq as nat)),
        ("topic"@, quote_chars(topic)),
        ("sub"@, quote_chars(sub)),
        ("data"@, text),
    ];
    lemma_members_bytes(ms);
    reveal_with_fuel(members_bytes, 6);
    reveal_strlit("t");
    reveal_strlit("seq");
    reveal_strlit("topic");
    reveal_strlit("sub");
    reveal_strlit("data");
    reveal_strlit("event");
    lemma_decimal_text(seq as nat);
    lemma_ascii_quoted("t"@);
    lemma_ascii_quoted("seq"@);
    lemma_ascii_quoted("topic"@);
    lemma_ascii_quoted("sub"@);
    lemma_ascii_quoted("data"@);
    lemma_ascii_quoted("event"@);
    lemma_quote_bytes("event"@);
    lemma_quote_bytes(topic);
    lemma_quote_bytes(sub);
    reveal_strlit("{\"t\":\"event\",\"seq\":");
    reveal_strlit(",\"topic\":");
    reveal_strlit(",\"sub\":");
    reveal_strlit(",\"data\":");
    reveal_strlit("}");
    assert(ascii("{\"t\":\"event\",\"seq\":"@) =~= seq![123u8] + quoted_utf8("t"@) + seq![58u8] + quoted_utf8("event"@)
        + seq![44u8] + quoted_utf8("seq"@) + seq![58u8]);
    assert(ascii(",\"topic\":"@) =~= seq![44u8] + quoted_utf8("topic"@) + seq![58u8]);
    assert(ascii(",\"sub\":"@) =~= seq![44u8] + quoted_utf8("sub"@) + seq![58u8]);
    assert(ascii(",\"data\":"@) =~= seq![44u8] + quoted_utf8("data"@) + seq![58u8]);
    assert(ascii("}"@) =~= seq![125u8]);
}

proof fn lemma_frame_text_event_bare(seq: u64, sub: Seq<char>, text: Seq<char>)
    ensures
        ascii("{\"t\":\"event\",\"seq\":"@) + decimal_bytes(seq as nat) + Seq::<u8>::empty() + ascii(",\"sub\":"@)
            + quoted_utf8(sub) + ascii(",\"data\":"@) + encode_utf8(text) + ascii("}"@) == encode_utf8(
            object_text(
                seq![
                    ("t"@, quote_chars("event"@)),
                    ("seq"@, decimal_text(seq as nat)),
                    ("sub"@, quote_chars(sub)),
                    ("data"@, text),
                ],
            ),
        ),
{
    let ms = seq![
        ("t"@, quote_chars("event"@)),
        ("seq"@, decimal_text(seq as nat)),
        ("sub"@, quote_chars(sub)),
        ("data"@, text),
    ];
    lemma_members_bytes(ms);
    reveal_with_fuel(members_bytes, 5);
    reveal_strlit("t");
    reveal_strlit("seq");
    reveal_strlit("sub");
    reveal_strlit("data");
    reveal_strlit("event");
    lemma_decimal_text(seq as nat);
    lemma_ascii_quoted("t"@);
    lemma_ascii_quoted("seq"@);
    lemma_ascii_quoted("sub"@);
    lemma_ascii_quoted("data"@);
    lemma_ascii_quoted("event"@);
    lemma_quote_bytes("event"@);
    lemma_quote_bytes(sub);
    reveal_strlit("{\"t\":\"event\",\"seq\":");
    reveal_strlit(",\"sub\":");
    reveal_strlit(",\"data\":");
    reveal_strlit("}");
    assert(ascii("{\"t\":\"event\",\"seq\":"@) =~= seq![123u8] + quoted_utf8("t"@) + seq![58u8] + quoted_utf8("event"@)
        + seq![44u8] + quoted_utf8("seq"@) + seq![58u8]);
    assert(ascii(",\"sub\":"@) =~= seq![44u8] + quoted_utf8("sub"@) + seq![58u8]);
    assert(ascii(",\"data\":"@) =~= seq![44u8] + quoted_utf8("data"@) + seq![58u8]);
    assert(ascii("}"@) =~= seq![125u8]);
}

proof fn lemma_frame_text_snapshot(topic: Seq<char>, sub: Seq<char>, text: Seq<char>)
    ensures
        ascii("{\"t\":\"snap\",\"topic\":"@) + quoted_utf8(topic) + ascii(",\"sub\":"@) + quoted_utf8(sub)
            + ascii(",\"data\":"@) + encode_utf8(text) + ascii("}"@) == encode_utf8(
            object_text(
                seq![
                    ("t"@, quote_chars("snap"@)),
                    ("topic"@, quote_chars(topic)),
                    ("sub"@, quote_chars(sub)),
                    ("data"@, text),
                ],
            ),
        ),
{
    let ms = seq![
        ("t"@, quote_chars("snap"@)),
        ("topic"@, quote_chars(topic)),
        ("sub"@, quote_chars(sub)),
        ("data"@, text),
    ];
    lemma_members_bytes(ms);
    reveal_with_fuel(members_bytes, 5);
    reveal_strlit("t");
    reveal_strlit("topic");
    reveal_strlit("sub");
    reveal_strlit("data");
    reveal_strlit("snap");
    lemma_ascii_quoted("t"@);
    lemma_ascii_quoted("topic"@);
    lemma_ascii_quoted("sub"@);
    lemma_ascii_quoted("data"@);
    lemma_ascii_quoted("snap"@);
    lemma_quote_bytes("snap"@);
    lemma_quote_bytes(topic);
    lemma_quote_bytes(sub);
    reveal_strlit("{\"t\":\"snap\",\"topic\":");
    reveal_strlit(",\"sub\":");
    reveal_strlit(",\"data\":");
    reveal_strlit("}");
    assert(ascii("{\"t\":\"snap\",\"topic\":"@) =~= seq![123u8] + quoted_utf8("t"@) + seq![58u8] + quoted_utf8("snap"@)
        + seq![44u8] + quoted_utf8("topic"@) + seq![58u8]);
    assert(ascii(",\"sub\":"@) =~= seq![44u8] + quoted_utf8("sub"@) + seq![58u8]);
    assert(ascii(",\"data\":"@) =~= seq![44u8] + quoted_utf8("data"@) + seq![58u8]);
    assert(ascii("}"@) =~= seq![125u8]);
}

proof fn lemma_frame_text_subscribed(sub: Seq<char>)
    ensures
        ascii("{\"t\":\"subscribed\",\"sub\":"@) + quoted_utf8(sub) + ascii("}"@) == encode_utf8(
            object_text(seq![("t"@, quote_chars("subscribed"@)), ("sub"@, quote_chars(sub))]),
        ),
{
    let ms = seq![("t"@, quote_chars("subscribed"@)), ("sub"@, quote_chars(sub))];
    lemma_members_bytes(ms);
    reveal_with_fuel(members_bytes, 3);
    reveal_strlit("t");
    reveal_strlit("sub");
    reveal_strlit("subscribed");
    lemma_ascii_quoted("t"@);
    lemma_ascii_quoted("sub"@);
    lemma_ascii_quoted("subscribed"@);
    lemma_quote_bytes("subscribed"@);
    lemma_quote_bytes(sub);
    reveal_strlit("{\"t\":\"subscribed\",\"sub\":");
    reveal_strlit("}");
    assert(ascii("{\"t\":\"subscribed\",\"sub\":"@) =~= seq![123u8] + quoted_utf8("t"@) + seq![58u8]
        + quoted_utf8("subscribed"@) + seq![44u8] + quoted_utf8("sub"@) + seq![58u8]);
    assert(ascii("}"@) =~= seq![125u8]);
}

proof fn lemma_frame_text_pong()
    ensures
        ascii("{\"t\":\"pong\"}"@) == encode_utf8(object_text(seq![("t"@, quote_chars("pong"@))])),
{
    let ms = seq![("t"@, quote_chars("pong"@))];
    lemma_members_bytes(ms);
    reveal_with_fuel(members_bytes, 2);
    reveal_strlit("t");
    reveal_strlit("pong");
    lemma_ascii_quoted("t"@);
    lemma_ascii_quoted("pong"@);
    lemma_quote_bytes("pong"@);
    reveal_strlit("{\"t\":\"pong\"}");
    assert(ascii("{\"t\":\"pong\"}"@) =~= seq![123u8] + quoted_utf8("t"@) + seq![58u8] + quoted_utf8("pong"@)
        + seq![125u8]);
}

/// What the reply and event codec writes for a message whose strings need
/// no escaping is the JSON object text of the members it is written with.
pub proof fn lemma_reply_frame_text(m: Outbound, text: Seq<char>)
    requires
        writable_outbound(m, text),
        outbound_quotes_plain(m),
    ensures
        outbound_frame(m) == Some(encode_utf8(object_text(outbound_members(m, text)))),
{
    match m {
        Outbound::Reply { id, result } => match result {
            Ok(data) => lemma_frame_text_reply_ok(id, text),
            Err(e) => {
                lemma_err_code_text(e);
                lemma_frame_text_reply_err(id, err_code_text(e));
            },
        },
        Outbound::Event { sub, seq, topic, data } => {
            match topic {
                Some(tp) => lemma_frame_text_event_topic(seq, tp@, sub@, text),
                None => lemma_frame_text_event_bare(seq, sub@, text),
            }
        },
        Outbound::Snapshot { sub, topic, data } => lemma_frame_text_snapshot(topic@, sub@, text),
        Outbound::Subscribed { sub } => lemma_frame_text_subscribed(sub@),
        Outbound::Pong => lemma_frame_text_pong(),
    }
}

/// Reading back the members a reply or event is written with gives it
/// again, except a reply whose value is JSON `null`, which reads as carrying
/// no value.
pub proof fn law_reply_members_read_back(m: Outbound, text: Seq<char>, ms: Seq<(Seq<char>, Seq<char>)>)
    requires
        writable_outbound(m, text),
        m matches Outbound::Reply { result: Ok(_), .. } ==> text != null_text(),
        forall|k: Seq<char>| #[trigger] lookup(ms, k) == lookup(outbound_members(m, text), k),
    ensures
        frame_typed(ms),
        forall|r: Result<Outbound, CodecError>|
            outbound_from_members(ms, r) ==> (r matches Ok(x) && same_outbound(x, m)),
{
    lemma_outbound_keys_distinct();
    reveal_with_fuel(lookup, 7);
    let mv = outbound_members(m, text);
    assert(lookup(ms, "t"@) == lookup(mv, "t"@));
    assert(lookup(ms, "id"@) == lookup(mv, "id"@));
    assert(lookup(ms, "seq"@) == lookup(mv, "seq"@));
    assert(lookup(ms, "method"@) == lookup(mv, "method"@));
    assert(lookup(ms, "topic"@) == lookup(mv, "topic"@));
    assert(lookup(ms, "sub"@) == lookup(mv, "sub"@));
    assert(lookup(ms, "err"@) == lookup(mv, "err"@));
    assert(lookup(ms, "ok"@) == lookup(mv, "ok"@));
    assert(lookup(ms, "data"@) == lookup(mv, "data"@));
    match m {
        Outbound::Reply { id, result } => {
            lemma_quote_reads_back("reply"@);
            lemma_decimal_text(id as nat);
            assert(u64_literal(decimal_text(id as nat)) == Some(id));
            assert(frame_tag(ms) == "reply"@);
            assert(opt_u64(ms, "id"@) == Some(id));
            match result {
                Ok(data) => {
                    assert(raw_field(ms, "ok"@) == Some(text));
                    lemma_payload_reads_back(lookup(ms, "ok"@), text);
                },
                Err(e) => {
                    lemma_err_code_text(e);
                    lemma_quote_reads_back(err_code_text(e));
                    law_error_codes_read_back(e);
                    assert(raw_field(ms, "ok"@) is None);
                    assert(opt_str(ms, "err"@) == Some(err_code_text(e)));
                },
            }
        },
        Outbound::Event { sub, seq, topic, data } => {
            lemma_quote_reads_back("event"@);
            lemma_plain_no_backslash(sub@);
            lemma_quote_reads_back(sub@);
            lemma_decimal_text(seq as nat);
            assert(u64_literal(decimal_text(seq as nat)) == Some(seq));
            assert(frame_tag(ms) == "event"@);
            assert(opt_u64(ms, "seq"@) == Some(seq));
            assert(opt_str(ms, "sub"@) == Some(sub@));
            match topic {
                Some(tp) => {
                    lemma_plain_no_backslash(tp@);
                    lemma_quote_reads_back(tp@);
                    assert(opt_str(ms, "topic"@) == Some(tp@));
                },
                None => {
                    assert(opt_str(ms, "topic"@) is None);
                },
            }
            lemma_payload_reads_back(lookup(ms, "data"@), text);
        },
        Outbound::Snapshot { sub, topic, data } => {
            lemma_quote_reads_back("snap"@);
            lemma_plain_no_backslash(sub@);
            lemma_quote_reads_back(sub@);
            lemma_plain_no_backslash(topic@);
            lemma_quote_reads_back(topic@);
            assert(frame_tag(ms) == "snap"@);
            assert(opt_str(ms, "sub"@) == Some(sub@));
            assert(opt_str(ms, "topic"@) == Some(topic@));
            lemma_payload_reads_back(lookup(ms, "data"@), text);
        },
        Outbound::Subscribed { sub } => {
            lemma_quote_reads_back("subscribed"@);
            lemma_plain_no_backslash(sub@);
            lemma_quote_reads_back(sub@);
            assert(frame_tag(ms) == "subscribed"@);
            assert(opt_str(ms, "sub"@) == Some(sub@));
        },
        Outbound::Pong => {
            lemma_quote_reads_back("pong"@);
            assert(frame_tag(ms) == "pong"@);
        },
    }
}

/// A JSON number without sign, fraction or exponent: `0`, or digits that do
/// not start with `0`.
pub open spec fn integer_text(v: Seq<char>) -> bool {
    v.len() > 0 && all_digits(v) && (v.len() == 1 || v[0] != '0')
}

/// The JSON text of one value as the codec writes it: a quoted plain text,
/// an unsigned integer, or a text that `serde_json` reads as exactly one
/// JSON value with nothing around it.
pub open spec fn value_text(v: Seq<char>) -> bool {
    ||| (v.len() >= 2 && v[0] == '"' && v.last() == '"' && plain_text(v.subrange(1, v.len() - 1)))
    ||| integer_text(v)
    ||| json_raw_value(encode_utf8(v)) == Some(encode_utf8(v))
}

/// Members a JSON object can be written with: plain, distinct keys, and
/// each value the text of one JSON value.
pub open spec fn readable_members(ms: Seq<(Seq<char>, Seq<char>)>) -> bool {
    &&& forall|i: int| 0 <= i < ms.len() ==> plain_text(#[trigger] ms[i].0) && value_text(ms[i].1)
    &&& forall|i: int, j: int| 0 <= i < j < ms.len() ==> #[trigger] ms[i].0 != #[trigger] ms[j].0
}

/// Reading `frame` as a JSON object gives back the members it was written
/// with, whenever it is the object text of readable members.
pub open spec fn reads_back_written(frame: Seq<u8>) -> bool {
    forall|ms: Seq<(Seq<char>, Seq<char>)>|
        #![trigger object_text(ms)]
        readable_members(ms) && frame == encode_utf8(object_text(ms)) ==> (json_object_members(frame) matches Some(
            got,
        ) && forall|k: Seq<char>| #[trigger] lookup(got, k) == lookup(ms, k))
}

/// A quoted plain text is the text of one JSON value.
proof fn lemma_quoted_value(s: Seq<char>)
    requires
        plain_text(s),
    ensures
        value_text(quote_chars(s)),
{
    let q = quote_chars(s);
    assert(q.subrange(1, q.len() - 1) =~= s);
}

/// The decimal text of a number is the text of one JSON value.
proof fn lemma_integer_value(n: nat)
    ensures
        value_text(decimal_text(n)),
{
    lemma_decimal_text(n);
    if n == 0 {
        assert(decimal_text(n).len() == 1);
    }
}

/// The member keys are plain texts.
proof fn lemma_plain_keys()
    ensures
        plain_text("t"@), plain_text("id"@), plain_text("seq"@), plain_text("method"@),
        plain_text("topic"@), plain_text("sub"@), plain_text("err"@), plain_text("ok"@),
        plain_text("data"@), plain_text("params"@), plain_text("payload"@),
        plain_text("req"@), plain_text("unsub"@), plain_text("write"@), plain_text("ping"@),
        plain_text("reply"@), plain_text("event"@), plain_text("snap"@),
        plain_text("subscribed"@), plain_text("pong"@),
{
    reveal_strlit("t");
    reveal_strlit("id");
    reveal_strlit("seq");
    reveal_strlit("method");
    reveal_strlit("topic");
    reveal_strlit("sub");
    reveal_strlit("err");
    reveal_strlit("ok");
    reveal_strlit("data");
    reveal_strlit("params");
    reveal_strlit("payload");
    reveal_strlit("req");
    reveal_strlit("unsub");
    reveal_strlit("write");
    reveal_strlit("ping");
    reveal_strlit("reply");
    reveal_strlit("event");
    reveal_strlit("snap");
    reveal_strlit("subscribed");
    reveal_strlit("pong");
}

/// The members a writable request is written with are readable.
pub proof fn lemma_inbound_readable(m: Inbound, text: Seq<char>)
    requires
        writable_inbound(m, text),
    ensures
        readable_members(inbound_members(m, text)),
{
    lemma_plain_keys();
    lemma_keys_distinct();
    let ms = inbound_members(m, text);
    match m {
        Inbound::Request { id, method, params } => {
            lemma_quoted_value("req"@);
            lemma_integer_value(id as nat);
            lemma_quoted_value(method@);
        },
        Inbound::Subscribe { id, topic } => {
            lemma_quoted_value("sub"@);
            lemma_integer_value(id as nat);
            lemma_quoted_value(topic@);
        },
        Inbound::Unsubscribe { sub } => {
            lemma_quoted_value("unsub"@);
            lemma_quoted_value(sub@);
        },
        Inbound::Write { topic, payload } => {
            lemma_quoted_value("write"@);
            lemma_quoted_value(topic@);
        },
        Inbound::Ping => {
            lemma_quoted_value("ping"@);
        },
    }
    assert forall|i: int, j: int| 0 <= i < j < ms.len() implies #[trigger] ms[i].0 != #[trigger] ms[j].0 by {
    }
}

/// The members a writable reply or event is written with are readable.
pub proof fn lemma_outbound_readable(m: Outbound, text: Seq<char>)
    requires
        writable_outbound(m, text),
    ensures
        readable_members(outbound_members(m, text)),
{
    lemma_plain_keys();
    lemma_outbound_keys_distinct();
    let ms = outbound_members(m, text);
    match m {
        Outbound::Reply { id, result } => {
            lemma_quoted_value("reply"@);
            lemma_integer_value(id as nat);
            match result {
                Ok(_) => {},
                Err(e) => {
                    lemma_err_code_text(e);
                    lemma_plain_code(e);
                    lemma_quoted_value(err_code_text(e));
                },
            }
        },
        Outbound::Event { sub, seq, topic, data } => {
            lemma_quoted_value("event"@);
            lemma_integer_value(seq as nat);
            lemma_quoted_value(sub@);
            match topic {
                Some(tp) => lemma_quoted_value(tp@),
                None => {},
            }
        },
        Outbound::Snapshot { sub, topic, data } => {
            lemma_quoted_value("snap"@);
            lemma_quoted_value(topic@);
            lemma_quoted_value(sub@);
        },
        Outbound::Subscribed { sub } => {
            lemma_quoted_value("subscribed"@);
            lemma_quoted_value(sub@);
        },
        Outbound::Pong => {
            lemma_quoted_value("pong"@);
        },
    }
    assert forall|i: int, j: int| 0 <= i < j < ms.len() implies #[trigger] ms[i].0 != #[trigger] ms[j].0 by {
    }
}

/// An error code is a plain text.
proof fn lemma_plain_code(e: RpcError)
    ensures
        plain_text(err_code_text(e)),
{
    reveal_strlit("not_found");
    reveal_strlit("denied");
    reveal_strlit("internal");
    reveal_strlit("version_mismatch");
}

/// Decoding the frame written for a request gives the request again,
/// wherever the frame reads back as the members it was written with.
pub proof fn law_request_round_trip(m: Inbound, text: Seq<char>, r: Result<Inbound, CodecError>)
    requires
        writable_inbound(m, text),
        reads_back_written(encode_utf8(object_text(inbound_members(m, text)))),
        decodes_inbound(encode_utf8(object_text(inbound_members(m, text))), r),
    ensures
        r matches Ok(x) && same_inbound(x, m),
{
    let frame = encode_utf8(object_text(inbound_members(m, text)));
    lemma_inbound_readable(m, text);
    let got = json_object_members(frame).unwrap();
    law_request_members_read_back(m, text, got);
}

/// Decoding the frame written for a reply or event gives it again, wherever
/// the frame reads back as the members it was written with; a reply whose
/// value is JSON `null` reads as carrying no value, and is left out.
pub proof fn law_reply_round_trip(m: Outbound, text: Seq<char>, r: Result<Outbound, CodecError>)
    requires
        writable_outbound(m, text),
        m matches Outbound::Reply { result: Ok(_), .. } ==> text != null_text(),
        reads_back_written(encode_utf8(object_text(outbound_members(m, text)))),
        decodes_outbound(encode_utf8(object_text(outbound_members(m, text))), r),
    ensures
        r matches Ok(x) && same_outbound(x, m),
{
    let frame = encode_utf8(object_text(outbound_members(m, text)));
    lemma_outbound_readable(m, text);
    let got = json_object_members(frame).unwrap();
    law_reply_members_read_back(m, text, got);
}

} // verus!
