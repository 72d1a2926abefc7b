//! The JSON tokens the wire envelopes are made of, and the few places where
//! the library hands JSON text to `serde_json`.

use vstd::prelude::*;
use vstd::utf8::encode_utf8;

use crate::codec_laws::{object_text, readable_members};
use crate::text::{all_digits, decimal_value, is_digit};

verus! {

broadcast use vstd::seq_lib::group_seq_properties;

#[verifier::external_type_specification]
#[verifier::external_body]
pub struct ExJsonError(serde_json::Error);

/// A lowercase hexadecimal digit.
pub open spec fn hex_digit(n: int) -> u8 {
    if n < 10 {
        (48 + n) as u8
    } else {
        (87 + n) as u8
    }
}

/// How one character is written inside a JSON string: a quote and a
/// backslash behind a backslash; backspace, tab, line feed, form feed and
/// carriage return as `\b`, `\t`, `\n`, `\f`, `\r`; another control
/// character as `\u00` and two lowercase hex digits; anything else as its
/// UTF-8 bytes.
pub open spec fn escaped_char(c: char) -> Seq<u8> {
    let n = c as int;
    if c == '"' {
        seq![92u8, 34u8]
    } else if c == '\\' {
        seq![92u8, 92u8]
    } else if n == 8 {
        seq![92u8, 98u8]
    } else if n == 9 {
        seq![92u8, 116u8]
    } else if n == 10 {
        seq![92u8, 110u8]
    } else if n == 12 {
        seq![92u8, 102u8]
    } else if n == 13 {
        seq![92u8, 114u8]
    } else if n < 32 {
        seq![92u8, 117u8, 48u8, 48u8, hex_digit(n / 16), hex_digit(n % 16)]
    } else {
        encode_utf8(seq![c])
    }
}

/// The characters of `s`, each as it is written inside a JSON string.
pub open spec fn escaped(s: Seq<char>) -> Seq<u8>
    decreases s.len(),
{
    if s.len() == 0 {
        Seq::empty()
    } else {
        escaped(s.drop_last()) + escaped_char(s.last())
    }
}

/// What `serde_json` writes for the string `s`: a quote, its characters
/// escaped, a quote.
pub open spec fn json_string(s: Seq<char>) -> Seq<u8> {
    seq![34u8] + escaped(s) + seq![34u8]
}

/// What `serde_json` reads as one raw JSON value from `bytes`: the value's
/// text without the surrounding whitespace, or nothing when `bytes` is not
/// exactly one JSON value.
pub uninterp spec fn json_raw_value(bytes: Seq<u8>) -> Option<Seq<u8>>;

/// What `serde_json` reads from `frame` as a JSON object mapping keys to raw
/// values: the members, keys in order and each key once (a repeated key keeps
/// its last value), each value as its JSON text; nothing when `frame` is not
/// exactly one JSON object.
pub uninterp spec fn json_object_members(frame: Seq<u8>) -> Option<Seq<(Seq<char>, Seq<char>)>>;

/// A text that JSON writes without escapes: no quote, no backslash, no
/// control character.
pub open spec fn plain_text(s: Seq<char>) -> bool {
    forall|i: int| 0 <= i < s.len() ==> #[trigger] s[i] != '"' && s[i] != '\\' && s[i] >= ' '
}

/// The bytes of `s` between two quotes.
pub open spec fn quoted_utf8(s: Seq<char>) -> Seq<u8> {
    seq![34u8] + encode_utf8(s) + seq![34u8]
}

/// `serde_json::to_vec` on a string slice. The contract claims that the
/// call succeeds (the `Vec` writer cannot fail) and returns `json_string(s)`:
/// `serde_json` writes a quote, each character escaped as its escape table
/// says, and a quote.
#[verifier::external_body]
pub(crate) fn quote_json_string(s: &str) -> (r: Result<Vec<u8>, serde_json::Error>)
    ensures
        r.is_ok(),
        r.is_ok() ==> r.unwrap()@ == json_string(s@),
{
    serde_json::to_vec(s)
}

/// `serde_json::from_slice` into a borrowed `RawValue`, returning the raw
/// value's text. The contract claims only that the result is
/// `json_raw_value(bytes)`.
#[verifier::external_body]
pub(crate) fn raw_json_value(bytes: &[u8]) -> (r: Option<Vec<u8>>)
    ensures
        match r {
            Some(v) => json_raw_value(bytes@) == Some(v@),
            None => json_raw_value(bytes@) is None,
        },
{
    match serde_json::from_slice::<&serde_json::value::RawValue>(bytes) {
        Ok(raw) => Some(raw.get().as_bytes().to_vec()),
        Err(_) => None,
    }
}

/// What `serde_json` reads from `bytes` as a JSON array of raw values: each
/// element's JSON text, in order; nothing when `bytes` is not exactly one
/// JSON array.
pub uninterp spec fn json_array_items(bytes: Seq<u8>) -> Option<Seq<Seq<char>>>;

/// The character views of a list of strings.
pub open spec fn string_views(v: Seq<String>) -> Seq<Seq<char>> {
    v.map_values(|s: String| s@)
}

/// `serde_json::from_slice` into a `Vec` of boxed `RawValue`s, handing back
/// each element's JSON text. The contract claims only that the result is
/// `json_array_items(bytes)`.
#[verifier::external_body]
pub(crate) fn array_items(bytes: &[u8]) -> (r: Option<Vec<String>>)
    ensures
        match r {
            Some(v) => json_array_items(bytes@) == Some(string_views(v@)),
            None => json_array_items(bytes@) is None,
        },
{
    match serde_json::from_slice::<Vec<Box<serde_json::value::RawValue>>>(bytes) {
        Ok(items) => Some(items.into_iter().map(|v| v.get().to_string()).collect()),
        Err(_) => None,
    }
}

/// The character views of a list of string pairs.
pub open spec fn member_views(v: Seq<(String, String)>) -> Seq<(Seq<char>, Seq<char>)> {
    v.map_values(|p: (String, String)| (p.0@, p.1@))
}

/// `serde_json::from_slice` into a `BTreeMap` from `String` keys to boxed
/// `RawValue`s, handing back each member with its value's JSON text. The
/// contract claims that the result is `json_object_members(frame)`, and
/// that an object written as `{"k1":v1,...}` with plain, distinct keys and
/// each value the text of one JSON value reads back with each key mapped to
/// its value's text: `serde_json` reads each key as a string, captures each
/// value's text verbatim (its raw value is the input slice from the value's
/// first byte to its last), and the map keeps every key.
#[verifier::external_body]
pub(crate) fn object_members(frame: &[u8]) -> (r: Option<Vec<(String, String)>>)
    ensures
        match r {
            Some(v) => json_object_members(frame@) == Some(member_views(v@)),
            None => json_object_members(frame@) is None,
        },
        forall|ms: Seq<(Seq<char>, Seq<char>)>|
            readable_members(ms) && frame@ == encode_utf8(#[trigger] object_text(ms)) ==> match r {
                Some(v) => forall|k: Seq<char>| #[trigger] lookup(member_views(v@), k) == lookup(ms, k),
                None => false,
            },
{
    match serde_json::from_slice::<
        std::collections::BTreeMap<String, Box<serde_json::value::RawValue>>,
    >(frame) {
        Ok(m) => Some(m.into_iter().map(|(k, v)| (k, v.get().to_string())).collect()),
        Err(_) => None,
    }
}

/// The bytes of an ASCII text.
pub open spec fn ascii(s: Seq<char>) -> Seq<u8> {
    s.map_values(|c: char| c as u8)
}

/// The JSON literal `null`.
pub open spec fn null_text() -> Seq<char> {
    seq!['n', 'u', 'l', 'l']
}

/// The value of the first member named `key`.
pub open spec fn lookup(ms: Seq<(Seq<char>, Seq<char>)>, key: Seq<char>) -> Option<Seq<char>>
    decreases ms.len(),
{
    if ms.len() == 0 {
        None
    } else if ms[0].0 == key {
        Some(ms[0].1)
    } else {
        lookup(ms.drop_first(), key)
    }
}

/// What reading the JSON text `v` as a borrowed `&str` gives: the string's
/// characters when `v` is a string literal without escapes, else nothing.
pub open spec fn borrowed_str(v: Seq<char>) -> Option<Seq<char>> {
    if v.len() >= 2 && v[0] == '"' && v.last() == '"' && !v.subrange(1, v.len() - 1).contains('\\') {
        Some(v.subrange(1, v.len() - 1))
    } else {
        None
    }
}

/// What reading the JSON text `v` as a `u64` gives: its value when `v` is a
/// non-empty run of decimal digits whose value fits, else nothing.
pub open spec fn u64_literal(v: Seq<char>) -> Option<u64> {
    if v.len() > 0 && all_digits(v) && decimal_value(v) <= u64::MAX {
        Some(decimal_value(v) as u64)
    } else {
        None
    }
}

/// An optional string field: `None` when the member's value cannot be read
/// as a string (a type error), `Some(None)` when it is absent or `null`.
pub open spec fn str_field(ms: Seq<(Seq<char>, Seq<char>)>, key: Seq<char>) -> Option<Option<Seq<char>>> {
    match lookup(ms, key) {
        None => Some(None),
        Some(v) => if v == null_text() {
            Some(None)
        } else {
            match borrowed_str(v) {
                Some(s) => Some(Some(s)),
                None => None,
            }
        },
    }
}

/// An optional `u64` field, as [`str_field`] for strings.
pub open spec fn u64_field(ms: Seq<(Seq<char>, Seq<char>)>, key: Seq<char>) -> Option<Option<u64>> {
    match lookup(ms, key) {
        None => Some(None),
        Some(v) => if v == null_text() {
            Some(None)
        } else {
            match u64_literal(v) {
                Some(n) => Some(Some(n)),
                None => None,
            }
        },
    }
}

/// An optional raw-value field: absent or `null` reads as nothing, any other
/// value as its JSON text.
pub open spec fn raw_field(ms: Seq<(Seq<char>, Seq<char>)>, key: Seq<char>) -> Option<Seq<char>> {
    match lookup(ms, key) {
        None => None,
        Some(v) => if v == null_text() {
            None
        } else {
            Some(v)
        },
    }
}

/// The bytes a raw-value field carries onward: its JSON text, or `null`
/// when the field is missing.
pub open spec fn payload_of(raw: Option<Seq<char>>) -> Seq<u8> {
    match raw {
        Some(v) => encode_utf8(v),
        None => ascii(null_text()),
    }
}

/// The decimal digits of `n`, most significant first, as ASCII bytes.
pub open spec fn decimal_bytes(n: nat) -> Seq<u8>
    decreases n,
{
    if n < 10 {
        seq![(n + 48) as u8]
    } else {
        decimal_bytes(n / 10).push((n % 10 + 48) as u8)
    }
}

/// Appends `bytes` to `out`.
pub fn append_bytes(out: &mut Vec<u8>, bytes: &[u8])
    ensures
        final(out)@ == old(out)@ + bytes@,
{
    let ghost start = out@;
    let mut i: usize = 0;
    while i < bytes.len()
        invariant
            i <= bytes.len(),
            out@ == start + bytes@.take(i as int),
        decreases bytes.len() - i,
    {
        out.push(bytes[i]);
        i = i + 1;
        assert(out@ == start + bytes@.take(i as int));
    }
    assert(bytes@.take(bytes.len() as int) == bytes@);
}

/// Appends the bytes of the ASCII text `s` to `out`.
pub fn append_ascii(out: &mut Vec<u8>, s: &str)
    requires
        s.is_ascii(),
    ensures
        final(out)@ == old(out)@ + ascii(s@),
{
    proof {
        vstd::string::is_ascii_spec_bytes(s);
    }
    let b = s.as_bytes();
    assert(b@ == ascii(s@));
    append_bytes(out, b);
}

/// Appends the decimal digits of `n` to `out`.
pub fn append_decimal(out: &mut Vec<u8>, n: u64)
    ensures
        final(out)@ == old(out)@ + decimal_bytes(n as nat),
    decreases n,
{
    if n < 10 {
        out.push((n as u8) + 48);
    } else {
        append_decimal(out, n / 10);
        out.push(((n % 10) as u8) + 48);
    }
}

/// The bytes of the characters of `s`, UTF-8 encoded.
pub fn utf8_bytes(s: &String) -> (r: Vec<u8>)
    ensures
        r@ == encode_utf8(s@),
{
    let b = s.as_str().as_bytes();
    vstd::slice::slice_to_vec(b)
}

/// Position of the first member named `key`.
pub fn find_member(ms: &Vec<(String, String)>, key: &String) -> (r: Option<usize>)
    ensures
        match r {
            Some(i) => i < ms.len() && lookup(member_views(ms@), key@) == Some(ms@[i as int].1@),
            None => lookup(member_views(ms@), key@) is None,
        },
{
    let ghost mv = member_views(ms@);
    let mut i: usize = 0;
    while i < ms.len()
        invariant
            mv == member_views(ms@),
            i <= ms.len(),
            lookup(mv, key@) == lookup(mv.skip(i as int), key@),
        decreases ms.len() - i,
    {
        assert(mv.skip(i as int)[0] == mv[i as int]);
        assert(mv.skip(i as int).drop_first() == mv.skip(i + 1));
        if ms[i].0 == *key {
            return Some(i);
        }
        i = i + 1;
    }
    assert(mv.skip(i as int).len() == 0);
    None
}

/// Whether `v` is the JSON literal `null`.
pub fn is_null_text(v: &String) -> (r: bool)
    ensures
        r == (v@ == null_text()),
{
    let s = v.as_str();
    if s.unicode_len() != 4 {
        return false;
    }
    let r = s.get_char(0) == 'n' && s.get_char(1) == 'u' && s.get_char(2) == 'l' && s.get_char(3) == 'l';
    if r {
        assert(v@ == null_text());
    }
    r
}

/// Reads the JSON text `v` as a borrowed string.
pub fn read_borrowed_str(v: &String) -> (r: Option<String>)
    ensures
        match r {
            Some(s) => borrowed_str(v@) == Some(s@),
            None => borrowed_str(v@) is None,
        },
{
    let s = v.as_str();
    let n = s.unicode_len();
    if n < 2 || s.get_char(0) != '"' || s.get_char(n - 1) != '"' {
        return None;
    }
    let mut i: usize = 1;
    while i < n - 1
        invariant
            s@ == v@,
            n == v@.len(),
            n >= 2,
            1 <= i <= n - 1,
            forall|k: int| 1 <= k < i ==> v@[k] != '\\',
        decreases n - 1 - i,
    {
        if s.get_char(i) == '\\' {
            assert(v@.subrange(1, n - 1)[i - 1] == '\\');
            return None;
        }
        i = i + 1;
    }
    assert(!v@.subrange(1, n - 1).contains('\\')) by {
        if v@.subrange(1, n - 1).contains('\\') {
            let k = choose|k: int| 0 <= k < n - 2 && #[trigger] v@.subrange(1, n - 1)[k] == '\\';
            assert(v@[k + 1] == '\\');
        }
    }
    Some(s.substring_char(1, n - 1).to_string())
}

/// Reads the JSON text `v` as a `u64`.
pub fn read_u64_literal(v: &String) -> (r: Option<u64>)
    ensures
        r == u64_literal(v@),
{
    let s = v.as_str();
    let n = s.unicode_len();
    if n == 0 {
        return None;
    }
    let mut acc: u64 = 0;
    let mut over = false;
    let mut i: usize = 0;
    while i < n
        invariant
            s@ == v@,
            n == v@.len(),
            i <= n,
            all_digits(v@.take(i as int)),
            over <==> decimal_value(v@.take(i as int)) > u64::MAX,
            !over ==> acc == decimal_value(v@.take(i as int)),
        decreases n - i,
    {
        let c = s.get_char(i);
        if !('0' <= c && c <= '9') {
            assert(!all_digits(v@)) by {
                assert(!is_digit(v@[i as int]));
            }
            return None;
        }
        let ghost prev = v@.take(i as int);
        proof {
            assert(v@.take(i + 1) == prev.push(c));
            assert(prev.push(c).drop_last() == prev);
            assert forall|k: int| 0 <= k < i + 1 implies is_digit(#[trigger] v@.take(i + 1)[k]) by {
                if k < i {
                    assert(v@.take(i + 1)[k] == prev[k]);
                }
            }
        }
        let d: u64 = (c as u64) - ('0' as u64);
        if !over {
            if acc > (u64::MAX - d) / 10 {
                over = true;
            } else {
                acc = acc * 10 + d;
            }
        }
        i = i + 1;
    }
    assert(v@.take(n as int) == v@);
    if over {
        None
    } else {
        Some(acc)
    }
}

/// A plain text is written as its UTF-8 bytes between quotes.
pub proof fn lemma_plain_json_string(s: Seq<char>)
    requires
        plain_text(s),
    ensures
        json_string(s) == quoted_utf8(s),
{
    lemma_plain_escaped(s);
}

proof fn lemma_plain_escaped(s: Seq<char>)
    requires
        plain_text(s),
    ensures
        escaped(s) == encode_utf8(s),
    decreases s.len(),
{
    if s.len() > 0 {
        let d = s.drop_last();
        assert(plain_text(d)) by {
            assert forall|i: int| 0 <= i < d.len() implies #[trigger] d[i] != '"' && d[i] != '\\' && d[i] >= ' ' by {
                assert(d[i] == s[i]);
            }
        }
        lemma_plain_escaped(d);
        let c = s.last();
        assert(c == s[s.len() - 1]);
        assert(c != '"' && c != '\\' && c >= ' ');
        assert((c as int) >= 32);
        assert(s =~= d + seq![c]);
        crate::codec_laws::lemma_encode_utf8_concat(d, seq![c]);
    }
}

} // verus!
