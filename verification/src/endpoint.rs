//! `host:port` endpoint grammar, shared by every transport that speaks it.
//!
//! [`split_host_port_opt`] reports whether a port was written at all, so one
//! caller can default it while another rejects an endpoint that omits it.

use vstd::prelude::*;

use crate::client::decimal_text;
use crate::codec_laws::lemma_decimal_text;
use crate::text::{all_digits, chars_of, decimal_value, parse_unsigned, parse_unsigned_chars, string_from_chars};

verus! {

broadcast use vstd::seq_lib::group_seq_properties;

/// Why an endpoint is not a `host:port`.
#[derive(Debug, Clone, Copy, PartialEq, Eq, Structural)]
pub enum EndpointError {
    /// The endpoint names no host.
    EmptyHost,
    /// A bracketed IPv6 literal with no closing `]`.
    UnclosedBracket,
    /// A port was written, and is not one.
    BadPort,
}

impl EndpointError {
    /// The human-readable description of the error.
    pub fn message(&self) -> (r: &'static str)
        ensures
            r@ == match self {
                EndpointError::EmptyHost => "endpoint names no host"@,
                EndpointError::UnclosedBracket => "missing closing bracket for IPv6 host"@,
                EndpointError::BadPort => "port is not a number in 0..=65535"@,
            },
    {
        match self {
            EndpointError::EmptyHost => "endpoint names no host",
            EndpointError::UnclosedBracket => "missing closing bracket for IPv6 host",
            EndpointError::BadPort => "port is not a number in 0..=65535",
        }
    }
}

/// Index of the first `c` in `s`, or `-1`.
pub open spec fn first_index(s: Seq<char>, c: char) -> int
    decreases s.len(),
{
    if s.len() == 0 {
        -1
    } else if s[0] == c {
        0
    } else {
        let r = first_index(s.drop_first(), c);
        if r < 0 {
            -1
        } else {
            r + 1
        }
    }
}

/// Index of the last `c` in `s`, or `-1`.
pub open spec fn last_index(s: Seq<char>, c: char) -> int
    decreases s.len(),
{
    if s.len() == 0 {
        -1
    } else if s.last() == c {
        s.len() - 1
    } else {
        last_index(s.drop_last(), c)
    }
}

/// The port written after a host: a number that `u16` parsing accepts.
pub open spec fn port_spec(s: Seq<char>) -> Option<u16> {
    match parse_unsigned(s, 65535) {
        Some(v) => Some(v as u16),
        None => None,
    }
}

/// The `host:port` grammar. A bracketed IPv6 literal carries colons of its
/// own, so only a colon after the closing bracket separates the port, and the
/// brackets are stripped; an unbracketed literal with more than one colon
/// cannot carry a port, so every colon belongs to the address.
pub open spec fn split_spec(e: Seq<char>) -> Result<(Seq<char>, Option<u16>), EndpointError> {
    if e.len() > 0 && e[0] == '[' {
        let rest = e.drop_first();
        let k = first_index(rest, ']');
        if k < 0 {
            Err(EndpointError::UnclosedBracket)
        } else {
            let host = rest.take(k);
            let tail = rest.skip(k + 1);
            if host.len() == 0 {
                Err(EndpointError::EmptyHost)
            } else if tail.len() == 0 {
                Ok((host, None))
            } else if tail[0] != ':' {
                Err(EndpointError::BadPort)
            } else {
                match port_spec(tail.drop_first()) {
                    Some(p) => Ok((host, Some(p))),
                    None => Err(EndpointError::BadPort),
                }
            }
        }
    } else {
        let k = last_index(e, ':');
        if k < 0 {
            if e.len() == 0 {
                Err(EndpointError::EmptyHost)
            } else {
                Ok((e, None))
            }
        } else {
            let head = e.take(k);
            if head.contains(':') {
                Ok((e, None))
            } else if head.len() == 0 {
                Err(EndpointError::EmptyHost)
            } else {
                match port_spec(e.skip(k + 1)) {
                    Some(p) => Ok((head, Some(p))),
                    None => Err(EndpointError::BadPort),
                }
            }
        }
    }
}

fn find_first(s: &Vec<char>, from: usize, c: char) -> (r: Option<usize>)
    requires
        from <= s.len(),
    ensures
        match r {
            Some(i) => from <= i < s.len() && s@[i as int] == c && first_index(s@.skip(from as int), c)
                == i - from,
            None => first_index(s@.skip(from as int), c) == -1,
        },
    decreases s.len() - from,
{
    let ghost t = s@.skip(from as int);
    if from == s.len() {
        return None;
    }
    assert(t[0] == s@[from as int]);
    assert(t.drop_first() =~= s@.skip(from + 1));
    if s[from] == c {
        Some(from)
    } else {
        find_first(s, from + 1, c)
    }
}

fn find_last(s: &Vec<char>, upto: usize, c: char) -> (r: Option<usize>)
    requires
        upto <= s.len(),
    ensures
        match r {
            Some(i) => i < upto && s@[i as int] == c && last_index(s@.take(upto as int), c) == i,
            None => last_index(s@.take(upto as int), c) == -1,
        },
    decreases upto,
{
    let ghost t = s@.take(upto as int);
    if upto == 0 {
        return None;
    }
    assert(t.last() == s@[upto - 1]);
    assert(t.drop_last() =~= s@.take(upto - 1));
    if s[upto - 1] == c {
        Some(upto - 1)
    } else {
        find_last(s, upto - 1, c)
    }
}

fn sub_chars(s: &Vec<char>, from: usize, to: usize) -> (r: Vec<char>)
    requires
        from <= to <= s.len(),
    ensures
        r@ == s@.subrange(from as int, to as int),
{
    let mut out: Vec<char> = Vec::new();
    let mut i = from;
    while i < to
        invariant
            from <= i <= to,
            to <= s.len(),
            out@ == s@.subrange(from as int, i as int),
        decreases to - i,
    {
        out.push(s[i]);
        i = i + 1;
    }
    out
}

fn has_char(s: &Vec<char>, c: char) -> (r: bool)
    ensures
        r == s@.contains(c),
{
    match find_first(s, 0, c) {
        Some(i) => {
            assert(s@[i as int] == c);
            true
        },
        None => {
            proof {
                assert(s@.skip(0) =~= s@);
                lemma_first_index_absent(s@, c);
            }
            false
        },
    }
}

proof fn lemma_first_index_absent(s: Seq<char>, c: char)
    ensures
        first_index(s, c) == -1 <==> !s.contains(c),
        first_index(s, c) >= 0 ==> first_index(s, c) < s.len() && s[first_index(s, c)] == c,
    decreases s.len(),
{
    if s.len() > 0 {
        lemma_first_index_absent(s.drop_first(), c);
        if s.drop_first().contains(c) {
            let j = choose|j: int| 0 <= j < s.drop_first().len() && s.drop_first()[j] == c;
            assert(s[j + 1] == c);
        }
        if s.contains(c) && s[0] != c {
            let j = choose|j: int| 0 <= j < s.len() && s[j] == c;
            assert(s.drop_first()[j - 1] == c);
        }
    }
}

fn parse_port(s: &Vec<char>) -> (r: Option<u16>)
    ensures
        r == port_spec(s@),
{
    match parse_unsigned_chars(s.as_slice(), 65535) {
        Some(v) => Some(v as u16),
        None => None,
    }
}

/// Split a `host:port` endpoint, leaving the port `None` when none was
/// written. A port that is written but is not one is an error, never a silent
/// fallback.
pub fn split_host_port_opt(endpoint: &str) -> (r: Result<(String, Option<u16>), EndpointError>)
    ensures
        match r {
            Ok((host, port)) => split_spec(endpoint@) == Ok::<(Seq<char>, Option<u16>), EndpointError>(
                (host@, port),
            ),
            Err(e) => split_spec(endpoint@) == Err::<(Seq<char>, Option<u16>), EndpointError>(e),
        },
{
    let e = chars_of(endpoint);
    let n = e.len();
    if n > 0 && e[0] == '[' {
        let ghost rest = e@.drop_first();
        assert(rest =~= e@.skip(1));
        match find_first(&e, 1, ']') {
            None => {
                return Err(EndpointError::UnclosedBracket);
            },
            Some(close) => {
                let ghost k = close - 1;
                assert(rest.take(k) =~= e@.subrange(1, close as int));
                assert(rest.skip(k + 1) =~= e@.skip(close + 1));
                if close == 1 {
                    return Err(EndpointError::EmptyHost);
                }
                let host = sub_chars(&e, 1, close);
                if close + 1 == n {
                    return Ok((string_from_chars(host.as_slice()), None));
                }
                assert(e@.skip(close + 1)[0] == e@[close + 1]);
                if e[close + 1] != ':' {
                    return Err(EndpointError::BadPort);
                }
                let digits = sub_chars(&e, close + 2, n);
                assert(e@.skip(close + 1).drop_first() =~= digits@);
                match parse_port(&digits) {
                    Some(p) => {
                        return Ok((string_from_chars(host.as_slice()), Some(p)));
                    },
                    None => {
                        return Err(EndpointError::BadPort);
                    },
                }
            },
        }
    }
    assert(e@.take(n as int) =~= e@);
    match find_last(&e, n, ':') {
        None => {
            if n == 0 {
                Err(EndpointError::EmptyHost)
            } else {
                Ok((string_from_chars(e.as_slice()), None))
            }
        },
        Some(k) => {
            let head = sub_chars(&e, 0, k);
            assert(head@ =~= e@.take(k as int));
            if has_char(&head, ':') {
                Ok((string_from_chars(e.as_slice()), None))
            } else if k == 0 {
                Err(EndpointError::EmptyHost)
            } else {
                let digits = sub_chars(&e, k + 1, n);
                assert(digits@ =~= e@.skip(k + 1));
                match parse_port(&digits) {
                    Some(p) => Ok((string_from_chars(head.as_slice()), Some(p))),
                    None => Err(EndpointError::BadPort),
                }
            }
        },
    }
}

/// As [`split_host_port_opt`], substituting `default_port` when the endpoint
/// names only a host.
pub fn split_host_port(endpoint: &str, default_port: u16) -> (r: Result<(String, u16), EndpointError>)
    ensures
        match r {
            Ok((host, port)) => match split_spec(endpoint@) {
                Ok((h, p)) => host@ == h && port == match p {
                    Some(v) => v,
                    None => default_port,
                },
                Err(_) => false,
            },
            Err(e) => split_spec(endpoint@) == Err::<(Seq<char>, Option<u16>), EndpointError>(e),
        },
{
    match split_host_port_opt(endpoint) {
        Ok((host, port)) => {
            let p = match port {
                Some(v) => v,
                None => default_port,
            };
            Ok((host, p))
        },
        Err(e) => Err(e),
    }
}

/// The number of `c` in `s`.
pub open spec fn count_of(s: Seq<char>, c: char) -> nat
    decreases s.len(),
{
    if s.len() == 0 {
        0
    } else {
        count_of(s.drop_last(), c) + if s.last() == c {
            1nat
        } else {
            0nat
        }
    }
}

/// The last `c` of `s`: where it stands, that nothing after it is a `c`, and
/// how many come before it; no `c` at all when there is none.
proof fn lemma_last_index(s: Seq<char>, c: char)
    ensures
        last_index(s, c) < 0 <==> count_of(s, c) == 0,
        last_index(s, c) < 0 ==> !s.contains(c),
        last_index(s, c) >= 0 ==> {
            let k = last_index(s, c);
            &&& k < s.len()
            &&& s[k] == c
            &&& forall|j: int| k < j < s.len() ==> s[j] != c
            &&& count_of(s.take(k), c) + 1 == count_of(s, c)
        },
    decreases s.len(),
{
    if s.len() > 0 {
        lemma_last_index(s.drop_last(), c);
        if s.last() == c {
            assert(s.take(s.len() - 1) =~= s.drop_last());
        } else {
            let k = last_index(s, c);
            if k >= 0 {
                assert(s.take(k) =~= s.drop_last().take(k));
                assert forall|j: int| k < j < s.len() implies s[j] != c by {
                    if j < s.len() - 1 {
                        assert(s.drop_last()[j] == s[j]);
                    }
                }
            } else {
                if s.contains(c) {
                    let j = choose|j: int| 0 <= j < s.len() && s[j] == c;
                    assert(s.drop_last()[j] == c);
                }
            }
        }
    }
}

/// A text holds a `c` exactly when it counts one.
proof fn lemma_count_contains(s: Seq<char>, c: char)
    ensures
        count_of(s, c) > 0 <==> s.contains(c),
{
    lemma_last_index(s, c);
    if last_index(s, c) >= 0 {
        assert(s[last_index(s, c)] == c);
    }
}

/// An endpoint without brackets, by the number of colons it holds: with
/// none, it is all host (and must not be empty); with one, the host is what
/// stands before it and a `u16` port what stands after; with more, it is an
/// address that carries no port.
pub proof fn law_unbracketed_endpoints(e: Seq<char>, k: int)
    requires
        !(e.len() > 0 && e[0] == '['),
    ensures
        count_of(e, ':') == 0 ==> split_spec(e) == if e.len() == 0 {
            Err::<(Seq<char>, Option<u16>), EndpointError>(EndpointError::EmptyHost)
        } else {
            Ok((e, None))
        },
        count_of(e, ':') >= 2 ==> split_spec(e) == Ok::<(Seq<char>, Option<u16>), EndpointError>((e, None)),
        count_of(e, ':') == 1 && 0 <= k < e.len() && e[k] == ':' ==> split_spec(e) == if k == 0 {
            Err::<(Seq<char>, Option<u16>), EndpointError>(EndpointError::EmptyHost)
        } else {
            match port_spec(e.skip(k + 1)) {
                Some(p) => Ok((e.take(k), Some(p))),
                None => Err(EndpointError::BadPort),
            }
        },
{
    lemma_last_index(e, ':');
    let li = last_index(e, ':');
    if li >= 0 {
        lemma_count_contains(e.take(li), ':');
        if count_of(e, ':') == 1 && 0 <= k < e.len() && e[k] == ':' {
            if k < li {
                assert(e.take(li)[k] == ':');
                assert(e.take(li).contains(':'));
            }
            assert(k == li);
        }
    }
}

/// A port is any decimal numeral whose value fits a `u16`, and it is read
/// as that value: every number from 0 to 65535 written out in decimal is
/// accepted as itself, and a numeral above 65535 is refused. One leading
/// `+` is allowed.
pub proof fn law_every_u16_is_a_port(digits: Seq<char>, n: nat)
    ensures
        digits.len() > 0 && all_digits(digits) && decimal_value(digits) <= 65535 ==> port_spec(digits)
            == Some(decimal_value(digits) as u16),
        digits.len() > 0 && all_digits(digits) && decimal_value(digits) > 65535 ==> port_spec(digits)
            is None,
        n <= 65535 ==> port_spec(decimal_text(n)) == Some(n as u16),
        digits.len() > 0 && all_digits(digits) ==> port_spec(seq!['+'] + digits) == port_spec(digits),
{
    if digits.len() > 0 && all_digits(digits) {
        assert(crate::text::is_digit(digits[0]));
        assert(crate::text::unsigned_digits(digits) == digits);
        assert((seq!['+'] + digits).drop_first() =~= digits);
    }
    lemma_decimal_text(n);
    let d = decimal_text(n);
    assert(crate::text::is_digit(d[0]));
    assert(crate::text::unsigned_digits(d) == d);
}

/// A host without colons or brackets, a colon, and any port number written
/// in decimal split back into that host and that port.
pub proof fn law_host_and_port_split_back(host: Seq<char>, n: nat)
    requires
        host.len() > 0,
        host[0] != '[',
        !host.contains(':'),
        n <= 65535,
    ensures
        split_spec(host + seq![':'] + decimal_text(n)) == Ok::<(Seq<char>, Option<u16>), EndpointError>(
            (host, Some(n as u16)),
        ),
{
    let d = decimal_text(n);
    lemma_decimal_text(n);
    law_every_u16_is_a_port(d, n);
    let e = host + seq![':'] + d;
    let h = host.len() as int;
    assert(e[0] == host[0]);
    assert(e[h] == ':');
    lemma_last_index(e, ':');
    let k = last_index(e, ':');
    assert(k >= 0) by {
        assert(e.contains(':'));
    }
    assert forall|j: int| h < j < e.len() implies e[j] != ':' by {
        assert(e[j] == d[j - h - 1]);
        assert(crate::text::is_digit(d[j - h - 1]));
    }
    assert(k == h) by {
        if k < h {
            assert(e[h] != ':');
        }
    }
    assert(e.take(k) =~= host);
    assert(e.skip(k + 1) =~= d);
}

} // verus!
