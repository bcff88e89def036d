//! Requests: the model of a request head and its parser.
use vstd::prelude::*;

use crate::headers::{insert_all, insert_entry, Entries, Headers};
use crate::response::{header_line, header_lines, lemma_header_lines_first};
use crate::text::{
    find_colon, is_ws, line_end, scan_colon, scan_line_end, scan_token, scan_trim_end, scan_ws, skip_token,
    skip_ws, trim_end, lemma_line_end_bounds, lemma_line_end_at, lemma_skip_ws_at,
    lemma_skip_token_at, lemma_find_colon_at, lemma_trim_end_at, lemma_line_end_newline,
    lemma_line_end_prefix, lemma_scan_prefix,
};

verus! {

/// The request methods this server understands.
#[derive(Debug, Copy, Clone, PartialEq, Eq, Hash)]
pub enum Method {
    Get,
}

/// Why a request head could not be turned into a `Request`.
#[derive(Debug, Copy, Clone, PartialEq, Eq)]
pub enum RequestError {
    /// Nothing at all was read: the peer closed the connection between requests.
    ConnectionClosed,
    /// The request line holds no token.
    MissingMethod,
    /// The first token of the request line is not `GET`.
    UnsupportedMethod,
    /// The request line holds a method but no path.
    MissingPath,
    /// A header line starts with `:`.
    MissingHeaderName,
    /// A header line holds no `:`.
    MissingHeaderValue,
    /// The input ended before the blank line that closes the head.
    UnexpectedEof,
}

impl RequestError {
    /// Every error but a clean close is a malformed request.
    pub fn is_malformed(&self) -> (r: bool)
        ensures
            r == !(*self is ConnectionClosed),
    {
        !matches!(self, RequestError::ConnectionClosed)
    }
}

pub open spec fn get_token() -> Seq<char> {
    seq!['G', 'E', 'T']
}

impl Method {
    /// `GET` is the one token accepted as a method.
    pub fn try_from(value: &str) -> (r: Result<Method, RequestError>)
        ensures
            r is Ok <==> value@ == get_token(),
            r is Err ==> r == Err::<Method, RequestError>(RequestError::UnsupportedMethod),
    {
        if value.unicode_len() == 3 && value.get_char(0) == 'G' && value.get_char(1) == 'E'
            && value.get_char(2) == 'T' {
            assert(value@ =~= get_token());
            Ok(Method::Get)
        } else {
            Err(RequestError::UnsupportedMethod)
        }
    }
}


/// A parsed request head. The path is kept as received: not normalized, not decoded.
#[derive(Debug, Clone, PartialEq, Eq)]
pub struct Request {
    pub method: Method,
    pub path: String,
    pub headers: Headers,
}

/// Whether `s[i..e]` is a line holding only its terminator.
pub open spec fn is_blank_line(s: Seq<char>, i: int, e: int) -> bool {
    s.subrange(i, e) == seq!['\n'] || s.subrange(i, e) == seq!['\r', '\n']
}

/// The path of the request line `s[0..e]`: its first token must be `GET`, its
/// second is the path; further tokens are ignored.
pub open spec fn request_line_spec(s: Seq<char>, e: int) -> Result<Seq<char>, RequestError> {
    let a = skip_ws(s, 0, e);
    let b = skip_token(s, a, e);
    if a == e {
        Err(RequestError::MissingMethod)
    } else if s.subrange(a, b) != get_token() {
        Err(RequestError::UnsupportedMethod)
    } else {
        let c = skip_ws(s, b, e);
        if c == e {
            Err(RequestError::MissingPath)
        } else {
            Ok(s.subrange(c, skip_token(s, c, e)))
        }
    }
}

/// The header line `s[i..e]`: the key is what stands before the first `:`, the
/// value what follows it, with surrounding whitespace trimmed.
pub open spec fn header_line_spec(s: Seq<char>, i: int, e: int) -> Result<
    (Seq<char>, Seq<char>),
    RequestError,
> {
    let c = find_colon(s, i, e);
    if c == e {
        Err(RequestError::MissingHeaderValue)
    } else if c == i {
        Err(RequestError::MissingHeaderName)
    } else {
        let a = skip_ws(s, c + 1, e);
        Ok((s.subrange(i, c), s.subrange(a, trim_end(s, a, e))))
    }
}

/// The header lines from position `i` up to the blank line, stored into `acc`.
pub open spec fn headers_spec(s: Seq<char>, i: int, acc: Entries) -> Result<Entries, RequestError>
    decreases s.len() - i,
    via headers_spec_decreases
{
    if i < 0 || i >= s.len() {
        Err(RequestError::UnexpectedEof)
    } else {
        let e = line_end(s, i);
        if is_blank_line(s, i, e) {
            Ok(acc)
        } else {
            match header_line_spec(s, i, e) {
                Err(x) => Err(x),
                Ok(kv) => headers_spec(s, e, insert_entry(acc, kv.0, kv.1)),
            }
        }
    }
}

#[via_fn]
proof fn headers_spec_decreases(s: Seq<char>, i: int, acc: Entries) {
    if 0 <= i < s.len() {
        lemma_line_end_bounds(s, i);
    }
}

/// The path and the headers of the request head `s`.
pub open spec fn request_spec(s: Seq<char>) -> Result<(Seq<char>, Entries), RequestError> {
    if s.len() == 0 {
        Err(RequestError::ConnectionClosed)
    } else {
        let e = line_end(s, 0);
        match request_line_spec(s, e) {
            Err(x) => Err(x),
            Ok(path) => match headers_spec(s, e, Seq::empty()) {
                Err(x) => Err(x),
                Ok(h) => Ok((path, h)),
            },
        }
    }
}

/// Whether `line`, as read off a stream, ends a request head: it is empty
/// (the stream ended) or holds only its terminator.
pub fn ends_head(line: &str) -> (r: bool)
    ensures
        r == (line@.len() == 0 || line@ == seq!['\n'] || line@ == seq!['\r', '\n']),
{
    let n = line.unicode_len();
    if n == 0 {
        true
    } else if n == 1 {
        let r = line.get_char(0) == '\n';
        assert(r ==> line@ =~= seq!['\n']);
        r
    } else if n == 2 {
        let r = line.get_char(0) == '\r' && line.get_char(1) == '\n';
        assert(r ==> line@ =~= seq!['\r', '\n']);
        r
    } else {
        false
    }
}

/// Parses a request head: the request line, then header lines up to a blank line.
/// Lines end at `\n`; text after the blank line is not read.
pub fn parse_request(text: &str) -> (r: Result<Request, RequestError>)
    ensures
        match r {
            Ok(req) => {
                &&& request_spec(text@) == Ok::<(Seq<char>, Entries), RequestError>(
                    (req.path@, req.headers@),
                )
                &&& req.method == Method::Get
                &&& req.headers.wf()
            },
            Err(x) => request_spec(text@) == Err::<(Seq<char>, Entries), RequestError>(x),
        },
{
    let ghost s = text@;
    let n = text.unicode_len();
    if n == 0 {
        return Err(RequestError::ConnectionClosed);
    }
    let e = scan_line_end(text, 0, n);
    let a = scan_ws(text, 0, e);
    let b = scan_token(text, a, e);
    if a == e {
        return Err(RequestError::MissingMethod);
    }
    let method = match Method::try_from(text.substring_char(a, b)) {
        Ok(m) => m,
        Err(x) => {
            return Err(x);
        },
    };
    let c = scan_ws(text, b, e);
    if c == e {
        return Err(RequestError::MissingPath);
    }
    let d = scan_token(text, c, e);
    let path = text.substring_char(c, d).to_owned();
    assert(request_line_spec(s, e as int) == Ok::<Seq<char>, RequestError>(path@));
    let mut headers = Headers::new();
    let mut i = e;
    loop
        invariant
            s == text@,
            n == s.len(),
            e <= i <= n,
            n > 0,
            e == line_end(s, 0),
            request_line_spec(s, e as int) == Ok::<Seq<char>, RequestError>(path@),
            method == Method::Get,
            headers.wf(),
            headers_spec(s, e as int, Seq::empty()) == headers_spec(s, i as int, headers@),
        decreases n - i,
    {
        if i >= n {
            assert(headers_spec(s, i as int, headers@) == Err::<Entries, RequestError>(
                RequestError::UnexpectedEof,
            ));
            return Err(RequestError::UnexpectedEof);
        }
        let le = scan_line_end(text, i, n);
        let blank = (le == i + 1 && text.get_char(i) == '\n') || (le - i == 2 && text.get_char(i)
            == '\r' && text.get_char(i + 1) == '\n');
        proof {
            let l = s.subrange(i as int, le as int);
            if l == seq!['\n'] {
                assert(l.len() == 1 && l[0] == s[i as int]);
            }
            if l == seq!['\r', '\n'] {
                assert(l.len() == 2);
                assert(l[0] == s[i as int]);
                assert(l[1] == s[i as int + 1]);
            }
            if le == i + 1 && s[i as int] == '\n' {
                assert(s.subrange(i as int, le as int) =~= seq!['\n']);
            }
            if le == i + 2 && s[i as int] == '\r' && s[i + 1] == '\n' {
                assert(s.subrange(i as int, le as int) =~= seq!['\r', '\n']);
            }
        }
        if blank {
            return Ok(Request { method, path, headers });
        }
        let colon = scan_colon(text, i, le);
        if colon == le {
            return Err(RequestError::MissingHeaderValue);
        }
        if colon == i {
            return Err(RequestError::MissingHeaderName);
        }
        let va = scan_ws(text, colon + 1, le);
        let vb = scan_trim_end(text, va, le);
        let key = text.substring_char(i, colon).to_owned();
        let value = text.substring_char(va, vb).to_owned();
        assert(header_line_spec(s, i as int, le as int) == Ok::<
            (Seq<char>, Seq<char>),
            RequestError,
        >((key@, value@)));
        assert(!is_blank_line(s, i as int, le as int));
        headers.insert(key, value);
        i = le;
    }
}


/// A header name that a head can carry: non-empty, without `:` or a line break.
pub open spec fn key_ok(k: Seq<char>) -> bool {
    k.len() > 0 && forall|t: int| 0 <= t < k.len() ==> k[t] != ':' && k[t] != '\n'
}

/// A header value that survives trimming: no line break, no whitespace at
/// either end.
pub open spec fn value_ok(v: Seq<char>) -> bool {
    &&& forall|t: int| 0 <= t < v.len() ==> v[t] != '\n'
    &&& v.len() > 0 ==> !is_ws(v[0]) && !is_ws(v.last())
}

pub open spec fn headers_ok(hs: Entries) -> bool {
    forall|j: int| 0 <= j < hs.len() ==> key_ok(#[trigger] hs[j].0) && value_ok(hs[j].1)
}

proof fn lemma_header_line_parse(s: Seq<char>, i: int, k: Seq<char>, v: Seq<char>)
    requires
        0 <= i,
        i + header_line(k, v).len() <= s.len(),
        s.subrange(i, i + header_line(k, v).len()) == header_line(k, v),
        key_ok(k),
        value_ok(v),
    ensures
        line_end(s, i) == i + header_line(k, v).len(),
        !is_blank_line(s, i, i + header_line(k, v).len()),
        header_line_spec(s, i, i + header_line(k, v).len()) == Ok::<
            (Seq<char>, Seq<char>),
            RequestError,
        >((k, v)),
{
    reveal_strlit(": ");
    reveal_strlit("\r\n");
    let l = header_line(k, v);
    let n = l.len() as int;
    let e = i + n;
    let kl = k.len() as int;
    let vl = v.len() as int;
    assert(n == kl + vl + 4);
    assert forall|t: int| 0 <= t < n implies s[i + t] == l[t] by {
        assert(s.subrange(i, e)[t] == s[i + t]);
    }
    assert forall|t: int| 0 <= t < kl implies s[i + t] == k[t] by {
        assert(s[i + t] == l[t]);
    }
    assert(s[i + kl] == ':') by { assert(s[i + kl] == l[kl]); }
    assert(s[i + kl + 1] == ' ') by { assert(s[i + kl + 1] == l[kl + 1]); }
    assert forall|t: int| 0 <= t < vl implies s[i + kl + 2 + t] == v[t] by {
        assert(s[i + kl + 2 + t] == l[kl + 2 + t]);
    }
    assert(s[e - 2] == '\r') by { assert(s[i + (n - 2)] == l[n - 2]); }
    assert(s[e - 1] == '\n') by { assert(s[i + (n - 1)] == l[n - 1]); }
    assert forall|t: int| i <= t < e - 1 implies s[t] != '\n' by {
        if t < i + kl {
            assert(s[i + (t - i)] == k[t - i]);
        } else if t >= i + kl + 2 && t < i + kl + 2 + vl {
            assert(s[i + kl + 2 + (t - i - kl - 2)] == v[t - i - kl - 2]);
        }
    }
    lemma_line_end_at(s, i, e);
    assert(s.subrange(i, e).len() > 2);
    assert forall|t: int| i <= t < i + kl implies s[t] != ':' by {
        assert(s[i + (t - i)] == k[t - i]);
    }
    lemma_find_colon_at(s, i, i + kl, e);
    let a = i + kl + 2;
    let b = a + vl;
    if vl > 0 {
        lemma_skip_ws_at(s, i + kl + 1, a, e);
        assert(s[b - 1] == v.last()) by { assert(s[a + (vl - 1)] == v[vl - 1]); }
        lemma_trim_end_at(s, a, b, e);
    } else {
        lemma_skip_ws_at(s, i + kl + 1, e, e);
        lemma_trim_end_at(s, e, e, e);
        assert(s.subrange(e, e) =~= v);
    }
    assert(s.subrange(i, i + kl) =~= k);
    assert(s.subrange(a, b) =~= v);
}

proof fn lemma_headers_parse(s: Seq<char>, i: int, acc: Entries, hs: Entries)
    requires
        0 <= i <= s.len(),
        s.subrange(i, s.len() as int) == header_lines(hs) + "\r\n"@,
        headers_ok(hs),
    ensures
        headers_spec(s, i, acc) == Ok::<Entries, RequestError>(insert_all(acc, hs)),
    decreases hs.len(),
{
    reveal_strlit("\r\n");
    if hs.len() == 0 {
        assert(s.subrange(i, s.len() as int) =~= seq!['\r', '\n']);
        assert(s[i] == '\r') by { assert(s.subrange(i, s.len() as int)[0] == s[i]); }
        assert(s[i + 1] == '\n') by { assert(s.subrange(i, s.len() as int)[1] == s[i + 1]); }
        lemma_line_end_at(s, i, i + 2);
        assert(s.subrange(i, i + 2) =~= seq!['\r', '\n']);
    } else {
        lemma_header_lines_first(hs);
        let (k, v) = hs[0];
        assert(key_ok(hs[0].0) && value_ok(hs[0].1));
        let l = header_line(k, v);
        let e = i + l.len();
        let rest = header_lines(hs.drop_first()) + "\r\n"@;
        assert(s.subrange(i, s.len() as int) =~= l + rest);
        assert(s.subrange(i, e) =~= l) by {
            assert forall|t: int| 0 <= t < l.len() implies s.subrange(i, e)[t] == l[t] by {
                assert(s.subrange(i, s.len() as int)[t] == (l + rest)[t]);
            }
        }
        assert(s.subrange(e, s.len() as int) =~= rest) by {
            assert forall|t: int| 0 <= t < rest.len() implies s.subrange(e, s.len() as int)[t]
                == rest[t] by {
                assert(s.subrange(i, s.len() as int)[l.len() + t] == (l + rest)[l.len() + t]);
            }
        }
        lemma_header_line_parse(s, i, k, v);
        assert(headers_ok(hs.drop_first())) by {
            assert forall|j: int| 0 <= j < hs.drop_first().len() implies key_ok(
                #[trigger] hs.drop_first()[j].0,
            ) && value_ok(hs.drop_first()[j].1) by {
                assert(hs.drop_first()[j] == hs[j + 1]);
            }
        }
        lemma_headers_parse(s, e, insert_entry(acc, k, v), hs.drop_first());
    }
}


proof fn lemma_headers_prefix(s: Seq<char>, t: Seq<char>, i: int, acc: Entries)
    requires
        0 <= i,
        headers_spec(s, i, acc) is Ok,
    ensures
        headers_spec(s + t, i, acc) == headers_spec(s, i, acc),
    decreases s.len() - i,
{
    let e = line_end(s, i);
    lemma_line_end_bounds(s, i);
    lemma_line_end_newline(s, i);
    let l = s.subrange(i, e);
    if is_blank_line(s, i, e) {
        assert(l[l.len() - 1] == s[e - 1]);
    } else {
        let kv = header_line_spec(s, i, e)->Ok_0;
        assert(headers_spec(s, e, insert_entry(acc, kv.0, kv.1)) is Ok);
        assert(e < s.len());
        lemma_headers_prefix(s, t, e, insert_entry(acc, kv.0, kv.1));
    }
    lemma_line_end_prefix(s, t, i);
    assert((s + t).subrange(i, e) =~= l);
    lemma_scan_prefix(s, t, i, e);
    let c = find_colon(s, i, e);
    if c < e {
        lemma_scan_prefix(s, t, c + 1, e);
        let a = skip_ws(s, c + 1, e);
        lemma_scan_prefix(s, t, a, e);
        assert((s + t).subrange(i, c) =~= s.subrange(i, c));
        assert((s + t).subrange(a, trim_end(s, a, e)) =~= s.subrange(a, trim_end(s, a, e)));
    }
}

/// Parsing reads no further than the blank line that ends a head: text that
/// follows a head that parses leaves the result as it is.
pub proof fn lemma_parse_ignores_rest(s: Seq<char>, t: Seq<char>)
    requires
        request_spec(s) is Ok,
    ensures
        request_spec(s + t) == request_spec(s),
{
    let e = line_end(s, 0);
    lemma_line_end_bounds(s, 0);
    lemma_line_end_newline(s, 0);
    assert(e < s.len());
    lemma_line_end_prefix(s, t, 0);
    lemma_scan_prefix(s, t, 0, e);
    let a = skip_ws(s, 0, e);
    lemma_scan_prefix(s, t, a, e);
    let b = skip_token(s, a, e);
    lemma_scan_prefix(s, t, b, e);
    let c = skip_ws(s, b, e);
    lemma_scan_prefix(s, t, c, e);
    assert((s + t).subrange(a, b) =~= s.subrange(a, b));
    assert((s + t).subrange(c, skip_token(s, c, e)) =~= s.subrange(c, skip_token(s, c, e)));
    lemma_headers_prefix(s, t, e, Seq::empty());
}

/// A path that a request line can carry: non-empty, without whitespace.
pub open spec fn path_ok(p: Seq<char>) -> bool {
    p.len() > 0 && forall|t: int| 0 <= t < p.len() ==> !is_ws(p[t])
}

/// The head `GET <path> HTTP/1.1`, one `<key>: <value>` line per pair, and the
/// blank line, every line ending in `\r\n`.
pub open spec fn request_text(path: Seq<char>, hs: Entries) -> Seq<char> {
    "GET "@ + path + " HTTP/1.1\r\n"@ + header_lines(hs) + "\r\n"@
}

/// Parsing a well-formed head gives back its path, and its headers stored
/// pair by pair, a later value of a repeated name replacing the earlier one.
pub proof fn lemma_parse_rendered(path: Seq<char>, hs: Entries)
    requires
        path_ok(path),
        headers_ok(hs),
    ensures
        request_spec(request_text(path, hs)) == Ok::<(Seq<char>, Entries), RequestError>(
            (path, insert_all(Seq::empty(), hs)),
        ),
{
    reveal_strlit("GET ");
    reveal_strlit(" HTTP/1.1\r\n");
    reveal_strlit("\r\n");
    let s = request_text(path, hs);
    let tail = " HTTP/1.1\r\n"@;
    let pl = path.len() as int;
    let e = 4 + pl + 11;
    let rest = header_lines(hs) + "\r\n"@;
    assert(s =~= "GET "@ + path + tail + rest);
    assert(s[0] == 'G' && s[1] == 'E' && s[2] == 'T' && s[3] == ' ');
    assert forall|t: int| 0 <= t < pl implies s[4 + t] == path[t] by {}
    assert forall|t: int| 0 <= t < 11 implies s[4 + pl + t] == tail[t] by {}
    assert(s[4 + pl] == ' ');
    assert(s[e - 1] == '\n') by { assert(s[4 + pl + 10] == tail[10]); }
    assert forall|t: int| 0 <= t < e - 1 implies s[t] != '\n' by {
        if 4 <= t < 4 + pl {
            assert(s[4 + (t - 4)] == path[t - 4]);
        } else if t >= 4 + pl {
            assert(s[4 + pl + (t - 4 - pl)] == tail[t - 4 - pl]);
        }
    }
    lemma_line_end_at(s, 0, e);
    lemma_skip_ws_at(s, 0, 0, e);
    lemma_skip_token_at(s, 0, 3, e);
    assert(s.subrange(0, 3) =~= get_token());
    assert forall|t: int| 4 <= t < 4 + pl implies !is_ws(s[t]) by {
        assert(s[4 + (t - 4)] == path[t - 4]);
    }
    lemma_skip_ws_at(s, 3, 4, e);
    lemma_skip_token_at(s, 4, 4 + pl, e);
    assert(s.subrange(4, 4 + pl) =~= path);
    assert(s.subrange(e, s.len() as int) =~= rest);
    lemma_headers_parse(s, e, Seq::empty(), hs);
}

} // verus!
