//! Responses: status, ordered headers and a body, and the text of their head.
use vstd::prelude::*;

use crate::headers::{find_key, find_key_from, lookup, Entries, Headers};
use crate::text::same_text;
use vstd::string::StringSliceAdditionalSpecFns;

verus! {

#[derive(Debug, Copy, Clone, PartialEq, Eq, Hash)]
pub enum Status {
    NotFound,
    OK,
}

pub open spec fn status_text(s: Status) -> Seq<char> {
    match s {
        Status::NotFound => "404 Not Found"@,
        Status::OK => "200 OK"@,
    }
}

impl Status {
    /// The code and reason phrase of the status line.
    pub fn as_str(&self) -> (r: &'static str)
        ensures
            r@ == status_text(*self),
    {
        match self {
            Status::NotFound => "404 Not Found",
            Status::OK => "200 OK",
        }
    }
}

/// The bytes that follow the head: held here, or read by the caller from a
/// source it holds (an open file) of the given length.
pub enum Body {
    Bytes(Vec<u8>),
    Stream(u64),
}

impl Body {
    pub open spec fn spec_len(&self) -> nat {
        match self {
            Body::Bytes(b) => b@.len(),
            Body::Stream(n) => *n as nat,
        }
    }
}

pub open spec fn digit(d: nat) -> char {
    seq!['0', '1', '2', '3', '4', '5', '6', '7', '8', '9'][d as int]
}

/// The decimal digits of `n`, without leading zeros.
pub open spec fn dec(n: nat) -> Seq<char>
    decreases n,
{
    if n < 10 {
        seq![digit(n)]
    } else {
        dec(n / 10).push(digit(n % 10))
    }
}

fn digit_str(d: u64) -> (r: &'static str)
    requires
        d < 10,
    ensures
        r@ == seq![digit(d as nat)],
{
    if d == 0 {
        proof { reveal_strlit("0"); }
        "0"
    } else if d == 1 {
        proof { reveal_strlit("1"); }
        "1"
    } else if d == 2 {
        proof { reveal_strlit("2"); }
        "2"
    } else if d == 3 {
        proof { reveal_strlit("3"); }
        "3"
    } else if d == 4 {
        proof { reveal_strlit("4"); }
        "4"
    } else if d == 5 {
        proof { reveal_strlit("5"); }
        "5"
    } else if d == 6 {
        proof { reveal_strlit("6"); }
        "6"
    } else if d == 7 {
        proof { reveal_strlit("7"); }
        "7"
    } else if d == 8 {
        proof { reveal_strlit("8"); }
        "8"
    } else {
        proof { reveal_strlit("9"); }
        "9"
    }
}

/// `n` written in decimal.
pub fn decimal(n: u64) -> (r: String)
    ensures
        r@ == dec(n as nat),
    decreases n,
{
    let mut s = if n >= 10 {
        decimal(n / 10)
    } else {
        String::new()
    };
    s.append(digit_str(n % 10));
    s
}


/// The position just past the last `/` in `s[0..i]`, or 0.
pub open spec fn name_start(s: Seq<char>, i: int) -> int
    decreases i,
{
    if i <= 0 {
        0
    } else if s[i - 1] == '/' {
        i
    } else {
        name_start(s, i - 1)
    }
}

/// The position of the last `.` in `s[lo..i]`, or -1.
pub open spec fn last_dot(s: Seq<char>, lo: int, i: int) -> int
    decreases i - lo,
{
    if i <= lo {
        -1
    } else if s[i - 1] == '.' {
        i - 1
    } else {
        last_dot(s, lo, i - 1)
    }
}

/// The end of the last normal component of a path within `s[0..e]`: trailing
/// `/` separators and `.` components are passed over.
pub open spec fn name_end(s: Seq<char>, e: int) -> int
    decreases e,
{
    if e > 0 && s[e - 1] == '/' {
        name_end(s, e - 1)
    } else if e > 0 && s[e - 1] == '.' && (e == 1 || s[e - 2] == '/') {
        name_end(s, e - 1)
    } else {
        e
    }
}

/// The extension of a path: in its last component, when that is a file name
/// (not empty, not `..`), what follows the last `.`, where that dot is not the
/// name's first character.
pub open spec fn extension(s: Seq<char>) -> Option<Seq<char>> {
    let ne = name_end(s, s.len() as int);
    let ns = name_start(s, ne);
    let d = last_dot(s, ns, ne);
    if ne == 0 || s.subrange(ns, ne) == seq!['.', '.'] || d <= ns {
        None
    } else {
        Some(s.subrange(d + 1, ne))
    }
}

pub open spec fn mime_of(ext: Option<Seq<char>>) -> Seq<char> {
    if ext == Some("html"@) {
        "text/html"@
    } else if ext == Some("css"@) {
        "text/css"@
    } else if ext == Some("js"@) {
        "text/javascript"@
    } else if ext == Some("png"@) {
        "image/png"@
    } else if ext == Some("jpg"@) {
        "image/jpeg"@
    } else if ext == Some("gif"@) {
        "image/gif"@
    } else {
        "application/octet-stream"@
    }
}

/// The content type of the file at `path`, by its extension.
pub fn mime_type(path: &str) -> (r: &'static str)
    ensures
        r@ == mime_of(extension(path@)),
{
    let ghost s = path@;
    let n = path.unicode_len();
    let mut ne = n;
    while ne > 0 && (path.get_char(ne - 1) == '/' || (path.get_char(ne - 1) == '.' && (ne == 1
        || path.get_char(ne - 2) == '/')))
        invariant
            ne <= n == s.len(),
            s == path@,
            name_end(s, n as int) == name_end(s, ne as int),
        decreases ne,
    {
        ne = ne - 1;
    }
    if ne == 0 {
        return "application/octet-stream";
    }
    let mut ns = ne;
    while ns > 0 && path.get_char(ns - 1) != '/'
        invariant
            ns <= ne <= n == s.len(),
            s == path@,
            name_start(s, ne as int) == name_start(s, ns as int),
        decreases ns,
    {
        ns = ns - 1;
    }
    if ne - ns == 2 && path.get_char(ns) == '.' && path.get_char(ns + 1) == '.' {
        assert(s.subrange(ns as int, ne as int) =~= seq!['.', '.']);
        return "application/octet-stream";
    }
    proof {
        if s.subrange(ns as int, ne as int) == seq!['.', '.'] {
            assert(s.subrange(ns as int, ne as int).len() == 2);
            assert(s.subrange(ns as int, ne as int)[0] == s[ns as int]);
            assert(s.subrange(ns as int, ne as int)[1] == s[ns + 1]);
        }
    }
    let mut d = ne;
    while d > ns && path.get_char(d - 1) != '.'
        invariant
            ns <= d <= ne <= n == s.len(),
            s == path@,
            last_dot(s, ns as int, ne as int) == last_dot(s, ns as int, d as int),
        decreases d,
    {
        d = d - 1;
    }
    if d - ns <= 1 {
        return "application/octet-stream";
    }
    let ext = path.substring_char(d, ne);
    assert(s.subrange(ns as int, ne as int) != seq!['.', '.']);
    assert(extension(s) == Some(ext@));
    if same_text(ext, "html") {
        "text/html"
    } else if same_text(ext, "css") {
        "text/css"
    } else if same_text(ext, "js") {
        "text/javascript"
    } else if same_text(ext, "png") {
        "image/png"
    } else if same_text(ext, "jpg") {
        "image/jpeg"
    } else if same_text(ext, "gif") {
        "image/gif"
    } else {
        "application/octet-stream"
    }
}

/// The header lines, each `<key>: <value>\r\n`, in order.
pub open spec fn header_lines(es: Entries) -> Seq<char>
    decreases es.len(),
{
    if es.len() == 0 {
        Seq::empty()
    } else {
        header_lines(es.drop_last()) + header_line(es.last().0, es.last().1)
    }
}

pub open spec fn header_line(k: Seq<char>, v: Seq<char>) -> Seq<char> {
    k + ": "@ + v + "\r\n"@
}

pub proof fn lemma_header_lines_first(es: Entries)
    requires
        es.len() > 0,
    ensures
        header_lines(es) == header_line(es[0].0, es[0].1) + header_lines(es.drop_first()),
    decreases es.len(),
{
    if es.len() == 1 {
        assert(es.drop_first().len() == 0);
        assert(es.drop_last().len() == 0);
        assert(es.last() == es[0]);
        assert(header_lines(es.drop_last()) == Seq::<char>::empty());
        assert(header_lines(es.drop_first()) == Seq::<char>::empty());
        assert(header_lines(es) =~= header_line(es[0].0, es[0].1));
    } else {
        lemma_header_lines_first(es.drop_last());
        assert(es.drop_last().drop_first() =~= es.drop_first().drop_last());
        assert(es.drop_first().last() == es.last());
        assert(header_lines(es) =~= header_line(es[0].0, es[0].1) + header_lines(es.drop_first()));
    }
}

/// The status line, the header lines and the blank line that ends the head.
pub open spec fn head_text(status: Status, es: Entries) -> Seq<char> {
    "HTTP/1.1 "@ + status_text(status) + "\r\n"@ + header_lines(es) + "\r\n"@
}

pub open spec fn html_entries(len: nat) -> Entries {
    seq![("Content-Type"@, "text/html"@), ("Content-Length"@, dec(len))]
}

pub open spec fn file_entries(path: Seq<char>, len: nat) -> Entries {
    seq![("Content-Length"@, dec(len)), ("Content-Type"@, mime_of(extension(path)))]
}

pub struct Response {
    pub status: Status,
    pub headers: Headers,
    pub body: Body,
}

impl Response {
    /// Headers well formed, and `Content-Length` is the body's length.
    pub open spec fn wf(&self) -> bool {
        &&& self.headers.wf()
        &&& lookup(self.headers@, "Content-Length"@) == Some(dec(self.body.spec_len()))
    }

    /// The head of the message: status line, headers in order, blank line.
    pub fn status_and_headers(&self) -> (r: String)
        ensures
            r@ == head_text(self.status, self.headers@),
    {
        let mut s = String::from_str("HTTP/1.1 ");
        s.append(self.status.as_str());
        s.append("\r\n");
        let ghost start = s@;
        let ghost es = self.headers@;
        let mut i: usize = 0;
        while i < self.headers.entries.len()
            invariant
                i <= self.headers.entries@.len(),
                es == self.headers@,
                s@ == start + header_lines(es.take(i as int)),
            decreases self.headers.entries@.len() - i,
        {
            let entry = &self.headers.entries[i];
            s.append(entry.0.as_str());
            s.append(": ");
            s.append(entry.1.as_str());
            s.append("\r\n");
            assert(es.take(i + 1).drop_last() =~= es.take(i as int));
            assert(s@ =~= start + header_lines(es.take(i + 1)));
            i = i + 1;
        }
        assert(es.take(i as int) =~= es);
        s.append("\r\n");
        assert(s@ =~= head_text(self.status, self.headers@));
        s
    }

    /// An HTML response whose body is the UTF-8 encoding of `data`.
    pub fn from_html(status: Status, data: &str) -> (r: Response)
        ensures
            r.wf(),
            r.status == status,
            r.headers@ == html_entries(data.spec_bytes().len()),
            r.body matches Body::Bytes(b) && b@ == data.spec_bytes(),
    {
        let bytes = data.as_bytes_vec();
        let mut headers = Headers::new();
        proof {
            reveal_strlit("Content-Type");
            reveal_strlit("Content-Length");
            assert("Content-Type"@.len() == 12);
            assert("Content-Length"@.len() == 14);
            reveal_with_fuel(find_key_from, 3);
        }
        let ghost n = bytes@.len();
        headers.insert(String::from_str("Content-Type"), String::from_str("text/html"));
        assert(headers@ =~= seq![("Content-Type"@, "text/html"@)]);
        assert(find_key(headers@, "Content-Length"@) == -1);
        headers.insert(String::from_str("Content-Length"), decimal(bytes.len() as u64));
        assert(find_key(headers@, "Content-Length"@) == 1);
        assert(headers@ =~= html_entries(data.spec_bytes().len()));
        Response { status, headers, body: Body::Bytes(bytes) }
    }

    /// A `200 OK` response for the file at `path`, of `len` bytes, whose body the
    /// caller reads from the open file.
    pub fn from_file(path: &str, len: u64) -> (r: Response)
        ensures
            r.wf(),
            r.status == Status::OK,
            r.headers@ == file_entries(path@, len as nat),
            r.body == Body::Stream(len),
    {
        let mut headers = Headers::new();
        proof {
            reveal_strlit("Content-Type");
            reveal_strlit("Content-Length");
            assert("Content-Type"@.len() == 12);
            assert("Content-Length"@.len() == 14);
            reveal_with_fuel(find_key_from, 3);
        }
        headers.insert(String::from_str("Content-Length"), decimal(len));
        assert(headers@ =~= seq![("Content-Length"@, dec(len as nat))]);
        assert(find_key(headers@, "Content-Type"@) == -1);
        headers.insert(String::from_str("Content-Type"), String::from_str(mime_type(path)));
        assert(find_key(headers@, "Content-Length"@) == 0);
        assert(headers@ =~= file_entries(path@, len as nat));
        Response { status: Status::OK, headers, body: Body::Stream(len) }
    }
}

} // verus!
