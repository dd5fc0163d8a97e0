//! Requests, and the parser that reads one request from the front of the
//! bytes received so far on a connection.
use vstd::prelude::*;
use vstd::string::StringSliceAdditionalSpecFns;
use crate::bytes::{
    bytes_eq_ignore_case, copy_range, end_of_token, eq_ignore_case, find_byte, find_from,
    parse_usize, parse_usize_bytes, skip_whitespace, skip_ws, token_end, trim_end, trim_end_len,
};
use crate::response::{hview, HeaderList};

verus! {

/// A parsed request. Header names keep the case they were sent in; a header
/// sent twice appears twice, and lookups take the last one.
pub struct Request {
    pub method: Vec<u8>,
    pub path: Vec<u8>,
    pub headers: Vec<(Vec<u8>, Vec<u8>)>,
    pub body: Vec<u8>,
}

pub struct RequestModel {
    pub method: Seq<u8>,
    pub path: Seq<u8>,
    pub headers: HeaderList,
    pub body: Seq<u8>,
}

impl View for Request {
    type V = RequestModel;

    open spec fn view(&self) -> RequestModel {
        RequestModel {
            method: self.method@,
            path: self.path@,
            headers: hview(self.headers@),
            body: self.body@,
        }
    }
}

/// What the bytes received so far make of the next request.
pub enum ParseModel {
    /// A whole request, and how many bytes it took.
    Complete(RequestModel, nat),
    /// More bytes are needed to tell.
    Incomplete,
    /// The request line has no method or no path.
    Malformed,
}

pub enum ParseOutcome {
    Complete(Request, usize),
    Incomplete,
    Malformed,
}

impl View for ParseOutcome {
    type V = ParseModel;

    open spec fn view(&self) -> ParseModel {
        match self {
            ParseOutcome::Complete(r, n) => ParseModel::Complete(r@, *n as nat),
            ParseOutcome::Incomplete => ParseModel::Incomplete,
            ParseOutcome::Malformed => ParseModel::Malformed,
        }
    }
}

/// The value of the last header whose name equals `name` up to ASCII case.
pub open spec fn last_header(hs: HeaderList, name: Seq<u8>) -> Option<Seq<u8>>
    decreases hs.len(),
{
    if hs.len() == 0 {
        None
    } else if eq_ignore_case(hs.last().0, name) {
        Some(hs.last().1)
    } else {
        last_header(hs.drop_last(), name)
    }
}

pub open spec fn content_length_key() -> Seq<u8> {
    "content-length".spec_bytes()
}

/// The body length that the headers announce: the last `Content-Length`,
/// read as a `usize`; zero where it is absent or not a number.
pub open spec fn content_length(hs: HeaderList) -> nat {
    match last_header(hs, content_length_key()) {
        Some(v) => match parse_usize(v) {
            Some(n) => n,
            None => 0,
        },
        None => 0,
    }
}

/// The first index at or after `j` where `": "` starts, or the length.
pub open spec fn separator_at(t: Seq<u8>, j: int) -> int
    decreases t.len() - j,
{
    if j < 0 || j + 1 >= t.len() {
        t.len() as int
    } else if t[j] == 58 && t[j + 1] == 32 {
        j
    } else {
        separator_at(t, j + 1)
    }
}

/// A header line cut at its first `": "`; `None` where it has none.
pub open spec fn split_header(t: Seq<u8>) -> Option<(Seq<u8>, Seq<u8>)> {
    let j = separator_at(t, 0);
    if j < t.len() {
        Some((t.subrange(0, j), t.subrange(j + 2, t.len() as int)))
    } else {
        None
    }
}

/// The header lines from offset `i` up to and including the blank line:
/// the headers they hold and where the body starts; `None` where the blank
/// line has not arrived yet.
pub open spec fn scan_headers(buf: Seq<u8>, i: int) -> Option<(HeaderList, int)>
    decreases buf.len() - i,
{
    if i < 0 || i >= buf.len() {
        None
    } else {
        let e = find_from(buf, 10, i);
        if e < i || e >= buf.len() {
            None
        } else {
            let t = trim_end(buf.subrange(i, e));
            if t.len() == 0 {
                Some((Seq::empty(), e + 1))
            } else {
                match scan_headers(buf, e + 1) {
                    None => None,
                    Some(rest) => match split_header(t) {
                        Some(h) => Some((seq![h] + rest.0, rest.1)),
                        None => Some(rest),
                    },
                }
            }
        }
    }
}

/// The method and the path: the first two whitespace-separated tokens.
pub open spec fn request_tokens(line: Seq<u8>) -> Option<(Seq<u8>, Seq<u8>)> {
    let a = skip_ws(line, 0);
    let b = token_end(line, a);
    let c = skip_ws(line, b);
    let d = token_end(line, c);
    if a < line.len() && c < line.len() {
        Some((line.subrange(a, b), line.subrange(c, d)))
    } else {
        None
    }
}

/// The next request at the front of `buf`.
pub open spec fn parse(buf: Seq<u8>) -> ParseModel {
    let e = find_from(buf, 10, 0);
    if e >= buf.len() {
        ParseModel::Incomplete
    } else {
        match request_tokens(buf.subrange(0, e)) {
            None => ParseModel::Malformed,
            Some(tokens) => match scan_headers(buf, e + 1) {
                None => ParseModel::Incomplete,
                Some(head) => {
                    let n = content_length(head.0);
                    if buf.len() - head.1 < n {
                        ParseModel::Incomplete
                    } else {
                        ParseModel::Complete(
                            RequestModel {
                                method: tokens.0,
                                path: tokens.1,
                                headers: head.0,
                                body: buf.subrange(head.1, head.1 + n),
                            },
                            (head.1 + n) as nat,
                        )
                    }
                },
            },
        }
    }
}

/// A header scan ends after the line it started on, within the buffer.
pub proof fn lemma_scan_bounds(buf: Seq<u8>, i: int)
    ensures
        scan_headers(buf, i) matches Some(h) ==> i < h.1 <= buf.len(),
    decreases buf.len() - i,
{
    if 0 <= i < buf.len() {
        let e = find_from(buf, 10, i);
        if i <= e < buf.len() {
            lemma_scan_bounds(buf, e + 1);
        }
    }
}

/// A complete request lies within the buffer, and its body is the
/// announced number of bytes just before the end of what it took.
pub proof fn lemma_parse_within(buf: Seq<u8>)
    ensures
        parse(buf) matches ParseModel::Complete(m, used) ==> {
            &&& used <= buf.len()
            &&& m.body.len() == content_length(m.headers)
            &&& m.body == buf.subrange(used - m.body.len(), used as int)
        },
{
    let e = find_from(buf, 10, 0);
    lemma_scan_bounds(buf, e + 1);
}

/// Where `": "` first starts in `t`, or its length.
fn find_separator(t: &[u8]) -> (r: usize)
    ensures
        r as int == separator_at(t@, 0),
        r < t@.len() ==> r + 2 <= t@.len(),
{
    let n = t.len();
    let mut j: usize = 0;
    while n > 0 && j < n - 1
        invariant
            n == t@.len(),
            separator_at(t@, 0) == separator_at(t@, j as int),
        decreases n - j,
    {
        if t[j] == 58 && t[j + 1] == 32 {
            return j;
        }
        j = j + 1;
    }
    n
}

/// Appends to `acc` the headers of a scan that found `rest`.
pub open spec fn with_prefix(
    acc: HeaderList,
    r: Option<(HeaderList, int)>,
) -> Option<(HeaderList, int)> {
    match r {
        None => None,
        Some(rest) => Some((acc + rest.0, rest.1)),
    }
}

/// The value of the last header named `name`, up to ASCII case.
pub fn find_header<'a>(hs: &'a Vec<(Vec<u8>, Vec<u8>)>, name: &[u8]) -> (r: Option<&'a Vec<u8>>)
    ensures
        r matches Some(v) ==> last_header(hview(hs@), name@) == Some(v@),
        r is None ==> last_header(hview(hs@), name@) is None,
{
    let mut i: usize = hs.len();
    assert(hview(hs@).subrange(0, i as int) =~= hview(hs@));
    while i > 0
        invariant
            i <= hs@.len(),
            last_header(hview(hs@), name@) == last_header(hview(hs@).subrange(0, i as int), name@),
        decreases i,
    {
        let ghost pre = hview(hs@).subrange(0, i as int);
        assert(pre.drop_last() =~= hview(hs@).subrange(0, i - 1));
        assert(pre.last() == (hs@[i - 1].0@, hs@[i - 1].1@));
        if bytes_eq_ignore_case(hs[i - 1].0.as_slice(), name) {
            return Some(&hs[i - 1].1);
        }
        i = i - 1;
    }
    None
}

/// The body length announced by the headers.
fn content_length_of(hs: &Vec<(Vec<u8>, Vec<u8>)>) -> (r: usize)
    ensures
        r as nat == content_length(hview(hs@)),
{
    match find_header(hs, "content-length".as_bytes()) {
        Some(v) => match parse_usize_bytes(v.as_slice()) {
            Some(n) => n,
            None => 0,
        },
        None => 0,
    }
}

/// Reads the header block that starts at `start`.
fn read_headers(buf: &[u8], start: usize) -> (r: Option<(Vec<(Vec<u8>, Vec<u8>)>, usize)>)
    requires
        start <= buf@.len(),
    ensures
        r matches Some(p) ==> scan_headers(buf@, start as int) == Some((hview(p.0@), p.1 as int))
            && p.1 <= buf@.len(),
        r is None ==> scan_headers(buf@, start as int) is None,
{
    let mut hs: Vec<(Vec<u8>, Vec<u8>)> = Vec::new();
    let mut i: usize = start;
    assert(with_prefix(hview(hs@), scan_headers(buf@, i as int)) =~= scan_headers(buf@, start as int)) by {
        assert(hview(hs@) =~= Seq::<(Seq<u8>, Seq<u8>)>::empty());
        match scan_headers(buf@, start as int) {
            None => {},
            Some(rest) => {
                assert(Seq::<(Seq<u8>, Seq<u8>)>::empty() + rest.0 =~= rest.0);
            },
        }
    }
    while i < buf.len()
        invariant
            start <= i <= buf@.len(),
            with_prefix(hview(hs@), scan_headers(buf@, i as int)) == scan_headers(buf@, start as int),
        decreases buf@.len() - i,
    {
        let e = find_byte(buf, 10, i);
        if e >= buf.len() {
            return None;
        }
        let line = copy_range(buf, i, e);
        let n = trim_end_len(line.as_slice());
        let ghost t = trim_end(buf@.subrange(i as int, e as int));
        assert(line@.subrange(0, n as int) == t);
        if n == 0 {
            proof {
                let acc = hview(hs@);
                assert(acc + Seq::<(Seq<u8>, Seq<u8>)>::empty() =~= acc);
            }
            return Some((hs, e + 1));
        }
        let t_exec = copy_range(line.as_slice(), 0, n);
        let j = find_separator(t_exec.as_slice());
        let ghost acc = hview(hs@);
        if j < n {
            let name = copy_range(t_exec.as_slice(), 0, j);
            let value = copy_range(t_exec.as_slice(), j + 2, n);
            let ghost h = (name@, value@);
            hs.push((name, value));
            proof {
                assert(hview(hs@) =~= acc + seq![h]);
                match scan_headers(buf@, e + 1) {
                    None => {},
                    Some(rest) => {
                        assert(acc + (seq![h] + rest.0) =~= (acc + seq![h]) + rest.0);
                    },
                }
            }
        } else {
            assert(hview(hs@) == acc);
        }
        i = e + 1;
    }
    None
}

/// Reads the next request from the front of `buf`.
pub fn parse_request(buf: &[u8]) -> (r: ParseOutcome)
    ensures
        r@ == parse(buf@),
{
    let e = find_byte(buf, 10, 0);
    if e >= buf.len() {
        return ParseOutcome::Incomplete;
    }
    let line = copy_range(buf, 0, e);
    let a = skip_whitespace(line.as_slice(), 0);
    let b = end_of_token(line.as_slice(), a);
    let c = skip_whitespace(line.as_slice(), b);
    let d = end_of_token(line.as_slice(), c);
    if a >= line.len() || c >= line.len() {
        return ParseOutcome::Malformed;
    }
    let method = copy_range(line.as_slice(), a, b);
    let path = copy_range(line.as_slice(), c, d);
    match read_headers(buf, e + 1) {
        None => ParseOutcome::Incomplete,
        Some((headers, start)) => {
            let n = content_length_of(&headers);
            proof { lemma_scan_bounds(buf@, e + 1); }
            if buf.len() - start < n {
                ParseOutcome::Incomplete
            } else {
                let body = copy_range(buf, start, start + n);
                let req = Request { method, path, headers, body };
                ParseOutcome::Complete(req, start + n)
            }
        },
    }
}

} // verus!
