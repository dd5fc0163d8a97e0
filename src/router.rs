//! Routing a request to its handler, and the handlers themselves. Handlers
//! that need the filesystem say what to read or write; the caller does it
//! and hands the outcome back.
use vstd::prelude::*;
use vstd::string::StringSliceAdditionalSpecFns;
use crate::bytes::{copy_range, decimal, has_prefix, starts_with};
use crate::request::{find_header, last_header};
use crate::response::{content_length_name, put, HeaderList, HttpResponse, Reply};

verus! {

/// The handler a request goes to.
#[derive(Clone, Copy, PartialEq, Eq, Debug, Structural)]
pub enum Route {
    Landing,
    UserAgent,
    Echo,
    Files,
    NotFound,
}

pub open spec fn route_of(path: Seq<u8>, has_directory: bool) -> Route {
    if path == "/".spec_bytes() {
        Route::Landing
    } else if starts_with(path, "/user-agent".spec_bytes()) {
        Route::UserAgent
    } else if starts_with(path, "/echo/".spec_bytes()) {
        Route::Echo
    } else if starts_with(path, "/".spec_bytes()) && has_directory {
        Route::Files
    } else {
        Route::NotFound
    }
}

/// Picks the handler for `path`; the file routes exist only where a base
/// directory is configured.
pub fn route_request(path: &[u8], has_directory: bool) -> (r: Route)
    ensures
        r == route_of(path@, has_directory),
{
    let root = "/".as_bytes();
    let is_root = path.len() == root.len() && has_prefix(path, root);
    assert(is_root == (path@ == "/".spec_bytes())) by {
        if path@.len() == root@.len() {
            assert(path@.subrange(0, root@.len() as int) =~= path@);
        }
    }
    if is_root {
        Route::Landing
    } else if has_prefix(path, "/user-agent".as_bytes()) {
        Route::UserAgent
    } else if has_prefix(path, "/echo/".as_bytes()) {
        Route::Echo
    } else if has_prefix(path, root) && has_directory {
        Route::Files
    } else {
        Route::NotFound
    }
}

pub open spec fn content_type_name() -> Seq<u8> {
    "Content-Type".spec_bytes()
}

/// The headers of a response whose body was set after its content type.
pub open spec fn typed_headers(ctype: Seq<u8>, body: Seq<u8>) -> HeaderList {
    put(
        put(Seq::empty(), content_type_name(), ctype),
        content_length_name(),
        decimal(body.len()),
    )
}

/// A response with this status, no headers and no body.
pub open spec fn bare_reply(status: Seq<u8>) -> Reply {
    (status, Seq::empty(), Seq::empty())
}

/// A `200 OK` response with this content type and body.
pub open spec fn ok_reply(ctype: Seq<u8>, body: Seq<u8>) -> Reply {
    ("200 OK".spec_bytes(), typed_headers(ctype, body), body)
}

pub open spec fn is_bare(r: HttpResponse, status: Seq<u8>) -> bool {
    r.model() == bare_reply(status)
}

pub open spec fn is_ok_with(r: HttpResponse, ctype: Seq<u8>, body: Seq<u8>) -> bool {
    r.model() == ok_reply(ctype, body)
}

fn typed_ok(ctype: &str, body: &[u8]) -> (r: HttpResponse)
    ensures
        is_ok_with(r, ctype.spec_bytes(), body@),
{
    let mut r = HttpResponse::new("200 OK");
    r.add_header("Content-Type", ctype);
    r.set_body(body);
    r
}

pub open spec fn fallback_page() -> Seq<u8> {
    "<html><body><h1>index.html missing</h1></body></html>".spec_bytes()
}

/// The landing page, given what reading `index.html` gave: its bytes, or
/// `None` where it could not be read, in which case a short page says so.
pub fn landing_page(content: Option<&[u8]>) -> (r: HttpResponse)
    ensures
        is_ok_with(
            r,
            "text/html".spec_bytes(),
            match content {
                Some(c) => c@,
                None => fallback_page(),
            },
        ),
{
    match content {
        Some(c) => typed_ok("text/html", c),
        None => typed_ok(
            "text/html",
            "<html><body><h1>index.html missing</h1></body></html>".as_bytes(),
        ),
    }
}

/// The text an echo request sends back: everything after the path's second
/// `/`, taken as it is; empty where there is no second `/`.
pub open spec fn echo_text(path: Seq<u8>) -> Seq<u8> {
    let a = crate::bytes::find_from(path, 47, 0);
    let b = crate::bytes::find_from(path, 47, a + 1);
    if b < path.len() {
        path.subrange(b + 1, path.len() as int)
    } else {
        Seq::empty()
    }
}

pub fn echo_handler(path: &[u8]) -> (r: HttpResponse)
    ensures
        is_ok_with(r, "text/plain".spec_bytes(), echo_text(path@)),
{
    let a = crate::bytes::find_byte(path, 47, 0);
    let mut text: Vec<u8> = Vec::new();
    if a < path.len() {
        let b = crate::bytes::find_byte(path, 47, a + 1);
        if b < path.len() {
            text = copy_range(path, b + 1, path.len());
        }
    } else {
        assert(crate::bytes::find_from(path@, 47, a + 1) == path@.len());
    }
    assert(text@ =~= echo_text(path@));
    typed_ok("text/plain", text.as_slice())
}

pub open spec fn user_agent_key() -> Seq<u8> {
    "user-agent".spec_bytes()
}

/// The `User-Agent` header's value, or `Unknown`.
pub open spec fn agent_text(hs: HeaderList) -> Seq<u8> {
    match last_header(hs, user_agent_key()) {
        Some(v) => v,
        None => "Unknown".spec_bytes(),
    }
}

pub fn agent_handler(headers: &Vec<(Vec<u8>, Vec<u8>)>) -> (r: HttpResponse)
    ensures
        is_ok_with(r, "text/plain".spec_bytes(), agent_text(crate::response::hview(headers@))),
{
    match find_header(headers, "user-agent".as_bytes()) {
        Some(v) => typed_ok("text/plain", v.as_slice()),
        None => typed_ok("text/plain", "Unknown".as_bytes()),
    }
}

/// `p` without its trailing slashes.
pub open spec fn strip_trailing_slashes(p: Seq<u8>) -> Seq<u8>
    decreases p.len(),
{
    if p.len() > 0 && p.last() == 47 {
        strip_trailing_slashes(p.drop_last())
    } else {
        p
    }
}

/// What follows the last `/` of `p` (all of `p` where it has none).
pub open spec fn after_last_slash(p: Seq<u8>) -> Seq<u8>
    decreases p.len(),
{
    if p.len() == 0 || p.last() == 47 {
        Seq::empty()
    } else {
        after_last_slash(p.drop_last()).push(p.last())
    }
}

/// The final segment of a path; trailing slashes do not end a segment.
pub open spec fn last_segment(p: Seq<u8>) -> Seq<u8> {
    after_last_slash(strip_trailing_slashes(p))
}

/// A final segment that starts with `.` or `_` names a hidden file.
pub open spec fn is_hidden(p: Seq<u8>) -> bool {
    let s = last_segment(p);
    s.len() > 0 && (s[0] == 46 || s[0] == 95)
}

/// Some segment of `p` is `..`: the path would leave the base directory.
pub open spec fn climbs(p: Seq<u8>) -> bool {
    exists|i: int| is_parent_at(p, i)
}

pub open spec fn is_parent_at(p: Seq<u8>, i: int) -> bool {
    &&& 0 <= i && i + 2 <= p.len()
    &&& p[i] == 46 && p[i + 1] == 46
    &&& (i == 0 || p[i - 1] == 47)
    &&& (i + 2 == p.len() || p[i + 2] == 47)
}

/// Where the final segment of `p[..n]` starts.
fn segment_start(p: &[u8], n: usize) -> (r: usize)
    requires
        n <= p@.len(),
    ensures
        r <= n,
        p@.subrange(r as int, n as int) == after_last_slash(p@.subrange(0, n as int)),
{
    let mut k: usize = n;
    assert(p@.subrange(n as int, n as int) =~= Seq::<u8>::empty());
    while k > 0 && p[k - 1] != 47
        invariant
            k <= n <= p@.len(),
            after_last_slash(p@.subrange(0, n as int)) == after_last_slash(p@.subrange(0, k as int))
                + p@.subrange(k as int, n as int),
        decreases k,
    {
        let ghost q = p@.subrange(0, k as int);
        assert(q.drop_last() =~= p@.subrange(0, k - 1));
        assert(after_last_slash(q) == after_last_slash(p@.subrange(0, k - 1)).push(p@[k - 1]));
        assert(after_last_slash(p@.subrange(0, k - 1)).push(p@[k - 1]) + p@.subrange(k as int, n as int)
            =~= after_last_slash(p@.subrange(0, k - 1)) + p@.subrange(k - 1, n as int));
        k = k - 1;
    }
    assert(after_last_slash(p@.subrange(0, k as int)) =~= Seq::<u8>::empty());
    assert(Seq::<u8>::empty() + p@.subrange(k as int, n as int) =~= p@.subrange(k as int, n as int));
    k
}

/// Whether the final segment of `p` starts with `.` or `_`.
pub fn hidden_name(p: &[u8]) -> (r: bool)
    ensures
        r == is_hidden(p@),
{
    let mut n: usize = p.len();
    assert(p@.subrange(0, n as int) =~= p@);
    while n > 0 && p[n - 1] == 47
        invariant
            n <= p@.len(),
            strip_trailing_slashes(p@) == strip_trailing_slashes(p@.subrange(0, n as int)),
        decreases n,
    {
        assert(p@.subrange(0, n as int).drop_last() =~= p@.subrange(0, n - 1));
        n = n - 1;
    }
    let k = segment_start(p, n);
    if k < n {
        let ghost seg = p@.subrange(k as int, n as int);
        assert(seg[0] == p@[k as int]);
        p[k] == 46 || p[k] == 95
    } else {
        false
    }
}

/// Whether some segment of `p` is `..`.
pub fn has_parent_segment(p: &[u8]) -> (r: bool)
    ensures
        r == climbs(p@),
{
    let n = p.len();
    let mut i: usize = 0;
    while i < n
        invariant
            n == p@.len(),
            i <= n,
            forall|k: int| 0 <= k < i ==> !is_parent_at(p@, k),
        decreases n - i,
    {
        if i + 1 < n && p[i] == 46 && p[i + 1] == 46 && (i == 0 || p[i - 1] == 47) && (i + 2 == n
            || p[i + 2] == 47) {
            assert(is_parent_at(p@, i as int));
            return true;
        }
        i = i + 1;
    }
    assert(forall|k: int| !is_parent_at(p@, k)) by {
        assert(forall|k: int| k >= n ==> !is_parent_at(p@, k));
    }
    false
}

/// The refusal of a path that names a hidden file or climbs out of the base
/// directory.
pub fn restrict_path(p: &[u8]) -> (r: Option<HttpResponse>)
    ensures
        (r is Some) == (is_hidden(p@) || climbs(p@)),
        r matches Some(resp) ==> is_bare(resp, "403 Forbidden".spec_bytes()),
{
    if hidden_name(p) || has_parent_segment(p) {
        Some(HttpResponse::new("403 Forbidden"))
    } else {
        None
    }
}

/// `p` without its leading slashes: where it lies under the base directory.
pub open spec fn relative_part(p: Seq<u8>) -> Seq<u8>
    decreases p.len(),
{
    if p.len() > 0 && p[0] == 47 {
        relative_part(p.drop_first())
    } else {
        p
    }
}

fn relative_path(p: &[u8]) -> (r: Vec<u8>)
    ensures
        r@ == relative_part(p@),
{
    let mut i: usize = 0;
    assert(p@.subrange(0, p@.len() as int) =~= p@);
    while i < p.len() && p[i] == 47
        invariant
            i <= p@.len(),
            relative_part(p@) == relative_part(p@.subrange(i as int, p@.len() as int)),
        decreases p@.len() - i,
    {
        assert(p@.subrange(i as int, p@.len() as int).drop_first() =~= p@.subrange(i + 1, p@.len() as int));
        i = i + 1;
    }
    copy_range(p, i, p.len())
}

/// What a file request needs next.
pub enum FileStep {
    /// Answer at once.
    Respond(HttpResponse),
    /// Read this file, relative to the base directory, and pass the outcome
    /// to `serve_file`.
    Read(Vec<u8>),
    /// Create the missing directories and write the body to this file,
    /// relative to the base directory, and pass the outcome to
    /// `write_file_response`.
    Write(Vec<u8>, Vec<u8>),
}

/// What a file request asks for, before the filesystem is touched.
pub enum FilePlan {
    Forbidden,
    NotAllowed,
    Read(Seq<u8>),
    Write(Seq<u8>, Seq<u8>),
}

pub open spec fn file_plan(
    path: Seq<u8>,
    method: Seq<u8>,
    body: Seq<u8>,
    allow_write: bool,
) -> FilePlan {
    if is_hidden(path) || climbs(path) {
        FilePlan::Forbidden
    } else if method == "GET".spec_bytes() {
        FilePlan::Read(relative_part(path))
    } else if method == "POST".spec_bytes() {
        if allow_write {
            FilePlan::Write(relative_part(path), body)
        } else {
            FilePlan::Forbidden
        }
    } else {
        FilePlan::NotAllowed
    }
}

pub open spec fn step_follows(s: FileStep, plan: FilePlan) -> bool {
    match plan {
        FilePlan::Forbidden => s matches FileStep::Respond(r) && is_bare(
            r,
            "403 Forbidden".spec_bytes(),
        ),
        FilePlan::NotAllowed => s matches FileStep::Respond(r) && is_bare(
            r,
            "405 Method Not Allowed".spec_bytes(),
        ),
        FilePlan::Read(rel) => s matches FileStep::Read(f) && f@ == rel,
        FilePlan::Write(rel, b) => s matches FileStep::Write(f, data) && f@ == rel && data@ == b,
    }
}

/// Decides a `GET` or `POST` on a file under the base directory.
pub fn file_handler(path: &[u8], method: &[u8], body: &[u8], allow_write: bool) -> (r: FileStep)
    ensures
        step_follows(r, file_plan(path@, method@, body@, allow_write)),
{
    if let Some(refusal) = restrict_path(path) {
        return FileStep::Respond(refusal);
    }
    if crate::bytes::bytes_eq(method, "GET".as_bytes()) {
        FileStep::Read(relative_path(path))
    } else if crate::bytes::bytes_eq(method, "POST".as_bytes()) {
        if !allow_write {
            return FileStep::Respond(HttpResponse::new("403 Forbidden"));
        }
        let data = copy_range(body, 0, body.len());
        assert(body@.subrange(0, body@.len() as int) =~= body@);
        FileStep::Write(relative_path(path), data)
    } else {
        FileStep::Respond(HttpResponse::new("405 Method Not Allowed"))
    }
}

/// The answer to a file read: its bytes, or `404` where it failed.
pub fn serve_file(contents: Option<&[u8]>) -> (r: HttpResponse)
    ensures
        match contents {
            Some(c) => is_ok_with(r, "application/octet-stream".spec_bytes(), c@),
            None => is_bare(r, "404 Not Found".spec_bytes()),
        },
{
    match contents {
        Some(c) => typed_ok("application/octet-stream", c),
        None => HttpResponse::new("404 Not Found"),
    }
}

/// The answer to a file write: `201` where it succeeded, `500` where making
/// the directories or writing failed.
pub fn write_file_response(written: bool) -> (r: HttpResponse)
    ensures
        written ==> is_bare(r, "201 Created".spec_bytes()),
        !written ==> is_bare(r, "500 Internal Server Error".spec_bytes()),
{
    if written {
        HttpResponse::new("201 Created")
    } else {
        HttpResponse::new("500 Internal Server Error")
    }
}

} // verus!
