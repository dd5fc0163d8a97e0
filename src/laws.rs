//! Properties of the server as a whole, proved from the contracts of the
//! parser, the router and the connection.
use vstd::prelude::*;
use vstd::string::{is_ascii, StringSliceAdditionalSpecFns};
use crate::bytes::{decimal, find_from, starts_with, trim_end};
use crate::connection::{
    close_intent, connection_name, connection_value, dispatch, gzip_accepted, lemma_names_differ,
    negotiated, next_step, ActionModel, Config, ConnModel, Dispatch,
};
use crate::request::{
    content_length, lemma_parse_within, lemma_scan_bounds, parse, scan_headers, ParseModel,
    RequestModel,
};
use crate::response::{
    content_encoding_name, content_length_name, encode, gzip_of, gzip_token, lemma_lookup_put,
    lookup, put, wire, HeaderList, Reply,
};
use crate::router::{
    agent_text, bare_reply, climbs, echo_text, is_hidden, ok_reply, relative_part, route_of, Route,
};

verus! {

broadcast use vstd::string::is_ascii_spec_bytes;

proof fn lemma_find_extend(s: Seq<u8>, extra: Seq<u8>, b: u8, i: int)
    requires
        0 <= i,
        find_from(s, b, i) < s.len(),
    ensures
        find_from(s + extra, b, i) == find_from(s, b, i),
    decreases s.len() - i,
{
    if i < s.len() && s[i] != b {
        lemma_find_extend(s, extra, b, i + 1);
    }
}

proof fn lemma_scan_extend(buf: Seq<u8>, extra: Seq<u8>, i: int)
    requires
        scan_headers(buf, i) is Some,
    ensures
        scan_headers(buf + extra, i) == scan_headers(buf, i),
    decreases buf.len() - i,
{
    let e = find_from(buf, 10, i);
    lemma_find_extend(buf, extra, 10, i);
    assert((buf + extra).subrange(i, e) =~= buf.subrange(i, e));
    if trim_end(buf.subrange(i, e)).len() != 0 {
        lemma_scan_extend(buf, extra, e + 1);
    }
}

/// A request with `Content-Length: N` gets exactly the N bytes after its
/// header block as its body, and whatever follows in the stream changes
/// nothing: not the request, not how many bytes it took.
pub proof fn lemma_body_is_exact(buf: Seq<u8>, extra: Seq<u8>)
    requires
        parse(buf) is Complete,
    ensures
        parse(buf + extra) == parse(buf),
        parse(buf) matches ParseModel::Complete(m, used) ==> {
            &&& m.body.len() == content_length(m.headers)
            &&& m.body == buf.subrange(used - m.body.len(), used as int)
        },
{
    lemma_parse_within(buf);
    let e = find_from(buf, 10, 0);
    lemma_find_extend(buf, extra, 10, 0);
    assert((buf + extra).subrange(0, e) =~= buf.subrange(0, e));
    lemma_scan_extend(buf, extra, e + 1);
    lemma_scan_bounds(buf, e + 1);
    let head = scan_headers(buf, e + 1)->0;
    let n = content_length(head.0);
    assert((buf + extra).subrange(head.1, head.1 + n) =~= buf.subrange(head.1, head.1 + n));
}

pub open spec fn echo_prefix() -> Seq<u8> {
    "/echo/".spec_bytes()
}

pub open spec fn user_agent_path() -> Seq<u8> {
    "/user-agent".spec_bytes()
}

proof fn lemma_literals()
    ensures
        "/".spec_bytes() == seq![47u8],
        echo_prefix() == seq![47u8, 101u8, 99u8, 104u8, 111u8, 47u8],
        user_agent_path().len() == 11,
        user_agent_path()[0] == 47u8,
        user_agent_path()[1] == 117u8,
        "POST".spec_bytes() != "GET".spec_bytes(),
{
    reveal_strlit("POST");
    reveal_strlit("GET");
    assert(is_ascii("POST"));
    assert(is_ascii("GET"));
    assert("POST".spec_bytes().len() != "GET".spec_bytes().len());
    reveal_strlit("/");
    reveal_strlit("/echo/");
    reveal_strlit("/user-agent");
    assert(is_ascii("/"));
    assert(is_ascii("/echo/"));
    assert(is_ascii("/user-agent"));
    assert("/".spec_bytes() =~= seq![47u8]);
    assert(echo_prefix() =~= seq![47u8, 101u8, 99u8, 104u8, 111u8, 47u8]);
}

/// `GET /echo/{s}` answers `200 OK` with `s` as the body, as it is.
pub proof fn lemma_echo_returns_text(m: RequestModel, s: Seq<u8>, cfg: Config)
    requires
        m.path == echo_prefix() + s,
    ensures
        dispatch(m, cfg) == Dispatch::Answer(ok_reply("text/plain".spec_bytes(), s)),
{
    lemma_literals();
    let p = m.path;
    assert(p[0] == 47u8 && p[1] == 101u8 && p[2] == 99u8 && p[3] == 104u8 && p[4] == 111u8 && p[5] == 47u8);
    assert(p != "/".spec_bytes());
    if p.len() >= 11 {
        assert(p.subrange(0, 11)[1] != user_agent_path()[1]);
    }
    assert(!starts_with(p, user_agent_path()));
    assert(p.subrange(0, 6) =~= echo_prefix());
    assert(route_of(p, cfg.has_directory) == Route::Echo);
    assert(find_from(p, 47, 0) == 0);
    assert(find_from(p, 47, 1) == 5) by {
        assert(find_from(p, 47, 5) == 5);
        assert(find_from(p, 47, 4) == 5);
        assert(find_from(p, 47, 3) == 5);
        assert(find_from(p, 47, 2) == 5);
    }
    assert(p.subrange(6, p.len() as int) =~= s);
    assert(echo_text(p) == s);
}

/// `GET /user-agent` answers with the `User-Agent` header's value, or
/// `Unknown` where there is none.
pub proof fn lemma_user_agent_returns_header(m: RequestModel, cfg: Config)
    requires
        m.path == user_agent_path(),
    ensures
        dispatch(m, cfg) == Dispatch::Answer(ok_reply("text/plain".spec_bytes(), agent_text(m.headers))),
{
    lemma_literals();
    assert(m.path != "/".spec_bytes());
    assert(m.path.subrange(0, 11) =~= m.path);
    assert(route_of(m.path, cfg.has_directory) == Route::UserAgent);
}

/// What a `POST` of `body` to a file path stores is what a `GET` of the same
/// path reads: the same file, with the body as sent.
pub proof fn lemma_post_then_get_same_file(post: RequestModel, get: RequestModel, cfg: Config)
    requires
        post.path == get.path,
        post.method == "POST".spec_bytes(),
        get.method == "GET".spec_bytes(),
        cfg.allow_write,
        route_of(post.path, cfg.has_directory) == Route::Files,
        !is_hidden(post.path),
        !climbs(post.path),
    ensures
        dispatch(post, cfg) == Dispatch::StoreFile(relative_part(post.path), post.body),
        dispatch(get, cfg) == Dispatch::LoadFile(relative_part(post.path)),
{
    lemma_literals();
}

/// A `POST` to a file path whose last segment starts with `.` or `_` is
/// refused with `403`, writable or not, and nothing is written.
pub proof fn lemma_hidden_post_forbidden(m: RequestModel, cfg: Config)
    requires
        m.method == "POST".spec_bytes(),
        is_hidden(m.path),
        route_of(m.path, cfg.has_directory) == Route::Files,
    ensures
        dispatch(m, cfg) == Dispatch::Answer(bare_reply("403 Forbidden".spec_bytes())),
{
    lemma_literals();
}

/// A `POST` to a file path while writing is disabled is refused with `403`,
/// and nothing is written.
pub proof fn lemma_post_without_write_forbidden(m: RequestModel, cfg: Config)
    requires
        m.method == "POST".spec_bytes(),
        !cfg.allow_write,
        route_of(m.path, cfg.has_directory) == Route::Files,
    ensures
        dispatch(m, cfg) == Dispatch::Answer(bare_reply("403 Forbidden".spec_bytes())),
{
    lemma_literals();
}

/// Where the client accepts gzip, the response says `Content-Encoding: gzip`
/// and its body is the gzip encoding of the body it would have had, with
/// `Content-Length` counting the encoded bytes.
pub proof fn lemma_gzip_negotiated(rep: Reply, req: HeaderList)
    requires
        gzip_accepted(req) is Some,
    ensures
        lookup(negotiated(rep.1, req), content_encoding_name()) == Some(gzip_token()),
        encode((rep.0, negotiated(rep.1, req), rep.2)) == wire(
            rep.0,
            put(negotiated(rep.1, req), content_length_name(), decimal(gzip_of(rep.2).len())),
            gzip_of(rep.2),
        ),
{
    lemma_names_differ();
    let v = gzip_accepted(req)->0;
    let h0 = put(rep.1, "Accept-Encoding".spec_bytes(), v);
    let h1 = put(h0, content_encoding_name(), gzip_token());
    let c = connection_value(close_intent(req));
    lemma_lookup_put(h0, content_encoding_name(), gzip_token(), content_encoding_name());
    lemma_lookup_put(h1, connection_name(), c, content_encoding_name());
}

/// Every answer carries `Connection: close` where the client asked for it,
/// and `Connection: keep-alive` otherwise.
pub proof fn lemma_connection_header(hs: HeaderList, req: HeaderList)
    ensures
        lookup(negotiated(hs, req), connection_name()) == Some(
            if close_intent(req) {
                "close".spec_bytes()
            } else {
                "keep-alive".spec_bytes()
            },
        ),
{
    let h1 = match gzip_accepted(req) {
        Some(v) => put(put(hs, "Accept-Encoding".spec_bytes(), v), content_encoding_name(), gzip_token()),
        None => hs,
    };
    lemma_lookup_put(h1, connection_name(), connection_value(close_intent(req)), connection_name());
}

/// After answering a request that asked to close, the connection serves
/// nothing more; after one that did not, the next step reads the bytes that
/// followed the request, so a second request on the connection is served.
pub proof fn lemma_close_ends_connection(
    s: ConnModel,
    s2: ConnModel,
    a: ActionModel,
    s3: ConnModel,
    a2: ActionModel,
)
    requires
        next_step(s, s2, a),
        next_step(s2, s3, a2),
        parse(s.buffer) is Complete,
        !s.closing,
        s.pending is None,
        dispatch(parse(s.buffer)->Complete_0, s.config) is Answer,
    ensures
        close_intent(parse(s.buffer)->Complete_0.headers) ==> s2.closing && a2 == ActionModel::Close,
        !close_intent(parse(s.buffer)->Complete_0.headers) ==> {
            &&& !s2.closing
            &&& s2.pending is None
            &&& s2.buffer == s.buffer.subrange(parse(s.buffer)->Complete_1 as int, s.buffer.len() as int)
        },
{
}

/// A path that matches no route, with no base directory configured, is
/// answered `404`.
pub proof fn lemma_unrouted_not_found(m: RequestModel, cfg: Config)
    requires
        !cfg.has_directory,
        m.path != "/".spec_bytes(),
        !starts_with(m.path, user_agent_path()),
        !starts_with(m.path, echo_prefix()),
    ensures
        dispatch(m, cfg) == Dispatch::Answer(bare_reply("404 Not Found".spec_bytes())),
{
}

} // verus!
