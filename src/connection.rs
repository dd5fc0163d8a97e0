//! One connection's decisions. The caller owns the socket and the
//! filesystem: it feeds in the bytes it reads, performs the action that
//! comes back, and reports the outcome, until the connection says to close.
use vstd::prelude::*;
use vstd::string::{is_ascii, StringSliceAdditionalSpecFns};
use crate::bytes::{
    append, bytes_eq_ignore_case, contains, contains_bytes, copy_range, eq_ignore_case,
};
use crate::request::{
    find_header, last_header, lemma_parse_within, parse, parse_request, ParseModel, ParseOutcome,
    Request, RequestModel,
};
use crate::response::{
    content_encoding_name, content_length_name, encode, gzip_token, hview, is_gzipped,
    lemma_lookup_put, put, wire, HeaderList, HttpResponse, Reply,
};
use crate::router::{
    agent_handler, agent_text, bare_reply, echo_handler, echo_text, fallback_page, file_handler,
    file_plan, landing_page, ok_reply, route_of, route_request, serve_file, write_file_response,
    FilePlan, FileStep, Route,
};

verus! {

broadcast use vstd::string::is_ascii_spec_bytes;

/// What every connection is served with.
#[derive(Clone, Copy, PartialEq, Eq, Debug, Structural)]
pub struct Config {
    /// A base directory is configured, so the file routes exist.
    pub has_directory: bool,
    /// `POST` may write files.
    pub allow_write: bool,
}

pub open spec fn connection_key() -> Seq<u8> {
    "connection".spec_bytes()
}

pub open spec fn accept_encoding_key() -> Seq<u8> {
    "accept-encoding".spec_bytes()
}

pub open spec fn connection_name() -> Seq<u8> {
    "Connection".spec_bytes()
}

/// The client asked, by `Connection: close` in any case, that the connection
/// end after this response.
pub open spec fn close_intent(req: HeaderList) -> bool {
    match last_header(req, connection_key()) {
        Some(v) => eq_ignore_case(v, "close".spec_bytes()),
        None => false,
    }
}

/// The client's `Accept-Encoding`, where it mentions gzip.
pub open spec fn gzip_accepted(req: HeaderList) -> Option<Seq<u8>> {
    match last_header(req, accept_encoding_key()) {
        Some(v) => if contains(v, gzip_token()) {
            Some(v)
        } else {
            None
        },
        None => None,
    }
}

pub open spec fn connection_value(close: bool) -> Seq<u8> {
    if close {
        "close".spec_bytes()
    } else {
        "keep-alive".spec_bytes()
    }
}

/// A handler's headers with those the connection adds: the encoding where
/// the client accepts gzip, and whether the connection stays open.
pub open spec fn negotiated(hs: HeaderList, req: HeaderList) -> HeaderList {
    let with_encoding = match gzip_accepted(req) {
        Some(v) => put(
            put(hs, "Accept-Encoding".spec_bytes(), v),
            content_encoding_name(),
            gzip_token(),
        ),
        None => hs,
    };
    put(with_encoding, connection_name(), connection_value(close_intent(req)))
}

/// What is sent where gzip was asked for and the encoder failed.
pub open spec fn failure_reply(close: bool) -> Reply {
    (
        "500 Internal Server Error".spec_bytes(),
        put(Seq::empty(), connection_name(), connection_value(close)),
        Seq::empty(),
    )
}

/// `bytes` answer a request with headers `req` by the handler's reply `rep`:
/// the negotiated response, or, only where it was to be gzipped and the
/// encoder failed, a bare `500`.
pub open spec fn sends(bytes: Seq<u8>, rep: Reply, req: HeaderList) -> bool {
    let full = (rep.0, negotiated(rep.1, req), rep.2);
    bytes == encode(full) || (is_gzipped(full.1) && bytes == encode(
        failure_reply(close_intent(req)),
    ))
}

pub open spec fn bad_request() -> Seq<u8> {
    wire("400 Bad Request".spec_bytes(), Seq::empty(), Seq::empty())
}

/// What a parsed request leads to.
pub enum Dispatch {
    Answer(Reply),
    LoadLanding,
    LoadFile(Seq<u8>),
    StoreFile(Seq<u8>, Seq<u8>),
}

pub open spec fn dispatch(m: RequestModel, cfg: Config) -> Dispatch {
    match route_of(m.path, cfg.has_directory) {
        Route::Landing => Dispatch::LoadLanding,
        Route::UserAgent => Dispatch::Answer(ok_reply("text/plain".spec_bytes(), agent_text(m.headers))),
        Route::Echo => Dispatch::Answer(ok_reply("text/plain".spec_bytes(), echo_text(m.path))),
        Route::Files => match file_plan(m.path, m.method, m.body, cfg.allow_write) {
            FilePlan::Forbidden => Dispatch::Answer(bare_reply("403 Forbidden".spec_bytes())),
            FilePlan::NotAllowed => Dispatch::Answer(bare_reply("405 Method Not Allowed".spec_bytes())),
            FilePlan::Read(rel) => Dispatch::LoadFile(rel),
            FilePlan::Write(rel, b) => Dispatch::StoreFile(rel, b),
        },
        Route::NotFound => Dispatch::Answer(bare_reply("404 Not Found".spec_bytes())),
    }
}

/// What the caller is to do next.
pub enum Action {
    /// Write these bytes; then close where the flag holds, else call `next`.
    Send(Vec<u8>, bool),
    /// Read from the peer and pass what came to `receive`, then call `next`;
    /// where the peer closed or the timeout expired, call `input_ended`.
    Receive,
    /// Read `index.html` and pass the outcome to `landing_loaded`.
    ReadLanding,
    /// Read this file under the base directory; pass the outcome to
    /// `file_loaded`.
    ReadFile(Vec<u8>),
    /// Create the missing directories and write the bytes to this file under
    /// the base directory; pass the outcome to `file_stored`.
    WriteFile(Vec<u8>, Vec<u8>),
    /// Close the connection.
    Close,
}

pub enum ActionModel {
    Send(Seq<u8>, bool),
    Receive,
    ReadLanding,
    ReadFile(Seq<u8>),
    WriteFile(Seq<u8>, Seq<u8>),
    Close,
}

impl View for Action {
    type V = ActionModel;

    open spec fn view(&self) -> ActionModel {
        match self {
            Action::Send(b, c) => ActionModel::Send(b@, *c),
            Action::Receive => ActionModel::Receive,
            Action::ReadLanding => ActionModel::ReadLanding,
            Action::ReadFile(f) => ActionModel::ReadFile(f@),
            Action::WriteFile(f, d) => ActionModel::WriteFile(f@, d@),
            Action::Close => ActionModel::Close,
        }
    }
}

pub struct Connection {
    config: Config,
    buffer: Vec<u8>,
    pending: Option<Request>,
    closing: bool,
}

pub struct ConnModel {
    pub config: Config,
    /// Bytes received and not yet read as a request.
    pub buffer: Seq<u8>,
    /// A request that waits for the outcome of a file operation.
    pub pending: Option<RequestModel>,
    /// The connection is to close; nothing more is served.
    pub closing: bool,
}

impl View for Connection {
    type V = ConnModel;

    closed spec fn view(&self) -> ConnModel {
        ConnModel {
            config: self.config,
            buffer: self.buffer@,
            pending: match self.pending {
                Some(r) => Some(r@),
                None => None,
            },
            closing: self.closing,
        }
    }
}

/// `s2` and `a` answer the request `m` with `rep`, and `rest` is what stays
/// in the buffer.
pub open spec fn answered(
    s: ConnModel,
    s2: ConnModel,
    a: ActionModel,
    m: RequestModel,
    rep: Reply,
    rest: Seq<u8>,
) -> bool {
    let close = close_intent(m.headers);
    &&& a matches ActionModel::Send(b, c) && sends(b, rep, m.headers) && c == close
    &&& s2 == ConnModel { config: s.config, buffer: rest, pending: None, closing: close }
}

/// `s2` waits with `m` for an outside outcome.
pub open spec fn waits(s: ConnModel, s2: ConnModel, m: RequestModel, rest: Seq<u8>) -> bool {
    s2 == ConnModel { config: s.config, buffer: rest, pending: Some(m), closing: false }
}

/// `s2` and `a` act on the request `m` read from `s`, with `rest` left in
/// the buffer.
pub open spec fn acts_on(
    s: ConnModel,
    s2: ConnModel,
    a: ActionModel,
    m: RequestModel,
    rest: Seq<u8>,
) -> bool {
    match dispatch(m, s.config) {
        Dispatch::Answer(rep) => answered(s, s2, a, m, rep, rest),
        Dispatch::LoadLanding => a == ActionModel::ReadLanding && waits(s, s2, m, rest),
        Dispatch::LoadFile(rel) => a == ActionModel::ReadFile(rel) && waits(s, s2, m, rest),
        Dispatch::StoreFile(rel, b) => a == ActionModel::WriteFile(rel, b) && waits(s, s2, m, rest),
    }
}

/// The step that `next` takes from `s`.
pub open spec fn next_step(s: ConnModel, s2: ConnModel, a: ActionModel) -> bool {
    if s.closing || s.pending is Some {
        a == ActionModel::Close && s2 == s
    } else {
        match parse(s.buffer) {
            ParseModel::Incomplete => a == ActionModel::Receive && s2 == s,
            ParseModel::Malformed => a == ActionModel::Send(bad_request(), true) && s2 == ConnModel {
                config: s.config,
                buffer: s.buffer,
                pending: None,
                closing: true,
            },
            ParseModel::Complete(m, used) => acts_on(
                s,
                s2,
                a,
                m,
                s.buffer.subrange(used as int, s.buffer.len() as int),
            ),
        }
    }
}

/// The step that answers the waiting request with `rep`.
pub open spec fn resume_step(s: ConnModel, s2: ConnModel, a: ActionModel, rep: Reply) -> bool {
    if s.closing || s.pending is None {
        a == ActionModel::Close && s2 == s
    } else {
        answered(s, s2, a, s.pending->0, rep, s.buffer)
    }
}

pub proof fn lemma_names_differ()
    ensures
        connection_name() != content_encoding_name(),
        connection_name() != content_length_name(),
        content_encoding_name() != content_length_name(),
        "Accept-Encoding".spec_bytes() != content_encoding_name(),
        "Accept-Encoding".spec_bytes() != connection_name(),
        "Accept-Encoding".spec_bytes() != content_length_name(),
{
    reveal_strlit("Connection");
    reveal_strlit("Content-Encoding");
    reveal_strlit("Content-Length");
    reveal_strlit("Accept-Encoding");
    assert(is_ascii("Connection"));
    assert(is_ascii("Content-Encoding"));
    assert(is_ascii("Content-Length"));
    assert(is_ascii("Accept-Encoding"));
    assert(connection_name().len() == 10);
    assert(content_encoding_name().len() == 16);
    assert(content_length_name().len() == 14);
    assert("Accept-Encoding".spec_bytes().len() == 15);
}

/// Whether the request's headers ask for the connection to close.
pub fn close_requested(req: &Vec<(Vec<u8>, Vec<u8>)>) -> (r: bool)
    ensures
        r == close_intent(hview(req@)),
{
    match find_header(req, "connection".as_bytes()) {
        Some(v) => bytes_eq_ignore_case(v.as_slice(), "close".as_bytes()),
        None => false,
    }
}

/// Adds to a handler's response the headers that the connection decides:
/// the encoding, where the client accepts gzip, and `Connection`. Returns
/// whether the connection is to close after it.
pub fn negotiate(resp: &mut HttpResponse, req: &Vec<(Vec<u8>, Vec<u8>)>) -> (close: bool)
    ensures
        final(resp).model() == (
            old(resp).status_view(),
            negotiated(old(resp).headers_view(), hview(req@)),
            old(resp).body_view(),
        ),
        close == close_intent(hview(req@)),
{
    if let Some(v) = find_header(req, "accept-encoding".as_bytes()) {
        if contains_bytes(v.as_slice(), "gzip".as_bytes()) {
            resp.set_header("Accept-Encoding".as_bytes(), v.as_slice());
            resp.add_header("Content-Encoding", "gzip");
        }
    }
    let close = close_requested(req);
    if close {
        resp.add_header("Connection", "close");
    } else {
        resp.add_header("Connection", "keep-alive");
    }
    close
}

/// The bytes that answer a request with headers `req` by `resp`, and whether
/// the connection closes after them.
pub fn reply_bytes(resp: HttpResponse, req: &Vec<(Vec<u8>, Vec<u8>)>) -> (r: (Vec<u8>, bool))
    ensures
        sends(r.0@, resp.model(), hview(req@)),
        r.1 == close_intent(hview(req@)),
{
    let mut resp = resp;
    let close = negotiate(&mut resp, req);
    match resp.as_bytes() {
        Some(b) => (b, close),
        None => {
            proof {
                lemma_names_differ();
                lemma_lookup_put(Seq::empty(), connection_name(), connection_value(close), content_encoding_name());
            }
            let mut f = HttpResponse::new("500 Internal Server Error");
            if close {
                f.add_header("Connection", "close");
            } else {
                f.add_header("Connection", "keep-alive");
            }
            (f.to_wire(), close)
        },
    }
}

impl Connection {
    pub fn new(config: Config) -> (r: Connection)
        ensures
            r@ == (ConnModel { config, buffer: Seq::empty(), pending: None, closing: false }),
    {
        Connection { config, buffer: Vec::new(), pending: None, closing: false }
    }

    pub fn is_closing(&self) -> (r: bool)
        ensures
            r == self@.closing,
    {
        self.closing
    }

    /// Takes in bytes read from the peer.
    pub fn receive(&mut self, data: &[u8])
        ensures
            final(self)@ == (ConnModel { buffer: old(self)@.buffer + data@, ..old(self)@ }),
    {
        append(&mut self.buffer, data);
    }

    fn answer(&mut self, resp: HttpResponse, req: &Request) -> (a: Action)
        ensures
            answered(old(self)@, final(self)@, a@, req@, resp.model(), old(self)@.buffer),
    {
        let (b, c) = reply_bytes(resp, &req.headers);
        self.pending = None;
        self.closing = c;
        Action::Send(b, c)
    }

    fn handle(&mut self, req: Request) -> (a: Action)
        requires
            old(self)@.pending is None,
            !old(self)@.closing,
        ensures
            acts_on(old(self)@, final(self)@, a@, req@, old(self)@.buffer),
    {
        match route_request(req.path.as_slice(), self.config.has_directory) {
            Route::Landing => {
                self.pending = Some(req);
                Action::ReadLanding
            },
            Route::UserAgent => {
                let r = agent_handler(&req.headers);
                self.answer(r, &req)
            },
            Route::Echo => {
                let r = echo_handler(req.path.as_slice());
                self.answer(r, &req)
            },
            Route::Files => {
                let step = file_handler(
                    req.path.as_slice(),
                    req.method.as_slice(),
                    req.body.as_slice(),
                    self.config.allow_write,
                );
                match step {
                    FileStep::Respond(r) => self.answer(r, &req),
                    FileStep::Read(rel) => {
                        self.pending = Some(req);
                        Action::ReadFile(rel)
                    },
                    FileStep::Write(rel, data) => {
                        self.pending = Some(req);
                        Action::WriteFile(rel, data)
                    },
                }
            },
            Route::NotFound => self.answer(HttpResponse::new("404 Not Found"), &req),
        }
    }

    /// Reads the next request from what has been received, and decides.
    pub fn next(&mut self) -> (a: Action)
        ensures
            next_step(old(self)@, final(self)@, a@),
    {
        if self.closing || self.pending.is_some() {
            return Action::Close;
        }
        match parse_request(self.buffer.as_slice()) {
            ParseOutcome::Incomplete => Action::Receive,
            ParseOutcome::Malformed => {
                self.closing = true;
                Action::Send(HttpResponse::new("400 Bad Request").to_wire(), true)
            },
            ParseOutcome::Complete(req, used) => {
                proof { lemma_parse_within(self.buffer@); }
                self.buffer = copy_range(self.buffer.as_slice(), used, self.buffer.len());
                self.handle(req)
            },
        }
    }

    /// The peer closed its side, or the timeout expired, before a whole
    /// request came: a `400`, and the connection closes.
    pub fn input_ended(&mut self) -> (a: Action)
        ensures
            old(self)@.closing || old(self)@.pending is Some ==> {
                &&& a@ == ActionModel::Close
                &&& final(self)@ == old(self)@
            },
            !(old(self)@.closing || old(self)@.pending is Some) ==> {
                &&& a@ == ActionModel::Send(bad_request(), true)
                &&& final(self)@ == (ConnModel { closing: true, ..old(self)@ })
            },
    {
        if self.closing || self.pending.is_some() {
            return Action::Close;
        }
        self.closing = true;
        Action::Send(HttpResponse::new("400 Bad Request").to_wire(), true)
    }

    /// Answers the waiting request with `resp`.
    fn resume(&mut self, resp: HttpResponse) -> (a: Action)
        ensures
            resume_step(old(self)@, final(self)@, a@, resp.model()),
    {
        if self.closing {
            return Action::Close;
        }
        match &self.pending {
            None => Action::Close,
            Some(req) => {
                let (b, c) = reply_bytes(resp, &req.headers);
                self.pending = None;
                self.closing = c;
                Action::Send(b, c)
            },
        }
    }

    /// What reading `index.html` gave: its bytes, or `None` where it failed.
    pub fn landing_loaded(&mut self, content: Option<&[u8]>) -> (a: Action)
        ensures
            resume_step(old(self)@, final(self)@, a@, ok_reply(
                "text/html".spec_bytes(),
                match content {
                    Some(c) => c@,
                    None => fallback_page(),
                },
            )),
    {
        let r = landing_page(content);
        self.resume(r)
    }

    /// What reading the requested file gave: its bytes, or `None` where it
    /// failed.
    pub fn file_loaded(&mut self, contents: Option<&[u8]>) -> (a: Action)
        ensures
            resume_step(old(self)@, final(self)@, a@, match contents {
                Some(c) => ok_reply("application/octet-stream".spec_bytes(), c@),
                None => bare_reply("404 Not Found".spec_bytes()),
            }),
    {
        let r = serve_file(contents);
        self.resume(r)
    }

    /// Whether making the directories and writing the file succeeded.
    pub fn file_stored(&mut self, written: bool) -> (a: Action)
        ensures
            resume_step(old(self)@, final(self)@, a@, if written {
                bare_reply("201 Created".spec_bytes())
            } else {
                bare_reply("500 Internal Server Error".spec_bytes())
            }),
    {
        let r = write_file_response(written);
        self.resume(r)
    }
}

} // verus!
