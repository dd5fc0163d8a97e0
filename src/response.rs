//! HTTP responses: a status, an ordered list of headers in which setting a
//! name again replaces its value, and a body; and their serialisation, with
//! gzip applied at that moment.
use std::io::Write;
use vstd::prelude::*;
use vstd::string::StringSliceAdditionalSpecFns;
use crate::bytes::{append, bytes_eq, copy_range, decimal, decimal_bytes};

verus! {

/// A list of headers, each a name and a value.
pub type HeaderList = Seq<(Seq<u8>, Seq<u8>)>;

/// A response as status, headers and body.
pub type Reply = (Seq<u8>, HeaderList, Seq<u8>);

/// The bytes a response goes out as where gzip succeeds.
pub open spec fn encode(rep: Reply) -> Seq<u8> {
    if is_gzipped(rep.1) {
        wire(
            rep.0,
            put(rep.1, content_length_name(), decimal(gzip_of(rep.2).len())),
            gzip_of(rep.2),
        )
    } else {
        wire(rep.0, rep.1, rep.2)
    }
}

/// The first index at or after `i` whose header is named `k`, or the length.
pub open spec fn key_index(hs: HeaderList, k: Seq<u8>, i: int) -> int
    decreases hs.len() - i,
{
    if i < 0 || i >= hs.len() {
        hs.len() as int
    } else if hs[i].0 == k {
        i
    } else {
        key_index(hs, k, i + 1)
    }
}

/// The value of the header named exactly `k`, if there is one.
pub open spec fn lookup(hs: HeaderList, k: Seq<u8>) -> Option<Seq<u8>> {
    let i = key_index(hs, k, 0);
    if i < hs.len() {
        Some(hs[i].1)
    } else {
        None
    }
}

/// `hs` with the header `k` set to `v`: replaced where it stands, or added at
/// the end.
pub open spec fn put(hs: HeaderList, k: Seq<u8>, v: Seq<u8>) -> HeaderList {
    let i = key_index(hs, k, 0);
    if i < hs.len() {
        hs.update(i, (k, v))
    } else {
        hs.push((k, v))
    }
}

pub open spec fn crlf() -> Seq<u8> {
    seq![13u8, 10u8]
}

/// The header found by `key_index` has the name asked for.
pub proof fn lemma_key_index_found(hs: HeaderList, k: Seq<u8>, i: int)
    requires
        0 <= i <= hs.len(),
    ensures
        i <= key_index(hs, k, i) <= hs.len(),
        key_index(hs, k, i) < hs.len() ==> hs[key_index(hs, k, i)].0 == k,
        forall|j: int| i <= j < key_index(hs, k, i) ==> hs[j].0 != k,
    decreases hs.len() - i,
{
    if i < hs.len() && hs[i].0 != k {
        lemma_key_index_found(hs, k, i + 1);
    }
}

/// Replacing a header's value leaves every name where it was.
proof fn lemma_key_index_same_names(hs: HeaderList, hs2: HeaderList, k: Seq<u8>, i: int)
    requires
        0 <= i,
        hs.len() == hs2.len(),
        forall|j: int| 0 <= j < hs.len() ==> hs[j].0 == #[trigger] hs2[j].0,
    ensures
        key_index(hs2, k, i) == key_index(hs, k, i),
    decreases hs.len() - i,
{
    if i < hs.len() {
        lemma_key_index_same_names(hs, hs2, k, i + 1);
    }
}

proof fn lemma_key_index_push(hs: HeaderList, e: (Seq<u8>, Seq<u8>), k: Seq<u8>, i: int)
    requires
        0 <= i <= hs.len(),
    ensures
        key_index(hs, k, i) < hs.len() ==> key_index(hs.push(e), k, i) == key_index(hs, k, i),
        key_index(hs, k, i) == hs.len() ==> key_index(hs.push(e), k, i) == (if e.0 == k {
            hs.len() as int
        } else {
            (hs.len() + 1) as int
        }),
    decreases hs.len() - i,
{
    if i < hs.len() {
        lemma_key_index_push(hs, e, k, i + 1);
    } else {
        assert(key_index(hs.push(e), k, i + 1) == hs.len() + 1);
    }
}

/// Setting a header changes what is found under its name, and nothing else.
pub proof fn lemma_lookup_put(hs: HeaderList, k: Seq<u8>, v: Seq<u8>, k2: Seq<u8>)
    ensures
        lookup(put(hs, k, v), k2) == (if k2 == k {
            Some(v)
        } else {
            lookup(hs, k2)
        }),
{
    let i = key_index(hs, k, 0);
    lemma_key_index_found(hs, k, 0);
    lemma_key_index_found(hs, k2, 0);
    if i < hs.len() {
        let hs2 = hs.update(i, (k, v));
        lemma_key_index_same_names(hs, hs2, k2, 0);
        lemma_key_index_same_names(hs, hs2, k, 0);
    } else {
        lemma_key_index_push(hs, (k, v), k2, 0);
        lemma_key_index_push(hs, (k, v), k, 0);
    }
}

/// The header lines `Name: Value\r\n`, in list order.
pub open spec fn header_block(hs: HeaderList) -> Seq<u8>
    decreases hs.len(),
{
    if hs.len() == 0 {
        Seq::empty()
    } else {
        header_block(hs.drop_last()) + hs.last().0 + ": ".spec_bytes() + hs.last().1 + crlf()
    }
}

/// A response on the wire: status line, header lines, a blank line, body.
pub open spec fn wire(status: Seq<u8>, hs: HeaderList, body: Seq<u8>) -> Seq<u8> {
    "HTTP/1.1 ".spec_bytes() + status + crlf() + header_block(hs) + crlf() + body
}

pub open spec fn content_length_name() -> Seq<u8> {
    "Content-Length".spec_bytes()
}

pub open spec fn content_encoding_name() -> Seq<u8> {
    "Content-Encoding".spec_bytes()
}

pub open spec fn gzip_token() -> Seq<u8> {
    "gzip".spec_bytes()
}

/// Whether a response with these headers is sent gzip-encoded.
pub open spec fn is_gzipped(hs: HeaderList) -> bool {
    lookup(hs, content_encoding_name()) == Some(gzip_token())
}

/// What flate2's gzip encoder, at its default level, makes of `data`.
pub uninterp spec fn gzip_of(data: Seq<u8>) -> Seq<u8>;

/// Relies on flate2's `GzEncoder` at the default compression level, writing
/// into a `Vec`: what `finish` returns is the gzip encoding of all bytes
/// written. Its deflate stage can report an error, which gives `None`.
#[verifier::external_body]
fn gzip(data: &[u8]) -> (r: Option<Vec<u8>>)
    ensures
        r matches Some(z) ==> z@ == gzip_of(data@),
{
    let mut encoder = flate2::write::GzEncoder::new(Vec::new(), flate2::Compression::default());
    encoder.write_all(data).ok()?;
    encoder.finish().ok()
}

pub struct HttpResponse {
    status: Vec<u8>,
    headers: Vec<(Vec<u8>, Vec<u8>)>,
    body: Vec<u8>,
}

/// The header list that a vector of owned names and values stands for.
pub open spec fn hview(hs: Seq<(Vec<u8>, Vec<u8>)>) -> HeaderList {
    hs.map_values(|e: (Vec<u8>, Vec<u8>)| (e.0@, e.1@))
}

fn copy_headers(hs: &Vec<(Vec<u8>, Vec<u8>)>) -> (r: Vec<(Vec<u8>, Vec<u8>)>)
    ensures
        hview(r@) == hview(hs@),
{
    let mut r: Vec<(Vec<u8>, Vec<u8>)> = Vec::new();
    let mut i: usize = 0;
    while i < hs.len()
        invariant
            i <= hs@.len(),
            r@.len() == i,
            hview(r@) == hview(hs@).subrange(0, i as int),
        decreases hs@.len() - i,
    {
        let k = &hs[i].0;
        let v = &hs[i].1;
        let e = (copy_range(k.as_slice(), 0, k.len()), copy_range(v.as_slice(), 0, v.len()));
        assert(k@.subrange(0, k@.len() as int) =~= k@);
        assert(v@.subrange(0, v@.len() as int) =~= v@);
        let ghost prev = r@;
        let ghost pair = (e.0@, e.1@);
        assert(pair == hview(hs@)[i as int]);
        r.push(e);
        assert(r@ == prev.push(e));
        assert(hview(r@)[i as int] == pair);
        assert(hview(r@) =~= hview(hs@).subrange(0, i + 1));
        i = i + 1;
    }
    assert(hview(hs@).subrange(0, i as int) =~= hview(hs@));
    r
}

/// The index of the header named `k` in `hs`, or its length.
fn find_key(hs: &Vec<(Vec<u8>, Vec<u8>)>, k: &[u8]) -> (r: usize)
    ensures
        r as int == key_index(hview(hs@), k@, 0),
{
    let mut i: usize = 0;
    while i < hs.len()
        invariant
            i <= hs@.len(),
            key_index(hview(hs@), k@, 0) == key_index(hview(hs@), k@, i as int),
        decreases hs@.len() - i,
    {
        assert(hview(hs@)[i as int] == (hs@[i as int].0@, hs@[i as int].1@));
        if bytes_eq(hs[i].0.as_slice(), k) {
            return i;
        }
        i = i + 1;
    }
    i
}

fn put_header(hs: &mut Vec<(Vec<u8>, Vec<u8>)>, k: &[u8], v: &[u8])
    ensures
        hview(final(hs)@) == put(hview(old(hs)@), k@, v@),
{
    let i = find_key(hs, k);
    let entry = (copy_range(k, 0, k.len()), copy_range(v, 0, v.len()));
    assert(k@.subrange(0, k@.len() as int) =~= k@);
    assert(v@.subrange(0, v@.len() as int) =~= v@);
    if i < hs.len() {
        hs.set(i, entry);
        assert(hview(hs@) =~= put(hview(old(hs)@), k@, v@));
    } else {
        hs.push(entry);
        assert(hview(hs@) =~= put(hview(old(hs)@), k@, v@));
    }
}

fn str_bytes(s: &str) -> (r: Vec<u8>)
    ensures
        r@ == s.spec_bytes(),
{
    let b = s.as_bytes();
    let r = copy_range(b, 0, b.len());
    assert(b@.subrange(0, b@.len() as int) =~= b@);
    r
}

impl HttpResponse {
    pub closed spec fn status_view(&self) -> Seq<u8> {
        self.status@
    }

    pub closed spec fn headers_view(&self) -> HeaderList {
        hview(self.headers@)
    }

    pub closed spec fn body_view(&self) -> Seq<u8> {
        self.body@
    }

    /// Status, headers and body.
    pub open spec fn model(&self) -> Reply {
        (self.status_view(), self.headers_view(), self.body_view())
    }

    /// The bytes this response goes out as, gzip aside.
    pub open spec fn plain_wire(&self) -> Seq<u8> {
        wire(self.status_view(), self.headers_view(), self.body_view())
    }

    /// A response with the given status line text, no headers and no body.
    pub fn new(status: &str) -> (r: HttpResponse)
        ensures
            r.status_view() == status.spec_bytes(),
            r.headers_view() == Seq::<(Seq<u8>, Seq<u8>)>::empty(),
            r.body_view() == Seq::<u8>::empty(),
    {
        let r = HttpResponse { status: str_bytes(status), headers: Vec::new(), body: Vec::new() };
        assert(hview(r.headers@) =~= Seq::<(Seq<u8>, Seq<u8>)>::empty());
        r
    }

    /// Sets the header `key` to `value`, replacing an earlier value.
    pub fn add_header(&mut self, key: &str, value: &str)
        ensures
            final(self).status_view() == old(self).status_view(),
            final(self).headers_view() == put(
                old(self).headers_view(),
                key.spec_bytes(),
                value.spec_bytes(),
            ),
            final(self).body_view() == old(self).body_view(),
    {
        let k = key.as_bytes();
        let v = value.as_bytes();
        self.set_header(k, v);
    }

    /// Sets the header named by the bytes `key` to the bytes `value`.
    pub fn set_header(&mut self, key: &[u8], value: &[u8])
        ensures
            final(self).status_view() == old(self).status_view(),
            final(self).headers_view() == put(old(self).headers_view(), key@, value@),
            final(self).body_view() == old(self).body_view(),
    {
        put_header(&mut self.headers, key, value);
    }

    /// Sets the body, and `Content-Length` to its length.
    pub fn set_body(&mut self, body: &[u8])
        ensures
            final(self).status_view() == old(self).status_view(),
            final(self).headers_view() == put(
                old(self).headers_view(),
                content_length_name(),
                decimal(body@.len()),
            ),
            final(self).body_view() == body@,
    {
        self.body = copy_range(body, 0, body.len());
        assert(body@.subrange(0, body@.len() as int) =~= body@);
        let n = decimal_bytes(body.len());
        put_header(&mut self.headers, "Content-Length".as_bytes(), n.as_slice());
    }

    pub fn status(&self) -> (r: &[u8])
        ensures
            r@ == self.status_view(),
    {
        self.status.as_slice()
    }

    pub fn body(&self) -> (r: &[u8])
        ensures
            r@ == self.body_view(),
    {
        self.body.as_slice()
    }

    /// The value of the header named exactly `key`.
    pub fn header(&self, key: &str) -> (r: Option<Vec<u8>>)
        ensures
            r matches Some(v) ==> lookup(self.headers_view(), key.spec_bytes()) == Some(v@),
            r is None ==> lookup(self.headers_view(), key.spec_bytes()) is None,
    {
        let i = find_key(&self.headers, key.as_bytes());
        if i < self.headers.len() {
            assert(hview(self.headers@)[i as int].1 == self.headers@[i as int].1@);
            let v = &self.headers[i].1;
            Some(copy_range(v.as_slice(), 0, v.len()))
        } else {
            None
        }
    }

    /// Whether `Content-Encoding` is exactly `gzip`.
    pub fn gzip_requested(&self) -> (r: bool)
        ensures
            r == is_gzipped(self.headers_view()),
    {
        let i = find_key(&self.headers, "Content-Encoding".as_bytes());
        if i < self.headers.len() {
            assert(hview(self.headers@)[i as int].1 == self.headers@[i as int].1@);
            bytes_eq(self.headers[i].1.as_slice(), "gzip".as_bytes())
        } else {
            false
        }
    }

    /// The response on the wire with its body as it stands.
    pub fn to_wire(&self) -> (r: Vec<u8>)
        ensures
            r@ == self.plain_wire(),
    {
        serialize(&self.status, &self.headers, self.body.as_slice())
    }

    /// The response on the wire with `encoded` in place of its body, and
    /// `Content-Length` set to the length of `encoded`.
    pub fn to_wire_encoded(&self, encoded: &[u8]) -> (r: Vec<u8>)
        ensures
            r@ == wire(
                self.status_view(),
                put(self.headers_view(), content_length_name(), decimal(encoded@.len())),
                encoded@,
            ),
    {
        let mut hs = copy_headers(&self.headers);
        let n = decimal_bytes(encoded.len());
        put_header(&mut hs, "Content-Length".as_bytes(), n.as_slice());
        serialize(&self.status, &hs, encoded)
    }

    /// The bytes to send. Where `Content-Encoding` is `gzip` the body is
    /// compressed now and `Content-Length` recomputed; `None` where the
    /// encoder failed.
    pub fn as_bytes(&self) -> (r: Option<Vec<u8>>)
        ensures
            !is_gzipped(self.headers_view()) ==> (r matches Some(b) && b@ == self.plain_wire()),
            is_gzipped(self.headers_view()) ==> (r matches Some(b) ==> b@ == wire(
                self.status_view(),
                put(
                    self.headers_view(),
                    content_length_name(),
                    decimal(gzip_of(self.body_view()).len()),
                ),
                gzip_of(self.body_view()),
            )),
    {
        if self.gzip_requested() {
            match gzip(self.body.as_slice()) {
                Some(z) => Some(self.to_wire_encoded(z.as_slice())),
                None => None,
            }
        } else {
            Some(self.to_wire())
        }
    }
}

fn serialize(status: &Vec<u8>, hs: &Vec<(Vec<u8>, Vec<u8>)>, body: &[u8]) -> (r: Vec<u8>)
    ensures
        r@ == wire(status@, hview(hs@), body@),
{
    let mut out: Vec<u8> = Vec::new();
    append(&mut out, "HTTP/1.1 ".as_bytes());
    append(&mut out, status.as_slice());
    let eol: [u8; 2] = [13u8, 10u8];
    assert(eol@ =~= crlf());
    append(&mut out, eol.as_slice());
    let ghost head = out@;
    let mut i: usize = 0;
    while i < hs.len()
        invariant
            i <= hs@.len(),
            eol@ == crlf(),
            out@ == head + header_block(hview(hs@).subrange(0, i as int)),
        decreases hs@.len() - i,
    {
        assert(hview(hs@)[i as int] == (hs@[i as int].0@, hs@[i as int].1@));
        append(&mut out, hs[i].0.as_slice());
        append(&mut out, ": ".as_bytes());
        append(&mut out, hs[i].1.as_slice());
        append(&mut out, eol.as_slice());
        let ghost done = hview(hs@).subrange(0, i + 1);
        assert(done.drop_last() =~= hview(hs@).subrange(0, i as int));
        assert(out@ =~= head + header_block(done));
        i = i + 1;
    }
    assert(hview(hs@).subrange(0, i as int) =~= hview(hs@));
    append(&mut out, eol.as_slice());
    append(&mut out, body);
    assert(out@ =~= wire(status@, hview(hs@), body@));
    out
}

} // verus!
